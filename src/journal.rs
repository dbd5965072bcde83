//! Planned and performed operations, the journal that records them, and the
//! plan that undoes a journal.

use crate::text::opt_view;
use vstd::prelude::*;

verus! {

/// How a planned file reaches its destination.
#[derive(Clone, Debug)]
pub enum OpType {
    /// The file itself is moved.
    Move,
    /// The file duplicates content already placed at the given path; it is
    /// replaced by a hard link to that path.
    HardLink(String),
}

/// One relocation: planned, or performed when it stands in a journal.
#[derive(Clone, Debug)]
pub struct Operation {
    pub from: String,
    pub to: String,
    pub op_type: OpType,
    pub rule_name: Option<String>,
    /// The position, in the rule list, of the rule that planned it.
    pub rule_index: Option<usize>,
}

/// An operation as plain character sequences; `link` is the canonical path
/// of a hard link, `None` for a move.
pub struct OpModel {
    pub from: Seq<char>,
    pub to: Seq<char>,
    pub link: Option<Seq<char>>,
    pub rule_name: Option<Seq<char>>,
    pub rule_index: Option<usize>,
}

impl View for Operation {
    type V = OpModel;

    open spec fn view(&self) -> OpModel {
        OpModel {
            from: self.from@,
            to: self.to@,
            link: match self.op_type {
                OpType::Move => None,
                OpType::HardLink(p) => Some(p@),
            },
            rule_name: opt_view(self.rule_name),
            rule_index: self.rule_index,
        }
    }
}

/// A journal: the operations of one run, in the order they were performed.
#[derive(Debug)]
pub struct JournalEntry {
    /// When the run took place, as RFC 3339 text.
    pub timestamp: String,
    pub operations: Vec<Operation>,
}

impl JournalEntry {
    /// An empty journal stamped with `timestamp`.
    pub fn new(timestamp: String) -> (r: Self)
        ensures
            r.timestamp == timestamp,
            r.operations@.len() == 0,
    {
        JournalEntry { timestamp, operations: Vec::new() }
    }
}

/// What became of one planned operation during execution.
#[derive(Clone, Debug)]
pub enum OpOutcome {
    /// The filesystem completed it; the file now stands at this path.
    Done(String),
    /// A conflict policy left the source in place.
    Skipped,
    /// A filesystem or conflict error abandoned it.
    Failed,
}

/// The journal after recording what became of `op`: only a completed
/// operation enters it, with its destination replaced by where the file
/// landed.
pub open spec fn journal_after(ops: Seq<OpModel>, op: OpModel, outcome: OpOutcome) -> Seq<OpModel> {
    match outcome {
        OpOutcome::Done(to) => ops.push(OpModel { to: to@, ..op }),
        _ => ops,
    }
}

/// The result of executing a plan: the journal of completed operations and
/// the counts of skipped and failed ones.
#[derive(Debug)]
pub struct ExecutionReport {
    pub journal: JournalEntry,
    pub skipped: usize,
    pub failed: usize,
}

impl ExecutionReport {
    /// A report with an empty journal and no skipped or failed operations.
    pub fn new(timestamp: String) -> (r: Self)
        ensures
            r.journal.timestamp == timestamp,
            r.journal.operations@.len() == 0,
            r.skipped == 0,
            r.failed == 0,
    {
        ExecutionReport { journal: JournalEntry::new(timestamp), skipped: 0, failed: 0 }
    }

    /// The number of completed operations.
    pub fn succeeded(&self) -> (r: usize)
        ensures
            r == self.journal.operations@.len(),
    {
        self.journal.operations.len()
    }

    /// Records what became of `op`. Only a completed operation enters the
    /// journal, with its destination replaced by where the file landed.
    pub fn record(&mut self, op: Operation, outcome: OpOutcome)
        requires
            old(self).skipped < usize::MAX,
            old(self).failed < usize::MAX,
        ensures
            final(self).journal.timestamp == old(self).journal.timestamp,
            final(self).journal.operations@.map_values(|o: Operation| o@) == journal_after(
                old(self).journal.operations@.map_values(|o: Operation| o@),
                op@,
                outcome,
            ),
            match outcome {
                OpOutcome::Done(to) => {
                    &&& final(self).journal.operations@.len() == old(
                        self,
                    ).journal.operations@.len() + 1
                    &&& final(self).journal.operations@.drop_last()
                        == old(self).journal.operations@
                    &&& final(self).journal.operations@.last()@ == (OpModel { to: to@, ..op@ })
                    &&& final(self).skipped == old(self).skipped
                    &&& final(self).failed == old(self).failed
                },
                OpOutcome::Skipped => {
                    &&& final(self).journal.operations@ == old(self).journal.operations@
                    &&& final(self).skipped == old(self).skipped + 1
                    &&& final(self).failed == old(self).failed
                },
                OpOutcome::Failed => {
                    &&& final(self).journal.operations@ == old(self).journal.operations@
                    &&& final(self).skipped == old(self).skipped
                    &&& final(self).failed == old(self).failed + 1
                },
            },
    {
        match outcome {
            OpOutcome::Done(to) => {
                let done = Operation {
                    from: op.from,
                    to,
                    op_type: op.op_type,
                    rule_name: op.rule_name,
                    rule_index: op.rule_index,
                };
                self.journal.operations.push(done);
                assert(self.journal.operations@.drop_last() =~= old(self).journal.operations@);
                assert(self.journal.operations@.map_values(|o: Operation| o@) =~= old(
                    self,
                ).journal.operations@.map_values(|o: Operation| o@).push(
                    self.journal.operations@.last()@,
                ));
            },
            OpOutcome::Skipped => {
                self.skipped = self.skipped + 1;
            },
            OpOutcome::Failed => {
                self.failed = self.failed + 1;
            },
        }
    }
}

/// One step of an undo: the file at `from` goes back to `to`.
#[derive(Clone, Debug)]
pub struct Restore {
    pub from: String,
    pub to: String,
}

impl JournalEntry {
    /// The moves that undo this journal: last operation first, each taking
    /// the file from its recorded destination back to its recorded source.
    pub fn undo_plan(&self) -> (r: Vec<Restore>)
        ensures
            r@.len() == self.operations@.len(),
            forall|k: int|
                0 <= k < r@.len() ==> {
                    let op = #[trigger] self.operations@[r@.len() - 1 - k];
                    r@[k].from@ == op.to@ && r@[k].to@ == op.from@
                },
    {
        let n = self.operations.len();
        let mut r: Vec<Restore> = Vec::new();
        let mut i: usize = n;
        while i > 0
            invariant
                n == self.operations@.len(),
                i <= n,
                r@.len() == n - i,
                forall|k: int|
                    0 <= k < r@.len() ==> {
                        let op = #[trigger] self.operations@[n - 1 - k];
                        r@[k].from@ == op.to@ && r@[k].to@ == op.from@
                    },
            decreases i,
        {
            let op = &self.operations[i - 1];
            r.push(Restore { from: op.to.clone(), to: op.from.clone() });
            i = i - 1;
        }
        r
    }
}

/// A directory tree as a map from path to file content.
pub type Tree = Map<Seq<char>, Seq<u8>>;

/// The tree after performing one operation. A move takes the file at
/// `from` to `to`; a link removes the file at `from` and places at `to` the
/// content found at its canonical path.
pub open spec fn apply_op(t: Tree, op: OpModel) -> Tree {
    match op.link {
        None => if t.contains_key(op.from) {
            t.remove(op.from).insert(op.to, t[op.from])
        } else {
            t
        },
        Some(c) => if t.contains_key(op.from) && t.contains_key(c) {
            t.remove(op.from).insert(op.to, t[c])
        } else {
            t
        },
    }
}

/// The tree after performing the journal's operations in order.
pub open spec fn apply_journal(t: Tree, ops: Seq<OpModel>) -> Tree
    decreases ops.len(),
{
    if ops.len() == 0 {
        t
    } else {
        apply_op(apply_journal(t, ops.drop_last()), ops.last())
    }
}

/// One undo step: the file at the recorded destination, where it still
/// exists, goes back to the recorded source.
pub open spec fn undo_step(t: Tree, op: OpModel) -> Tree {
    if t.contains_key(op.to) {
        t.remove(op.to).insert(op.from, t[op.to])
    } else {
        t
    }
}

/// The tree after undoing a journal, last operation first.
pub open spec fn undo_journal(t: Tree, ops: Seq<OpModel>) -> Tree
    decreases ops.len(),
{
    if ops.len() == 0 {
        t
    } else {
        undo_journal(undo_step(t, ops.last()), ops.drop_last())
    }
}

/// A journal as a run produces it from tree `t`: each source exists and is
/// relocated once, each destination is new and distinct from every source,
/// and each link points at the destination of an earlier move of the same
/// content.
pub open spec fn well_formed_run(t: Tree, ops: Seq<OpModel>) -> bool {
    &&& forall|i: int| 0 <= i < ops.len() ==> t.contains_key((#[trigger] ops[i]).from)
    &&& forall|i: int| 0 <= i < ops.len() ==> !t.contains_key((#[trigger] ops[i]).to)
    &&& forall|i: int, j: int|
        0 <= i < j < ops.len() ==> (#[trigger] ops[i]).from != (#[trigger] ops[j]).from && ops[i].to
            != ops[j].to
    &&& forall|i: int, j: int|
        0 <= i < ops.len() && 0 <= j < ops.len() ==> (#[trigger] ops[i]).to != (#[trigger] ops[j]).from
    &&& forall|i: int|
        0 <= i < ops.len() && (#[trigger] ops[i]).link is Some ==> exists|k: int|
            0 <= k < i && (#[trigger] ops[k]).link is None && ops[k].to == ops[i].link->0
                && t[ops[k].from] == t[ops[i].from]
}

proof fn lemma_run_prefix(t: Tree, ops: Seq<OpModel>)
    requires
        ops.len() > 0,
        well_formed_run(t, ops),
    ensures
        well_formed_run(t, ops.drop_last()),
{
    let p = ops.drop_last();
    assert forall|i: int| 0 <= i < p.len() implies p[i] == ops[i] by {}
    assert forall|i: int| 0 <= i < p.len() && (#[trigger] p[i]).link is Some implies exists|k: int|
        0 <= k < i && (#[trigger] p[k]).link is None && p[k].to == p[i].link->0 && t[p[k].from]
            == t[p[i].from] by {
        assert(ops[i] == p[i]);
        let k = choose|k: int|
            0 <= k < i && (#[trigger] ops[k]).link is None && ops[k].to == ops[i].link->0
                && t[ops[k].from] == t[ops[i].from];
        assert(p[k] == ops[k]);
    }
}

proof fn lemma_apply_run(t: Tree, ops: Seq<OpModel>)
    requires
        well_formed_run(t, ops),
    ensures
        forall|key: Seq<char>|
            #[trigger] apply_journal(t, ops).contains_key(key) <==> ((t.contains_key(key) && forall|i: int|
                0 <= i < ops.len() ==> (#[trigger] ops[i]).from != key) || exists|i: int|
                0 <= i < ops.len() && (#[trigger] ops[i]).to == key),
        forall|k: int|
            0 <= k < ops.len() ==> apply_journal(t, ops)[(#[trigger] ops[k]).to] == t[ops[k].from],
        forall|key: Seq<char>|
            t.contains_key(key) && (forall|i: int| 0 <= i < ops.len() ==> (#[trigger] ops[i]).from != key)
                ==> #[trigger] apply_journal(t, ops)[key] == t[key],
    decreases ops.len(),
{
    if ops.len() > 0 {
        let p = ops.drop_last();
        let n = ops.len() - 1;
        let last = ops[n];
        lemma_run_prefix(t, ops);
        lemma_apply_run(t, p);
        let a = apply_journal(t, p);
        assert forall|i: int| 0 <= i < p.len() implies (#[trigger] p[i]).from != last.from by {
            assert(p[i] == ops[i]);
        }
        assert(a.contains_key(last.from));
        assert(a[last.from] == t[last.from]);
        if last.link is Some {
            let k = choose|k: int|
                0 <= k < n && (#[trigger] ops[k]).link is None && ops[k].to == last.link->0
                    && t[ops[k].from] == t[last.from];
            assert(p[k] == ops[k]);
            assert(a.contains_key(ops[k].to));
            assert(a[ops[k].to] == t[ops[k].from]);
        }
        let b = apply_journal(t, ops);
        assert(b == a.remove(last.from).insert(last.to, t[last.from]));
        assert forall|key: Seq<char>|
            #[trigger] b.contains_key(key) <==> ((t.contains_key(key) && forall|i: int|
                0 <= i < ops.len() ==> (#[trigger] ops[i]).from != key) || exists|i: int|
                0 <= i < ops.len() && (#[trigger] ops[i]).to == key) by {
            if exists|i: int| 0 <= i < ops.len() && (#[trigger] ops[i]).to == key {
                let i = choose|i: int| 0 <= i < ops.len() && (#[trigger] ops[i]).to == key;
                if i < n {
                    assert(p[i] == ops[i]);
                    assert(ops[i].to != last.from);
                }
            }
            if a.contains_key(key) && key != last.from {
                if exists|i: int| 0 <= i < p.len() && (#[trigger] p[i]).to == key {
                    let i = choose|i: int| 0 <= i < p.len() && (#[trigger] p[i]).to == key;
                    assert(ops[i] == p[i]);
                } else {
                    assert forall|i: int| 0 <= i < ops.len() implies (#[trigger] ops[i]).from != key by {
                        if i < n {
                            assert(p[i] == ops[i]);
                        }
                    }
                }
            }
            if t.contains_key(key) && forall|i: int| 0 <= i < ops.len() ==> (#[trigger] ops[i]).from != key {
                assert forall|i: int| 0 <= i < p.len() implies (#[trigger] p[i]).from != key by {
                    assert(p[i] == ops[i]);
                }
                assert(ops[n].from != key);
            }
        }
        assert forall|k: int| 0 <= k < ops.len() implies b[(#[trigger] ops[k]).to] == t[ops[k].from] by {
            if k < n {
                assert(p[k] == ops[k]);
                assert(ops[k].to != last.from);
                assert(ops[k].to != last.to);
            }
        }
        assert forall|key: Seq<char>|
            t.contains_key(key) && (forall|i: int| 0 <= i < ops.len() ==> (#[trigger] ops[i]).from != key)
                implies #[trigger] b[key] == t[key] by {
            assert forall|i: int| 0 <= i < p.len() implies (#[trigger] p[i]).from != key by {
                assert(p[i] == ops[i]);
            }
            assert(ops[n].from != key);
            assert(last.to != key);
        }
    }
}

/// Undoing a journal restores the tree it was performed on: every moved or
/// linked file is back at its source with the content it had, and no
/// destination is left holding one.
pub proof fn lemma_undo_restores(t: Tree, ops: Seq<OpModel>)
    requires
        well_formed_run(t, ops),
    ensures
        undo_journal(apply_journal(t, ops), ops) == t,
        forall|i: int|
            0 <= i < ops.len() ==> !undo_journal(apply_journal(t, ops), ops).contains_key(
                (#[trigger] ops[i]).to,
            ),
    decreases ops.len(),
{
    if ops.len() > 0 {
        let p = ops.drop_last();
        let n = ops.len() - 1;
        let last = ops[n];
        lemma_run_prefix(t, ops);
        lemma_apply_run(t, p);
        lemma_apply_run(t, ops);
        let a = apply_journal(t, p);
        assert forall|i: int| 0 <= i < p.len() implies (#[trigger] p[i]).from != last.from by {
            assert(p[i] == ops[i]);
        }
        assert(a.contains_key(last.from));
        assert(a[last.from] == t[last.from]);
        assert(!a.contains_key(last.to)) by {
            assert forall|i: int| 0 <= i < p.len() implies (#[trigger] p[i]).to != last.to by {
                assert(p[i] == ops[i]);
            }
        }
        if last.link is Some {
            let k = choose|k: int|
                0 <= k < n && (#[trigger] ops[k]).link is None && ops[k].to == last.link->0
                    && t[ops[k].from] == t[last.from];
            assert(p[k] == ops[k]);
            assert(a.contains_key(ops[k].to));
        }
        let b = apply_journal(t, ops);
        assert(b == a.remove(last.from).insert(last.to, t[last.from]));
        assert(undo_step(b, last) =~= a);
        lemma_undo_restores(t, p);
    }
}

} // verus!
