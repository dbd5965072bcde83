//! Content deduplication: one canonical move per distinct content digest in
//! a batch, every other file with that digest becoming a link to it.

use crate::journal::{OpModel, OpType, Operation};
use crate::text::opt_view;
use sha2::Digest;
use vstd::prelude::*;

verus! {

/// Names the SHA-256 digest of a byte sequence.
pub uninterp spec fn sha256_of(data: Seq<u8>) -> Seq<u8>;

/// Relies on sha2's `Sha256::digest`: the 32-byte SHA-256 digest of the data.
#[verifier::external_body]
fn sha256(data: &[u8]) -> (r: Vec<u8>)
    ensures
        r@ == sha256_of(data@),
        r@.len() == 32,
{
    sha2::Sha256::digest(data).to_vec()
}

pub open spec fn hex_digits() -> Seq<char> {
    seq!['0', '1', '2', '3', '4', '5', '6', '7', '8', '9', 'a', 'b', 'c', 'd', 'e', 'f']
}

/// Lower-case hexadecimal text of bytes: two digits per byte, high nibble
/// first.
pub open spec fn hex_of(b: Seq<u8>) -> Seq<char>
    decreases b.len(),
{
    if b.len() == 0 {
        Seq::empty()
    } else {
        hex_of(b.drop_last()) + seq![
            hex_digits()[(b.last() / 16) as int],
            hex_digits()[(b.last() % 16) as int],
        ]
    }
}

/// Relies on `hex::encode`: two lower-case hexadecimal digits per byte, high
/// nibble first.
#[verifier::external_body]
fn to_hex(b: &[u8]) -> (r: String)
    ensures
        r@ == hex_of(b@),
{
    hex::encode(b)
}

proof fn lemma_hex_len(b: Seq<u8>)
    ensures
        hex_of(b).len() == 2 * b.len(),
    decreases b.len(),
{
    if b.len() > 0 {
        lemma_hex_len(b.drop_last());
    }
}

/// The content digest of a file's bytes: its SHA-256 digest in hex.
pub fn calculate_hash(content: &[u8]) -> (r: String)
    ensures
        r@ == hex_of(sha256_of(content@)),
        r@.len() == 64,
{
    let d = sha256(content);
    proof {
        lemma_hex_len(d@);
    }
    to_hex(d.as_slice())
}

/// The run-scoped table from content digest to the first destination that
/// claimed it.
pub struct DigestTable {
    entries: Vec<(String, String)>,
    claims: Ghost<Map<Seq<char>, Seq<char>>>,
}

impl View for DigestTable {
    type V = Map<Seq<char>, Seq<char>>;

    closed spec fn view(&self) -> Map<Seq<char>, Seq<char>> {
        self.claims@
    }
}

impl DigestTable {
    /// Each digest is listed once, and the listing is exactly the claims.
    pub closed spec fn wf(&self) -> bool {
        &&& forall|i: int, j: int|
            0 <= i < j < self.entries@.len() ==> #[trigger] self.entries@[i].0@
                != #[trigger] self.entries@[j].0@
        &&& forall|i: int|
            0 <= i < self.entries@.len() ==> self.claims@.contains_key(#[trigger] self.entries@[i].0@)
                && self.claims@[self.entries@[i].0@] == self.entries@[i].1@
        &&& forall|d: Seq<char>|
            #[trigger] self.claims@.contains_key(d) ==> exists|i: int|
                0 <= i < self.entries@.len() && #[trigger] self.entries@[i].0@ == d
    }

    pub fn new() -> (r: Self)
        ensures
            r.wf(),
            r@ == Map::<Seq<char>, Seq<char>>::empty(),
    {
        DigestTable { entries: Vec::new(), claims: Ghost(Map::empty()) }
    }

    /// Registers `dest` as the canonical destination of `digest` unless one
    /// is registered already; returns the earlier one in that case.
    pub fn claim(&mut self, digest: &String, dest: &String) -> (r: Option<String>)
        requires
            old(self).wf(),
        ensures
            final(self).wf(),
            old(self)@.contains_key(digest@) ==> {
                &&& r matches Some(first) && first@ == old(self)@[digest@]
                &&& final(self)@ == old(self)@
            },
            !old(self)@.contains_key(digest@) ==> {
                &&& r is None
                &&& final(self)@ == old(self)@.insert(digest@, dest@)
            },
    {
        let mut i: usize = 0;
        while i < self.entries.len()
            invariant
                i <= self.entries@.len(),
                self.wf(),
                *self == *old(self),
                forall|k: int| 0 <= k < i ==> self.entries@[k].0@ != digest@,
            decreases self.entries.len() - i,
        {
            if self.entries[i].0 == *digest {
                return Some(self.entries[i].1.clone());
            }
            i = i + 1;
        }
        assert(!self.claims@.contains_key(digest@));
        self.entries.push((digest.clone(), dest.clone()));
        self.claims = Ghost(self.claims@.insert(digest@, dest@));
        proof {
            let n = self.entries@.len();
            assert forall|d: Seq<char>| #[trigger] self.claims@.contains_key(d) implies exists|i: int|
                0 <= i < self.entries@.len() && #[trigger] self.entries@[i].0@ == d by {
                if d == digest@ {
                    assert(self.entries@[n - 1].0@ == d);
                } else {
                    assert(old(self).claims@.contains_key(d));
                    let j = choose|j: int|
                        0 <= j < old(self).entries@.len() && #[trigger] old(self).entries@[j].0@ == d;
                    assert(self.entries@[j] == old(self).entries@[j]);
                }
            }
        }
        None
    }
}

/// A matched file ready for planning: where it is, where its rule sends it,
/// and its content digest where that could be computed.
#[derive(Clone, Debug)]
pub struct PlanItem {
    pub from: String,
    pub to: String,
    pub rule_name: Option<String>,
    /// The position of that rule in the rule list.
    pub rule_index: Option<usize>,
    pub digest: Option<String>,
}

/// The planned operations of a batch, and the digest claims they made.
/// Items whose destination is their source are dropped. The first item of
/// each digest moves; each later one links to that first destination.
pub open spec fn plan_of(items: Seq<PlanItem>) -> (Seq<OpModel>, Map<Seq<char>, Seq<char>>)
    decreases items.len(),
{
    if items.len() == 0 {
        (Seq::empty(), Map::empty())
    } else {
        let (ops, table) = plan_of(items.drop_last());
        let it = items.last();
        let moved = OpModel {
            from: it.from@,
            to: it.to@,
            link: None,
            rule_name: opt_view(it.rule_name),
            rule_index: it.rule_index,
        };
        if it.from@ == it.to@ {
            (ops, table)
        } else {
            match it.digest {
                None => (ops.push(moved), table),
                Some(d) => if table.contains_key(d@) {
                    (ops.push(OpModel { link: Some(table[d@]), ..moved }), table)
                } else {
                    (ops.push(moved), table.insert(d@, it.to@))
                },
            }
        }
    }
}

/// Plans a batch in the order its items arrived: drops items already in
/// place, and turns every repeat of a content digest into a link to the
/// destination of its first occurrence.
pub fn plan_batch(items: Vec<PlanItem>) -> (r: Vec<Operation>)
    ensures
        r@.map_values(|op: Operation| op@) == plan_of(items@).0,
        forall|k: int| 0 <= k < r@.len() ==> (#[trigger] r@[k]).from@ != r@[k].to@,
{
    let mut table = DigestTable::new();
    let mut r: Vec<Operation> = Vec::new();
    let mut i: usize = 0;
    while i < items.len()
        invariant
            i <= items@.len(),
            table.wf(),
            r@.map_values(|op: Operation| op@) == plan_of(items@.subrange(0, i as int)).0,
            table@ == plan_of(items@.subrange(0, i as int)).1,
            forall|k: int| 0 <= k < r@.len() ==> (#[trigger] r@[k]).from@ != r@[k].to@,
        decreases items.len() - i,
    {
        let it = &items[i];
        let ghost pre = items@.subrange(0, i as int);
        assert(items@.subrange(0, i + 1).drop_last() =~= pre);
        assert(items@.subrange(0, i + 1).last() == items@[i as int]);
        if it.from != it.to {
            let op_type = match &it.digest {
                Some(d) => match table.claim(d, &it.to) {
                    Some(first) => OpType::HardLink(first),
                    None => OpType::Move,
                },
                None => OpType::Move,
            };
            let op = Operation {
                from: it.from.clone(),
                to: it.to.clone(),
                op_type,
                rule_name: it.rule_name.clone(),
                rule_index: it.rule_index,
            };
            let ghost before = r@;
            r.push(op);
            assert(r@.map_values(|op: Operation| op@) =~= before.map_values(|op: Operation| op@).push(
                op@,
            ));
        }
        i = i + 1;
    }
    assert(items@.subrange(0, items@.len() as int) =~= items@);
    r
}

/// No item of the batch is already at its destination.
pub open spec fn all_moving(items: Seq<PlanItem>) -> bool {
    forall|k: int| 0 <= k < items.len() ==> (#[trigger] items[k]).from@ != items[k].to@
}

pub open spec fn digest_of(it: PlanItem) -> Option<Seq<char>> {
    opt_view(it.digest)
}

proof fn lemma_plan_table(items: Seq<PlanItem>)
    requires
        all_moving(items),
    ensures
        plan_of(items).0.len() == items.len(),
        forall|d: Seq<char>|
            #[trigger] plan_of(items).1.contains_key(d) <==> exists|k: int|
                0 <= k < items.len() && digest_of(#[trigger] items[k]) == Some(d),
        forall|k: int|
            0 <= k < items.len() && digest_of(#[trigger] items[k]) is Some && (forall|m: int|
                0 <= m < k ==> digest_of(#[trigger] items[m]) != digest_of(items[k]))
                ==> plan_of(items).1[digest_of(items[k])->0] == items[k].to@,
    decreases items.len(),
{
    if items.len() > 0 {
        let p = items.drop_last();
        let n = items.len() - 1;
        assert forall|k: int| 0 <= k < p.len() implies (#[trigger] p[k]).from@ != p[k].to@ by {
            assert(p[k] == items[k]);
        }
        lemma_plan_table(p);
        let table = plan_of(p).1;
        assert forall|d: Seq<char>|
            #[trigger] plan_of(items).1.contains_key(d) <==> exists|k: int|
                0 <= k < items.len() && digest_of(#[trigger] items[k]) == Some(d) by {
            if plan_of(items).1.contains_key(d) {
                if table.contains_key(d) {
                    let k = choose|k: int| 0 <= k < p.len() && digest_of(#[trigger] p[k]) == Some(d);
                    assert(items[k] == p[k]);
                } else {
                    assert(digest_of(items[n]) == Some(d));
                }
            }
            if exists|k: int| 0 <= k < items.len() && digest_of(#[trigger] items[k]) == Some(d) {
                let k = choose|k: int| 0 <= k < items.len() && digest_of(#[trigger] items[k]) == Some(d);
                if k < n {
                    assert(p[k] == items[k]);
                }
            }
        }
        assert forall|k: int|
            0 <= k < items.len() && digest_of(#[trigger] items[k]) is Some && (forall|m: int|
                0 <= m < k ==> digest_of(#[trigger] items[m]) != digest_of(items[k]))
                implies plan_of(items).1[digest_of(items[k])->0] == items[k].to@ by {
            let d = digest_of(items[k])->0;
            if k < n {
                assert(p[k] == items[k]);
                assert forall|m: int| 0 <= m < k implies digest_of(#[trigger] p[m]) != Some(d) by {
                    assert(p[m] == items[m]);
                }
                assert(table.contains_key(d));
            } else {
                if table.contains_key(d) {
                    let j = choose|j: int| 0 <= j < p.len() && digest_of(#[trigger] p[j]) == Some(d);
                    assert(items[j] == p[j]);
                    assert(digest_of(items[j]) != Some(d));
                }
            }
        }
    }
}

proof fn lemma_plan_prefix(items: Seq<PlanItem>, n: int)
    requires
        all_moving(items),
        0 <= n <= items.len(),
    ensures
        plan_of(items).0.subrange(0, n) == plan_of(items.subrange(0, n)).0,
    decreases items.len() - n,
{
    lemma_plan_table(items);
    if n == items.len() {
        assert(items.subrange(0, n) =~= items);
        assert(plan_of(items).0.subrange(0, n) =~= plan_of(items).0);
    } else {
        let p = items.drop_last();
        assert forall|k: int| 0 <= k < p.len() implies (#[trigger] p[k]).from@ != p[k].to@ by {
            assert(p[k] == items[k]);
        }
        lemma_plan_table(p);
        lemma_plan_prefix(p, n);
        assert(p.subrange(0, n) =~= items.subrange(0, n));
        assert(plan_of(items).0.subrange(0, n) =~= plan_of(p).0.subrange(0, n));
    }
}

/// Dedup within a batch: where two files have the same content digest and
/// the earlier of them is the first of the batch with that digest, the
/// earlier one is planned as a move and the later one as a link to the
/// earlier one's destination. Only the arrival order picks which of them is
/// canonical.
pub proof fn lemma_duplicate_links_to_first(items: Seq<PlanItem>, i: int, j: int)
    requires
        all_moving(items),
        0 <= i < j < items.len(),
        digest_of(items[i]) is Some,
        digest_of(items[j]) == digest_of(items[i]),
        forall|m: int| 0 <= m < i ==> digest_of(#[trigger] items[m]) != digest_of(items[i]),
    ensures
        plan_of(items).0.len() == items.len(),
        plan_of(items).0[i].link is None,
        plan_of(items).0[i].to == items[i].to@,
        plan_of(items).0[j].link == Some(items[i].to@),
{
    let d = digest_of(items[i])->0;
    lemma_plan_table(items);
    let pi = items.subrange(0, i + 1);
    let pj = items.subrange(0, j + 1);
    lemma_plan_prefix(items, i + 1);
    lemma_plan_prefix(items, j + 1);
    assert(plan_of(items).0[i] == plan_of(items).0.subrange(0, i + 1)[i]);
    assert(plan_of(items).0[j] == plan_of(items).0.subrange(0, j + 1)[j]);
    // The item before which no claim of `d` exists.
    let qi = items.subrange(0, i);
    assert(pi.drop_last() =~= qi);
    assert forall|k: int| 0 <= k < qi.len() implies (#[trigger] qi[k]).from@ != qi[k].to@ by {
        assert(qi[k] == items[k]);
    }
    lemma_plan_table(qi);
    if plan_of(qi).1.contains_key(d) {
        let k = choose|k: int| 0 <= k < qi.len() && digest_of(#[trigger] qi[k]) == Some(d);
        assert(qi[k] == items[k]);
    }
    assert(pi.last() == items[i]);
    // The later item finds the claim of the earlier one.
    let qj = items.subrange(0, j);
    assert(pj.drop_last() =~= qj);
    assert forall|k: int| 0 <= k < qj.len() implies (#[trigger] qj[k]).from@ != qj[k].to@ by {
        assert(qj[k] == items[k]);
    }
    lemma_plan_table(qj);
    assert(qj[i] == items[i]);
    assert(digest_of(qj[i]) == Some(d));
    assert forall|m: int| 0 <= m < i implies digest_of(#[trigger] qj[m]) != Some(d) by {
        assert(qj[m] == items[m]);
    }
    assert(digest_of(qj[i]) is Some);
    assert(plan_of(qj).1.contains_key(d));
    assert(plan_of(qj).1[d] == items[i].to@);
    assert(pj.last() == items[j]);
}

/// The index of the first of the first `n` items whose digest is `d`, or -1.
pub open spec fn first_with_digest(items: Seq<PlanItem>, d: Seq<char>, n: int) -> int
    decreases n,
{
    if n <= 0 {
        -1
    } else {
        let p = first_with_digest(items, d, n - 1);
        if p >= 0 {
            p
        } else if digest_of(items[n - 1]) == Some(d) {
            n - 1
        } else {
            -1
        }
    }
}

proof fn lemma_first_with_digest(items: Seq<PlanItem>, d: Seq<char>, n: int)
    requires
        0 <= n <= items.len(),
    ensures
        first_with_digest(items, d, n) == -1 ==> forall|m: int|
            0 <= m < n ==> digest_of(#[trigger] items[m]) != Some(d),
        first_with_digest(items, d, n) >= 0 ==> {
            let i = first_with_digest(items, d, n);
            &&& i < n
            &&& digest_of(items[i]) == Some(d)
            &&& forall|m: int| 0 <= m < i ==> digest_of(#[trigger] items[m]) != Some(d)
        },
    decreases n,
{
    if n > 0 {
        lemma_first_with_digest(items, d, n - 1);
    }
}

/// The planned operation of item `j` is decided by the claims of the items
/// before it.
proof fn lemma_op_at(items: Seq<PlanItem>, j: int)
    requires
        all_moving(items),
        0 <= j < items.len(),
    ensures
        plan_of(items).0.len() == items.len(),
        plan_of(items).0[j].to == items[j].to@,
        plan_of(items).0[j].link == match digest_of(items[j]) {
            None => None,
            Some(d) => {
                let table = plan_of(items.subrange(0, j)).1;
                if table.contains_key(d) {
                    Some(table[d])
                } else {
                    None
                }
            },
        },
{
    lemma_plan_table(items);
    lemma_plan_prefix(items, j + 1);
    assert(plan_of(items).0[j] == plan_of(items).0.subrange(0, j + 1)[j]);
    let pre = items.subrange(0, j + 1);
    let q = items.subrange(0, j);
    assert(pre.drop_last() =~= q);
    assert(pre.last() == items[j]);
    assert forall|k: int| 0 <= k < q.len() implies (#[trigger] q[k]).from@ != q[k].to@ by {
        assert(q[k] == items[k]);
    }
    lemma_plan_table(q);
}

/// Dedup over a whole batch: for each content digest, the first item with
/// that digest is planned as a move and every other item with it as a link
/// to that first item's destination; an item without a digest moves. So
/// items with different digests are never linked to each other.
pub proof fn lemma_one_move_per_digest(items: Seq<PlanItem>, j: int)
    requires
        all_moving(items),
        0 <= j < items.len(),
    ensures
        plan_of(items).0.len() == items.len(),
        match digest_of(items[j]) {
            None => plan_of(items).0[j].link is None,
            Some(d) => {
                let i = first_with_digest(items, d, items.len() as int);
                &&& 0 <= i <= j
                &&& digest_of(items[i]) == Some(d)
                &&& plan_of(items).0[i].link is None
                &&& plan_of(items).0[i].to == items[i].to@
                &&& (i < j ==> plan_of(items).0[j].link == Some(items[i].to@))
            },
        },
{
    lemma_op_at(items, j);
    if let Some(d) = digest_of(items[j]) {
        let n = items.len() as int;
        lemma_first_with_digest(items, d, n);
        let i = first_with_digest(items, d, n);
        assert(i >= 0);
        assert(i <= j);
        lemma_op_at(items, i);
        let q = items.subrange(0, i);
        assert forall|k: int| 0 <= k < q.len() implies (#[trigger] q[k]).from@ != q[k].to@ by {
            assert(q[k] == items[k]);
        }
        lemma_plan_table(q);
        if plan_of(q).1.contains_key(d) {
            let k = choose|k: int| 0 <= k < q.len() && digest_of(#[trigger] q[k]) == Some(d);
            assert(q[k] == items[k]);
        }
        if i < j {
            lemma_duplicate_links_to_first(items, i, j);
        }
    }
}

} // verus!
