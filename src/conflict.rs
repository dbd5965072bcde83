//! Conflict resolution: what to do when a destination is already taken.

use crate::config::{ConflictStrategy, Rule};
use crate::engine::Engine;
use crate::facts::{
    extension_of, last_index, last_index_of, lemma_last_index_bounds, split_name, stem_of,
};
use crate::journal::{OpModel, OpOutcome, Operation};
use crate::template::{decimal_text, join_chars, join_path};
use crate::text::{chars_of, extend_chars, string_of};
use vstd::prelude::*;

verus! {

/// The number of numbered names probed before giving up.
pub const RENAME_ATTEMPTS: u32 = 998;

/// Every numbered name for a destination is taken.
#[derive(Clone, Copy, Debug, PartialEq, Eq, Structural)]
pub enum ConflictError {
    TooManyConflicts,
}

/// A path without its trailing separators, as `Path` reads its components;
/// the root `/` stays.
pub open spec fn without_trailing_slash(p: Seq<char>) -> Seq<char>
    decreases p.len(),
{
    if p.len() > 1 && p.last() == '/' {
        without_trailing_slash(p.drop_last())
    } else {
        p
    }
}

/// The directory part of a path, as `Path::parent` gives it.
pub open spec fn dir_of(p: Seq<char>) -> Seq<char> {
    let q = without_trailing_slash(p);
    let k = last_index_of(q, '/');
    if k < 0 {
        Seq::empty()
    } else if k == 0 {
        seq!['/']
    } else {
        q.subrange(0, k)
    }
}

/// The last component of a path, as `Path::file_name` gives it.
pub open spec fn name_of(p: Seq<char>) -> Seq<char> {
    let q = without_trailing_slash(p);
    q.subrange(last_index_of(q, '/') + 1, q.len() as int)
}

/// A name already present in the destination directory.
pub open spec fn taken(existing: Seq<String>, n: Seq<char>) -> bool {
    exists|k: int| 0 <= k < existing.len() && (#[trigger] existing[k])@ == n
}

/// The `i`-th alternative for a file name: `stem (i).ext`, or `stem (i)`
/// where the name has no extension or an empty one.
pub open spec fn renamed(name: Seq<char>, i: nat) -> Seq<char> {
    let numbered = stem_of(name) + seq![' ', '('] + decimal_text(i) + seq![')'];
    match extension_of(name) {
        Some(e) => if e.len() > 0 {
            numbered + seq!['.'] + e
        } else {
            numbered
        },
        None => numbered,
    }
}

/// The first free alternative numbered `i` to 998, if any.
pub open spec fn first_free(name: Seq<char>, existing: Seq<String>, i: nat) -> Option<nat>
    decreases 999 - i,
{
    if i >= 999 {
        None
    } else if !taken(existing, renamed(name, i)) {
        Some(i)
    } else {
        first_free(name, existing, i + 1)
    }
}

/// Where the file goes when its destination `dest` may be taken, given the
/// names in the destination directory: `Ok(None)` means it stays put.
pub open spec fn conflict_outcome(policy: ConflictStrategy, dest: Seq<char>, existing: Seq<String>) -> Result<
    Option<Seq<char>>,
    ConflictError,
> {
    if !taken(existing, name_of(dest)) {
        Ok(Some(dest))
    } else {
        match policy {
            ConflictStrategy::Skip => Ok(None),
            ConflictStrategy::Overwrite => Ok(Some(dest)),
            ConflictStrategy::Rename => match first_free(name_of(dest), existing, 1) {
                Some(i) => Ok(Some(join_path(dir_of(dest), renamed(name_of(dest), i)))),
                None => Err(ConflictError::TooManyConflicts),
            },
        }
    }
}

/// Whether `n` is among the names in `existing`.
fn is_taken(existing: &Vec<String>, n: &String) -> (r: bool)
    ensures
        r == taken(existing@, n@),
{
    let mut k: usize = 0;
    while k < existing.len()
        invariant
            k <= existing@.len(),
            forall|j: int| 0 <= j < k ==> existing@[j]@ != n@,
        decreases existing.len() - k,
    {
        if existing[k] == *n {
            return true;
        }
        k = k + 1;
    }
    false
}

/// The `i`-th alternative for a file name.
fn renamed_chars(name: &Vec<char>, i: u32) -> (r: Vec<char>)
    ensures
        r@ == renamed(name@, i as nat),
{
    let (stem, ext) = split_name(name);
    let mut r: Vec<char> = Vec::new();
    extend_chars(&mut r, &stem);
    r.push(' ');
    r.push('(');
    crate::template::push_decimal(&mut r, i);
    r.push(')');
    assert(r@ =~= stem_of(name@) + seq![' ', '('] + decimal_text(i as nat) + seq![')']);
    match ext {
        Some(e) => {
            if e.len() > 0 {
                let ghost numbered = r@;
                r.push('.');
                extend_chars(&mut r, &e);
                assert(r@ =~= numbered + seq!['.'] + e@);
            }
        },
        None => {},
    }
    r
}

/// Decides the final destination of a file bound for `dest` under
/// `policy`, given the names present in the destination directory.
pub fn resolve_conflict(policy: ConflictStrategy, dest: &String, existing: &Vec<String>) -> (r: Result<
    Option<String>,
    ConflictError,
>)
    ensures
        match (r, conflict_outcome(policy, dest@, existing@)) {
            (Ok(Some(p)), Ok(Some(q))) => p@ == q,
            (Ok(None), Ok(None)) => true,
            (Err(e), Err(f)) => e == f,
            _ => false,
        },
{
    let full = chars_of(dest.as_str());
    let mut end: usize = full.len();
    assert(full@.subrange(0, end as int) =~= full@);
    while end > 1 && full[end - 1] == '/'
        invariant
            end <= full@.len(),
            without_trailing_slash(full@) == without_trailing_slash(full@.subrange(0, end as int)),
        decreases end,
    {
        assert(full@.subrange(0, end as int).drop_last() =~= full@.subrange(0, end - 1));
        end = end - 1;
    }
    let mut path: Vec<char> = Vec::new();
    let mut e: usize = 0;
    while e < end
        invariant
            end <= full@.len(),
            e <= end,
            path@ == full@.subrange(0, e as int),
        decreases end - e,
    {
        path.push(full[e]);
        e = e + 1;
    }
    assert(path@ == without_trailing_slash(dest@));
    let slash = last_index(&path, '/');
    proof {
        lemma_last_index_bounds(path@, '/');
    }
    let start: usize = match slash {
        Some(k) => if k < path.len() {
            k + 1
        } else {
            path.len()
        },
        None => 0,
    };
    let mut name: Vec<char> = Vec::new();
    let mut j: usize = start;
    while j < path.len()
        invariant
            start <= j <= path.len(),
            name@ == path@.subrange(start as int, j as int),
        decreases path.len() - j,
    {
        name.push(path[j]);
        j = j + 1;
    }
    assert(name@ == name_of(dest@));
    if !is_taken(existing, &string_of(&name)) {
        return Ok(Some(dest.clone()));
    }
    match policy {
        ConflictStrategy::Skip => Ok(None),
        ConflictStrategy::Overwrite => Ok(Some(dest.clone())),
        ConflictStrategy::Rename => {
            let dir: Vec<char> = match slash {
                None => Vec::new(),
                Some(k) => {
                    if k == 0 {
                        vec!['/']
                    } else {
                        let mut d: Vec<char> = Vec::new();
                        let mut m: usize = 0;
                        while m < k
                            invariant
                                k < path.len(),
                                m <= k,
                                d@ == path@.subrange(0, m as int),
                            decreases k - m,
                        {
                            d.push(path[m]);
                            m = m + 1;
                        }
                        d
                    }
                },
            };
            assert(dir@ =~= dir_of(dest@));
            let mut i: u32 = 1;
            while i <= RENAME_ATTEMPTS
                invariant
                    1 <= i <= RENAME_ATTEMPTS + 1,
                    policy == ConflictStrategy::Rename,
                    taken(existing@, name_of(dest@)),
                    name@ == name_of(dest@),
                    dir@ == dir_of(dest@),
                    first_free(name@, existing@, 1) == first_free(name@, existing@, i as nat),
                decreases RENAME_ATTEMPTS + 1 - i,
            {
                let candidate = renamed_chars(&name, i);
                if !is_taken(existing, &string_of(&candidate)) {
                    return Ok(Some(string_of(&join_chars(&dir, &candidate))));
                }
                i = i + 1;
            }
            Err(ConflictError::TooManyConflicts)
        },
    }
}

/// The conflict policy of the rule at `index`; `Rename` where there is no
/// such rule.
pub open spec fn policy_at(rules: Seq<Rule>, index: Option<usize>) -> ConflictStrategy {
    match index {
        Some(i) => if i < rules.len() {
            rules[i as int].policy()
        } else {
            ConflictStrategy::Rename
        },
        None => ConflictStrategy::Rename,
    }
}

impl Engine {
    /// The conflict policy for an operation: that of the rule that planned
    /// it.
    pub fn policy_for(&self, op: &Operation) -> (r: ConflictStrategy)
        ensures
            r == policy_at(self.config.rules@, op.rule_index),
    {
        match op.rule_index {
            Some(i) => if i < self.config.rules.len() {
                self.config.rules[i].conflict_policy()
            } else {
                ConflictStrategy::Rename
            },
            None => ConflictStrategy::Rename,
        }
    }

    /// The final destination of a planned operation, given the names present
    /// in its destination directory: the destination itself where it is
    /// free, otherwise as the planning rule's conflict policy decides.
    /// `Ok(None)` means the operation is skipped.
    pub fn handle_conflict(&self, op: &Operation, existing: &Vec<String>) -> (r: Result<
        Option<String>,
        ConflictError,
    >)
        ensures
            match (r, conflict_outcome(policy_at(self.config.rules@, op.rule_index), op.to@, existing@)) {
                (Ok(Some(p)), Ok(Some(q))) => p@ == q,
                (Ok(None), Ok(None)) => true,
                (Err(e), Err(f)) => e == f,
                _ => false,
            },
    {
        let policy = self.policy_for(op);
        resolve_conflict(policy, &op.to, existing)
    }
}

proof fn lemma_first_free(name: Seq<char>, existing: Seq<String>, s: nat)
    ensures
        match first_free(name, existing, s) {
            Some(i) => s <= i <= 998 && !taken(existing, renamed(name, i)),
            None => forall|i: nat| s <= i <= 998 ==> taken(existing, #[trigger] renamed(name, i)),
        },
    decreases 999 - s,
{
    if s < 999 && taken(existing, renamed(name, s)) {
        lemma_first_free(name, existing, s + 1);
        if first_free(name, existing, s + 1) is None {
            assert forall|i: nat| s <= i <= 998 implies taken(existing, #[trigger] renamed(name, i)) by {
                if i > s {
                    assert(s + 1 <= i);
                }
            }
        }
    }
}

/// Under the rename policy a taken destination is never overwritten: the
/// file goes to the first free numbered alternative `stem (i).ext`, with
/// `i` from 1 to 998, which differs from the name already there; only
/// when all of them are taken does the operation fail.
pub proof fn lemma_rename_never_overwrites(dest: Seq<char>, existing: Seq<String>)
    requires
        taken(existing, name_of(dest)),
    ensures
        match conflict_outcome(ConflictStrategy::Rename, dest, existing) {
            Ok(Some(p)) => exists|i: nat|
                1 <= i <= 998 && p == join_path(dir_of(dest), #[trigger] renamed(name_of(dest), i))
                    && !taken(existing, renamed(name_of(dest), i)) && renamed(name_of(dest), i)
                    != name_of(dest),
            Ok(None) => false,
            Err(_) => forall|i: nat|
                1 <= i <= 998 ==> taken(existing, #[trigger] renamed(name_of(dest), i)),
        },
{
    lemma_first_free(name_of(dest), existing, 1);
}

/// Under the skip policy a taken destination leaves the file at its source,
/// and recording the skipped operation adds nothing to the journal.
pub proof fn lemma_skip_keeps_source(
    dest: Seq<char>,
    existing: Seq<String>,
    journal: Seq<OpModel>,
    op: OpModel,
)
    requires
        taken(existing, name_of(dest)),
    ensures
        conflict_outcome(ConflictStrategy::Skip, dest, existing) == Ok::<
            Option<Seq<char>>,
            ConflictError,
        >(None),
        crate::journal::journal_after(journal, op, OpOutcome::Skipped) == journal,
{
}

} // verus!
