//! Reading the replies of the classification and naming oracle. The oracle
//! is asked over the network by the application; what its replies mean is
//! decided here.

use crate::facts::{last_index, last_index_of, lemma_last_index_bounds, split_name, stem_of};
use crate::text::{chars_of, contains_chars, contains_seq, replace_all, replace_chars, same_chars, string_of};
use vstd::prelude::*;

verus! {

/// Names what `str::trim` leaves of a text.
pub uninterp spec fn trimmed(s: Seq<char>) -> Seq<char>;

/// Relies on `str::trim`: leading and trailing white space removed; the
/// result depends on the characters alone.
#[verifier::external_body]
fn trim_text(s: &str) -> (r: String)
    ensures
        r@ == trimmed(s@),
{
    s.trim().to_string()
}

/// Names what `str::to_uppercase` makes of a text.
pub uninterp spec fn upper_of(s: Seq<char>) -> Seq<char>;

/// Relies on `str::to_uppercase`: the result depends on the characters alone.
#[verifier::external_body]
fn uppercase(s: &str) -> (r: String)
    ensures
        r@ == upper_of(s@),
{
    s.to_uppercase()
}

/// Names `char::is_alphanumeric`.
pub uninterp spec fn alphanumeric(c: char) -> bool;

/// Relies on `char::is_alphanumeric`: a property of the character alone.
#[verifier::external_body]
fn is_alphanumeric(c: char) -> (r: bool)
    ensures
        r == alphanumeric(c),
{
    c.is_alphanumeric()
}

/// A reply to a yes/no question says yes: its trimmed, upper-cased text
/// contains `YES`.
pub open spec fn says_yes(reply: Seq<char>) -> bool {
    contains_seq(upper_of(trimmed(reply)), "YES"@)
}

/// Whether a classification reply says that the file matches.
pub fn match_reply(reply: &str) -> (r: bool)
    ensures
        r == says_yes(reply@),
{
    let t = trim_text(reply);
    let u = uppercase(t.as_str());
    contains_chars(&chars_of(u.as_str()), &chars_of("YES"))
}

/// A character that may stand at either end of a suggested name.
pub open spec fn name_char(c: char) -> bool {
    alphanumeric(c) || c == '_' || c == '-'
}

pub open spec fn strip_start(s: Seq<char>) -> Seq<char>
    decreases s.len(),
{
    if s.len() > 0 && !name_char(s[0]) {
        strip_start(s.drop_first())
    } else {
        s
    }
}

pub open spec fn strip_end(s: Seq<char>) -> Seq<char>
    decreases s.len(),
{
    if s.len() > 0 && !name_char(s.last()) {
        strip_end(s.drop_last())
    } else {
        s
    }
}

/// The text before its last dot, or all of it where it has none.
pub open spec fn before_last_dot(s: Seq<char>) -> Seq<char> {
    let k = last_index_of(s, '.');
    if k >= 0 {
        s.subrange(0, k)
    } else {
        s
    }
}

/// The file name a naming reply suggests: the trimmed reply with spaces
/// turned into `_`, anything from its last dot on dropped, the other dots
/// turned into `_`, and characters other than letters, digits, `_` and `-`
/// stripped from both ends. Where nothing is left, the file's own stem.
pub open spec fn suggested_name(reply: Seq<char>, file_name: Seq<char>) -> Seq<char> {
    let underscored = replace_all(trimmed(reply), " "@, "_"@);
    let cleaned = strip_end(strip_start(replace_all(before_last_dot(underscored), "."@, "_"@)));
    if cleaned.len() > 0 {
        cleaned
    } else {
        stem_of(file_name)
    }
}

/// The characters of `s` from `lo` up to `hi`.
fn slice_chars(s: &Vec<char>, lo: usize, hi: usize) -> (r: Vec<char>)
    requires
        lo <= hi <= s.len(),
    ensures
        r@ == s@.subrange(lo as int, hi as int),
{
    let mut r: Vec<char> = Vec::new();
    let mut i: usize = lo;
    while i < hi
        invariant
            lo <= i <= hi <= s.len(),
            r@ == s@.subrange(lo as int, i as int),
        decreases hi - i,
    {
        r.push(s[i]);
        i = i + 1;
    }
    r
}

fn keeps(c: char) -> (r: bool)
    ensures
        r == name_char(c),
{
    c == '_' || c == '-' || is_alphanumeric(c)
}

/// Strips characters other than letters, digits, `_` and `-` from both ends.
fn strip_name_edges(s: &Vec<char>) -> (r: Vec<char>)
    ensures
        r@ == strip_end(strip_start(s@)),
{
    let mut lo: usize = 0;
    assert(s@.subrange(0, s@.len() as int) =~= s@);
    while lo < s.len() && !keeps(s[lo])
        invariant
            lo <= s.len(),
            strip_start(s@) == strip_start(s@.subrange(lo as int, s@.len() as int)),
        decreases s.len() - lo,
    {
        let ghost rest = s@.subrange(lo as int, s@.len() as int);
        assert(rest.drop_first() =~= s@.subrange(lo + 1, s@.len() as int));
        lo = lo + 1;
    }
    let ghost head = s@.subrange(lo as int, s@.len() as int);
    assert(strip_start(s@) == head);
    let mut hi: usize = s.len();
    assert(head.subrange(0, (hi - lo) as int) =~= head);
    while hi > lo && !keeps(s[hi - 1])
        invariant
            lo <= hi <= s.len(),
            head == s@.subrange(lo as int, s@.len() as int),
            strip_end(head) == strip_end(s@.subrange(lo as int, hi as int)),
        decreases hi - lo,
    {
        let ghost cur = s@.subrange(lo as int, hi as int);
        assert(cur.drop_last() =~= s@.subrange(lo as int, hi - 1));
        hi = hi - 1;
    }
    slice_chars(s, lo, hi)
}

/// The file name a naming reply suggests for the file named `file_name`.
pub fn name_from_reply(reply: &str, file_name: &str) -> (r: String)
    ensures
        r@ == suggested_name(reply@, file_name@),
{
    let t = trim_text(reply);
    let underscored = replace_chars(&chars_of(t.as_str()), &chars_of(" "), &chars_of("_"));
    let cut = match last_index(&underscored, '.') {
        Some(k) => {
            proof {
                lemma_last_index_bounds(underscored@, '.');
            }
            slice_chars(&underscored, 0, k)
        },
        None => underscored,
    };
    let dotted = replace_chars(&cut, &chars_of("."), &chars_of("_"));
    let cleaned = strip_name_edges(&dotted);
    if cleaned.len() > 0 {
        string_of(&cleaned)
    } else {
        let (stem, _) = split_name(&chars_of(file_name));
        string_of(&stem)
    }
}

/// The value an extraction reply gives: none where the trimmed reply is
/// empty or `UNKNOWN`, else the reply with line breaks turned into spaces,
/// trimmed.
pub open spec fn extracted_value(reply: Seq<char>) -> Option<Seq<char>> {
    let a = trimmed(reply);
    if a == "UNKNOWN"@ || a.len() == 0 {
        None
    } else {
        Some(trimmed(replace_all(a, "\n"@, " "@)))
    }
}

/// The value an extraction reply gives, if any.
pub fn value_from_reply(reply: &str) -> (r: Option<String>)
    ensures
        match r {
            Some(v) => extracted_value(reply@) == Some(v@),
            None => extracted_value(reply@) is None,
        },
{
    let t = trim_text(reply);
    let a = chars_of(t.as_str());
    if a.len() == 0 || same_chars(&a, &chars_of("UNKNOWN")) {
        return None;
    }
    let joined = replace_chars(&a, &chars_of("\n"), &chars_of(" "));
    Some(trim_text(string_of(&joined).as_str()))
}

} // verus!
