//! What the engine knows of one file: its path and name, size, a short
//! prefix of its content, and its modification time.

use chrono::Datelike;
use vstd::prelude::*;

verus! {

/// A point in time as seconds and nanoseconds since the Unix epoch.
#[derive(Clone, Copy, Debug, PartialEq, Eq, Structural)]
pub struct Timestamp {
    pub secs: i64,
    pub nanos: u32,
}

impl Timestamp {
    /// The same instant in nanoseconds.
    pub open spec fn total_nanos(self) -> int {
        self.secs * 1_000_000_000 + self.nanos
    }
}

/// A calendar date in the local time zone.
#[derive(Clone, Copy, Debug, PartialEq, Eq, Structural)]
pub struct LocalDate {
    pub year: i32,
    pub month: u32,
    pub day: u32,
}

impl LocalDate {
    pub open spec fn valid(self) -> bool {
        1 <= self.month <= 12 && 1 <= self.day <= 31
    }
}

/// The observations of one candidate file that classification and
/// destination resolution depend on.
#[derive(Debug)]
pub struct FileFacts {
    /// The path the file was found at.
    pub path: String,
    /// Its last path component.
    pub file_name: String,
    /// Its length in bytes.
    pub size: u64,
    /// The first bytes of its content, or `None` where it could not be read.
    pub prefix: Option<Vec<u8>>,
    /// Its modification time, where the platform reports one.
    pub modified: Option<Timestamp>,
}

/// Relies on chrono's `DateTime::from_timestamp` and
/// `DateTime::with_timezone(&Local)`: the calendar date of an instant in the
/// machine's time zone, or `None` for an instant outside chrono's range. The
/// time zone belongs to the machine, so only the ranges are promised.
#[verifier::external_body]
pub(crate) fn local_date_of(t: Timestamp) -> (r: Option<LocalDate>)
    ensures
        r matches Some(d) ==> d.valid(),
{
    match chrono::DateTime::from_timestamp(t.secs, t.nanos) {
        Some(u) => {
            let l = u.with_timezone(&chrono::Local);
            Some(LocalDate { year: l.year(), month: l.month(), day: l.day() })
        },
        None => None,
    }
}

/// The index of the last occurrence of `c` in `s`, or -1.
pub open spec fn last_index_of(s: Seq<char>, c: char) -> int
    decreases s.len(),
{
    if s.len() == 0 {
        -1
    } else if s.last() == c {
        s.len() - 1
    } else {
        last_index_of(s.drop_last(), c)
    }
}

pub open spec fn dot_dot() -> Seq<char> {
    seq!['.', '.']
}

/// The extension of a file name: what follows its last dot, unless that dot
/// opens the name (`.bashrc`) or the name is `..`.
pub open spec fn extension_of(name: Seq<char>) -> Option<Seq<char>> {
    let d = last_index_of(name, '.');
    if d <= 0 || name == dot_dot() {
        None
    } else {
        Some(name.subrange(d + 1, name.len() as int))
    }
}

/// The stem of a file name: the name without its extension and that dot.
pub open spec fn stem_of(name: Seq<char>) -> Seq<char> {
    let d = last_index_of(name, '.');
    if d <= 0 || name == dot_dot() {
        name
    } else {
        name.subrange(0, d)
    }
}

pub proof fn lemma_last_index_bounds(s: Seq<char>, c: char)
    ensures
        -1 <= last_index_of(s, c) < s.len(),
        last_index_of(s, c) >= 0 ==> s[last_index_of(s, c)] == c,
    decreases s.len(),
{
    if s.len() > 0 && s.last() != c {
        lemma_last_index_bounds(s.drop_last(), c);
    }
}

/// The index of the last occurrence of `c` in `name`.
pub fn last_index(name: &Vec<char>, c: char) -> (r: Option<usize>)
    ensures
        match r {
            Some(d) => d == last_index_of(name@, c),
            None => last_index_of(name@, c) == -1,
        },
{
    let mut k: usize = name.len();
    assert(name@.subrange(0, k as int) =~= name@);
    while k > 0
        invariant
            k <= name.len(),
            last_index_of(name@, c) == last_index_of(name@.subrange(0, k as int), c),
        decreases k,
    {
        let ghost pre = name@.subrange(0, k as int);
        if name[k - 1] == c {
            assert(pre.last() == c);
            return Some(k - 1);
        }
        assert(pre.drop_last() =~= name@.subrange(0, k - 1));
        k = k - 1;
    }
    None
}

/// Splits a file name into its stem and its extension, as `Path::file_stem`
/// and `Path::extension` read a final path component.
pub fn split_name(name: &Vec<char>) -> (r: (Vec<char>, Option<Vec<char>>))
    ensures
        r.0@ == stem_of(name@),
        match r.1 {
            Some(e) => extension_of(name@) == Some(e@),
            None => extension_of(name@) is None,
        },
{
    let d = last_index(name, '.');
    proof {
        lemma_last_index_bounds(name@, '.');
    }
    let is_dot_dot = name.len() == 2 && name[0] == '.' && name[1] == '.';
    assert(is_dot_dot == (name@ == dot_dot())) by {
        if name@ == dot_dot() {
            assert(name@[0] == '.' && name@[1] == '.');
        }
        if is_dot_dot {
            assert(name@ =~= dot_dot());
        }
    }
    let no_ext = match d {
        Some(k) => k == 0 || is_dot_dot,
        None => true,
    };
    if no_ext {
        let mut stem: Vec<char> = Vec::new();
        crate::text::extend_chars(&mut stem, name);
        (stem, None)
    } else {
        let du = match d {
            Some(k) => k,
            None => 0,
        };
        let mut stem: Vec<char> = Vec::new();
        let mut ext: Vec<char> = Vec::new();
        let mut i: usize = 0;
        while i < du
            invariant
                du < name.len(),
                i <= du,
                stem@ == name@.subrange(0, i as int),
            decreases du - i,
        {
            stem.push(name[i]);
            i = i + 1;
        }
        let mut j: usize = du + 1;
        while j < name.len()
            invariant
                du < j <= name.len(),
                ext@ == name@.subrange(du + 1, j as int),
            decreases name.len() - j,
        {
            ext.push(name[j]);
            j = j + 1;
        }
        (stem, Some(ext))
    }
}

} // verus!
