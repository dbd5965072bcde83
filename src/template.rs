//! Destination templates: placeholder substitution, date text and path
//! joining.

use crate::classify::RuleMatch;
use crate::config::Rule;
use crate::engine::Engine;
use crate::facts::{extension_of, local_date_of, split_name, stem_of, FileFacts, LocalDate};
use crate::journal::{OpType, Operation};
use crate::text::{
    chars_of, contains_chars, contains_seq, ends_with, extend_chars, replace_all, replace_chars,
    starts_with, string_of,
};
use vstd::prelude::*;

verus! {

pub open spec fn decimal_digits() -> Seq<char> {
    seq!['0', '1', '2', '3', '4', '5', '6', '7', '8', '9']
}

/// The decimal text of a natural number, without leading zeros.
pub open spec fn decimal_text(n: nat) -> Seq<char>
    decreases n,
{
    if n < 10 {
        seq![decimal_digits()[n as int]]
    } else {
        decimal_text(n / 10).push(decimal_digits()[(n % 10) as int])
    }
}

/// Decimal text zero-padded to at least four digits.
pub open spec fn pad4(n: nat) -> Seq<char> {
    if n < 10 {
        seq!['0', '0', '0'] + decimal_text(n)
    } else if n < 100 {
        seq!['0', '0'] + decimal_text(n)
    } else if n < 1000 {
        seq!['0'] + decimal_text(n)
    } else {
        decimal_text(n)
    }
}

/// A year as chrono's `%Y` writes it: four digits for years 0 to 9999,
/// otherwise a sign followed by at least four digits.
pub open spec fn year_text(y: int) -> Seq<char> {
    if 0 <= y <= 9999 {
        pad4(y as nat)
    } else if y < 0 {
        seq!['-'] + pad4((-y) as nat)
    } else {
        seq!['+'] + pad4(y as nat)
    }
}

/// Decimal text zero-padded to at least two digits, as `%m` and `%d` write
/// months and days.
pub open spec fn pad2(n: nat) -> Seq<char> {
    if n < 10 {
        seq!['0'] + decimal_text(n)
    } else {
        decimal_text(n)
    }
}

/// The template with every placeholder filled in, in this order: `${name}`
/// (the stem), `${filename}`, `${ai_name}` (the suggested name, else the
/// stem), `${ext}` (where the name has an extension), and `${year}`,
/// `${month}`, `${day}` (where the date is known).
pub open spec fn fill_template(
    t: Seq<char>,
    name: Seq<char>,
    ai: Option<Seq<char>>,
    date: Option<LocalDate>,
) -> Seq<char> {
    let stem = stem_of(name);
    let s1 = replace_all(t, "${name}"@, stem);
    let s2 = replace_all(s1, "${filename}"@, name);
    let s3 = replace_all(
        s2,
        "${ai_name}"@,
        match ai {
            Some(a) => a,
            None => stem,
        },
    );
    let s4 = match extension_of(name) {
        Some(e) => replace_all(s3, "${ext}"@, e),
        None => s3,
    };
    match date {
        Some(d) => replace_all(
            replace_all(
                replace_all(s4, "${year}"@, year_text(d.year as int)),
                "${month}"@,
                pad2(d.month as nat),
            ),
            "${day}"@,
            pad2(d.day as nat),
        ),
        None => s4,
    }
}

/// `PathBuf::join` on Unix: an absolute path replaces the base, a relative
/// one is appended after a separator.
pub open spec fn join_path(base: Seq<char>, p: Seq<char>) -> Seq<char> {
    if starts_with(p, "/"@) {
        p
    } else if base.len() == 0 || ends_with(base, "/"@) {
        base + p
    } else {
        base + "/"@ + p
    }
}

/// The template shapes the file name itself, rather than naming a folder.
pub open spec fn names_file(t: Seq<char>) -> bool {
    ||| contains_seq(t, "${ai_name}"@)
    ||| contains_seq(t, "${ext}"@)
    ||| contains_seq(t, "${name}"@)
    ||| contains_seq(t, "${filename}"@)
}

/// The destination of a file named `name` under template `t`: the filled
/// template itself where it shapes the file name, else the folder it names
/// with the file name appended; relative results are taken under `base`.
pub open spec fn destination(
    base: Seq<char>,
    t: Seq<char>,
    name: Seq<char>,
    ai: Option<Seq<char>>,
    date: Option<LocalDate>,
) -> Seq<char> {
    let filled = fill_template(t, name, ai, date);
    if names_file(t) {
        join_path(base, filled)
    } else {
        join_path(join_path(base, filled), name)
    }
}

/// Appends the decimal text of `n`.
pub fn push_decimal(out: &mut Vec<char>, n: u32)
    ensures
        final(out)@ == old(out)@ + decimal_text(n as nat),
    decreases n,
{
    let digits: Vec<char> = vec!['0', '1', '2', '3', '4', '5', '6', '7', '8', '9'];
    assert(digits@ == decimal_digits());
    if n < 10 {
        out.push(digits[n as usize]);
        assert(old(out)@ + decimal_text(n as nat) =~= old(out)@.push(decimal_digits()[n as int]));
    } else {
        push_decimal(out, n / 10);
        out.push(digits[(n % 10) as usize]);
        assert(old(out)@ + decimal_text(n as nat) =~= (old(out)@ + decimal_text((n / 10) as nat)).push(
            decimal_digits()[(n % 10) as int],
        ));
    }
}

/// Appends `n` zero-padded to four digits.
fn push_pad4(out: &mut Vec<char>, n: u32)
    ensures
        final(out)@ == old(out)@ + pad4(n as nat),
{
    let ghost start = out@;
    if n < 10 {
        out.push('0');
        out.push('0');
        out.push('0');
    } else if n < 100 {
        out.push('0');
        out.push('0');
    } else if n < 1000 {
        out.push('0');
    }
    push_decimal(out, n);
    assert(out@ =~= start + pad4(n as nat));
}

/// Appends `n` zero-padded to two digits.
fn push_pad2(out: &mut Vec<char>, n: u32)
    ensures
        final(out)@ == old(out)@ + pad2(n as nat),
{
    let ghost start = out@;
    if n < 10 {
        out.push('0');
    }
    push_decimal(out, n);
    assert(out@ =~= start + pad2(n as nat));
}

/// The text of a year as `%Y` writes it.
pub fn year_chars(y: i32) -> (r: Vec<char>)
    ensures
        r@ == year_text(y as int),
{
    let mut out: Vec<char> = Vec::new();
    if 0 <= y && y <= 9999 {
        push_pad4(&mut out, y as u32);
    } else if y < 0 {
        out.push('-');
        let m: u32 = if y == i32::MIN {
            2147483648u32
        } else {
            (-y) as u32
        };
        push_pad4(&mut out, m);
    } else {
        out.push('+');
        push_pad4(&mut out, y as u32);
    }
    out
}

/// The text of a month or day as `%m` and `%d` write it.
pub fn pad2_chars(n: u32) -> (r: Vec<char>)
    ensures
        r@ == pad2(n as nat),
{
    let mut out: Vec<char> = Vec::new();
    push_pad2(&mut out, n);
    assert(out@ =~= pad2(n as nat));
    out
}

/// Fills in the placeholders of a destination template for a file named
/// `file_name`; `ai_name` is the oracle's suggested name, where one was
/// obtained, and `date` the file's local modification date, where known.
pub fn fill_placeholders(
    template: &String,
    file_name: &String,
    ai_name: &Option<String>,
    date: Option<LocalDate>,
) -> (r: String)
    ensures
        r@ == fill_template(template@, file_name@, crate::text::opt_view(*ai_name), date),
{
    let name = chars_of(file_name.as_str());
    let (stem, ext) = split_name(&name);
    let t = chars_of(template.as_str());
    let s1 = replace_chars(&t, &chars_of("${name}"), &stem);
    let s2 = replace_chars(&s1, &chars_of("${filename}"), &name);
    let ai = match ai_name {
        Some(a) => chars_of(a.as_str()),
        None => {
            let mut c: Vec<char> = Vec::new();
            extend_chars(&mut c, &stem);
            c
        },
    };
    let s3 = replace_chars(&s2, &chars_of("${ai_name}"), &ai);
    let s4 = match ext {
        Some(e) => replace_chars(&s3, &chars_of("${ext}"), &e),
        None => s3,
    };
    let s5 = match date {
        Some(d) => {
            let y = replace_chars(&s4, &chars_of("${year}"), &year_chars(d.year));
            let m = replace_chars(&y, &chars_of("${month}"), &pad2_chars(d.month));
            replace_chars(&m, &chars_of("${day}"), &pad2_chars(d.day))
        },
        None => s4,
    };
    string_of(&s5)
}

/// `PathBuf::join` on Unix, on character sequences.
pub fn join_chars(base: &Vec<char>, p: &Vec<char>) -> (r: Vec<char>)
    ensures
        r@ == join_path(base@, p@),
{
    let slash = chars_of("/");
    proof {
        reveal_strlit("/");
    }
    let mut r: Vec<char> = Vec::new();
    if p.len() > 0 && p[0] == '/' {
        assert(p@.subrange(0, 1) =~= "/"@);
        extend_chars(&mut r, p);
        return r;
    }
    assert(!starts_with(p@, "/"@)) by {
        if starts_with(p@, "/"@) {
            assert(p@.subrange(0, 1)[0] == p@[0]);
        }
    }
    extend_chars(&mut r, base);
    let base_sep = base.len() > 0 && base[base.len() - 1] == '/';
    assert(base_sep == (base@.len() > 0 && ends_with(base@, "/"@))) by {
        if base@.len() > 0 {
            assert(base@.subrange(base@.len() - 1, base@.len() as int)[0] == base@[base@.len() - 1]);
            if base_sep {
                assert(base@.subrange(base@.len() - 1, base@.len() as int) =~= "/"@);
            }
        }
    }
    if !(base.len() == 0 || base_sep) {
        extend_chars(&mut r, &slash);
    }
    extend_chars(&mut r, p);
    r
}

impl Engine {
    /// The rule's target template with its placeholders filled in for the
    /// file. The date placeholders are filled from the file's local
    /// modification date, which depends on the machine's time zone; they
    /// stay as they are where the file has no modification time.
    pub fn resolve_placeholders(&self, rule: &Rule, facts: &FileFacts, ai_name: Option<String>) -> (r:
        String)
        ensures
            facts.modified is None ==> r@ == fill_template(
                rule.target@,
                facts.file_name@,
                crate::text::opt_view(ai_name),
                None,
            ),
            exists|d: Option<LocalDate>|
                (d matches Some(x) ==> x.valid()) && (facts.modified is None ==> d is None) && r@
                    == fill_template(
                    rule.target@,
                    facts.file_name@,
                    crate::text::opt_view(ai_name),
                    d,
                ),
    {
        let date = match facts.modified {
            Some(t) => local_date_of(t),
            None => None,
        };
        fill_placeholders(&rule.target, &facts.file_name, &ai_name, date)
    }

    /// Whether filling the rule's template would consult the oracle for a
    /// suggested name: the oracle is configured and `${ai_name}` remains
    /// after the name placeholders are filled.
    pub fn wants_ai_name(&self, rule: &Rule, facts: &FileFacts) -> (r: bool)
        ensures
            r == (self.oracle_enabled && contains_seq(
                replace_all(
                    replace_all(rule.target@, "${name}"@, stem_of(facts.file_name@)),
                    "${filename}"@,
                    facts.file_name@,
                ),
                "${ai_name}"@,
            )),
    {
        if !self.oracle_enabled {
            return false;
        }
        let name = chars_of(facts.file_name.as_str());
        let (stem, _) = split_name(&name);
        let t = chars_of(rule.target.as_str());
        let s1 = replace_chars(&t, &chars_of("${name}"), &stem);
        let s2 = replace_chars(&s1, &chars_of("${filename}"), &name);
        contains_chars(&s2, &chars_of("${ai_name}"))
    }

    /// The destination path of the file under the rule.
    pub fn resolve_target_path(&self, rule: &Rule, facts: &FileFacts, ai_name: Option<String>) -> (r:
        String)
        ensures
            facts.modified is None ==> r@ == destination(
                self.base_dir@,
                rule.target@,
                facts.file_name@,
                crate::text::opt_view(ai_name),
                None,
            ),
            exists|d: Option<LocalDate>|
                (d matches Some(x) ==> x.valid()) && (facts.modified is None ==> d is None) && r@
                    == destination(
                    self.base_dir@,
                    rule.target@,
                    facts.file_name@,
                    crate::text::opt_view(ai_name),
                    d,
                ),
    {
        let t = chars_of(rule.target.as_str());
        let shapes_name = contains_chars(&t, &chars_of("${ai_name}")) || contains_chars(
            &t,
            &chars_of("${ext}"),
        ) || contains_chars(&t, &chars_of("${name}")) || contains_chars(&t, &chars_of("${filename}"));
        let date = match facts.modified {
            Some(ts) => local_date_of(ts),
            None => None,
        };
        let filled = fill_placeholders(&rule.target, &facts.file_name, &ai_name, date);
        let base = chars_of(self.base_dir.as_str());
        let f = chars_of(filled.as_str());
        let dest = if shapes_name {
            join_chars(&base, &f)
        } else {
            let dir = join_chars(&base, &f);
            join_chars(&dir, &chars_of(facts.file_name.as_str()))
        };
        assert(dest@ == destination(
            self.base_dir@,
            rule.target@,
            facts.file_name@,
            crate::text::opt_view(ai_name),
            date,
        ));
        string_of(&dest)
    }

    /// The move that watch mode performs for a single file: the file goes to
    /// the destination of the rule that classification selected, unless it
    /// is already there.
    pub fn process_single_file(&self, facts: &FileFacts, decision: RuleMatch, ai_name: Option<String>)
        -> (r: Option<Operation>)
        ensures
            match decision {
                RuleMatch::Matched(i) => if i < self.config.rules@.len() {
                    let rule = self.config.rules@[i as int];
                    let ai = crate::text::opt_view(ai_name);
                    &&& r matches Some(op) ==> {
                        &&& op.from@ == facts.path@
                        &&& op.op_type is Move
                        &&& op.rule_name == Some(rule.name)
                        &&& op.rule_index == Some(i)
                        &&& op.to@ != facts.path@
                        &&& exists|d: Option<LocalDate>|
                            (d matches Some(x) ==> x.valid()) && op.to@ == destination(
                                self.base_dir@,
                                rule.target@,
                                facts.file_name@,
                                ai,
                                d,
                            )
                    }
                    &&& exists|d: Option<LocalDate>|
                        (d matches Some(x) ==> x.valid()) && (facts.modified is None ==> d is None)
                            && (r is None <==> #[trigger] destination(
                            self.base_dir@,
                            rule.target@,
                            facts.file_name@,
                            ai,
                            d,
                        ) == facts.path@) && (r matches Some(op) ==> op.to@ == destination(
                            self.base_dir@,
                            rule.target@,
                            facts.file_name@,
                            ai,
                            d,
                        ))
                } else {
                    r is None
                },
                _ => r is None,
            },
    {
        match decision {
            RuleMatch::Matched(i) => {
                if i >= self.config.rules.len() {
                    return None;
                }
                let rule = &self.config.rules[i];
                let to = self.resolve_target_path(rule, facts, ai_name);
                if to == facts.path {
                    None
                } else {
                    Some(
                        Operation {
                            from: facts.path.clone(),
                            to,
                            op_type: OpType::Move,
                            rule_name: Some(rule.name.clone()),
                            rule_index: Some(i),
                        },
                    )
                }
            },
            _ => None,
        }
    }
}

proof fn lemma_occurs_char(s: Seq<char>, p: Seq<char>, i: int, k: int)
    requires
        crate::text::occurs_at(s, p, i),
        0 <= k < p.len(),
    ensures
        s[i + k] == p[k],
{
    assert(s.subrange(i, i + p.len())[k] == s[i + k]);
}

proof fn lemma_replace_absent(s: Seq<char>, p: Seq<char>, w: Seq<char>)
    requires
        p.len() > 0,
        !contains_seq(s, p),
    ensures
        replace_all(s, p, w) == s,
    decreases s.len(),
{
    if s.len() >= p.len() {
        assert(!crate::text::occurs_at(s, p, 0));
        let t = s.drop_first();
        assert(!contains_seq(t, p)) by {
            if contains_seq(t, p) {
                let i = choose|i: int| crate::text::occurs_at(t, p, i);
                assert(s.subrange(i + 1, i + 1 + p.len()) =~= t.subrange(i, i + p.len()));
                assert(crate::text::occurs_at(s, p, i + 1));
            }
        }
        lemma_replace_absent(t, p, w);
        assert(seq![s[0]] + t =~= s);
    }
}

/// A prefix holding no `$` is left as it is when replacing a pattern that
/// starts with `$`.
proof fn lemma_replace_after_plain(a: Seq<char>, b: Seq<char>, p: Seq<char>, w: Seq<char>)
    requires
        p.len() > 0,
        p[0] == '$',
        forall|i: int| 0 <= i < a.len() ==> a[i] != '$',
    ensures
        replace_all(a + b, p, w) == a + replace_all(b, p, w),
    decreases a.len(),
{
    if a.len() == 0 {
        assert(a + b =~= b);
        assert(a + replace_all(b, p, w) =~= replace_all(b, p, w));
    } else {
        let ab = a + b;
        if ab.len() < p.len() {
            assert(replace_all(b, p, w) == b);
        } else {
            assert(ab.subrange(0, p.len() as int)[0] == a[0]);
            assert(ab.drop_first() =~= a.drop_first() + b);
            lemma_replace_after_plain(a.drop_first(), b, p, w);
            assert(seq![a[0]] + (a.drop_first() + replace_all(b, p, w)) =~= a + replace_all(b, p, w));
        }
    }
}

proof fn lemma_decimal_text(n: nat)
    ensures
        forall|i: int| 0 <= i < decimal_text(n).len() ==> decimal_text(n)[i] != '$',
        n < 10 ==> decimal_text(n).len() == 1,
        10 <= n < 100 ==> decimal_text(n).len() == 2,
        100 <= n < 1000 ==> decimal_text(n).len() == 3,
        1000 <= n < 10000 ==> decimal_text(n).len() == 4,
    decreases n,
{
    if n >= 10 {
        lemma_decimal_text(n / 10);
    }
}

/// The template `${year}-${month}` stays as it is for a file without a
/// known date, and becomes `YYYY-MM`, seven characters, for a date whose
/// year lies between 0 and 9999.
pub proof fn lemma_year_month_template(name: Seq<char>, ai: Option<Seq<char>>, date: Option<LocalDate>)
    requires
        date matches Some(d) ==> d.valid() && 0 <= d.year <= 9999,
    ensures
        date is None ==> fill_template("${year}-${month}"@, name, ai, date) == "${year}-${month}"@,
        date is Some ==> fill_template("${year}-${month}"@, name, ai, date).len() == 7,
{
    reveal_strlit("${year}-${month}");
    reveal_strlit("${name}");
    reveal_strlit("${filename}");
    reveal_strlit("${ai_name}");
    reveal_strlit("${ext}");
    reveal_strlit("${year}");
    reveal_strlit("${month}");
    reveal_strlit("${day}");
    let t = "${year}-${month}"@;
    let stem = stem_of(name);
    let ai_value = match ai {
        Some(a) => a,
        None => stem,
    };
    assert(t.len() == 16);
    assert forall|pat: Seq<char>|
        pat == "${name}"@ || pat == "${filename}"@ || pat == "${ai_name}"@ || pat == "${ext}"@
            implies !contains_seq(t, pat) by {
        if contains_seq(t, pat) {
            let i = choose|i: int| crate::text::occurs_at(t, pat, i);
            lemma_occurs_char(t, pat, i, 0);
            lemma_occurs_char(t, pat, i, 1);
            lemma_occurs_char(t, pat, i, 2);
            assert(0 <= i <= 11);
            assert(i == 0 || i == 1 || i == 2 || i == 3 || i == 4 || i == 5 || i == 6 || i == 7
                || i == 8 || i == 9 || i == 10 || i == 11);
        }
    }
    lemma_replace_absent(t, "${name}"@, stem);
    lemma_replace_absent(t, "${filename}"@, name);
    lemma_replace_absent(t, "${ai_name}"@, ai_value);
    if let Some(e) = extension_of(name) {
        lemma_replace_absent(t, "${ext}"@, e);
    }
    if let Some(d) = date {
        let y = year_text(d.year as int);
        let m = pad2(d.month as nat);
        let dd = pad2(d.day as nat);
        lemma_decimal_text(d.year as nat);
        lemma_decimal_text(d.month as nat);
        lemma_decimal_text(d.day as nat);
        assert(y.len() == 4);
        assert(forall|i: int| 0 <= i < y.len() ==> y[i] != '$');
        assert(m.len() == 2);
        assert(forall|i: int| 0 <= i < m.len() ==> m[i] != '$');
        let rest = t.subrange(7, 16);
        assert(t.subrange(0, 7) =~= "${year}"@);
        assert(replace_all(t, "${year}"@, y) == y + replace_all(rest, "${year}"@, y));
        assert(!contains_seq(rest, "${year}"@)) by {
            if contains_seq(rest, "${year}"@) {
                let i = choose|i: int| crate::text::occurs_at(rest, "${year}"@, i);
                lemma_occurs_char(rest, "${year}"@, i, 0);
                lemma_occurs_char(rest, "${year}"@, i, 2);
                assert(0 <= i <= 2);
                assert(i == 0 || i == 1 || i == 2);
            }
        }
        lemma_replace_absent(rest, "${year}"@, y);
        let dash = rest.subrange(0, 1);
        let mon = rest.subrange(1, 9);
        assert(rest =~= dash + mon);
        assert(y + rest =~= (y + dash) + mon);
        assert(mon =~= "${month}"@);
        lemma_replace_after_plain(y + dash, mon, "${month}"@, m);
        assert(mon.subrange(0, 8) =~= mon);
        assert(mon.subrange(8, 8) =~= Seq::<char>::empty());
        assert(replace_all(Seq::<char>::empty(), "${month}"@, m) == Seq::<char>::empty());
        assert(replace_all(mon, "${month}"@, m) =~= m + Seq::<char>::empty());
        let r2 = (y + dash) + m;
        assert(forall|i: int| 0 <= i < r2.len() ==> r2[i] != '$') by {
            assert forall|i: int| 0 <= i < r2.len() implies r2[i] != '$' by {
                if i >= 5 {
                    assert(r2[i] == m[i - 5]);
                } else if i == 4 {
                    assert(r2[i] == rest[0]);
                } else {
                    assert(r2[i] == y[i]);
                }
            }
        }
        lemma_replace_after_plain(r2, Seq::<char>::empty(), "${day}"@, dd);
        assert(replace_all(Seq::<char>::empty(), "${day}"@, dd) == Seq::<char>::empty());
        assert(r2 + Seq::<char>::empty() =~= r2);
        assert((y + dash) + m + Seq::<char>::empty() =~= r2);
    }
}

} // verus!
