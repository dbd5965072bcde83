//! Classification: which rule, if any, a file falls under. Rules are tried
//! in list order; the first whose predicates match and whose filters pass
//! wins. A rule that can only be decided by the oracle stops the scan and
//! asks the caller for the oracle's answer.

use crate::config::Rule;
use crate::engine::Engine;
use crate::facts::{extension_of, split_name, FileFacts, Timestamp};
use crate::text::{
    chars_of, contains_chars, contains_seq, ends_with, ends_with_chars, opt_view, same_chars,
    starts_with, starts_with_chars, string_of,
};
use vstd::prelude::*;

verus! {

/// Names what `infer::get` recognizes in a content prefix: the kind's
/// extension and mime type.
pub uninterp spec fn sniffed_kind(prefix: Seq<u8>) -> Option<(Seq<char>, Seq<char>)>;

/// Relies on `infer::get`, with `Type::extension` and `Type::mime_type`: the
/// kind recognized from a content prefix depends on those bytes alone.
#[verifier::external_body]
fn sniff(prefix: &[u8]) -> (r: Option<(String, String)>)
    ensures
        match r {
            Some(k) => sniffed_kind(prefix@) == Some((k.0@, k.1@)),
            None => sniffed_kind(prefix@) is None,
        },
{
    match infer::get(prefix) {
        Some(kind) => Some((kind.extension().to_string(), kind.mime_type().to_string())),
        None => None,
    }
}

/// Names what `str::to_lowercase` makes of a text.
pub uninterp spec fn lower_of(s: Seq<char>) -> Seq<char>;

/// Relies on `str::to_lowercase`: the result depends on the characters alone.
#[verifier::external_body]
fn lowercase(s: &str) -> (r: String)
    ensures
        r@ == lower_of(s@),
{
    s.to_lowercase()
}

/// Names the outcome of compiling `pattern` with regex's `Regex::new` and
/// searching `text` with `Regex::is_match`: `None` where the pattern does not
/// compile, else whether it matches somewhere in the text.
pub uninterp spec fn regex_outcome(pattern: Seq<char>, text: Seq<char>) -> Option<bool>;

/// Relies on regex's `Regex::new` and `Regex::is_match`: whether a pattern
/// compiles, and whether it then matches, depend on pattern and text alone.
#[verifier::external_body]
fn regex_search(pattern: &str, text: &str) -> (r: Option<bool>)
    ensures
        r == regex_outcome(pattern@, text@),
{
    match regex::Regex::new(pattern) {
        Ok(re) => Some(re.is_match(text)),
        Err(_) => None,
    }
}

pub open spec fn is_digit(c: char) -> bool {
    '0' <= c && c <= '9'
}

/// One or more decimal digits.
pub open spec fn all_digits(s: Seq<char>) -> bool {
    s.len() > 0 && forall|i: int| 0 <= i < s.len() ==> is_digit(#[trigger] s[i])
}

pub open spec fn decimal_value(s: Seq<char>) -> int
    decreases s.len(),
{
    if s.len() == 0 {
        0
    } else {
        decimal_value(s.drop_last()) * 10 + ((s.last() as u32) - ('0' as u32))
    }
}

/// The integer a text denotes: an optional `+` or `-`, then decimal digits.
pub open spec fn signed_decimal(s: Seq<char>) -> Option<int> {
    if s.len() > 0 && s[0] == '-' && all_digits(s.drop_first()) {
        Some(-decimal_value(s.drop_first()))
    } else if s.len() > 0 && s[0] == '+' && all_digits(s.drop_first()) {
        Some(decimal_value(s.drop_first()))
    } else if all_digits(s) {
        Some(decimal_value(s))
    } else {
        None
    }
}

/// The `i64` a text denotes, where it denotes one in range.
pub open spec fn i64_of_text(s: Seq<char>) -> Option<i64> {
    match signed_decimal(s) {
        Some(v) => if i64::MIN <= v <= i64::MAX {
            Some(v as i64)
        } else {
            None
        },
        None => None,
    }
}

/// Relies on `str::parse::<i64>` (`i64::from_str`): an optional `+` or `-`
/// followed by decimal digits, whose value must fit in an `i64`.
#[verifier::external_body]
fn parse_i64(s: &str) -> (r: Option<i64>)
    ensures
        r == i64_of_text(s@),
{
    s.parse::<i64>().ok()
}

/// Seconds per unit letter of an age limit: hours, days, weeks, months of
/// 30 days and years of 365 days, in either case.
pub open spec fn unit_seconds(c: char) -> Option<int> {
    if c == 'h' || c == 'H' {
        Some(3600)
    } else if c == 'd' || c == 'D' {
        Some(86400)
    } else if c == 'w' || c == 'W' {
        Some(604800)
    } else if c == 'm' || c == 'M' {
        Some(2592000)
    } else if c == 'y' || c == 'Y' {
        Some(31536000)
    } else {
        None
    }
}

/// The length in seconds of an age limit such as `7d`: a whole number, then
/// one unit letter.
pub open spec fn age_limit_seconds(s: Seq<char>) -> Option<int> {
    if s.len() == 0 {
        None
    } else {
        match (i64_of_text(s.drop_last()), unit_seconds(s.last())) {
            (Some(n), Some(u)) => Some(n * u),
            _ => None,
        }
    }
}

/// Reads an age limit such as `7d` or `12h` as a number of seconds.
pub fn parse_age(s: &str) -> (r: Option<i128>)
    ensures
        match r {
            Some(v) => age_limit_seconds(s@) == Some(v as int),
            None => age_limit_seconds(s@) is None,
        },
{
    let cs = chars_of(s);
    if cs.len() == 0 {
        return None;
    }
    let last = cs[cs.len() - 1];
    let unit: i128 = if last == 'h' || last == 'H' {
        3600
    } else if last == 'd' || last == 'D' {
        86400
    } else if last == 'w' || last == 'W' {
        604800
    } else if last == 'm' || last == 'M' {
        2592000
    } else if last == 'y' || last == 'Y' {
        31536000
    } else {
        return None;
    };
    let mut num: Vec<char> = Vec::new();
    let mut i: usize = 0;
    while i < cs.len() - 1
        invariant
            cs.len() > 0,
            i <= cs.len() - 1,
            num@ == cs@.subrange(0, i as int),
        decreases cs.len() - 1 - i,
    {
        num.push(cs[i]);
        i = i + 1;
    }
    assert(num@ =~= s@.drop_last());
    let text = string_of(&num);
    match parse_i64(text.as_str()) {
        Some(n) => {
            assert(-9223372036854775808 * 31536000 <= n * unit <= 9223372036854775807 * 31536000)
                by (nonlinear_arith)
                requires
                    i64::MIN <= n <= i64::MAX,
                    0 < unit <= 31536000,
            ;
            Some(n as i128 * unit)
        },
        None => None,
    }
}

/// The extension half of a sniffed kind.
pub open spec fn kind_ext(k: Option<(Seq<char>, Seq<char>)>) -> Option<Seq<char>> {
    match k {
        Some(p) => Some(p.0),
        None => None,
    }
}

/// The mime half of a sniffed kind.
pub open spec fn kind_mime(k: Option<(Seq<char>, Seq<char>)>) -> Option<Seq<char>> {
    match k {
        Some(p) => Some(p.1),
        None => None,
    }
}

/// The kind sniffed from the file's content prefix.
pub open spec fn sniff_of(f: FileFacts) -> Option<(Seq<char>, Seq<char>)> {
    match f.prefix {
        Some(b) => sniffed_kind(b@),
        None => None,
    }
}

/// The file name's own extension, case-folded.
pub open spec fn literal_ext(f: FileFacts) -> Option<Seq<char>> {
    match extension_of(f.file_name@) {
        Some(e) => Some(lower_of(e)),
        None => None,
    }
}

/// A declared mime type matches exactly, or as a `type/*` wildcard.
pub open spec fn mime_hit(r: Rule, mime: Option<Seq<char>>) -> bool {
    match (r.mime, mime) {
        (Some(m), Some(am)) => m@ == am || (ends_with(m@, "/*"@) && starts_with(am, m@.drop_last())),
        _ => false,
    }
}

/// A semantic preset matches the sniffed mime type.
pub open spec fn preset_hit(r: Rule, mime: Option<Seq<char>>) -> bool {
    match (r.file_type, mime) {
        (Some(t), Some(am)) => if t@ == "image"@ {
            starts_with(am, "image/"@)
        } else if t@ == "video"@ {
            starts_with(am, "video/"@)
        } else if t@ == "audio"@ {
            starts_with(am, "audio/"@)
        } else if t@ == "document"@ {
            contains_seq(am, "pdf"@) || contains_seq(am, "word"@) || contains_seq(am, "text"@)
        } else {
            false
        },
        _ => false,
    }
}

/// One of the listed extensions, case-folded, is the sniffed or the literal
/// extension.
pub open spec fn listed(es: Seq<String>, sniffed: Option<Seq<char>>, literal: Option<Seq<char>>) -> bool {
    exists|i: int|
        0 <= i < es.len() && (Some(lower_of(#[trigger] es[i]@)) == sniffed || Some(lower_of(es[i]@))
            == literal)
}

pub open spec fn ext_hit(r: Rule, sniffed: Option<Seq<char>>, literal: Option<Seq<char>>) -> bool {
    match r.extensions {
        Some(es) => listed(es@, sniffed, literal),
        None => false,
    }
}

pub open spec fn regex_hit(r: Rule, name: Seq<char>) -> bool {
    match r.regex {
        Some(p) => regex_outcome(p@, name) == Some(true),
        None => false,
    }
}

/// A predicate of the rule that needs no oracle matches the file.
pub open spec fn local_hit(r: Rule, f: FileFacts) -> bool {
    let k = sniff_of(f);
    ||| mime_hit(r, kind_mime(k))
    ||| preset_hit(r, kind_mime(k))
    ||| ext_hit(r, kind_ext(k), literal_ext(f))
    ||| regex_hit(r, f.file_name@)
}

/// The file's age at `now` is below the limit of `d` seconds.
pub open spec fn younger_than(f: FileFacts, now: Timestamp, d: int) -> bool {
    match f.modified {
        Some(m) => now.total_nanos() - m.total_nanos() < d * 1_000_000_000,
        None => false,
    }
}

/// The size and age filters of the rule let the file through.
pub open spec fn filters_pass(r: Rule, f: FileFacts, now: Timestamp) -> bool {
    &&& match r.min_size {
        Some(ms) => f.size >= ms,
        None => true,
    }
    &&& match r.max_age {
        Some(s) => match age_limit_seconds(s@) {
            Some(d) => !younger_than(f, now, d),
            None => true,
        },
        None => true,
    }
}

/// The oracle's recorded answer for rule `i`, if it was asked.
pub open spec fn answer_at(answers: Seq<Option<bool>>, i: int) -> Option<bool> {
    if 0 <= i < answers.len() {
        answers[i]
    } else {
        None
    }
}

/// The result of scanning the rules for one file.
#[derive(Clone, Copy, Debug, PartialEq, Eq, Structural)]
pub enum RuleMatch {
    /// The rule at this index is the decision.
    Matched(usize),
    /// The rule at this index can only be decided by the oracle, which has
    /// not been asked yet.
    AskOracle(usize),
    /// No rule applies.
    NoMatch,
}

/// The decision of scanning `rules` from index `i` on.
pub open spec fn decide_from(
    rules: Seq<Rule>,
    oracle: bool,
    f: FileFacts,
    now: Timestamp,
    answers: Seq<Option<bool>>,
    i: int,
) -> RuleMatch
    decreases rules.len() - i,
{
    if i < 0 || i >= rules.len() {
        RuleMatch::NoMatch
    } else {
        let r = rules[i];
        let next = decide_from(rules, oracle, f, now, answers, i + 1);
        if local_hit(r, f) {
            if filters_pass(r, f, now) {
                RuleMatch::Matched(i as usize)
            } else {
                next
            }
        } else if oracle && r.ai_prompt is Some {
            match answer_at(answers, i) {
                None => RuleMatch::AskOracle(i as usize),
                Some(yes) => if yes && filters_pass(r, f, now) {
                    RuleMatch::Matched(i as usize)
                } else {
                    next
                },
            }
        } else {
            next
        }
    }
}

/// The signals of one file that every rule is tested against.
struct Signals {
    sniff_ext: Option<String>,
    sniff_mime: Option<String>,
    literal: Option<String>,
}

fn signals_of(f: &FileFacts) -> (r: Signals)
    ensures
        opt_view(r.sniff_ext) == kind_ext(sniff_of(*f)),
        opt_view(r.sniff_mime) == kind_mime(sniff_of(*f)),
        opt_view(r.literal) == literal_ext(*f),
{
    let kind = match &f.prefix {
        Some(b) => sniff(b.as_slice()),
        None => None,
    };
    let (sniff_ext, sniff_mime) = match kind {
        Some(k) => (Some(k.0), Some(k.1)),
        None => (None, None),
    };
    let name = chars_of(f.file_name.as_str());
    let (_, ext) = split_name(&name);
    let literal = match ext {
        Some(e) => {
            let t = string_of(&e);
            Some(lowercase(t.as_str()))
        },
        None => None,
    };
    Signals { sniff_ext, sniff_mime, literal }
}

fn mime_matches(r: &Rule, mime: &Option<String>) -> (b: bool)
    ensures
        b == mime_hit(*r, opt_view(*mime)),
{
    match (&r.mime, mime) {
        (Some(m), Some(am)) => {
            if *m == *am {
                return true;
            }
            let mc = chars_of(m.as_str());
            let ac = chars_of(am.as_str());
            let wild = chars_of("/*");
            proof {
                reveal_strlit("/*");
            }
            if ends_with_chars(&mc, &wild) {
                let mut head: Vec<char> = Vec::new();
                let mut i: usize = 0;
                while i < mc.len() - 1
                    invariant
                        mc.len() > 0,
                        i <= mc.len() - 1,
                        head@ == mc@.subrange(0, i as int),
                    decreases mc.len() - 1 - i,
                {
                    head.push(mc[i]);
                    i = i + 1;
                }
                assert(head@ =~= m@.drop_last());
                starts_with_chars(&ac, &head)
            } else {
                false
            }
        },
        _ => false,
    }
}

fn preset_matches(r: &Rule, mime: &Option<String>) -> (b: bool)
    ensures
        b == preset_hit(*r, opt_view(*mime)),
{
    match (&r.file_type, mime) {
        (Some(t), Some(am)) => {
            let tc = chars_of(t.as_str());
            let ac = chars_of(am.as_str());
            if same_chars(&tc, &chars_of("image")) {
                starts_with_chars(&ac, &chars_of("image/"))
            } else if same_chars(&tc, &chars_of("video")) {
                starts_with_chars(&ac, &chars_of("video/"))
            } else if same_chars(&tc, &chars_of("audio")) {
                starts_with_chars(&ac, &chars_of("audio/"))
            } else if same_chars(&tc, &chars_of("document")) {
                contains_chars(&ac, &chars_of("pdf")) || contains_chars(&ac, &chars_of("word"))
                    || contains_chars(&ac, &chars_of("text"))
            } else {
                false
            }
        },
        _ => false,
    }
}

fn ext_matches(r: &Rule, sniffed: &Option<String>, literal: &Option<String>) -> (b: bool)
    ensures
        b == ext_hit(*r, opt_view(*sniffed), opt_view(*literal)),
{
    match &r.extensions {
        Some(es) => {
            let mut i: usize = 0;
            while i < es.len()
                invariant
                    i <= es.len(),
                    r.extensions == Some(*es),
                    forall|k: int|
                        0 <= k < i ==> !(Some(lower_of(#[trigger] es@[k]@)) == opt_view(*sniffed)
                            || Some(lower_of(es@[k]@)) == opt_view(*literal)),
                decreases es.len() - i,
            {
                let low = lowercase(es[i].as_str());
                let on_sniffed = match sniffed {
                    Some(x) => low == *x,
                    None => false,
                };
                let on_literal = match literal {
                    Some(x) => low == *x,
                    None => false,
                };
                if on_sniffed || on_literal {
                    assert(0 <= i < es@.len() && (Some(lower_of(es@[i as int]@)) == opt_view(*sniffed)
                        || Some(lower_of(es@[i as int]@)) == opt_view(*literal)));
                    assert(listed(es@, opt_view(*sniffed), opt_view(*literal)));
                    return true;
                }
                i = i + 1;
            }
            false
        },
        None => false,
    }
}

fn regex_matches(r: &Rule, name: &String) -> (b: bool)
    ensures
        b == regex_hit(*r, name@),
{
    match &r.regex {
        Some(p) => match regex_search(p.as_str(), name.as_str()) {
            Some(found) => found,
            None => false,
        },
        None => false,
    }
}

fn passes_filters(r: &Rule, f: &FileFacts, now: Timestamp) -> (b: bool)
    ensures
        b == filters_pass(*r, *f, now),
{
    if let Some(ms) = r.min_size {
        if f.size < ms {
            return false;
        }
    }
    if let Some(s) = &r.max_age {
        if let Some(d) = parse_age(s.as_str()) {
            if let Some(m) = f.modified {
                let age: i128 = (now.secs as i128 - m.secs as i128) * 1_000_000_000 + (now.nanos as i128
                    - m.nanos as i128);
                assert(-31536000 * 9223372036854775808 <= d <= 31536000 * 9223372036854775808);
                assert(-31536000 * 9223372036854775808 * 1000000000 <= d * 1000000000
                    <= 31536000 * 9223372036854775808 * 1000000000) by (nonlinear_arith)
                    requires
                        -31536000 * 9223372036854775808 <= d <= 31536000 * 9223372036854775808,
                ;
                if age < d * 1_000_000_000 {
                    return false;
                }
            }
        }
    }
    true
}

impl Engine {
    /// Scans the rules in order for the first that the file falls under,
    /// given the oracle answers collected so far (`answers[i]` for rule `i`).
    /// Where a rule can only be decided by the oracle and no answer for it is
    /// recorded, the scan stops with `AskOracle(i)`; the caller asks and
    /// scans again with the answer recorded.
    pub fn match_rule(&self, facts: &FileFacts, now: Timestamp, answers: &Vec<Option<bool>>) -> (r:
        RuleMatch)
        ensures
            r == decide_from(self.config.rules@, self.oracle_enabled, *facts, now, answers@, 0),
    {
        let sig = signals_of(facts);
        let rules = &self.config.rules;
        let mut i: usize = 0;
        while i < rules.len()
            invariant
                i <= rules.len(),
                rules == &self.config.rules,
                opt_view(sig.sniff_ext) == kind_ext(sniff_of(*facts)),
                opt_view(sig.sniff_mime) == kind_mime(sniff_of(*facts)),
                opt_view(sig.literal) == literal_ext(*facts),
                decide_from(rules@, self.oracle_enabled, *facts, now, answers@, 0) == decide_from(
                    rules@,
                    self.oracle_enabled,
                    *facts,
                    now,
                    answers@,
                    i as int,
                ),
            decreases rules.len() - i,
        {
            let rule = &rules[i];
            let hit = mime_matches(rule, &sig.sniff_mime) || preset_matches(rule, &sig.sniff_mime)
                || ext_matches(rule, &sig.sniff_ext, &sig.literal) || regex_matches(
                rule,
                &facts.file_name,
            );
            if hit {
                if passes_filters(rule, facts, now) {
                    return RuleMatch::Matched(i);
                }
            } else if self.oracle_enabled && rule.ai_prompt.is_some() {
                let answer = if i < answers.len() {
                    answers[i]
                } else {
                    None
                };
                match answer {
                    None => {
                        return RuleMatch::AskOracle(i);
                    },
                    Some(yes) => {
                        if yes && passes_filters(rule, facts, now) {
                            return RuleMatch::Matched(i);
                        }
                    },
                }
            }
            i = i + 1;
        }
        RuleMatch::NoMatch
    }
}

/// The scan stops at rule `j`: it either selects the rule or has to ask
/// the oracle about it.
pub open spec fn stops_at(
    rules: Seq<Rule>,
    oracle: bool,
    f: FileFacts,
    now: Timestamp,
    answers: Seq<Option<bool>>,
    j: int,
) -> bool {
    let r = rules[j];
    if local_hit(r, f) {
        filters_pass(r, f, now)
    } else if oracle && r.ai_prompt is Some {
        match answer_at(answers, j) {
            None => true,
            Some(yes) => yes && filters_pass(r, f, now),
        }
    } else {
        false
    }
}

proof fn lemma_scan_skips(
    rules: Seq<Rule>,
    oracle: bool,
    f: FileFacts,
    now: Timestamp,
    answers: Seq<Option<bool>>,
    i: int,
    k: int,
)
    requires
        0 <= i <= k <= rules.len(),
        forall|j: int| i <= j < k ==> !stops_at(rules, oracle, f, now, answers, j),
    ensures
        decide_from(rules, oracle, f, now, answers, i) == decide_from(
            rules,
            oracle,
            f,
            now,
            answers,
            k,
        ),
    decreases k - i,
{
    if i < k {
        assert(!stops_at(rules, oracle, f, now, answers, i));
        lemma_scan_skips(rules, oracle, f, now, answers, i + 1, k);
    }
}

proof fn lemma_scan_stops_by(
    rules: Seq<Rule>,
    oracle: bool,
    f: FileFacts,
    now: Timestamp,
    answers: Seq<Option<bool>>,
    i: int,
    k: int,
)
    requires
        0 <= i <= k < rules.len(),
        rules.len() <= usize::MAX,
        local_hit(rules[k], f),
        filters_pass(rules[k], f, now),
    ensures
        match decide_from(rules, oracle, f, now, answers, i) {
            RuleMatch::Matched(j) => i <= j <= k,
            RuleMatch::AskOracle(j) => i <= j < k,
            RuleMatch::NoMatch => false,
        },
    decreases k - i,
{
    if i < k {
        lemma_scan_stops_by(rules, oracle, f, now, answers, i + 1, k);
    }
}

/// A file whose sniffed or literal extension is listed by rule `k`, and that
/// rule's size and age filters let through, is classified under rule `k`
/// when no earlier rule stops the scan.
pub proof fn lemma_listed_extension_selects(
    rules: Seq<Rule>,
    oracle: bool,
    f: FileFacts,
    now: Timestamp,
    answers: Seq<Option<bool>>,
    k: int,
)
    requires
        0 <= k < rules.len(),
        rules.len() <= usize::MAX,
        ext_hit(rules[k], kind_ext(sniff_of(f)), literal_ext(f)),
        filters_pass(rules[k], f, now),
        forall|j: int| 0 <= j < k ==> !stops_at(rules, oracle, f, now, answers, j),
    ensures
        decide_from(rules, oracle, f, now, answers, 0) == RuleMatch::Matched(k as usize),
{
    lemma_scan_skips(rules, oracle, f, now, answers, 0, k);
}

/// Of two rules that both match a file, the later is never selected: the
/// decision falls on the earlier one or on a rule before it.
pub proof fn lemma_earlier_rule_wins(
    rules: Seq<Rule>,
    oracle: bool,
    f: FileFacts,
    now: Timestamp,
    answers: Seq<Option<bool>>,
    i: int,
    k: int,
)
    requires
        0 <= i < k < rules.len(),
        rules.len() <= usize::MAX,
        local_hit(rules[i], f),
        filters_pass(rules[i], f, now),
        local_hit(rules[k], f),
        filters_pass(rules[k], f, now),
    ensures
        decide_from(rules, oracle, f, now, answers, 0) != RuleMatch::Matched(k as usize),
        match decide_from(rules, oracle, f, now, answers, 0) {
            RuleMatch::Matched(j) => j <= i,
            RuleMatch::AskOracle(j) => j < i,
            RuleMatch::NoMatch => false,
        },
{
    lemma_scan_stops_by(rules, oracle, f, now, answers, 0, i);
}

} // verus!
