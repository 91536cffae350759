//! The text exposition format as spec functions: what a line is, and how the
//! lines of a scrape group into metric families.
use vstd::prelude::*;
use crate::model::{FamilyV, LabelsV, SampleType, SampleV};

verus! {

/// A class of characters that a scan runs over.
#[derive(Clone, Copy, PartialEq, Eq, Structural)]
pub enum Class {
    /// Characters of a metric name after its first one.
    Name,
    /// Characters of a label name after its first one.
    LabelName,
    Digit,
    /// Blanks that separate tokens on a line.
    Space,
    /// Anything but a blank.
    Token,
}

pub open spec fn is_alpha(c: char) -> bool {
    ('a' <= c && c <= 'z') || ('A' <= c && c <= 'Z')
}

pub open spec fn is_digit(c: char) -> bool {
    '0' <= c && c <= '9'
}

pub open spec fn is_space(c: char) -> bool {
    c == ' ' || c == '\t'
}

pub open spec fn is_name_start(c: char) -> bool {
    is_alpha(c) || c == '_' || c == ':'
}

pub open spec fn is_label_start(c: char) -> bool {
    is_alpha(c) || c == '_'
}

pub open spec fn in_class(c: char, k: Class) -> bool {
    match k {
        Class::Name => is_name_start(c) || is_digit(c),
        Class::LabelName => is_label_start(c) || is_digit(c),
        Class::Digit => is_digit(c),
        Class::Space => is_space(c),
        Class::Token => !is_space(c),
    }
}

/// The end of the longest run of class `k` that starts at `i`.
pub open spec fn scan(t: Seq<char>, i: int, k: Class) -> int
    decreases t.len() - i,
{
    if 0 <= i < t.len() && in_class(t[i], k) {
        scan(t, i + 1, k)
    } else {
        i
    }
}

/// The index of the quote that closes a label value whose text starts at `i`,
/// or `t.len()` where it is not closed. A backslash escapes the character after it.
pub open spec fn quoted_end(t: Seq<char>, i: int) -> int
    decreases t.len() - i,
{
    if i < 0 || i >= t.len() {
        t.len() as int
    } else if t[i] == '"' {
        i
    } else if t[i] == '\\' {
        if i + 1 < t.len() {
            quoted_end(t, i + 2)
        } else {
            t.len() as int
        }
    } else {
        quoted_end(t, i + 1)
    }
}

/// The pairs of a label list from `i` (after `{` or `,`) to its `}`, and the
/// index after that brace.
pub open spec fn parse_label_list(t: Seq<char>, i: int) -> Option<(LabelsV, int)>
    decreases t.len() - i,
{
    if i < 0 || i >= t.len() {
        None
    } else if t[i] == '}' {
        Some((seq![], i + 1))
    } else if !is_label_start(t[i]) {
        None
    } else {
        let j = scan(t, i + 1, Class::LabelName);
        if i < j && j + 1 < t.len() && t[j] == '=' && t[j + 1] == '"' {
            let k = quoted_end(t, j + 2);
            if j + 2 <= k && k + 1 < t.len() {
                let pair = (t.subrange(i, j), t.subrange(j + 2, k));
                if t[k + 1] == ',' {
                    match parse_label_list(t, k + 2) {
                        Some((rest, e)) => Some((seq![pair] + rest, e)),
                        None => None,
                    }
                } else if t[k + 1] == '}' {
                    Some((seq![pair], k + 2))
                } else {
                    None
                }
            } else {
                None
            }
        } else {
            None
        }
    }
}

pub open spec fn float_literal(t: Seq<char>) -> bool {
    let a: int = if t.len() > 0 && (t[0] == '+' || t[0] == '-') {
        1
    } else {
        0
    };
    let b = scan(t, a, Class::Digit);
    let dot = b < t.len() && t[b] == '.';
    let c = if dot {
        scan(t, b + 1, Class::Digit)
    } else {
        b
    };
    let digits = if dot {
        (b - a) + (c - (b + 1))
    } else {
        b - a
    };
    digits > 0 && (c == t.len() || (c < t.len() && (t[c] == 'e' || t[c] == 'E')
        && exponent_digits(t, c + 1)))
}

/// An optional sign and one or more digits, from `d0` to the end.
pub open spec fn exponent_digits(t: Seq<char>, d0: int) -> bool {
    let d: int = if d0 < t.len() && (t[d0] == '+' || t[d0] == '-') {
        d0 + 1
    } else {
        d0
    };
    let e = scan(t, d, Class::Digit);
    d < e && e == t.len()
}

pub open spec fn valid_value(t: Seq<char>) -> bool {
    t == "NaN"@ || t == "+Inf"@ || t == "-Inf"@ || float_literal(t)
}

pub open spec fn valid_timestamp(t: Seq<char>) -> bool {
    let a: int = if t.len() > 0 && t[0] == '-' {
        1
    } else {
        0
    };
    let e = scan(t, a, Class::Digit);
    a < e && e == t.len()
}

pub open spec fn type_of(w: Seq<char>) -> Option<SampleType> {
    if w == "counter"@ {
        Some(SampleType::Counter)
    } else if w == "gauge"@ {
        Some(SampleType::Gauge)
    } else if w == "histogram"@ {
        Some(SampleType::Histogram)
    } else if w == "summary"@ {
        Some(SampleType::Summary)
    } else if w == "untyped"@ {
        Some(SampleType::Untyped)
    } else {
        None
    }
}

/// One line of an exposition, without its newline.
pub enum LineV {
    Blank,
    Comment,
    Help(Seq<char>, Seq<char>),
    Type(Seq<char>, SampleType),
    Sample(SampleV),
}

/// `name [{labels}] value [timestamp]`, blanks between the tokens.
pub open spec fn parse_sample_line(t: Seq<char>) -> Option<SampleV> {
    if t.len() == 0 || !is_name_start(t[0]) {
        None
    } else {
        let e = scan(t, 1, Class::Name);
        let lab = if e < t.len() && t[e] == '{' {
            parse_label_list(t, e + 1)
        } else {
            Some((seq![], e))
        };
        match lab {
            None => None,
            Some((labels, p)) => {
                if 0 <= p < t.len() && is_space(t[p]) {
                    let v0 = scan(t, p, Class::Space);
                    let v1 = scan(t, v0, Class::Token);
                    let r = scan(t, v1, Class::Space);
                    let te = scan(t, r, Class::Token);
                    if valid_value(t.subrange(v0, v1)) && (r == t.len() || (v1 <= r <= te <= t.len()
                        && valid_timestamp(t.subrange(r, te)) && scan(t, te, Class::Space)
                        == t.len())) {
                        Some(SampleV { var: t.subrange(0, e), labels, value: t.subrange(v0, v1) })
                    } else {
                        None
                    }
                } else {
                    None
                }
            },
        }
    }
}

/// The metric name after a descriptor keyword that ends at `b`, and where it ends.
pub open spec fn descriptor_name(t: Seq<char>, b: int) -> Option<(int, int)> {
    if 0 <= b < t.len() && is_space(t[b]) {
        let c = scan(t, b, Class::Space);
        if 0 <= c < t.len() && is_name_start(t[c]) {
            Some((c, scan(t, c + 1, Class::Name)))
        } else {
            None
        }
    } else {
        None
    }
}

/// `# HELP name text`: the text is the rest of the line after the blanks that follow the name.
pub open spec fn parse_help_line(t: Seq<char>, b: int) -> Option<LineV> {
    match descriptor_name(t, b) {
        None => None,
        Some((c, d)) => {
            if d >= t.len() {
                Some(LineV::Help(t.subrange(c, d), seq![]))
            } else if 0 <= d && is_space(t[d]) {
                Some(LineV::Help(t.subrange(c, d), t.subrange(scan(t, d, Class::Space), t.len() as int)))
            } else {
                None
            }
        },
    }
}

/// `# TYPE name type`.
pub open spec fn parse_type_line(t: Seq<char>, b: int) -> Option<LineV> {
    match descriptor_name(t, b) {
        None => None,
        Some((c, d)) => {
            if 0 <= d < t.len() && is_space(t[d]) {
                let e = scan(t, d, Class::Space);
                let f = scan(t, e, Class::Token);
                match type_of(t.subrange(e, f)) {
                    Some(ty) => if scan(t, f, Class::Space) == t.len() {
                        Some(LineV::Type(t.subrange(c, d), ty))
                    } else {
                        None
                    },
                    None => None,
                }
            } else {
                None
            }
        },
    }
}

/// A line that starts with `#`: a descriptor where its first word is `HELP` or
/// `TYPE` after at least one blank, else a comment.
pub open spec fn parse_comment_line(t: Seq<char>) -> Option<LineV> {
    let a = scan(t, 1, Class::Space);
    let b = scan(t, a, Class::Token);
    if 1 < a && a <= b <= t.len() && t.subrange(a, b) == "HELP"@ {
        parse_help_line(t, b)
    } else if 1 < a && a <= b <= t.len() && t.subrange(a, b) == "TYPE"@ {
        parse_type_line(t, b)
    } else {
        Some(LineV::Comment)
    }
}

#[verifier::opaque]
pub open spec fn parse_line(t: Seq<char>) -> Option<LineV> {
    if scan(t, 0, Class::Space) == t.len() {
        Some(LineV::Blank)
    } else if t[0] == '#' {
        parse_comment_line(t)
    } else {
        match parse_sample_line(t) {
            Some(s) => Some(LineV::Sample(s)),
            None => None,
        }
    }
}

/// Whether a sample named `s` belongs to the family named `n` of type `ty`.
pub open spec fn sample_matches(n: Seq<char>, ty: SampleType, s: Seq<char>) -> bool {
    s == n || ((ty == SampleType::Histogram || ty == SampleType::Summary) && (s == n + "_bucket"@
        || s == n + "_count"@ || s == n + "_sum"@))
}

/// The families closed so far and the one still open.
pub struct PState {
    pub done: Seq<FamilyV>,
    pub cur: FamilyV,
}

pub open spec fn fresh_family(n: Seq<char>) -> FamilyV {
    FamilyV { var: Some(n), help: None, metric_type: SampleType::Untyped, samples: seq![] }
}

pub open spec fn init_state() -> PState {
    PState {
        done: seq![],
        cur: FamilyV { var: None, help: None, metric_type: SampleType::Untyped, samples: seq![] },
    }
}

/// Whether a family named `n` among `fs` already has samples.
pub open spec fn sampled_in(fs: Seq<FamilyV>, n: Seq<char>) -> bool {
    exists|j: int| 0 <= j < fs.len() && (#[trigger] fs[j]).var == Some(n) && fs[j].samples.len() > 0
}

/// The state in which a descriptor for `n` applies. It fails where the open
/// family has no samples yet and another name (a name mismatch), and where a
/// family named `n` already has samples in this scrape (a descriptor after
/// samples); else it applies to the open family of that name, or closes the
/// open family and opens one for `n`.
pub open spec fn open_for(st: PState, n: Seq<char>) -> Option<PState> {
    if sampled_in(st.done, n) {
        None
    } else {
        match st.cur.var {
            None => Some(PState { done: st.done, cur: fresh_family(n) }),
            Some(m) => if st.cur.samples.len() == 0 {
                if m == n {
                    Some(st)
                } else {
                    None
                }
            } else if m == n {
                None
            } else {
                Some(PState { done: st.done.push(st.cur), cur: fresh_family(n) })
            },
        }
    }
}

pub open spec fn with_help(f: FamilyV, h: Seq<char>) -> FamilyV {
    FamilyV { var: f.var, help: Some(h), metric_type: f.metric_type, samples: f.samples }
}

pub open spec fn with_type(f: FamilyV, ty: SampleType) -> FamilyV {
    FamilyV { var: f.var, help: f.help, metric_type: ty, samples: f.samples }
}

pub open spec fn with_sample(f: FamilyV, s: SampleV) -> FamilyV {
    FamilyV { var: f.var, help: f.help, metric_type: f.metric_type, samples: f.samples.push(s) }
}

/// A sample with the configured labels placed before its own.
pub open spec fn augment(s: SampleV, aug: LabelsV) -> SampleV {
    SampleV { var: s.var, labels: aug + s.labels, value: s.value }
}

pub open spec fn step(st: PState, l: LineV, aug: LabelsV) -> Option<PState> {
    match l {
        LineV::Blank => Some(st),
        LineV::Comment => Some(st),
        LineV::Help(n, h) => match open_for(st, n) {
            Some(s2) => Some(PState { done: s2.done, cur: with_help(s2.cur, h) }),
            None => None,
        },
        LineV::Type(n, ty) => match open_for(st, n) {
            Some(s2) => Some(PState { done: s2.done, cur: with_type(s2.cur, ty) }),
            None => None,
        },
        LineV::Sample(s) => {
            let s2 = augment(s, aug);
            match st.cur.var {
                None => Some(PState { done: st.done, cur: with_sample(fresh_family(s.var), s2) }),
                Some(m) => if sample_matches(m, st.cur.metric_type, s.var) {
                    Some(PState { done: st.done, cur: with_sample(st.cur, s2) })
                } else {
                    Some(
                        PState {
                            done: st.done.push(st.cur),
                            cur: with_sample(fresh_family(s.var), s2),
                        },
                    )
                },
            }
        },
    }
}

pub open spec fn finish(st: PState) -> Seq<FamilyV> {
    match st.cur.var {
        Some(_) => st.done.push(st.cur),
        None => st.done,
    }
}

/// The first newline at or after `i`, or `s.len()`.
pub open spec fn newline_index(s: Seq<char>, i: int) -> int
    decreases s.len() - i,
{
    if 0 <= i < s.len() && s[i] != '\n' {
        newline_index(s, i + 1)
    } else {
        i
    }
}

/// The families of the lines from `p` on, given the state that the earlier lines left.
/// Every line, the last included, ends with a newline.
pub open spec fn parse_from(s: Seq<char>, p: int, st: PState, aug: LabelsV) -> Option<
    Seq<FamilyV>,
>
    decreases s.len() - p,
{
    if p < 0 || p >= s.len() {
        Some(finish(st))
    } else {
        let k = newline_index(s, p);
        if k < p || k >= s.len() {
            None
        } else {
            match parse_line(s.subrange(p, k)) {
                None => None,
                Some(l) => match step(st, l, aug) {
                    None => None,
                    Some(st2) => parse_from(s, k + 1, st2, aug),
                },
            }
        }
    }
}

/// The labels that the scraper adds to every sample: `instance`, then `job`.
pub open spec fn added_labels(instance: Option<Seq<char>>, job: Option<Seq<char>>) -> LabelsV {
    let i: LabelsV = match instance {
        Some(v) => seq![("instance"@, v)],
        None => seq![],
    };
    let j: LabelsV = match job {
        Some(v) => seq![("job"@, v)],
        None => seq![],
    };
    i + j
}

/// The families that an exposition decodes to, or `None` where it is malformed.
pub open spec fn parse_spec(
    instance: Option<Seq<char>>,
    job: Option<Seq<char>>,
    input: Seq<char>,
) -> Option<Seq<FamilyV>> {
    parse_from(input, 0, init_state(), added_labels(instance, job))
}

pub proof fn lemma_scan_bounds(t: Seq<char>, i: int, k: Class)
    requires
        0 <= i <= t.len(),
    ensures
        i <= scan(t, i, k) <= t.len(),
        forall|j: int| i <= j < scan(t, i, k) ==> in_class(#[trigger] t[j], k),
        scan(t, i, k) < t.len() ==> !in_class(t[scan(t, i, k)], k),
    decreases t.len() - i,
{
    if i < t.len() && in_class(t[i], k) {
        lemma_scan_bounds(t, i + 1, k);
    }
}

pub proof fn lemma_quoted_end_bounds(t: Seq<char>, i: int)
    requires
        0 <= i <= t.len(),
    ensures
        i <= quoted_end(t, i) <= t.len(),
    decreases t.len() - i,
{
    if i < t.len() && t[i] != '"' {
        if t[i] == '\\' {
            if i + 1 < t.len() {
                lemma_quoted_end_bounds(t, i + 2);
            }
        } else {
            lemma_quoted_end_bounds(t, i + 1);
        }
    }
}

pub proof fn lemma_label_list_end(t: Seq<char>, i: int)
    ensures
        parse_label_list(t, i) matches Some((l, e)) ==> i < e <= t.len(),
    decreases t.len() - i,
{
    if 0 <= i < t.len() && t[i] != '}' && is_label_start(t[i]) {
        let j = scan(t, i + 1, Class::LabelName);
        if i < j && j + 1 < t.len() && t[j] == '=' && t[j + 1] == '"' {
            let k = quoted_end(t, j + 2);
            if j + 2 <= k && k + 1 < t.len() && t[k + 1] == ',' {
                lemma_label_list_end(t, k + 2);
            }
        }
    }
}

pub proof fn lemma_newline_bounds(s: Seq<char>, i: int)
    requires
        0 <= i <= s.len(),
    ensures
        i <= newline_index(s, i) <= s.len(),
        forall|j: int| i <= j < newline_index(s, i) ==> #[trigger] s[j] != '\n',
        newline_index(s, i) < s.len() ==> s[newline_index(s, i)] == '\n',
    decreases s.len() - i,
{
    if i < s.len() && s[i] != '\n' {
        lemma_newline_bounds(s, i + 1);
    }
}

} // verus!
