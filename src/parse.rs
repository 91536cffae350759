//! The decoder of the text exposition format.
use vstd::prelude::*;
use crate::grammar::{
    added_labels, augment, descriptor_name, exponent_digits, finish, float_literal, fresh_family,
    in_class, init_state, lemma_label_list_end, lemma_quoted_end_bounds, newline_index, open_for,
    parse_comment_line, parse_from, parse_label_list, sampled_in, parse_line, parse_sample_line, parse_spec,
    quoted_end, sample_matches, scan, step, type_of, valid_timestamp, valid_value, Class, LineV,
    PState,
};
use crate::model::{clone_labels, families_view, labels_view, opt_str_view, samples_view};
pub use crate::model::{LabelSet, MetricFamily, Sample, SampleType};
use crate::text::{chars_of, copy_range, is_concat, range_eq, same_chars, string_of, string_of_all};

verus! {

/// The words that the decoder compares tokens with.
pub struct Words {
    pub help: Vec<char>,
    pub type_: Vec<char>,
    pub nan: Vec<char>,
    pub pos_inf: Vec<char>,
    pub neg_inf: Vec<char>,
    pub counter: Vec<char>,
    pub gauge: Vec<char>,
    pub histogram: Vec<char>,
    pub summary: Vec<char>,
    pub untyped: Vec<char>,
    pub bucket: Vec<char>,
    pub count: Vec<char>,
    pub sum: Vec<char>,
}

impl Words {
    pub open spec fn wf(&self) -> bool {
        &&& self.help@ == "HELP"@
        &&& self.type_@ == "TYPE"@
        &&& self.nan@ == "NaN"@
        &&& self.pos_inf@ == "+Inf"@
        &&& self.neg_inf@ == "-Inf"@
        &&& self.counter@ == "counter"@
        &&& self.gauge@ == "gauge"@
        &&& self.histogram@ == "histogram"@
        &&& self.summary@ == "summary"@
        &&& self.untyped@ == "untyped"@
        &&& self.bucket@ == "_bucket"@
        &&& self.count@ == "_count"@
        &&& self.sum@ == "_sum"@
    }

    pub fn new() -> (r: Words)
        ensures
            r.wf(),
    {
        Words {
            help: chars_of("HELP"),
            type_: chars_of("TYPE"),
            nan: chars_of("NaN"),
            pos_inf: chars_of("+Inf"),
            neg_inf: chars_of("-Inf"),
            counter: chars_of("counter"),
            gauge: chars_of("gauge"),
            histogram: chars_of("histogram"),
            summary: chars_of("summary"),
            untyped: chars_of("untyped"),
            bucket: chars_of("_bucket"),
            count: chars_of("_count"),
            sum: chars_of("_sum"),
        }
    }
}

fn class_has(c: char, k: Class) -> (r: bool)
    ensures
        r == in_class(c, k),
{
    let alpha = ('a' <= c && c <= 'z') || ('A' <= c && c <= 'Z');
    let digit = '0' <= c && c <= '9';
    let space = c == ' ' || c == '\t';
    match k {
        Class::Name => alpha || c == '_' || c == ':' || digit,
        Class::LabelName => alpha || c == '_' || digit,
        Class::Digit => digit,
        Class::Space => space,
        Class::Token => !space,
    }
}

fn scan_exec(t: &Vec<char>, i: usize, k: Class) -> (r: usize)
    requires
        i <= t@.len(),
    ensures
        r == scan(t@, i as int, k),
        i <= r <= t@.len(),
{
    let mut j = i;
    while j < t.len() && class_has(t[j], k)
        invariant
            i <= j <= t@.len(),
            scan(t@, i as int, k) == scan(t@, j as int, k),
        decreases t@.len() - j,
    {
        j += 1;
    }
    j
}

fn quoted_end_exec(t: &Vec<char>, i: usize) -> (r: usize)
    requires
        i <= t@.len(),
    ensures
        r == quoted_end(t@, i as int),
{
    let mut j = i;
    loop
        invariant
            i <= j <= t@.len(),
            quoted_end(t@, i as int) == quoted_end(t@, j as int),
        decreases t@.len() - j,
    {
        if j >= t.len() {
            return t.len();
        } else if t[j] == '"' {
            return j;
        } else if t[j] == '\\' {
            if j + 1 < t.len() {
                j = j + 2;
            } else {
                return t.len();
            }
        } else {
            j = j + 1;
        }
    }
}

fn parse_label_list_exec(t: &Vec<char>, i: usize) -> (r: Option<(LabelSet, usize)>)
    requires
        i <= t@.len(),
    ensures
        match r {
            Some((l, e)) => parse_label_list(t@, i as int) == Some((labels_view(l@), e as int)),
            None => parse_label_list(t@, i as int) is None,
        },
    decreases t@.len() - i,
{
    if i >= t.len() {
        return None;
    }
    if t[i] == '}' {
        let r: LabelSet = Vec::new();
        assert(labels_view(r@) =~= seq![]);
        return Some((r, i + 1));
    }
    if !(('a' <= t[i] && t[i] <= 'z') || ('A' <= t[i] && t[i] <= 'Z') || t[i] == '_') {
        return None;
    }
    let j = scan_exec(t, i + 1, Class::LabelName);
    if !(j < t.len() && j + 1 < t.len() && t[j] == '=' && t[j + 1] == '"') {
        return None;
    }
    let k = quoted_end_exec(t, j + 2);
    proof {
        lemma_quoted_end_bounds(t@, j + 2);
    }
    if !(k < t.len() && k + 1 < t.len()) {
        return None;
    }
    let name = string_of(t, i, j);
    let value = string_of(t, j + 2, k);
    if t[k + 1] == ',' {
        match parse_label_list_exec(t, k + 2) {
            Some((rest, e)) => {
                let ghost old_rest = rest@;
                let mut rest = rest;
                rest.insert(0, (name, value));
                assert(labels_view(rest@) =~= seq![(name@, value@)] + labels_view(old_rest));
                Some((rest, e))
            },
            None => None,
        }
    } else if t[k + 1] == '}' {
        let mut r: LabelSet = Vec::new();
        r.push((name, value));
        assert(labels_view(r@) =~= seq![(name@, value@)]);
        Some((r, k + 2))
    } else {
        None
    }
}

fn exponent_digits_exec(t: &Vec<char>, d0: usize) -> (r: bool)
    requires
        d0 <= t@.len(),
    ensures
        r == exponent_digits(t@, d0 as int),
{
    let d = if d0 < t.len() && (t[d0] == '+' || t[d0] == '-') {
        d0 + 1
    } else {
        d0
    };
    let e = scan_exec(t, d, Class::Digit);
    d < e && e == t.len()
}

fn float_literal_exec(t: &Vec<char>) -> (r: bool)
    ensures
        r == float_literal(t@),
{
    let a: usize = if t.len() > 0 && (t[0] == '+' || t[0] == '-') {
        1
    } else {
        0
    };
    let b = scan_exec(t, a, Class::Digit);
    let dot = b < t.len() && t[b] == '.';
    let c = if dot {
        scan_exec(t, b + 1, Class::Digit)
    } else {
        b
    };
    let digits = if dot {
        (b - a) + (c - (b + 1))
    } else {
        b - a
    };
    digits > 0 && (c == t.len() || (c < t.len() && (t[c] == 'e' || t[c] == 'E')
        && exponent_digits_exec(t, c + 1)))
}

pub fn valid_value_exec(t: &Vec<char>, w: &Words) -> (r: bool)
    requires
        w.wf(),
    ensures
        r == valid_value(t@),
{
    let n = t.len();
    assert(t@.subrange(0, n as int) =~= t@);
    range_eq(t, 0, n, &w.nan) || range_eq(t, 0, n, &w.pos_inf) || range_eq(t, 0, n, &w.neg_inf)
        || float_literal_exec(t)
}

fn valid_timestamp_exec(t: &Vec<char>) -> (r: bool)
    ensures
        r == valid_timestamp(t@),
{
    let a: usize = if t.len() > 0 && t[0] == '-' {
        1
    } else {
        0
    };
    let e = scan_exec(t, a, Class::Digit);
    a < e && e == t.len()
}

fn type_of_exec(t: &Vec<char>, a: usize, b: usize, w: &Words) -> (r: Option<SampleType>)
    requires
        w.wf(),
        a <= b <= t@.len(),
    ensures
        r == type_of(t@.subrange(a as int, b as int)),
{
    if range_eq(t, a, b, &w.counter) {
        Some(SampleType::Counter)
    } else if range_eq(t, a, b, &w.gauge) {
        Some(SampleType::Gauge)
    } else if range_eq(t, a, b, &w.histogram) {
        Some(SampleType::Histogram)
    } else if range_eq(t, a, b, &w.summary) {
        Some(SampleType::Summary)
    } else if range_eq(t, a, b, &w.untyped) {
        Some(SampleType::Untyped)
    } else {
        None
    }
}

/// A decoded line; a sample's name comes with it as characters.
pub enum Line {
    Blank,
    Comment,
    Help(Vec<char>, String),
    Type(Vec<char>, SampleType),
    Sample(Vec<char>, Sample),
}

impl Line {
    pub open spec fn view_line(&self) -> LineV {
        match self {
            Line::Blank => LineV::Blank,
            Line::Comment => LineV::Comment,
            Line::Help(n, h) => LineV::Help(n@, h@),
            Line::Type(n, ty) => LineV::Type(n@, *ty),
            Line::Sample(_, s) => LineV::Sample(s@),
        }
    }

    pub open spec fn wf(&self) -> bool {
        self matches Line::Sample(n, s) ==> n@ == s.var@
    }
}

fn parse_sample_line_exec(t: &Vec<char>, w: &Words) -> (r: Option<(Vec<char>, Sample)>)
    requires
        w.wf(),
    ensures
        match r {
            Some((n, s)) => parse_sample_line(t@) == Some(s@) && n@ == s.var@,
            None => parse_sample_line(t@) is None,
        },
{
    if t.len() == 0 {
        return None;
    }
    let c = t[0];
    if !(('a' <= c && c <= 'z') || ('A' <= c && c <= 'Z') || c == '_' || c == ':') {
        return None;
    }
    let e = scan_exec(t, 1, Class::Name);
    let lab = if e < t.len() && t[e] == '{' {
        parse_label_list_exec(t, e + 1)
    } else {
        let l: LabelSet = Vec::new();
        assert(labels_view(l@) =~= seq![]);
        Some((l, e))
    };
    proof {
        lemma_label_list_end(t@, e + 1);
    }
    match lab {
        None => None,
        Some((labels, p)) => {
            if p < t.len() && (t[p] == ' ' || t[p] == '\t') {
                let v0 = scan_exec(t, p, Class::Space);
                let v1 = scan_exec(t, v0, Class::Token);
                let r = scan_exec(t, v1, Class::Space);
                let te = scan_exec(t, r, Class::Token);
                let value_chars = copy_range(t, v0, v1);
                let ok_value = valid_value_exec(&value_chars, w);
                let ok_rest = if r == t.len() {
                    true
                } else {
                    let ts = copy_range(t, r, te);
                    valid_timestamp_exec(&ts) && scan_exec(t, te, Class::Space) == t.len()
                };
                if ok_value && ok_rest {
                    let name = copy_range(t, 0, e);
                    let s = Sample { var: string_of(t, 0, e), labels, value: string_of(t, v0, v1) };
                    Some((name, s))
                } else {
                    None
                }
            } else {
                None
            }
        },
    }
}

fn descriptor_name_exec(t: &Vec<char>, b: usize) -> (r: Option<(usize, usize)>)
    requires
        b <= t@.len(),
    ensures
        match r {
            Some((c, d)) => descriptor_name(t@, b as int) == Some((c as int, d as int)) && c < d
                <= t@.len(),
            None => descriptor_name(t@, b as int) is None,
        },
{
    if b < t.len() && (t[b] == ' ' || t[b] == '\t') {
        let c = scan_exec(t, b, Class::Space);
        if c < t.len() && (('a' <= t[c] && t[c] <= 'z') || ('A' <= t[c] && t[c] <= 'Z') || t[c]
            == '_' || t[c] == ':') {
            Some((c, scan_exec(t, c + 1, Class::Name)))
        } else {
            None
        }
    } else {
        None
    }
}

fn parse_comment_line_exec(t: &Vec<char>, w: &Words) -> (r: Option<Line>)
    requires
        w.wf(),
        t@.len() > 0,
    ensures
        match r {
            Some(l) => parse_comment_line(t@) == Some(l.view_line()) && l.wf(),
            None => parse_comment_line(t@) is None,
        },
{
    let a = scan_exec(t, 1, Class::Space);
    let b = scan_exec(t, a, Class::Token);
    let is_help = 1 < a && range_eq(t, a, b, &w.help);
    let is_type = 1 < a && range_eq(t, a, b, &w.type_);
    if is_help {
        match descriptor_name_exec(t, b) {
            None => None,
            Some((c, d)) => {
                if d >= t.len() {
                    let h = String::new();
                    Some(Line::Help(copy_range(t, c, d), h))
                } else if t[d] == ' ' || t[d] == '\t' {
                    let e = scan_exec(t, d, Class::Space);
                    Some(Line::Help(copy_range(t, c, d), string_of(t, e, t.len())))
                } else {
                    None
                }
            },
        }
    } else if is_type {
        match descriptor_name_exec(t, b) {
            None => None,
            Some((c, d)) => {
                if d < t.len() && (t[d] == ' ' || t[d] == '\t') {
                    let e = scan_exec(t, d, Class::Space);
                    let f = scan_exec(t, e, Class::Token);
                    match type_of_exec(t, e, f, w) {
                        Some(ty) => if scan_exec(t, f, Class::Space) == t.len() {
                            Some(Line::Type(copy_range(t, c, d), ty))
                        } else {
                            None
                        },
                        None => None,
                    }
                } else {
                    None
                }
            },
        }
    } else {
        Some(Line::Comment)
    }
}

/// Decodes one line (without its newline).
pub fn parse_line_exec(t: &Vec<char>, w: &Words) -> (r: Option<Line>)
    requires
        w.wf(),
    ensures
        match r {
            Some(l) => parse_line(t@) == Some(l.view_line()) && l.wf(),
            None => parse_line(t@) is None,
        },
{
    reveal(parse_line);
    if scan_exec(t, 0, Class::Space) == t.len() {
        Some(Line::Blank)
    } else if t[0] == '#' {
        parse_comment_line_exec(t, w)
    } else {
        match parse_sample_line_exec(t, w) {
            Some((n, s)) => Some(Line::Sample(n, s)),
            None => None,
        }
    }
}

/// The families closed so far, the one still open, and the open one's name as characters.
pub struct ParseState {
    pub done: Vec<MetricFamily>,
    pub cur: MetricFamily,
    pub cur_var: Vec<char>,
}

fn empty_family() -> (r: MetricFamily)
    ensures
        r@ == init_state().cur,
{
    let r = MetricFamily { var: None, help: None, metric_type: SampleType::Untyped, samples: Vec::new() };
    assert(r@.samples =~= seq![]);
    r
}

fn new_family(n: &Vec<char>) -> (r: MetricFamily)
    ensures
        r@ == fresh_family(n@),
{
    let r = MetricFamily {
        var: Some(string_of_all(n)),
        help: None,
        metric_type: SampleType::Untyped,
        samples: Vec::new(),
    };
    assert(r@.samples =~= seq![]);
    r
}

impl ParseState {
    pub open spec fn view_state(&self) -> PState {
        PState { done: families_view(self.done@), cur: self.cur@ }
    }

    pub open spec fn wf(&self) -> bool {
        self.cur.var matches Some(v) ==> v@ == self.cur_var@
    }

    pub fn new() -> (r: ParseState)
        ensures
            r.wf(),
            r.view_state() == init_state(),
    {
        let r = ParseState { done: Vec::new(), cur: empty_family(), cur_var: Vec::new() };
        assert(families_view(r.done@) =~= seq![]);
        r
    }

    /// Closes the open family and opens a fresh one for `n`.
    fn close_and_open(&mut self, n: Vec<char>)
        requires
            old(self).cur.var is Some,
        ensures
            final(self).wf(),
            final(self).view_state() == (PState {
                done: old(self).view_state().done.push(old(self).view_state().cur),
                cur: fresh_family(n@),
            }),
    {
        let mut f = new_family(&n);
        std::mem::swap(&mut self.cur, &mut f);
        let ghost d = self.done@;
        self.done.push(f);
        assert(families_view(self.done@) =~= families_view(d).push(f@));
        self.cur_var = n;
    }

    /// Whether a closed family named `n` has samples.
    fn sampled_before(&self, n: &Vec<char>) -> (r: bool)
        ensures
            r == sampled_in(self.view_state().done, n@),
    {
        let name = string_of_all(n);
        let ghost fs = self.view_state().done;
        let mut j: usize = 0;
        while j < self.done.len()
            invariant
                j <= self.done@.len(),
                fs == families_view(self.done@),
                name@ == n@,
                forall|k: int| 0 <= k < j ==> !((#[trigger] fs[k]).var == Some(n@) && fs[k].samples.len() > 0),
            decreases self.done@.len() - j,
        {
            let f = &self.done[j];
            assert(fs[j as int] == f@);
            let named = match &f.var {
                Some(v) => *v == name,
                None => false,
            };
            if named && f.samples.len() > 0 {
                assert(fs[j as int].var == Some(n@) && fs[j as int].samples.len() > 0);
                return true;
            }
            j += 1;
        }
        false
    }

    fn open_for_exec(&mut self, n: Vec<char>) -> (ok: bool)
        requires
            old(self).wf(),
        ensures
            final(self).wf(),
            ok == open_for(old(self).view_state(), n@) is Some,
            ok ==> Some(final(self).view_state()) == open_for(old(self).view_state(), n@),
    {
        if self.sampled_before(&n) {
            false
        } else if self.cur.var.is_none() {
            self.cur = new_family(&n);
            self.cur_var = n;
            true
        } else if self.cur.samples.len() == 0 {
            same_chars(&self.cur_var, &n)
        } else if same_chars(&self.cur_var, &n) {
            false
        } else {
            self.close_and_open(n);
            true
        }
    }

    fn sample_matches_exec(&self, n: &Vec<char>, w: &Words) -> (r: bool)
        requires
            self.wf(),
            self.cur.var is Some,
            w.wf(),
        ensures
            r == sample_matches(self.cur_var@, self.cur.metric_type, n@),
    {
        if same_chars(n, &self.cur_var) {
            return true;
        }
        match self.cur.metric_type {
            SampleType::Histogram | SampleType::Summary => {
                is_concat(n, &self.cur_var, &w.bucket) || is_concat(n, &self.cur_var, &w.count)
                    || is_concat(n, &self.cur_var, &w.sum)
            },
            _ => false,
        }
    }

    /// Applies one decoded line; `false` where the line cannot stand where it is.
    pub fn apply(&mut self, l: Line, aug: &LabelSet, w: &Words) -> (ok: bool)
        requires
            old(self).wf(),
            l.wf(),
            w.wf(),
        ensures
            final(self).wf(),
            ok == step(old(self).view_state(), l.view_line(), labels_view(aug@)) is Some,
            ok ==> Some(final(self).view_state()) == step(
                old(self).view_state(),
                l.view_line(),
                labels_view(aug@),
            ),
    {
        match l {
            Line::Blank => true,
            Line::Comment => true,
            Line::Help(n, h) => {
                if self.open_for_exec(n) {
                    self.cur.help = Some(h);
                    true
                } else {
                    false
                }
            },
            Line::Type(n, ty) => {
                if self.open_for_exec(n) {
                    self.cur.metric_type = ty;
                    true
                } else {
                    false
                }
            },
            Line::Sample(n, s) => {
                let ghost sv = s@;
                let mut labels = clone_labels(aug);
                let mut own = s.labels;
                let ghost l1 = labels@;
                let ghost l2 = own@;
                labels.append(&mut own);
                assert(labels_view(labels@) =~= labels_view(l1) + labels_view(l2));
                let s2 = Sample { var: s.var, labels, value: s.value };
                assert(s2@ == augment(sv, labels_view(aug@)));
                if self.cur.var.is_some() && self.sample_matches_exec(&n, w) {
                    let ghost before = self.cur.samples@;
                    self.cur.samples.push(s2);
                    assert(samples_view(self.cur.samples@) =~= samples_view(before).push(s2@));
                } else {
                    let was_open = self.cur.var.is_some();
                    if was_open {
                        self.close_and_open(n);
                    } else {
                        self.cur = new_family(&n);
                        self.cur_var = n;
                    }
                    let ghost before = self.cur.samples@;
                    self.cur.samples.push(s2);
                    assert(samples_view(self.cur.samples@) =~= samples_view(before).push(s2@));
                }
                true
            },
        }
    }

    pub fn finish_exec(self) -> (r: Vec<MetricFamily>)
        ensures
            families_view(r@) == finish(self.view_state()),
    {
        let mut done = self.done;
        if self.cur.var.is_some() {
            let ghost d = done@;
            done.push(self.cur);
            assert(families_view(done@) =~= families_view(d).push(self.cur@));
        }
        done
    }
}

/// The configured labels, `instance` first.
pub fn added_labels_exec(instance: Option<&str>, job: Option<&str>) -> (r: LabelSet)
    ensures
        labels_view(r@) == added_labels(opt_str_view(instance), opt_str_view(job)),
{
    let mut r: LabelSet = Vec::new();
    if let Some(i) = instance {
        r.push((String::from_str("instance"), String::from_str(i)));
    }
    if let Some(j) = job {
        r.push((String::from_str("job"), String::from_str(j)));
    }
    assert(labels_view(r@) =~= added_labels(opt_str_view(instance), opt_str_view(job)));
    r
}

fn newline_exec(s: &Vec<char>, p: usize) -> (r: usize)
    requires
        p <= s@.len(),
    ensures
        r == newline_index(s@, p as int),
        p <= r <= s@.len(),
{
    let mut j = p;
    while j < s.len() && s[j] != '\n'
        invariant
            p <= j <= s@.len(),
            newline_index(s@, p as int) == newline_index(s@, j as int),
        decreases s@.len() - j,
    {
        j += 1;
    }
    j
}

/// Decodes an exposition into its metric families, adding `instance` and `job`
/// labels (in that order, before a sample's own) where they are given.
/// `None` where the input is malformed; then no family is returned.
pub fn parse(instance: Option<&str>, job: Option<&str>, input: &str) -> (r: Option<Vec<MetricFamily>>)
    ensures
        match r {
            Some(v) => parse_spec(opt_str_view(instance), opt_str_view(job), input@) == Some(
                families_view(v@),
            ),
            None => parse_spec(opt_str_view(instance), opt_str_view(job), input@) is None,
        },
{
    let s = chars_of(input);
    let w = Words::new();
    let aug = added_labels_exec(instance, job);
    let ghost a = added_labels(opt_str_view(instance), opt_str_view(job));
    let mut st = ParseState::new();
    let mut p: usize = 0;
    while p < s.len()
        invariant
            p <= s@.len(),
            s@ == input@,
            a == added_labels(opt_str_view(instance), opt_str_view(job)),
            w.wf(),
            st.wf(),
            labels_view(aug@) == a,
            parse_from(s@, 0, init_state(), a) == parse_from(s@, p as int, st.view_state(), a),
        decreases s@.len() - p,
    {
        let k = newline_exec(&s, p);
        if k >= s.len() {
            return None;
        }
        let line = copy_range(&s, p, k);
        match parse_line_exec(&line, &w) {
            None => {
                return None;
            },
            Some(l) => {
                if !st.apply(l, &aug, &w) {
                    return None;
                }
            },
        }
        p = k + 1;
    }
    Some(st.finish_exec())
}

} // verus!
