//! Rendering decoded families back to text, and the law that decoding the
//! rendering gives the same families back.
use vstd::prelude::*;
use crate::grammar::{
    augment, finish, fresh_family, in_class, init_state, is_label_start, is_name_start, is_space,
    newline_index, open_for, parse_from, parse_line, parse_spec, quoted_end, sample_matches, sampled_in, scan,
    step, valid_value, with_help, with_sample, with_type, Class, LineV, PState,
};
use crate::model::{FamilyV, LabelsV, SampleType, SampleV};

verus! {

/// A label value as it stands between quotes: no newline, no bare quote, and
/// each backslash followed by the character it escapes.
pub open spec fn escaped_ok(v: Seq<char>) -> bool
    decreases v.len(),
{
    if v.len() == 0 {
        true
    } else if v[0] == '"' || v[0] == '\n' {
        false
    } else if v[0] == '\\' {
        v.len() >= 2 && v[1] != '\n' && escaped_ok(v.subrange(2, v.len() as int))
    } else {
        escaped_ok(v.subrange(1, v.len() as int))
    }
}

pub open spec fn no_newline(t: Seq<char>) -> bool {
    forall|j: int| 0 <= j < t.len() ==> #[trigger] t[j] != '\n'
}

pub open spec fn all_in(t: Seq<char>, from: int, k: Class) -> bool {
    forall|j: int| from <= j < t.len() ==> in_class(#[trigger] t[j], k)
}

pub open spec fn wf_name(n: Seq<char>) -> bool {
    n.len() > 0 && is_name_start(n[0]) && all_in(n, 1, Class::Name)
}

pub open spec fn wf_label_name(n: Seq<char>) -> bool {
    n.len() > 0 && is_label_start(n[0]) && all_in(n, 1, Class::LabelName)
}

/// Help text as a line holds it after the blanks that follow the name.
pub open spec fn wf_help(h: Seq<char>) -> bool {
    no_newline(h) && (h.len() > 0 ==> !is_space(h[0]))
}

pub open spec fn wf_value(v: Seq<char>) -> bool {
    v.len() > 0 && valid_value(v) && no_newline(v) && all_in(v, 0, Class::Token)
}

pub open spec fn wf_sample(s: SampleV) -> bool {
    &&& wf_name(s.var)
    &&& wf_value(s.value)
    &&& forall|k: int| 0 <= k < s.labels.len() ==> wf_label_name(#[trigger] s.labels[k].0) && escaped_ok(s.labels[k].1)
}

/// A family as the decoder yields it: named, with well-formed text, and samples
/// that belong to it.
#[verifier::opaque]
pub open spec fn wf_family(f: FamilyV) -> bool {
    &&& f.var matches Some(n) && wf_name(n)
    &&& f.help matches Some(h) ==> wf_help(h)
    &&& forall|k: int| 0 <= k < f.samples.len() ==> wf_sample(#[trigger] f.samples[k]) && sample_matches(f.var->Some_0, f.metric_type, f.samples[k].var)
}

/// A family that a sample opened: no descriptor, and a first sample that does
/// not belong to the family before it.
pub open spec fn opened_by_sample(p: FamilyV, f: FamilyV) -> bool {
    &&& f.help is None
    &&& f.metric_type == SampleType::Untyped
    &&& f.samples.len() > 0
    &&& !sample_matches(p.var->Some_0, p.metric_type, f.samples[0].var)
}

/// A family that a descriptor opened after the families `pre`: the one before
/// it has samples, and no family of its name has any.
pub open spec fn opened_by_descriptor(pre: Seq<FamilyV>, f: FamilyV) -> bool {
    pre.last().samples.len() > 0 && !sampled_in(pre, f.var->Some_0)
}

#[verifier::opaque]
pub open spec fn opened_ok(fs: Seq<FamilyV>, i: int) -> bool {
    opened_by_sample(fs[i - 1], fs[i]) || opened_by_descriptor(fs.take(i), fs[i])
}

/// Families as the decoder yields them: well-formed, no two neighbours of the
/// same name, and each after the first opened by a sample or a descriptor.
pub open spec fn wf_families(fs: Seq<FamilyV>) -> bool {
    &&& forall|i: int| 0 <= i < fs.len() ==> wf_family(#[trigger] fs[i])
    &&& forall|i: int| 0 <= i < fs.len() - 1 ==> (#[trigger] fs[i]).var != fs[i + 1].var
    &&& forall|i: int| 1 <= i < fs.len() ==> #[trigger] opened_ok(fs, i)
}

pub open spec fn type_word(t: SampleType) -> Seq<char> {
    match t {
        SampleType::Counter => "counter"@,
        SampleType::Gauge => "gauge"@,
        SampleType::Histogram => "histogram"@,
        SampleType::Summary => "summary"@,
        SampleType::Untyped => "untyped"@,
    }
}

pub open spec fn render_label(p: (Seq<char>, Seq<char>)) -> Seq<char> {
    p.0 + seq!['=', '"'] + p.1 + seq!['"']
}

pub open spec fn render_label_items(l: LabelsV) -> Seq<char>
    decreases l.len(),
{
    if l.len() <= 1 {
        if l.len() == 0 {
            seq![]
        } else {
            render_label(l[0])
        }
    } else {
        render_label(l[0]) + seq![','] + render_label_items(l.drop_first())
    }
}

pub open spec fn render_labels(l: LabelsV) -> Seq<char> {
    if l.len() == 0 {
        seq![]
    } else {
        seq!['{'] + render_label_items(l) + seq!['}']
    }
}

pub open spec fn sample_line(s: SampleV) -> Seq<char> {
    s.var + render_labels(s.labels) + seq![' '] + s.value
}

pub open spec fn help_line(n: Seq<char>, h: Seq<char>) -> Seq<char> {
    seq!['#', ' '] + "HELP"@ + seq![' '] + n + if h.len() == 0 {
        seq![]
    } else {
        seq![' '] + h
    }
}

pub open spec fn type_line(n: Seq<char>, t: SampleType) -> Seq<char> {
    seq!['#', ' '] + "TYPE"@ + seq![' '] + n + seq![' '] + type_word(t)
}

/// Whether family `i` is written with its descriptors: the first family, and
/// every family that a sample line alone would not open.
pub open spec fn needs_descriptors(fs: Seq<FamilyV>, i: int) -> bool {
    let f = fs[i];
    i == 0 || f.help is Some || f.metric_type != SampleType::Untyped || f.samples.len() == 0
        || sample_matches(fs[i - 1].var->Some_0, fs[i - 1].metric_type, f.samples[0].var)
}

/// The lines of a family: where `descriptors`, `HELP` where it has help and
/// `TYPE`; then its samples.
#[verifier::opaque]
pub open spec fn family_lines(f: FamilyV, descriptors: bool) -> Seq<Seq<char>> {
    let n = f.var->Some_0;
    let h: Seq<Seq<char>> = match f.help {
        Some(h) => seq![help_line(n, h)],
        None => seq![],
    };
    let d: Seq<Seq<char>> = if descriptors {
        h + seq![type_line(n, f.metric_type)]
    } else {
        seq![]
    };
    d + f.samples.map_values(|s: SampleV| sample_line(s))
}

/// The lines of the families from `i` on.
pub open spec fn all_lines_from(fs: Seq<FamilyV>, i: int) -> Seq<Seq<char>>
    decreases fs.len() - i,
{
    if i < 0 || i >= fs.len() {
        seq![]
    } else {
        family_lines(fs[i], needs_descriptors(fs, i)) + all_lines_from(fs, i + 1)
    }
}

/// Each line followed by a newline.
pub open spec fn join_lines(ls: Seq<Seq<char>>) -> Seq<char>
    decreases ls.len(),
{
    if ls.len() == 0 {
        seq![]
    } else {
        ls[0] + seq!['\n'] + join_lines(ls.drop_first())
    }
}

/// The text of families in the exposition format.
pub open spec fn render(fs: Seq<FamilyV>) -> Seq<char> {
    join_lines(all_lines_from(fs, 0))
}

/// The state after decoding `ls` line by line, or `None` where a line fails.
pub open spec fn fold_lines(ls: Seq<Seq<char>>, st: PState, aug: LabelsV) -> Option<PState>
    decreases ls.len(),
{
    if ls.len() == 0 {
        Some(st)
    } else {
        match parse_line(ls[0]) {
            None => None,
            Some(l) => match step(st, l, aug) {
                None => None,
                Some(st2) => fold_lines(ls.drop_first(), st2, aug),
            },
        }
    }
}

proof fn lemma_newline_shift(pre: Seq<char>, t: Seq<char>, q: int)
    requires
        0 <= q <= t.len(),
    ensures
        newline_index(pre + t, pre.len() + q) == pre.len() + newline_index(t, q),
    decreases t.len() - q,
{
    let s = pre + t;
    assert(s.len() == pre.len() + t.len());
    if q < t.len() {
        assert(s[pre.len() + q] == t[q]);
        if t[q] != '\n' {
            lemma_newline_shift(pre, t, q + 1);
        }
    }
}

proof fn lemma_parse_from_shift(pre: Seq<char>, t: Seq<char>, q: int, st: PState, aug: LabelsV)
    requires
        0 <= q <= t.len(),
    ensures
        parse_from(pre + t, pre.len() + q, st, aug) == parse_from(t, q, st, aug),
    decreases t.len() - q,
{
    let s = pre + t;
    if q < t.len() {
        lemma_newline_shift(pre, t, q);
        crate::grammar::lemma_newline_bounds(t, q);
        let k = newline_index(t, q);
        if k < t.len() {
            assert(s.subrange(pre.len() + q, pre.len() + k) =~= t.subrange(q, k));
            match parse_line(t.subrange(q, k)) {
                None => {},
                Some(l) => match step(st, l, aug) {
                    None => {},
                    Some(st2) => {
                        lemma_parse_from_shift(pre, t, k + 1, st2, aug);
                    },
                },
            }
        }
    }
}

proof fn lemma_newline_at(s: Seq<char>, i: int, k: int)
    requires
        0 <= i <= k < s.len(),
        forall|j: int| i <= j < k ==> s[j] != '\n',
        s[k] == '\n',
    ensures
        newline_index(s, i) == k,
    decreases k - i,
{
    if i < k {
        lemma_newline_at(s, i + 1, k);
    }
}

proof fn lemma_line_step(c: Seq<char>, rest: Seq<char>, st: PState, aug: LabelsV)
    requires
        no_newline(c),
    ensures
        parse_from(c + seq!['\n'] + rest, 0, st, aug) == match parse_line(c) {
            None => None,
            Some(l) => match step(st, l, aug) {
                None => None,
                Some(st2) => parse_from(rest, 0, st2, aug),
            },
        },
{
    let pre = c + seq!['\n'];
    let s = pre + rest;
    assert(c + seq!['\n'] + rest == s);
    lemma_newline_at(s, 0, c.len() as int);
    assert(s.subrange(0, c.len() as int) =~= c);
    match parse_line(c) {
        None => {},
        Some(l) => match step(st, l, aug) {
            None => {},
            Some(st2) => {
                lemma_parse_from_shift(pre, rest, 0, st2, aug);
            },
        },
    }
}

proof fn lemma_join_parse(ls: Seq<Seq<char>>, st: PState, aug: LabelsV)
    requires
        forall|i: int| 0 <= i < ls.len() ==> no_newline(#[trigger] ls[i]),
    ensures
        parse_from(join_lines(ls), 0, st, aug) == match fold_lines(ls, st, aug) {
            None => None,
            Some(stf) => Some(finish(stf)),
        },
    decreases ls.len(),
{
    if ls.len() > 0 {
        let rest = ls.drop_first();
        assert(no_newline(ls[0]));
        lemma_line_step(ls[0], join_lines(rest), st, aug);
        assert forall|i: int| 0 <= i < rest.len() implies no_newline(#[trigger] rest[i]) by {
            assert(rest[i] == ls[i + 1]);
        }
        match parse_line(ls[0]) {
            None => {},
            Some(l) => match step(st, l, aug) {
                None => {},
                Some(st2) => {
                    lemma_join_parse(rest, st2, aug);
                },
            },
        }
    }
}

proof fn lemma_fold_append(a: Seq<Seq<char>>, b: Seq<Seq<char>>, st: PState, aug: LabelsV)
    ensures
        fold_lines(a + b, st, aug) == match fold_lines(a, st, aug) {
            None => None,
            Some(s2) => fold_lines(b, s2, aug),
        },
    decreases a.len(),
{
    if a.len() == 0 {
        assert(a + b =~= b);
    } else {
        assert((a + b).drop_first() =~= a.drop_first() + b);
        assert((a + b)[0] == a[0]);
        match parse_line(a[0]) {
            None => {},
            Some(l) => match step(st, l, aug) {
                None => {},
                Some(st2) => {
                    lemma_fold_append(a.drop_first(), b, st2, aug);
                },
            },
        }
    }
}

proof fn lemma_scan_exact(t: Seq<char>, i: int, e: int, k: Class)
    requires
        0 <= i <= e <= t.len(),
        forall|j: int| i <= j < e ==> in_class(#[trigger] t[j], k),
        e == t.len() || !in_class(t[e], k),
    ensures
        scan(t, i, k) == e,
    decreases e - i,
{
    if i < e {
        lemma_scan_exact(t, i + 1, e, k);
    }
}

proof fn lemma_at(t: Seq<char>, i: int, u: Seq<char>, m: int)
    requires
        0 <= i,
        i + u.len() <= t.len(),
        t.subrange(i, i + u.len()) == u,
        0 <= m < u.len(),
    ensures
        t[i + m] == u[m],
{
    assert(t.subrange(i, i + u.len())[m] == t[i + m]);
}

proof fn lemma_quoted_exact(t: Seq<char>, i: int, v: Seq<char>)
    requires
        escaped_ok(v),
        0 <= i,
        i + v.len() < t.len(),
        t.subrange(i, i + v.len()) == v,
        t[i + v.len()] == '"',
    ensures
        quoted_end(t, i) == i + v.len(),
    decreases v.len(),
{
    if v.len() > 0 {
        lemma_at(t, i, v, 0);
        if v[0] == '\\' {
            let w = v.subrange(2, v.len() as int);
            assert(t.subrange(i + 2, i + 2 + w.len()) =~= w);
            lemma_quoted_exact(t, i + 2, w);
        } else {
            let w = v.subrange(1, v.len() as int);
            assert(t.subrange(i + 1, i + 1 + w.len()) =~= w);
            lemma_quoted_exact(t, i + 1, w);
        }
    }
}

pub open spec fn wf_labels(l: LabelsV) -> bool {
    forall|k: int| 0 <= k < l.len() ==> wf_label_name(#[trigger] l[k].0) && escaped_ok(l[k].1)
}

proof fn lemma_label_list_render(t: Seq<char>, i: int, l: LabelsV)
    requires
        l.len() > 0,
        wf_labels(l),
        0 <= i,
        i + render_label_items(l).len() < t.len(),
        t.subrange(i, i + render_label_items(l).len()) == render_label_items(l),
        t[i + render_label_items(l).len()] == '}',
    ensures
        crate::grammar::parse_label_list(t, i) == Some((l, i + render_label_items(l).len() + 1)),
    decreases l.len(),
{
    let items = render_label_items(l);
    let p = l[0];
    let ln = p.0;
    let lv = p.1;
    let r = render_label(p);
    let nl: int = ln.len() as int;
    let vl: int = lv.len() as int;
    let rl: int = r.len() as int;
    assert(wf_label_name(ln) && escaped_ok(lv));
    assert(items.subrange(0, r.len() as int) =~= r);
    assert(t.subrange(i, i + r.len()) =~= r) by {
        assert(t.subrange(i, i + r.len()) =~= t.subrange(i, i + items.len()).subrange(0, r.len() as int));
    }
    let j = i + ln.len();
    let k = j + 2 + lv.len();
    assert(r.len() == ln.len() + 3 + lv.len());
    assert(r.subrange(0, ln.len() as int) =~= ln);
    assert(t.subrange(i, i + ln.len()) =~= ln) by {
        assert(t.subrange(i, i + ln.len()) =~= t.subrange(i, i + r.len()).subrange(0, ln.len() as int));
    }
    lemma_at(t, i, r, ln.len() as int);
    lemma_at(t, i, r, nl + 1);
    lemma_at(t, i, r, nl + 2 + vl);
    assert(t[j] == '=');
    assert(t[j + 1] == '"');
    assert(t[k] == '"');
    assert forall|m: int| i + 1 <= m < j implies in_class(#[trigger] t[m], Class::LabelName) by {
        lemma_at(t, i, ln, m - i);
    }
    lemma_at(t, i, ln, 0);
    lemma_scan_exact(t, i + 1, j, Class::LabelName);
    assert(t.subrange(j + 2, j + 2 + lv.len()) =~= lv) by {
        assert(t.subrange(j + 2, j + 2 + lv.len()) =~= t.subrange(i, i + r.len()).subrange(nl + 2, nl + 2 + vl));
        assert(r.subrange(nl + 2, nl + 2 + vl) =~= lv);
    }
    lemma_quoted_exact(t, j + 2, lv);
    assert(t.subrange(i, j) =~= ln);
    assert(t.subrange(j + 2, k) =~= lv);
    if l.len() == 1 {
        assert(items == r);
        assert(seq![(t.subrange(i, j), t.subrange(j + 2, k))] =~= l);
    } else {
        let rest = l.drop_first();
        let ri = render_label_items(rest);
        assert(items == r + seq![','] + ri);
        lemma_at(t, i, items, r.len() as int);
        assert(t[k + 1] == ',');
        assert(t.subrange(k + 2, k + 2 + ri.len()) =~= ri) by {
            assert(t.subrange(k + 2, k + 2 + ri.len()) =~= t.subrange(i, i + items.len()).subrange(rl + 1, items.len() as int));
            assert(items.subrange(rl + 1, items.len() as int) =~= ri);
        }
        assert(wf_labels(rest)) by {
            assert forall|q: int| 0 <= q < rest.len() implies wf_label_name(#[trigger] rest[q].0) && escaped_ok(rest[q].1) by {
                assert(rest[q] == l[q + 1]);
            }
        }
        lemma_label_list_render(t, k + 2, rest);
        assert(seq![(t.subrange(i, j), t.subrange(j + 2, k))] + rest =~= l);
    }
}

proof fn lemma_sample_line(s: SampleV)
    requires
        wf_sample(s),
    ensures
        parse_line(sample_line(s)) == Some(LineV::Sample(s)),
{
    reveal(parse_line);
    let t = sample_line(s);
    let lab = render_labels(s.labels);
    let e = s.var.len() as int;
    let p = e + lab.len();
    assert(t.len() == p + 1 + s.value.len());
    assert(t.subrange(0, e) =~= s.var);
    lemma_at(t, 0, s.var, 0);
    assert(t[0] == s.var[0]);
    lemma_scan_exact(t, 0, 0, Class::Space);
    assert forall|m: int| 1 <= m < e implies in_class(#[trigger] t[m], Class::Name) by {
        lemma_at(t, 0, s.var, m);
    }
    assert(t[p] == ' ');
    if s.labels.len() > 0 {
        let items = render_label_items(s.labels);
        assert(t[e] == '{');
        assert(t.subrange(e + 1, e + 1 + items.len()) =~= items);
        assert(t[e + 1 + items.len()] == '}');
        assert(wf_labels(s.labels));
        lemma_label_list_render(t, e + 1, s.labels);
    } else {
        assert(t[e] == ' ');
        assert(s.labels =~= seq![]);
    }
    lemma_scan_exact(t, 1, e, Class::Name);
    let v0 = p + 1;
    assert(t.subrange(v0, t.len() as int) =~= s.value);
    assert forall|m: int| v0 <= m < t.len() implies in_class(#[trigger] t[m], Class::Token) by {
        lemma_at(t, v0, s.value, m - v0);
    }
    lemma_at(t, v0, s.value, 0);
    lemma_scan_exact(t, p, v0, Class::Space);
    lemma_scan_exact(t, v0, t.len() as int, Class::Token);
    lemma_scan_exact(t, t.len() as int, t.len() as int, Class::Space);
}

proof fn lemma_type_word(ty: SampleType)
    ensures
        type_word(ty).len() > 0,
        all_in(type_word(ty), 0, Class::Token),
        no_newline(type_word(ty)),
        crate::grammar::type_of(type_word(ty)) == Some(ty),
{
    reveal_strlit("counter");
    reveal_strlit("gauge");
    reveal_strlit("histogram");
    reveal_strlit("summary");
    reveal_strlit("untyped");
    let w = type_word(ty);
    assert(all_in(w, 0, Class::Token));
    assert(no_newline(w));
    match ty {
        SampleType::Counter => {},
        SampleType::Gauge => {
            assert(w.len() != "counter"@.len());
        },
        SampleType::Histogram => {
            assert(w.len() != "counter"@.len());
            assert(w.len() != "gauge"@.len());
        },
        SampleType::Summary => {
            assert(w[0] != "counter"@[0]);
            assert(w.len() != "gauge"@.len());
            assert(w.len() != "histogram"@.len());
        },
        SampleType::Untyped => {
            assert(w[0] != "counter"@[0]);
            assert(w.len() != "gauge"@.len());
            assert(w.len() != "histogram"@.len());
            assert(w[0] != "summary"@[0]);
        },
    }
}

/// The keyword of a descriptor line starts at 2 and ends at 6; the name starts at 7.
proof fn lemma_descriptor_head(t: Seq<char>, kw: Seq<char>, n: Seq<char>)
    requires
        kw.len() == 4,
        all_in(kw, 0, Class::Token),
        wf_name(n),
        t.len() >= 7 + n.len() as int,
        t.subrange(0, 7 + n.len() as int) == seq!['#', ' '] + kw + seq![' '] + n,
        t.len() > 7 + n.len() as int ==> t[7 + n.len() as int] == ' ',
    ensures
        t[0] == '#',
        scan(t, 0, Class::Space) == 0,
        scan(t, 1, Class::Space) == 2,
        scan(t, 2, Class::Token) == 6,
        t.subrange(2, 6) == kw,
        crate::grammar::descriptor_name(t, 6) == Some((7int, 7 + n.len() as int)),
        t.subrange(7, 7 + n.len() as int) == n,
{
    let head = seq!['#', ' '] + kw + seq![' '] + n;
    let d: int = 7 + n.len() as int;
    assert forall|m: int| 0 <= m < d implies t[m] == #[trigger] head[m] by {
        lemma_at(t, 0, head, m);
    }
    assert(head[0] == '#');
    assert(head[1] == ' ');
    assert(head[6] == ' ');
    assert(head[7] == n[0]);
    assert(forall|m: int| 2 <= m < 6 ==> head[m] == kw[m - 2]);
    assert(forall|m: int| 7 <= m < d ==> head[m] == n[m - 7]);
    assert(t[0] == '#');
    assert(t[1] == ' ');
    assert(t[6] == ' ');
    assert(t[7] == n[0]);
    lemma_scan_exact(t, 0, 0, Class::Space);
    assert(t[2] == head[2]);
    assert(in_class(kw[0], Class::Token));
    lemma_scan_exact(t, 1, 2, Class::Space);
    assert forall|m: int| 2 <= m < 6 implies in_class(#[trigger] t[m], Class::Token) by {
        assert(t[m] == head[m]);
        assert(in_class(kw[m - 2], Class::Token));
    }
    lemma_scan_exact(t, 2, 6, Class::Token);
    assert forall|m: int| 0 <= m < 4 implies #[trigger] t.subrange(2, 6)[m] == kw[m] by {
        assert(t[m + 2] == head[m + 2]);
    }
    assert(t.subrange(2, 6) =~= kw);
    lemma_scan_exact(t, 6, 7, Class::Space);
    assert forall|m: int| 8 <= m < d implies in_class(#[trigger] t[m], Class::Name) by {
        assert(t[m] == head[m]);
        assert(in_class(n[m - 7], Class::Name));
    }
    lemma_scan_exact(t, 8, d, Class::Name);
    assert forall|m: int| 0 <= m < n.len() implies #[trigger] t.subrange(7, d)[m] == n[m] by {
        assert(t[m + 7] == head[m + 7]);
    }
    assert(t.subrange(7, d) =~= n);
}

proof fn lemma_help_line(n: Seq<char>, h: Seq<char>)
    requires
        wf_name(n),
        wf_help(h),
    ensures
        parse_line(help_line(n, h)) == Some(LineV::Help(n, h)),
{
    reveal(parse_line);
    reveal_strlit("HELP");
    let t = help_line(n, h);
    let d: int = 7 + n.len() as int;
    assert(t.subrange(0, d) =~= seq!['#', ' '] + "HELP"@ + seq![' '] + n);
    lemma_descriptor_head(t, "HELP"@, n);
    if h.len() == 0 {
        assert(t.len() == d);
        assert(h =~= seq![]);
    } else {
        assert(t.len() == d + 1 + h.len());
        assert(t[d] == ' ');
        assert(t[d + 1] == h[0]);
        lemma_scan_exact(t, d, d + 1, Class::Space);
        assert(t.subrange(d + 1, t.len() as int) =~= h);
    }
}

proof fn lemma_type_line(n: Seq<char>, ty: SampleType)
    requires
        wf_name(n),
    ensures
        parse_line(type_line(n, ty)) == Some(LineV::Type(n, ty)),
{
    reveal(parse_line);
    reveal_strlit("HELP");
    reveal_strlit("TYPE");
    let t = type_line(n, ty);
    let w = type_word(ty);
    let d: int = 7 + n.len() as int;
    lemma_type_word(ty);
    assert(t.subrange(0, d) =~= seq!['#', ' '] + "TYPE"@ + seq![' '] + n);
    assert(t.len() == d + 1 + w.len());
    assert(t[d] == ' ');
    lemma_descriptor_head(t, "TYPE"@, n);
    assert("TYPE"@[0] != "HELP"@[0]);
    assert(t.subrange(d + 1, t.len() as int) =~= w);
    assert(t[d + 1] == w[0]);
    lemma_scan_exact(t, d, d + 1, Class::Space);
    assert forall|m: int| d + 1 <= m < t.len() implies in_class(#[trigger] t[m], Class::Token) by {
        assert(t[m] == w[m - d - 1]);
    }
    lemma_scan_exact(t, d + 1, t.len() as int, Class::Token);
    lemma_scan_exact(t, t.len() as int, t.len() as int, Class::Space);
}

proof fn lemma_fold_one(x: Seq<char>, st: PState, aug: LabelsV)
    ensures
        fold_lines(seq![x], st, aug) == match parse_line(x) {
            None => None,
            Some(l) => step(st, l, aug),
        },
{
    let e = Seq::<Seq<char>>::empty();
    assert(seq![x].drop_first() =~= e);
    assert(seq![x][0] == x);
    match parse_line(x) {
        None => {},
        Some(l) => match step(st, l, aug) {
            None => {},
            Some(st2) => {
                assert(fold_lines(e, st2, aug) == Some(st2));
            },
        },
    }
}

pub open spec fn with_samples(f: FamilyV, ss: Seq<SampleV>) -> FamilyV {
    FamilyV { var: f.var, help: f.help, metric_type: f.metric_type, samples: f.samples + ss }
}

proof fn lemma_samples_fold(ss: Seq<SampleV>, st: PState)
    requires
        st.cur.var is Some,
        forall|k: int| 0 <= k < ss.len() ==> wf_sample(#[trigger] ss[k]) && sample_matches(st.cur.var->Some_0, st.cur.metric_type, ss[k].var),
    ensures
        fold_lines(ss.map_values(|s: SampleV| sample_line(s)), st, seq![]) == Some(
            PState { done: st.done, cur: with_samples(st.cur, ss) },
        ),
    decreases ss.len(),
{
    let ls = ss.map_values(|s: SampleV| sample_line(s));
    if ss.len() == 0 {
        assert(st.cur.samples + ss =~= st.cur.samples);
    } else {
        let s0 = ss[0];
        assert(wf_sample(s0));
        lemma_sample_line(s0);
        assert(ls[0] == sample_line(s0));
        assert(augment(s0, seq![]).labels =~= s0.labels);
        assert(augment(s0, seq![]) == s0);
        let st2 = PState { done: st.done, cur: with_sample(st.cur, s0) };
        let rest = ss.drop_first();
        assert(ls.drop_first() =~= rest.map_values(|s: SampleV| sample_line(s)));
        assert forall|k: int| 0 <= k < rest.len() implies wf_sample(#[trigger] rest[k]) && sample_matches(st2.cur.var->Some_0, st2.cur.metric_type, rest[k].var) by {
            assert(rest[k] == ss[k + 1]);
        }
        lemma_samples_fold(rest, st2);
        assert(st.cur.samples.push(s0) + rest =~= st.cur.samples + ss);
    }
}

proof fn lemma_family_fold_desc(f: FamilyV, st: PState)
    requires
        wf_family(f),
        !sampled_in(st.done, f.var->Some_0),
        (st.cur.var is None && st.done.len() == 0) || (st.cur.var is Some && st.cur.var != f.var
            && st.cur.samples.len() > 0),
    ensures
        fold_lines(family_lines(f, true), st, seq![]) == Some(PState { done: finish(st), cur: f }),
{
    reveal(wf_family);
    let n = f.var->Some_0;
    let h: Seq<Seq<char>> = match f.help {
        Some(hh) => seq![help_line(n, hh)],
        None => seq![],
    };
    let tl = seq![type_line(n, f.metric_type)];
    let sl = f.samples.map_values(|s: SampleV| sample_line(s));
    reveal(family_lines);
    assert(family_lines(f, true) == h + tl + sl);
    lemma_fold_append(h + tl, sl, st, seq![]);
    lemma_fold_append(h, tl, st, seq![]);
    let opened = PState { done: finish(st), cur: fresh_family(n) };
    assert(open_for(st, n) == Some(opened));
    let st1 = match f.help {
        Some(hh) => {
            lemma_help_line(n, hh);
            lemma_fold_one(help_line(n, hh), st, seq![]);
            PState { done: finish(st), cur: with_help(fresh_family(n), hh) }
        },
        None => {
            assert(h =~= Seq::<Seq<char>>::empty());
            st
        },
    };
    assert(fold_lines(h, st, seq![]) == Some(st1));
    lemma_type_line(n, f.metric_type);
    lemma_fold_one(type_line(n, f.metric_type), st1, seq![]);
    let c2 = FamilyV { var: Some(n), help: f.help, metric_type: f.metric_type, samples: seq![] };
    let st2 = PState { done: finish(st), cur: c2 };
    assert(fold_lines(tl, st1, seq![]) == Some(st2)) by {
        if f.help is None {
            assert(with_type(fresh_family(n), f.metric_type) == c2);
        } else {
            assert(!sampled_in(st1.done, n));
        }
    }
    lemma_samples_fold(f.samples, st2);
    assert(with_samples(c2, f.samples).samples =~= f.samples);
}

proof fn lemma_family_fold_sample(f: FamilyV, st: PState)
    requires
        wf_family(f),
        st.cur.var is Some,
        opened_by_sample(st.cur, f),
    ensures
        fold_lines(family_lines(f, false), st, seq![]) == Some(PState { done: finish(st), cur: f }),
{
    reveal(wf_family);
    let n = f.var->Some_0;
    let sl = f.samples.map_values(|s: SampleV| sample_line(s));
    reveal(family_lines);
    assert(family_lines(f, false) =~= sl);
    let s0 = f.samples[0];
    assert(wf_sample(s0) && sample_matches(n, f.metric_type, s0.var));
    assert(s0.var == n);
    lemma_sample_line(s0);
    assert(augment(s0, seq![]).labels =~= s0.labels);
    let c1 = with_sample(fresh_family(n), s0);
    let st1 = PState { done: finish(st), cur: c1 };
    let rest = f.samples.drop_first();
    assert(sl[0] == sample_line(s0));
    assert(sl.drop_first() =~= rest.map_values(|s: SampleV| sample_line(s)));
    assert forall|k: int| 0 <= k < rest.len() implies wf_sample(#[trigger] rest[k]) && sample_matches(c1.var->Some_0, c1.metric_type, rest[k].var) by {
        assert(rest[k] == f.samples[k + 1]);
    }
    lemma_samples_fold(rest, st1);
    assert(c1.samples + rest =~= f.samples);
}

#[verifier::rlimit(60)]
proof fn lemma_families_fold(all: Seq<FamilyV>, i: int, st: PState)
    requires
        wf_families(all),
        0 <= i <= all.len(),
        finish(st) == all.take(i),
        i == 0 ==> st == init_state(),
        i > 0 ==> st.cur == all[i - 1] && st.done == all.take(i - 1),
    ensures
        fold_lines(all_lines_from(all, i), st, seq![]) matches Some(stf) && finish(stf) == all,
    decreases all.len() - i,
{
    reveal(wf_family);
    reveal(opened_ok);
    if i == all.len() {
        assert(all.take(i) =~= all);
    } else {
        let f = all[i];
        let d = needs_descriptors(all, i);
        assert(all_lines_from(all, i) == family_lines(f, d) + all_lines_from(all, i + 1));
        assert(wf_family(f));
        if d {
            if i > 0 {
                assert(opened_ok(all, i));
                assert(all.take(i).last() == all[i - 1]);
                lemma_sampled_push(all.take(i - 1), all[i - 1], f.var->Some_0);
                assert(all.take(i - 1).push(all[i - 1]) =~= all.take(i));
                assert(all[i - 1].var != all[i].var);
            } else {
                assert(!sampled_in(st.done, f.var->Some_0));
            }
            lemma_family_fold_desc(f, st);
        } else {
            lemma_family_fold_sample(f, st);
        }
        lemma_fold_append(family_lines(f, d), all_lines_from(all, i + 1), st, seq![]);
        let st1 = PState { done: finish(st), cur: f };
        assert(finish(st1) =~= all.take(i + 1));
        lemma_families_fold(all, i + 1, st1);
    }
}

pub proof fn lemma_sampled_push(fs: Seq<FamilyV>, g: FamilyV, n: Seq<char>)
    ensures
        sampled_in(fs.push(g), n) == (sampled_in(fs, n) || (g.var == Some(n) && g.samples.len() > 0)),
{
    let p = fs.push(g);
    if sampled_in(fs, n) {
        let j = choose|j: int| 0 <= j < fs.len() && (#[trigger] fs[j]).var == Some(n) && fs[j].samples.len() > 0;
        assert(p[j] == fs[j]);
    }
    if g.var == Some(n) && g.samples.len() > 0 {
        assert(p[fs.len() as int] == g);
    }
    if sampled_in(p, n) {
        let j = choose|j: int| 0 <= j < p.len() && (#[trigger] p[j]).var == Some(n) && p[j].samples.len() > 0;
        if j < fs.len() {
            assert(p[j] == fs[j]);
        }
    }
}

proof fn lemma_nn_concat(a: Seq<char>, b: Seq<char>)
    requires
        no_newline(a),
        no_newline(b),
    ensures
        no_newline(a + b),
{
    assert forall|j: int| 0 <= j < (a + b).len() implies #[trigger] (a + b)[j] != '\n' by {
        if j < a.len() {
            assert((a + b)[j] == a[j]);
        } else {
            assert((a + b)[j] == b[j - a.len()]);
        }
    }
}

proof fn lemma_escaped_nn(v: Seq<char>)
    requires
        escaped_ok(v),
    ensures
        no_newline(v),
    decreases v.len(),
{
    if v.len() > 0 {
        if v[0] == '\\' {
            let w = v.subrange(2, v.len() as int);
            lemma_escaped_nn(w);
            assert forall|j: int| 0 <= j < v.len() implies #[trigger] v[j] != '\n' by {
                if j >= 2 {
                    assert(v[j] == w[j - 2]);
                }
            }
        } else {
            let w = v.subrange(1, v.len() as int);
            lemma_escaped_nn(w);
            assert forall|j: int| 0 <= j < v.len() implies #[trigger] v[j] != '\n' by {
                if j >= 1 {
                    assert(v[j] == w[j - 1]);
                }
            }
        }
    }
}

proof fn lemma_name_nn(n: Seq<char>)
    requires
        wf_name(n) || wf_label_name(n),
    ensures
        no_newline(n),
{
    assert forall|j: int| 0 <= j < n.len() implies #[trigger] n[j] != '\n' by {
        if j > 0 {
            assert(in_class(n[j], Class::Name) || in_class(n[j], Class::LabelName));
        }
    }
}

proof fn lemma_label_items_nn(l: LabelsV)
    requires
        wf_labels(l),
    ensures
        no_newline(render_label_items(l)),
    decreases l.len(),
{
    if l.len() > 0 {
        assert(wf_label_name(l[0].0) && escaped_ok(l[0].1));
        lemma_name_nn(l[0].0);
        lemma_escaped_nn(l[0].1);
        lemma_nn_concat(l[0].0, seq!['=', '"']);
        lemma_nn_concat(l[0].0 + seq!['=', '"'], l[0].1);
        lemma_nn_concat(l[0].0 + seq!['=', '"'] + l[0].1, seq!['"']);
        if l.len() > 1 {
            let rest = l.drop_first();
            assert(wf_labels(rest)) by {
                assert forall|q: int| 0 <= q < rest.len() implies wf_label_name(#[trigger] rest[q].0) && escaped_ok(rest[q].1) by {
                    assert(rest[q] == l[q + 1]);
                }
            }
            lemma_label_items_nn(rest);
            lemma_nn_concat(render_label(l[0]), seq![',']);
            lemma_nn_concat(render_label(l[0]) + seq![','], render_label_items(rest));
        }
    }
}

proof fn lemma_family_lines_nn(f: FamilyV, d: bool)
    requires
        wf_family(f),
    ensures
        forall|i: int| 0 <= i < family_lines(f, d).len() ==> no_newline(#[trigger] family_lines(f, d)[i]),
{
    reveal(wf_family);
    reveal(family_lines);
    reveal_strlit("HELP");
    reveal_strlit("TYPE");
    let n = f.var->Some_0;
    lemma_name_nn(n);
    let head = seq!['#', ' '];
    lemma_type_word(f.metric_type);
    assert(no_newline(type_word(f.metric_type)));
    lemma_nn_concat(head, "TYPE"@);
    lemma_nn_concat(head + "TYPE"@, seq![' ']);
    lemma_nn_concat(head + "TYPE"@ + seq![' '], n);
    lemma_nn_concat(head + "TYPE"@ + seq![' '] + n, seq![' ']);
    lemma_nn_concat(head + "TYPE"@ + seq![' '] + n + seq![' '], type_word(f.metric_type));
    if let Some(h) = f.help {
        lemma_nn_concat(head, "HELP"@);
        lemma_nn_concat(head + "HELP"@, seq![' ']);
        lemma_nn_concat(head + "HELP"@ + seq![' '], n);
        lemma_nn_concat(seq![' '], h);
        lemma_nn_concat(head + "HELP"@ + seq![' '] + n, if h.len() == 0 {
            seq![]
        } else {
            seq![' '] + h
        });
    }
    assert forall|k: int| 0 <= k < f.samples.len() implies no_newline(#[trigger] sample_line(f.samples[k])) by {
        let s = f.samples[k];
        assert(wf_sample(s));
        lemma_name_nn(s.var);
        let lab = render_labels(s.labels);
        if s.labels.len() > 0 {
            assert(wf_labels(s.labels));
            lemma_label_items_nn(s.labels);
            lemma_nn_concat(seq!['{'], render_label_items(s.labels));
            lemma_nn_concat(seq!['{'] + render_label_items(s.labels), seq!['}']);
        }
        lemma_nn_concat(s.var, lab);
        lemma_nn_concat(s.var + lab, seq![' ']);
        lemma_nn_concat(s.var + lab + seq![' '], s.value);
    }
    let h: Seq<Seq<char>> = match f.help {
        Some(hh) => seq![help_line(n, hh)],
        None => seq![],
    };
    let sl = f.samples.map_values(|s: SampleV| sample_line(s));
    let dl: Seq<Seq<char>> = if d {
        h + seq![type_line(n, f.metric_type)]
    } else {
        seq![]
    };
    assert forall|i: int| 0 <= i < family_lines(f, d).len() implies no_newline(#[trigger] family_lines(f, d)[i]) by {
        let ls = family_lines(f, d);
        assert(ls == dl + sl);
        if i >= dl.len() {
            assert(ls[i] == sl[i - dl.len()]);
        } else if d && i >= h.len() {
            assert(ls[i] == type_line(n, f.metric_type));
        }
    }
}

proof fn lemma_all_lines_nn(fs: Seq<FamilyV>, i: int)
    requires
        wf_families(fs),
        0 <= i,
    ensures
        forall|j: int| 0 <= j < all_lines_from(fs, i).len() ==> no_newline(#[trigger] all_lines_from(fs, i)[j]),
    decreases fs.len() - i,
{
    if i < fs.len() {
        assert(wf_family(fs[i]));
        let d = needs_descriptors(fs, i);
        lemma_family_lines_nn(fs[i], d);
        lemma_all_lines_nn(fs, i + 1);
        let a = family_lines(fs[i], d);
        let b = all_lines_from(fs, i + 1);
        assert(all_lines_from(fs, i) == a + b);
        assert forall|j: int| 0 <= j < (a + b).len() implies no_newline(#[trigger] (a + b)[j]) by {
            if j < a.len() {
                assert((a + b)[j] == a[j]);
            } else {
                assert((a + b)[j] == b[j - a.len()]);
            }
        }
    }
}

/// Well-formed families, rendered as text, decode to themselves.
pub proof fn lemma_render_decodes(fs: Seq<FamilyV>)
    requires
        wf_families(fs),
    ensures
        parse_spec(None, None, render(fs)) == Some(fs),
{
    assert(crate::grammar::added_labels(None, None) =~= seq![]);
    lemma_all_lines_nn(fs, 0);
    lemma_join_parse(all_lines_from(fs, 0), init_state(), seq![]);
    assert(finish(init_state()) =~= fs.take(0));
    lemma_families_fold(fs, 0, init_state());
}

proof fn lemma_quoted_escaped(t: Seq<char>, i: int)
    requires
        0 <= i <= t.len(),
        no_newline(t),
        quoted_end(t, i) < t.len(),
    ensures
        escaped_ok(t.subrange(i, quoted_end(t, i))),
    decreases t.len() - i,
{
    let k = quoted_end(t, i);
    let v = t.subrange(i, k);
    crate::grammar::lemma_quoted_end_bounds(t, i);
    if t[i] == '"' {
        assert(v.len() == 0);
    } else if t[i] == '\\' {
        crate::grammar::lemma_quoted_end_bounds(t, i + 2);
        lemma_quoted_escaped(t, i + 2);
        assert(v.subrange(2, v.len() as int) =~= t.subrange(i + 2, k));
        assert(v[1] == t[i + 1]);
    } else {
        crate::grammar::lemma_quoted_end_bounds(t, i + 1);
        lemma_quoted_escaped(t, i + 1);
        assert(v.subrange(1, v.len() as int) =~= t.subrange(i + 1, k));
        assert(v[0] == t[i]);
    }
}

#[verifier::rlimit(40)]
proof fn lemma_label_list_wf(t: Seq<char>, i: int)
    requires
        no_newline(t),
        0 <= i,
    ensures
        crate::grammar::parse_label_list(t, i) matches Some((l, e)) ==> wf_labels(l),
    decreases t.len() - i,
{
    if 0 <= i < t.len() && t[i] != '}' && is_label_start(t[i]) {
        let j = scan(t, i + 1, Class::LabelName);
        crate::grammar::lemma_scan_bounds(t, i + 1, Class::LabelName);
        if i < j && j + 1 < t.len() && t[j] == '=' && t[j + 1] == '"' {
            let k = quoted_end(t, j + 2);
            if j + 2 <= k && k + 1 < t.len() {
                let pair = (t.subrange(i, j), t.subrange(j + 2, k));
                assert(wf_label_name(pair.0)) by {
                    assert forall|m: int| 1 <= m < pair.0.len() implies in_class(#[trigger] pair.0[m], Class::LabelName) by {
                        assert(pair.0[m] == t[i + m]);
                    }
                }
                lemma_quoted_escaped(t, j + 2);
                if t[k + 1] == ',' {
                    lemma_label_list_wf(t, k + 2);
                    match crate::grammar::parse_label_list(t, k + 2) {
                        Some((rest, e)) => {
                            let l = seq![pair] + rest;
                            assert forall|q: int| 0 <= q < l.len() implies wf_label_name(#[trigger] l[q].0) && escaped_ok(l[q].1) by {
                                if q > 0 {
                                    assert(l[q] == rest[q - 1]);
                                }
                            }
                        },
                        None => {},
                    }
                } else if t[k + 1] == '}' {
                    let l = seq![pair];
                    assert forall|q: int| 0 <= q < l.len() implies wf_label_name(#[trigger] l[q].0) && escaped_ok(l[q].1) by {
                        assert(l[q] == pair);
                    }
                }
            }
        }
    }
}

proof fn lemma_valid_value_nonempty(v: Seq<char>)
    requires
        valid_value(v),
    ensures
        v.len() > 0,
{
    reveal_strlit("NaN");
    reveal_strlit("+Inf");
    reveal_strlit("-Inf");
    if v.len() == 0 {
        assert(scan(v, 0, Class::Digit) == 0);
        assert(!crate::grammar::float_literal(v));
    }
}

/// What a decoded line holds is well-formed.
pub open spec fn line_wf(l: LineV) -> bool {
    match l {
        LineV::Help(n, h) => wf_name(n) && wf_help(h),
        LineV::Type(n, _) => wf_name(n),
        LineV::Sample(s) => wf_sample(s),
        _ => true,
    }
}

proof fn lemma_name_at(t: Seq<char>, c: int)
    requires
        0 <= c < t.len(),
        is_name_start(t[c]),
    ensures
        wf_name(t.subrange(c, scan(t, c + 1, Class::Name))),
{
    crate::grammar::lemma_scan_bounds(t, c + 1, Class::Name);
    let n = t.subrange(c, scan(t, c + 1, Class::Name));
    assert forall|m: int| 1 <= m < n.len() implies in_class(#[trigger] n[m], Class::Name) by {
        assert(n[m] == t[c + m]);
    }
}

proof fn lemma_line_wf(t: Seq<char>)
    requires
        no_newline(t),
    ensures
        parse_line(t) matches Some(l) ==> line_wf(l),
{
    reveal(parse_line);
    if scan(t, 0, Class::Space) == t.len() {
    } else if t[0] == '#' {
        let a = scan(t, 1, Class::Space);
        let b = scan(t, a, Class::Token);
        if 1 < a && a <= b <= t.len() && (t.subrange(a, b) == "HELP"@ || t.subrange(a, b) == "TYPE"@) {
            if 0 <= b < t.len() && is_space(t[b]) {
                crate::grammar::lemma_scan_bounds(t, b, Class::Space);
                let c = scan(t, b, Class::Space);
                if 0 <= c < t.len() && is_name_start(t[c]) {
                    lemma_name_at(t, c);
                    let d = scan(t, c + 1, Class::Name);
                    crate::grammar::lemma_scan_bounds(t, c + 1, Class::Name);
                    if d < t.len() {
                        crate::grammar::lemma_scan_bounds(t, d, Class::Space);
                        let e = scan(t, d, Class::Space);
                        let h = t.subrange(e, t.len() as int);
                        assert forall|j: int| 0 <= j < h.len() implies #[trigger] h[j] != '\n' by {
                            assert(h[j] == t[e + j]);
                        }
                        if h.len() > 0 {
                            assert(h[0] == t[e]);
                        }
                    } else {
                        assert(wf_help(seq![]));
                    }
                }
            }
        }
    } else {
        if t.len() > 0 && is_name_start(t[0]) {
            lemma_name_at(t, 0);
            let e = scan(t, 1, Class::Name);
            crate::grammar::lemma_scan_bounds(t, 1, Class::Name);
            if e < t.len() && t[e] == '{' {
                lemma_label_list_wf(t, e + 1);
                crate::grammar::lemma_label_list_end(t, e + 1);
            } else {
                assert(wf_labels(seq![]));
            }
            match parse_sample_line_labels(t, e) {
                Some((labels, p)) => {
                    if 0 <= p < t.len() && is_space(t[p]) {
                        crate::grammar::lemma_scan_bounds(t, p, Class::Space);
                        let v0 = scan(t, p, Class::Space);
                        crate::grammar::lemma_scan_bounds(t, v0, Class::Token);
                        let v1 = scan(t, v0, Class::Token);
                        let v = t.subrange(v0, v1);
                        if valid_value(v) {
                            lemma_valid_value_nonempty(v);
                            assert forall|j: int| 0 <= j < v.len() implies #[trigger] v[j] != '\n' by {
                                assert(v[j] == t[v0 + j]);
                            }
                            assert forall|j: int| 0 <= j < v.len() implies in_class(#[trigger] v[j], Class::Token) by {
                                assert(v[j] == t[v0 + j]);
                            }
                        }
                    }
                },
                None => {},
            }
        }
    }
}

spec fn parse_sample_line_labels(t: Seq<char>, e: int) -> Option<(LabelsV, int)> {
    if e < t.len() && t[e] == '{' {
        crate::grammar::parse_label_list(t, e + 1)
    } else {
        Some((seq![], e))
    }
}

/// A decoder state whose closed families and open family are well-formed.
pub open spec fn wf_state(st: PState) -> bool {
    &&& st.cur.var is None ==> st.done.len() == 0
    &&& st.cur.var is Some ==> wf_families(st.done.push(st.cur))
}

#[verifier::rlimit(80)]
proof fn lemma_push_wf(fs: Seq<FamilyV>, g: FamilyV)
    requires
        wf_families(fs),
        wf_family(g),
        fs.len() > 0 ==> fs.last().var != g.var && (opened_by_sample(fs.last(), g) || opened_by_descriptor(fs, g)),
    ensures
        wf_families(fs.push(g)),
{
    reveal(opened_ok);
    let p = fs.push(g);
    assert forall|i: int| 0 <= i < p.len() implies wf_family(#[trigger] p[i]) by {
        if i < fs.len() {
            assert(p[i] == fs[i]);
        }
    }
    assert forall|i: int| 0 <= i < p.len() - 1 implies (#[trigger] p[i]).var != p[i + 1].var by {
        assert(p[i] == fs[i]);
        if i + 1 < fs.len() {
            assert(p[i + 1] == fs[i + 1]);
        }
    }
    assert forall|i: int| 1 <= i < p.len() implies #[trigger] opened_ok(p, i) by {
        if i < fs.len() {
            assert(opened_ok(fs, i));
            assert(p.take(i) =~= fs.take(i));
            assert(p[i] == fs[i] && p[i - 1] == fs[i - 1]);
        } else {
            assert(p.take(i) =~= fs);
            assert(p[i - 1] == fs.last());
        }
    }
}

#[verifier::rlimit(80)]
proof fn lemma_last_wf(pre: Seq<FamilyV>, g: FamilyV, g2: FamilyV)
    requires
        wf_families(pre.push(g)),
        wf_family(g2),
        g2.var == g.var,
        pre.len() > 0 ==> (opened_by_sample(pre.last(), g2) || opened_by_descriptor(pre, g2)),
    ensures
        wf_families(pre.push(g2)),
{
    reveal(opened_ok);
    let q = pre.push(g);
    let p = pre.push(g2);
    assert forall|i: int| 0 <= i < p.len() implies wf_family(#[trigger] p[i]) by {
        if i < pre.len() {
            assert(p[i] == q[i]);
        }
    }
    assert forall|i: int| 0 <= i < p.len() - 1 implies (#[trigger] p[i]).var != p[i + 1].var by {
        assert(p[i] == q[i]);
        assert(q[i].var != q[i + 1].var);
        if i + 1 < pre.len() {
            assert(p[i + 1] == q[i + 1]);
        }
    }
    assert forall|i: int| 1 <= i < p.len() implies #[trigger] opened_ok(p, i) by {
        if i < pre.len() {
            assert(opened_ok(q, i));
            assert(p.take(i) =~= q.take(i));
            assert(p[i] == q[i] && p[i - 1] == q[i - 1]);
        } else {
            assert(p.take(i) =~= pre);
            assert(p[i - 1] == pre.last());
        }
    }
}

/// The open family of a well-formed state, as its last element, was opened by
/// a sample or a descriptor.
proof fn lemma_cur_opened(st: PState)
    requires
        wf_state(st),
        st.cur.var is Some,
        st.done.len() > 0,
    ensures
        opened_by_sample(st.done.last(), st.cur) || opened_by_descriptor(st.done, st.cur),
{
    reveal(opened_ok);
    let fs = st.done.push(st.cur);
    let i = st.done.len() as int;
    assert(opened_ok(fs, i));
    assert(fs.take(i) =~= st.done);
    assert(fs[i - 1] == st.done.last());
    assert(fs[i] == st.cur);
}

#[verifier::rlimit(80)]
proof fn lemma_step_wf(st: PState, l: LineV)
    requires
        wf_state(st),
        line_wf(l),
    ensures
        step(st, l, seq![]) matches Some(st2) ==> wf_state(st2),
{
    reveal(wf_family);
    let empty = Seq::<FamilyV>::empty();
    if st.cur.var is Some {
        let fs = st.done.push(st.cur);
        assert(fs[st.done.len() as int] == st.cur);
        assert(wf_family(st.cur));
        if st.done.len() > 0 {
            lemma_cur_opened(st);
        }
    }
    match l {
        LineV::Help(n, h) => {
            if !sampled_in(st.done, n) {
                let g = with_help(fresh_family(n), h);
                assert(wf_family(g));
                match st.cur.var {
                    None => {
                        assert(st.done =~= empty);
                        lemma_push_wf(empty, g);
                    },
                    Some(m) => {
                        if st.cur.samples.len() == 0 && m == n {
                            let c = with_help(st.cur, h);
                            assert(wf_family(c));
                            lemma_last_wf(st.done, st.cur, c);
                        } else if st.cur.samples.len() > 0 && m != n {
                            let fs = st.done.push(st.cur);
                            lemma_sampled_push(st.done, st.cur, n);
                            assert(fs.last() == st.cur);
                            lemma_push_wf(fs, g);
                        }
                    },
                }
            }
        },
        LineV::Type(n, ty) => {
            if !sampled_in(st.done, n) {
                let g = with_type(fresh_family(n), ty);
                assert(wf_family(g));
                match st.cur.var {
                    None => {
                        assert(st.done =~= empty);
                        lemma_push_wf(empty, g);
                    },
                    Some(m) => {
                        if st.cur.samples.len() == 0 && m == n {
                            let c = with_type(st.cur, ty);
                            assert(wf_family(c));
                            lemma_last_wf(st.done, st.cur, c);
                        } else if st.cur.samples.len() > 0 && m != n {
                            let fs = st.done.push(st.cur);
                            lemma_sampled_push(st.done, st.cur, n);
                            assert(fs.last() == st.cur);
                            lemma_push_wf(fs, g);
                        }
                    },
                }
            }
        },
        LineV::Sample(s) => {
            let s2 = augment(s, seq![]);
            assert(s2.labels =~= s.labels);
            assert(s2 == s);
            let g = with_sample(fresh_family(s.var), s2);
            assert(g.samples =~= seq![s]);
            assert(wf_family(g));
            match st.cur.var {
                None => {
                    assert(st.done =~= empty);
                    lemma_push_wf(empty, g);
                },
                Some(m) => {
                    if sample_matches(m, st.cur.metric_type, s.var) {
                        let c = with_sample(st.cur, s2);
                        assert forall|k: int| 0 <= k < c.samples.len() implies wf_sample(#[trigger] c.samples[k])
                            && sample_matches(c.var->Some_0, c.metric_type, c.samples[k].var) by {
                            if k < st.cur.samples.len() {
                                assert(c.samples[k] == st.cur.samples[k]);
                            }
                        }
                        assert(wf_family(c));
                        if st.cur.samples.len() > 0 {
                            assert(c.samples[0] == st.cur.samples[0]);
                        }
                        lemma_last_wf(st.done, st.cur, c);
                    } else {
                        let fs = st.done.push(st.cur);
                        assert(fs.last() == st.cur);
                        assert(g.samples[0] == s);
                        lemma_push_wf(fs, g);
                    }
                },
            }
        },
        _ => {},
    }
}

#[verifier::rlimit(60)]
proof fn lemma_parse_from_wf(s: Seq<char>, p: int, st: PState)
    requires
        wf_state(st),
        0 <= p,
    ensures
        parse_from(s, p, st, seq![]) matches Some(fs) ==> wf_families(fs),
    decreases s.len() - p,
{
    if p >= s.len() {
        if st.cur.var is None {
            assert(finish(st) =~= Seq::<FamilyV>::empty());
        }
    } else {
        crate::grammar::lemma_newline_bounds(s, p);
        let k = newline_index(s, p);
        if k < s.len() {
            let t = s.subrange(p, k);
            assert forall|j: int| 0 <= j < t.len() implies #[trigger] t[j] != '\n' by {
                assert(t[j] == s[p + j]);
            }
            lemma_line_wf(t);
            match parse_line(t) {
                None => {},
                Some(l) => {
                    lemma_step_wf(st, l);
                    match step(st, l, seq![]) {
                        None => {},
                        Some(st2) => {
                            lemma_parse_from_wf(s, k + 1, st2);
                        },
                    }
                },
            }
        }
    }
}

/// Whatever an input decodes to (without added labels), rendering it and
/// decoding the text again gives the same families: comments, blank lines,
/// timestamps and the width of blanks are all that is lost.
pub proof fn law_round_trip(input: Seq<char>)
    requires
        parse_spec(None, None, input) is Some,
    ensures
        parse_spec(None, None, render(parse_spec(None, None, input)->Some_0)) == parse_spec(None, None, input),
{
    let fs = parse_spec(None, None, input)->Some_0;
    assert(crate::grammar::added_labels(None, None) =~= seq![]);
    assert(wf_state(init_state()));
    lemma_parse_from_wf(input, 0, init_state());
    lemma_render_decodes(fs);
}

} // verus!
