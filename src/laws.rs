//! Properties of the exposition decoder that relate several decodings or hold
//! of every input.
use vstd::prelude::*;
use crate::grammar::{
    added_labels, augment, fresh_family, init_state, newline_index, open_for, parse_from,
    parse_line, parse_spec, sampled_in, step, with_sample, LineV, PState,
};
use crate::model::{FamilyV, LabelsV, SampleV};

verus! {

pub open spec fn augment_family(f: FamilyV, aug: LabelsV) -> FamilyV {
    FamilyV {
        var: f.var,
        help: f.help,
        metric_type: f.metric_type,
        samples: f.samples.map_values(|s: SampleV| augment(s, aug)),
    }
}

/// Families whose samples all have `aug` placed before their own labels.
pub open spec fn augment_families(fs: Seq<FamilyV>, aug: LabelsV) -> Seq<FamilyV> {
    fs.map_values(|f: FamilyV| augment_family(f, aug))
}

pub open spec fn augment_state(st: PState, aug: LabelsV) -> PState {
    PState { done: augment_families(st.done, aug), cur: augment_family(st.cur, aug) }
}

proof fn lemma_augment_push(fs: Seq<FamilyV>, f: FamilyV, aug: LabelsV)
    ensures
        augment_families(fs.push(f), aug) == augment_families(fs, aug).push(augment_family(f, aug)),
{
    assert(augment_families(fs.push(f), aug) =~= augment_families(fs, aug).push(augment_family(f, aug)));
}

proof fn lemma_augment_fresh(n: Seq<char>, aug: LabelsV)
    ensures
        augment_family(fresh_family(n), aug) == fresh_family(n),
{
    assert(augment_family(fresh_family(n), aug).samples =~= fresh_family(n).samples);
}

proof fn lemma_augment_with_sample(f: FamilyV, s: SampleV, aug: LabelsV)
    ensures
        with_sample(augment_family(f, aug), augment(s, aug)) == augment_family(
            with_sample(f, augment(s, seq![])),
            aug,
        ),
{
    assert(augment(augment(s, seq![]), aug).labels =~= augment(s, aug).labels);
    assert(with_sample(augment_family(f, aug), augment(s, aug)).samples =~= augment_family(
        with_sample(f, augment(s, seq![])),
        aug,
    ).samples);
}

proof fn lemma_augment_sampled(fs: Seq<FamilyV>, n: Seq<char>, aug: LabelsV)
    ensures
        sampled_in(augment_families(fs, aug), n) == sampled_in(fs, n),
{
    let a = augment_families(fs, aug);
    if sampled_in(fs, n) {
        let j = choose|j: int| 0 <= j < fs.len() && (#[trigger] fs[j]).var == Some(n) && fs[j].samples.len() > 0;
        assert(a[j].var == Some(n) && a[j].samples.len() > 0);
    }
    if sampled_in(a, n) {
        let j = choose|j: int| 0 <= j < a.len() && (#[trigger] a[j]).var == Some(n) && a[j].samples.len() > 0;
        assert(fs[j].var == Some(n) && fs[j].samples.len() > 0);
    }
}

proof fn lemma_augment_open_for(st: PState, n: Seq<char>, aug: LabelsV)
    ensures
        match open_for(st, n) {
            None => open_for(augment_state(st, aug), n) is None,
            Some(s2) => open_for(augment_state(st, aug), n) == Some(augment_state(s2, aug)),
        },
{
    lemma_augment_sampled(st.done, n, aug);
    lemma_augment_fresh(n, aug);
    lemma_augment_push(st.done, st.cur, aug);
}

proof fn lemma_augment_step(st: PState, l: LineV, aug: LabelsV)
    ensures
        match step(st, l, seq![]) {
            None => step(augment_state(st, aug), l, aug) is None,
            Some(s2) => step(augment_state(st, aug), l, aug) == Some(augment_state(s2, aug)),
        },
{
    match l {
        LineV::Blank => {},
        LineV::Comment => {},
        LineV::Help(n, h) => {
            lemma_augment_open_for(st, n, aug);
        },
        LineV::Type(n, ty) => {
            lemma_augment_open_for(st, n, aug);
        },
        LineV::Sample(s) => {
            lemma_augment_fresh(s.var, aug);
            lemma_augment_push(st.done, st.cur, aug);
            lemma_augment_with_sample(st.cur, s, aug);
            lemma_augment_with_sample(fresh_family(s.var), s, aug);
        },
    }
}

proof fn lemma_augment_parse_from(s: Seq<char>, p: int, st: PState, aug: LabelsV)
    ensures
        match parse_from(s, p, st, seq![]) {
            None => parse_from(s, p, augment_state(st, aug), aug) is None,
            Some(fs) => parse_from(s, p, augment_state(st, aug), aug) == Some(augment_families(fs, aug)),
        },
    decreases s.len() - p,
{
    if p < 0 || p >= s.len() {
        lemma_augment_push(st.done, st.cur, aug);
    } else {
        let k = newline_index(s, p);
        if k < p || k >= s.len() {
        } else {
            match parse_line(s.subrange(p, k)) {
                None => {},
                Some(l) => {
                    lemma_augment_step(st, l, aug);
                    match step(st, l, seq![]) {
                        None => {},
                        Some(st2) => {
                            lemma_augment_parse_from(s, k + 1, st2, aug);
                        },
                    }
                },
            }
        }
    }
}

/// With `instance` and `job` set, an input decodes exactly where it decodes
/// without them, and every sample's labels are `("instance", I)`, `("job", J)`
/// and then its own labels in the order of the input.
pub proof fn law_label_augmentation(i: Seq<char>, j: Seq<char>, input: Seq<char>)
    ensures
        added_labels(Some(i), Some(j)) == seq![("instance"@, i), ("job"@, j)],
        match parse_spec(None, None, input) {
            None => parse_spec(Some(i), Some(j), input) is None,
            Some(fs) => parse_spec(Some(i), Some(j), input) == Some(
                augment_families(fs, seq![("instance"@, i), ("job"@, j)]),
            ),
        },
{
    let aug = added_labels(Some(i), Some(j));
    assert(aug =~= seq![("instance"@, i), ("job"@, j)]);
    assert(added_labels(None, None) =~= seq![]);
    assert(augment_state(init_state(), aug) =~= init_state()) by {
        assert(augment_state(init_state(), aug).done =~= init_state().done);
        assert(augment_state(init_state(), aug).cur.samples =~= init_state().cur.samples);
    }
    lemma_augment_parse_from(input, 0, init_state(), aug);
}

/// Whether `l` is a `HELP` or `TYPE` line for the metric `n`.
pub open spec fn is_descriptor_for(l: Option<LineV>, n: Seq<char>) -> bool {
    match l {
        Some(LineV::Help(m, _)) => m == n,
        Some(LineV::Type(m, _)) => m == n,
        _ => false,
    }
}

/// A `HELP` or `TYPE` line for a metric that already has samples in this scrape
/// makes the whole input fail to decode, whatever follows.
pub proof fn law_descriptor_after_sample(s: Seq<char>, p: int, st: PState, aug: LabelsV, n: Seq<char>)
    requires
        0 <= p < s.len(),
        newline_index(s, p) < s.len(),
        (st.cur.var == Some(n) && st.cur.samples.len() > 0) || sampled_in(st.done, n),
        is_descriptor_for(parse_line(s.subrange(p, newline_index(s, p))), n),
    ensures
        parse_from(s, p, st, aug) is None,
{
    crate::grammar::lemma_newline_bounds(s, p);
}

/// A `HELP` or `TYPE` line for another metric than the open family, before
/// that family has any sample, makes the whole input fail to decode.
pub proof fn law_descriptor_name_mismatch(s: Seq<char>, p: int, st: PState, aug: LabelsV, n: Seq<char>)
    requires
        0 <= p < s.len(),
        newline_index(s, p) < s.len(),
        st.cur.var is Some,
        st.cur.var != Some(n),
        st.cur.samples.len() == 0,
        is_descriptor_for(parse_line(s.subrange(p, newline_index(s, p))), n),
    ensures
        parse_from(s, p, st, aug) is None,
{
    crate::grammar::lemma_newline_bounds(s, p);
}

} // verus!
