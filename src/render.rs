//! Writing metric families in the text exposition format.
use vstd::prelude::*;
use crate::model::{families_view, labels_view, MetricFamily, Sample, SampleType};
use crate::roundtrip::{
    all_lines_from, family_lines, help_line, join_lines, needs_descriptors, render, render_label,
    render_label_items, sample_line, type_line, type_word,
};
use crate::text::{chars_of, is_concat, push_char, same_chars};

verus! {

proof fn lemma_join_append(a: Seq<Seq<char>>, b: Seq<Seq<char>>)
    ensures
        join_lines(a + b) == join_lines(a) + join_lines(b),
    decreases a.len(),
{
    if a.len() == 0 {
        assert(a + b =~= b);
        assert(join_lines(a) + join_lines(b) =~= join_lines(b));
    } else {
        assert((a + b).drop_first() =~= a.drop_first() + b);
        assert((a + b)[0] == a[0]);
        lemma_join_append(a.drop_first(), b);
        assert(join_lines(a + b) =~= join_lines(a) + join_lines(b));
    }
}

proof fn lemma_join_one(x: Seq<char>)
    ensures
        join_lines(seq![x]) == x + seq!['\n'],
{
    let e = Seq::<Seq<char>>::empty();
    assert(seq![x].drop_first() =~= e);
    assert(join_lines(e) == Seq::<char>::empty());
    assert(join_lines(seq![x]) =~= x + seq!['\n']);
}

proof fn lemma_join_push(a: Seq<Seq<char>>, x: Seq<char>)
    ensures
        join_lines(a.push(x)) == join_lines(a) + x + seq!['\n'],
{
    assert(a.push(x) =~= a + seq![x]);
    lemma_join_append(a, seq![x]);
    lemma_join_one(x);
    assert(join_lines(a) + (x + seq!['\n']) =~= join_lines(a) + x + seq!['\n']);
}

proof fn lemma_items_push(l: crate::model::LabelsV, p: (Seq<char>, Seq<char>))
    requires
        l.len() > 0,
    ensures
        render_label_items(l.push(p)) == render_label_items(l) + seq![','] + render_label(p),
    decreases l.len(),
{
    if l.len() == 1 {
        assert(l.push(p).drop_first() =~= seq![p]);
        assert(render_label_items(seq![p]) == render_label(seq![p][0]));
        assert(seq![p][0] == p);
        assert(l.push(p)[0] == l[0]);
        assert(render_label_items(l.push(p)) =~= render_label_items(l) + seq![','] + render_label(p));
    } else {
        assert(l.push(p).drop_first() =~= l.drop_first().push(p));
        assert(l.push(p)[0] == l[0]);
        lemma_items_push(l.drop_first(), p);
        assert(render_label_items(l.push(p)) =~= render_label_items(l) + seq![','] + render_label(p));
    }
}

fn type_word_str(t: SampleType) -> (r: &'static str)
    ensures
        r@ == type_word(t),
{
    match t {
        SampleType::Counter => "counter",
        SampleType::Gauge => "gauge",
        SampleType::Histogram => "histogram",
        SampleType::Summary => "summary",
        SampleType::Untyped => "untyped",
    }
}

fn render_sample(s: &Sample, out: &mut String)
    ensures
        final(out)@ == old(out)@ + sample_line(s@) + seq!['\n'],
{
    let ghost start = out@;
    out.append(s.var.as_str());
    let ghost lv = labels_view(s.labels@);
    if s.labels.len() > 0 {
        push_char(out, '{');
        let ghost open = out@;
        let mut k: usize = 0;
        while k < s.labels.len()
            invariant
                lv == labels_view(s.labels@),
                k <= s.labels@.len(),
                s.labels@.len() > 0,
                k == 0 ==> out@ == open,
                k > 0 ==> out@ == open + render_label_items(lv.take(k as int)),
            decreases s.labels@.len() - k,
        {
            if k > 0 {
                push_char(out, ',');
            }
            out.append(s.labels[k].0.as_str());
            push_char(out, '=');
            push_char(out, '"');
            out.append(s.labels[k].1.as_str());
            push_char(out, '"');
            proof {
                let p = lv[k as int];
                assert(lv.take(k + 1) =~= lv.take(k as int).push(p));
                if k == 0 {
                    assert(lv.take(1) =~= seq![p]);
                    assert(out@ =~= open + render_label_items(lv.take(1)));
                } else {
                    lemma_items_push(lv.take(k as int), p);
                    assert(out@ =~= open + render_label_items(lv.take(k + 1)));
                }
            }
            k += 1;
        }
        push_char(out, '}');
        assert(lv.take(lv.len() as int) =~= lv);
    }
    push_char(out, ' ');
    out.append(s.value.as_str());
    push_char(out, '\n');
    assert(out@ =~= start + sample_line(s@) + seq!['\n']);
}

fn render_descriptors(f: &MetricFamily, out: &mut String)
    requires
        f.var is Some,
    ensures
        final(out)@ == old(out)@ + join_lines(descriptor_lines(f@)),
{
    let ghost start = out@;
    let ghost fv = f@;
    let n = match &f.var {
        Some(n) => n,
        None => {
            return;
        },
    };
    let ghost h: Seq<Seq<char>> = match fv.help {
        Some(hh) => seq![help_line(n@, hh)],
        None => seq![],
    };
    let ghost tl = seq![type_line(n@, fv.metric_type)];
    let ghost sl = fv.samples.map_values(|s: crate::model::SampleV| sample_line(s));
    proof {
        lemma_join_append(h + tl, sl);
        lemma_join_append(h, tl);
        lemma_join_one(type_line(n@, fv.metric_type));
    }
    if let Some(help) = &f.help {
        push_char(out, '#');
        push_char(out, ' ');
        out.append("HELP");
        push_char(out, ' ');
        out.append(n.as_str());
        if !help.as_str().is_empty() {
            push_char(out, ' ');
            out.append(help.as_str());
        }
        push_char(out, '\n');
        proof {
            lemma_join_one(help_line(n@, help@));
        }
        assert(out@ =~= start + join_lines(h));
    } else {
        assert(out@ =~= start + join_lines(h));
    }
    push_char(out, '#');
    push_char(out, ' ');
    out.append("TYPE");
    push_char(out, ' ');
    out.append(n.as_str());
    push_char(out, ' ');
    out.append(type_word_str(f.metric_type));
    push_char(out, '\n');
    assert(out@ =~= start + join_lines(h + tl));
}

/// The descriptor lines of a family: `HELP` where it has help, then `TYPE`.
pub open spec fn descriptor_lines(f: crate::model::FamilyV) -> Seq<Seq<char>> {
    let n = f.var->Some_0;
    let h: Seq<Seq<char>> = match f.help {
        Some(h) => seq![help_line(n, h)],
        None => seq![],
    };
    h + seq![type_line(n, f.metric_type)]
}

fn render_family(f: &MetricFamily, d: bool, out: &mut String)
    requires
        f.var is Some,
    ensures
        final(out)@ == old(out)@ + join_lines(family_lines(f@, d)),
{
    proof {
        reveal(family_lines);
    }
    let ghost start = out@;
    let ghost fv = f@;
    let ghost sl = fv.samples.map_values(|s: crate::model::SampleV| sample_line(s));
    let ghost dl: Seq<Seq<char>> = if d {
        descriptor_lines(fv)
    } else {
        seq![]
    };
    if d {
        render_descriptors(f, out);
    }
    assert(out@ =~= start + join_lines(dl));
    proof {
        lemma_join_append(dl, sl);
        assert(family_lines(fv, d) == dl + sl);
    }
    let ghost mid = out@;
    let mut k: usize = 0;
    while k < f.samples.len()
        invariant
            fv == f@,
            sl == fv.samples.map_values(|s: crate::model::SampleV| sample_line(s)),
            k <= f.samples@.len(),
            out@ == mid + join_lines(sl.take(k as int)),
        decreases f.samples@.len() - k,
    {
        render_sample(&f.samples[k], out);
        proof {
            assert(sl.take(k + 1) =~= sl.take(k as int).push(sl[k as int]));
            lemma_join_push(sl.take(k as int), sl[k as int]);
            assert(sl[k as int] == sample_line(f.samples@[k as int]@));
        }
        k += 1;
    }
    assert(sl.take(sl.len() as int) =~= sl);
    assert(out@ =~= start + join_lines(family_lines(fv, d)));
}

fn belongs(n: &Vec<char>, ty: SampleType, s: &Vec<char>, w: &crate::parse::Words) -> (r: bool)
    requires
        w.wf(),
    ensures
        r == crate::grammar::sample_matches(n@, ty, s@),
{
    if same_chars(s, n) {
        return true;
    }
    match ty {
        SampleType::Histogram | SampleType::Summary => {
            is_concat(s, n, &w.bucket) || is_concat(s, n, &w.count) || is_concat(s, n, &w.sum)
        },
        _ => false,
    }
}

fn needs_descriptors_exec(families: &Vec<MetricFamily>, i: usize, w: &crate::parse::Words) -> (r: bool)
    requires
        w.wf(),
        i < families@.len(),
        forall|j: int| 0 <= j < families@.len() ==> (#[trigger] families@[j]).var is Some,
    ensures
        r == needs_descriptors(families_view(families@), i as int),
{
    let ghost fs = families_view(families@);
    if i == 0 {
        return true;
    }
    let f = &families[i];
    assert(fs[i as int] == f@ && fs[i - 1] == families@[i - 1]@);
    let untyped = match f.metric_type {
        SampleType::Untyped => true,
        _ => false,
    };
    if f.help.is_some() || !untyped || f.samples.len() == 0 {
        return true;
    }
    let p = &families[i - 1];
    assert(p.var is Some);
    let pn = match &p.var {
        Some(v) => chars_of(v.as_str()),
        None => Vec::new(),
    };
    let sn = chars_of(f.samples[0].var.as_str());
    belongs(&pn, p.metric_type, &sn, w)
}

/// The families in the exposition format: a family is written with its `HELP`
/// (where it has help) and `TYPE` lines unless its first sample line alone opens
/// it, then one line per sample, without timestamps.
pub fn render_families(families: &Vec<MetricFamily>) -> (r: String)
    requires
        forall|i: int| 0 <= i < families@.len() ==> (#[trigger] families@[i]).var is Some,
    ensures
        r@ == render(families_view(families@)),
{
    let ghost fs = families_view(families@);
    let w = crate::parse::Words::new();
    let mut out = String::new();
    let mut i: usize = 0;
    assert(out@ + join_lines(all_lines_from(fs, 0)) =~= render(fs));
    while i < families.len()
        invariant
            w.wf(),
            fs == families_view(families@),
            i <= families@.len(),
            forall|j: int| 0 <= j < families@.len() ==> (#[trigger] families@[j]).var is Some,
            render(fs) == out@ + join_lines(all_lines_from(fs, i as int)),
        decreases families@.len() - i,
    {
        let d = needs_descriptors_exec(families, i, &w);
        let ghost before = out@;
        render_family(&families[i], d, &mut out);
        proof {
            assert(fs[i as int] == families@[i as int]@);
            let fl = family_lines(fs[i as int], d);
            assert(all_lines_from(fs, i as int) == fl + all_lines_from(fs, i + 1));
            lemma_join_append(fl, all_lines_from(fs, i + 1));
            assert(render(fs) =~= out@ + join_lines(all_lines_from(fs, i + 1)));
        }
        i += 1;
    }
    assert(all_lines_from(fs, i as int) =~= Seq::<Seq<char>>::empty());
    assert(join_lines(Seq::<Seq<char>>::empty()) == Seq::<char>::empty());
    assert(out@ =~= render(fs));
    out
}

} // verus!
