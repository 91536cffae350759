//! The structures that a scrape is decoded into, and their mathematical views.
use vstd::prelude::*;

verus! {

/// The declared type of a metric family.
#[derive(Clone, Copy, Debug, PartialEq, Eq, Structural)]
pub enum SampleType {
    Counter,
    Gauge,
    Histogram,
    Summary,
    Untyped,
}

/// Label pairs of a sample, in the order in which they are listed.
pub type LabelSet = Vec<(String, String)>;

/// One observation: a metric name, its labels and the value as written.
///
/// Label values and the value keep the text of the exposition as it stands
/// (escape sequences are not decoded).
#[derive(Clone, Debug, PartialEq, Eq)]
pub struct Sample {
    pub var: String,
    pub labels: LabelSet,
    pub value: String,
}

/// All samples of one metric in one scrape, with the metric's descriptors.
///
/// The help text is kept as written too; a family with no `TYPE` line is `Untyped`.
#[derive(Clone, Debug, PartialEq, Eq)]
pub struct MetricFamily {
    pub var: Option<String>,
    pub help: Option<String>,
    pub metric_type: SampleType,
    pub samples: Vec<Sample>,
}

/// Label pairs as character sequences.
pub type LabelsV = Seq<(Seq<char>, Seq<char>)>;

/// The view of a [`Sample`].
pub struct SampleV {
    pub var: Seq<char>,
    pub labels: LabelsV,
    pub value: Seq<char>,
}

/// The view of a [`MetricFamily`].
pub struct FamilyV {
    pub var: Option<Seq<char>>,
    pub help: Option<Seq<char>>,
    pub metric_type: SampleType,
    pub samples: Seq<SampleV>,
}

pub open spec fn labels_view(l: Seq<(String, String)>) -> LabelsV {
    l.map_values(|p: (String, String)| (p.0@, p.1@))
}

pub open spec fn opt_view(o: Option<String>) -> Option<Seq<char>> {
    match o {
        Some(s) => Some(s@),
        None => None,
    }
}

pub open spec fn opt_str_view(o: Option<&str>) -> Option<Seq<char>> {
    match o {
        Some(s) => Some(s@),
        None => None,
    }
}

impl View for Sample {
    type V = SampleV;

    open spec fn view(&self) -> SampleV {
        SampleV { var: self.var@, labels: labels_view(self.labels@), value: self.value@ }
    }
}

pub open spec fn samples_view(v: Seq<Sample>) -> Seq<SampleV> {
    v.map_values(|s: Sample| s@)
}

impl View for MetricFamily {
    type V = FamilyV;

    open spec fn view(&self) -> FamilyV {
        FamilyV {
            var: opt_view(self.var),
            help: opt_view(self.help),
            metric_type: self.metric_type,
            samples: samples_view(self.samples@),
        }
    }
}

pub open spec fn families_view(v: Seq<MetricFamily>) -> Seq<FamilyV> {
    v.map_values(|f: MetricFamily| f@)
}

/// Copies label pairs, keeping their order.
pub fn clone_labels(l: &LabelSet) -> (r: LabelSet)
    ensures
        labels_view(r@) == labels_view(l@),
{
    let mut r: LabelSet = Vec::new();
    let mut i: usize = 0;
    while i < l.len()
        invariant
            i <= l@.len(),
            labels_view(r@) == labels_view(l@).subrange(0, i as int),
        decreases l@.len() - i,
    {
        let a = l[i].0.clone();
        let b = l[i].1.clone();
        assert(a@ == l@[i as int].0@ && b@ == l@[i as int].1@);
        let ghost old_r = r@;
        r.push((a, b));
        assert(r@ == old_r.push((a, b)));
        assert(labels_view(r@) =~= labels_view(old_r).push((a@, b@)));
        assert(labels_view(r@) =~= labels_view(l@).subrange(0, i + 1));
        i += 1;
    }
    assert(labels_view(l@).subrange(0, l@.len() as int) =~= labels_view(l@));
    r
}

} // verus!
