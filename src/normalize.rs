//! The relational normalization of scraped samples: metric names, label names,
//! label values and series are interned into integer keys, and every scalar
//! sample becomes a row of its metric's value table.
//!
//! Keys are assigned in order from 1, so that the row with key `k` of a table
//! is its `k`-th row. A series is identified by its metric and the *set* of its
//! label values, whatever their order on the wire.
//!
//! The writer keeps the tables in memory; a storage layer persists the rows it
//! adds (tables only grow) and drains the value rows with [`TableWriter::take_values`].
use vstd::prelude::*;
use crate::grammar::{parse_spec, valid_value};
use crate::model::{families_view, FamilyV, LabelSet, MetricFamily, SampleType};
use crate::parse::parse;

verus! {

pub struct MetricRow {
    pub id: u64,
    pub name: String,
    pub metric_type: SampleType,
    pub help: Option<String>,
}

pub struct LabelRow {
    pub id: u64,
    pub name: String,
}

pub struct LabelValueRow {
    pub id: u64,
    pub label_id: u64,
    pub value: String,
}

/// A series: a metric and the label values that make up its label set.
pub struct SeriesRow {
    pub id: u64,
    pub metric_id: u64,
    pub label_values: Vec<u64>,
}

/// One observation of a scalar metric, for the value table named `table`.
pub struct ValueRow {
    pub table: String,
    pub series_id: u64,
    pub timestamp_millis: u64,
    pub value: String,
}

/// Whether samples of this type are stored one value per row.
pub open spec fn is_scalar(t: SampleType) -> bool {
    t == SampleType::Counter || t == SampleType::Gauge || t == SampleType::Untyped
}

pub fn is_scalar_exec(t: SampleType) -> (r: bool)
    ensures
        r == is_scalar(t),
{
    match t {
        SampleType::Counter | SampleType::Gauge | SampleType::Untyped => true,
        _ => false,
    }
}

/// Whether every value of `family` is a number of the exposition format.
pub fn values_valid_exec(family: &MetricFamily) -> (r: bool)
    ensures
        r == values_valid(family@),
{
    let w = crate::parse::Words::new();
    let mut k: usize = 0;
    while k < family.samples.len()
        invariant
            w.wf(),
            k <= family.samples@.len(),
            forall|m: int| 0 <= m < k ==> valid_value(#[trigger] family@.samples[m].value),
        decreases family.samples@.len() - k,
    {
        let cs = crate::text::chars_of(family.samples[k].value.as_str());
        if !crate::parse::valid_value_exec(&cs, &w) {
            assert(!valid_value(family@.samples[k as int].value));
            return false;
        }
        k += 1;
    }
    true
}

/// The interning tables and the value rows not yet taken.
pub struct TableWriter {
    instance: Option<u64>,
    job: Option<u64>,
    metrics: Vec<MetricRow>,
    labels: Vec<LabelRow>,
    label_values: Vec<LabelValueRow>,
    series: Vec<SeriesRow>,
    values: Vec<ValueRow>,
}

/// Whether `a` is the first `a.len()` elements of `b`.
pub open spec fn is_prefix<T>(a: Seq<T>, b: Seq<T>) -> bool {
    a.len() <= b.len() && b.subrange(0, a.len() as int) == a
}

impl TableWriter {
    #[verifier::type_invariant]
    closed spec fn inv(self) -> bool {
        self.wf()
    }

    pub closed spec fn metrics_v(&self) -> Seq<MetricRow> {
        self.metrics@
    }

    pub closed spec fn labels_v(&self) -> Seq<LabelRow> {
        self.labels@
    }

    pub closed spec fn label_values_v(&self) -> Seq<LabelValueRow> {
        self.label_values@
    }

    pub closed spec fn series_v(&self) -> Seq<SeriesRow> {
        self.series@
    }

    pub closed spec fn values_v(&self) -> Seq<ValueRow> {
        self.values@
    }

    pub closed spec fn instance_v(&self) -> Option<u64> {
        self.instance
    }

    pub closed spec fn job_v(&self) -> Option<u64> {
        self.job
    }

    /// Keys run from 1 in row order; names, label values and series are unique.
    pub open spec fn wf(&self) -> bool {
        &&& self.metrics_v().len() < u64::MAX
        &&& self.labels_v().len() < u64::MAX
        &&& self.label_values_v().len() < u64::MAX
        &&& self.series_v().len() < u64::MAX
        &&& forall|i: int| 0 <= i < self.metrics_v().len() ==> #[trigger] self.metrics_v()[i].id == i + 1
        &&& forall|i: int| 0 <= i < self.labels_v().len() ==> #[trigger] self.labels_v()[i].id == i + 1
        &&& forall|i: int|
            0 <= i < self.label_values_v().len() ==> #[trigger] self.label_values_v()[i].id == i + 1
        &&& forall|i: int| 0 <= i < self.series_v().len() ==> #[trigger] self.series_v()[i].id == i + 1
        &&& forall|i: int, j: int|
            0 <= i < self.metrics_v().len() && 0 <= j < self.metrics_v().len()
                && #[trigger] self.metrics_v()[i].name@ == #[trigger] self.metrics_v()[j].name@ ==> i == j
        &&& forall|i: int, j: int|
            0 <= i < self.labels_v().len() && 0 <= j < self.labels_v().len()
                && #[trigger] self.labels_v()[i].name@ == #[trigger] self.labels_v()[j].name@ ==> i == j
        &&& forall|i: int, j: int|
            0 <= i < self.label_values_v().len() && 0 <= j < self.label_values_v().len()
                && #[trigger] self.label_values_v()[i].label_id == #[trigger] self.label_values_v()[j].label_id
                && self.label_values_v()[i].value@ == self.label_values_v()[j].value@ ==> i == j
        &&& forall|i: int, j: int|
            0 <= i < self.series_v().len() && 0 <= j < self.series_v().len()
                && #[trigger] self.series_v()[i].metric_id == #[trigger] self.series_v()[j].metric_id
                && self.series_v()[i].label_values@.to_set() == self.series_v()[j].label_values@.to_set()
                ==> i == j
    }

    /// Every key that a row or the configuration holds names an existing row.
    pub open spec fn refs_ok(&self) -> bool {
        &&& forall|i: int|
            0 <= i < self.label_values_v().len() ==> 1 <= #[trigger] self.label_values_v()[i].label_id
                <= self.labels_v().len()
        &&& forall|i: int|
            0 <= i < self.series_v().len() ==> 1 <= #[trigger] self.series_v()[i].metric_id
                <= self.metrics_v().len()
        &&& forall|i: int, k: int|
            0 <= i < self.series_v().len() && 0 <= k < self.series_v()[i].label_values@.len() ==> 1
                <= #[trigger] self.series_v()[i].label_values@[k] <= self.label_values_v().len()
        &&& self.instance_v() matches Some(v) ==> 1 <= v <= self.label_values_v().len()
        &&& self.job_v() matches Some(v) ==> 1 <= v <= self.label_values_v().len()
    }

    /// Tables only grow, and keep the rows they had.
    pub open spec fn grows_from(&self, old: &TableWriter) -> bool {
        &&& is_prefix(old.metrics_v(), self.metrics_v())
        &&& is_prefix(old.labels_v(), self.labels_v())
        &&& is_prefix(old.label_values_v(), self.label_values_v())
        &&& is_prefix(old.series_v(), self.series_v())
        &&& self.instance_v() == old.instance_v()
        &&& self.job_v() == old.job_v()
    }

    /// Whether a table has no key left to give.
    pub open spec fn is_full(&self) -> bool {
        ||| self.metrics_v().len() + 1 >= u64::MAX
        ||| self.labels_v().len() + 1 >= u64::MAX
        ||| self.label_values_v().len() + 1 >= u64::MAX
        ||| self.series_v().len() + 1 >= u64::MAX
    }

    /// Whether a scalar family named `n` meets a metric first seen with a type
    /// that has no value table.
    pub open spec fn type_clash(&self, n: Seq<char>, t: SampleType) -> bool {
        exists|i: int|
            0 <= i < self.metrics_v().len() && #[trigger] self.metrics_v()[i].name@ == n && is_scalar(t)
                && !is_scalar(self.metrics_v()[i].metric_type)
    }

    /// Whether a metric row is named `n`.
    pub open spec fn has_metric(&self, n: Seq<char>) -> bool {
        exists|i: int| 0 <= i < self.metrics_v().len() && #[trigger] self.metrics_v()[i].name@ == n
    }

    /// The key of the series row of `metric_id` with label values `s`, if there is one.
    pub open spec fn has_series(&self, metric_id: u64, s: Set<u64>, id: u64) -> bool {
        1 <= id <= self.series_v().len() && self.series_v()[id - 1].metric_id == metric_id
            && self.series_v()[id - 1].label_values@.to_set() == s
    }

    pub fn new() -> (r: TableWriter)
        ensures
            r.wf(),
            r.metrics_v().len() == 0,
            r.labels_v().len() == 0,
            r.label_values_v().len() == 0,
            r.series_v().len() == 0,
            r.values_v().len() == 0,
            r.instance_v() is None,
            r.job_v() is None,
            r.refs_ok(),
    {
        TableWriter {
            instance: None,
            job: None,
            metrics: Vec::new(),
            labels: Vec::new(),
            label_values: Vec::new(),
            series: Vec::new(),
            values: Vec::new(),
        }
    }

    pub fn metrics(&self) -> (r: &Vec<MetricRow>)
        ensures
            r@ == self.metrics_v(),
    {
        &self.metrics
    }

    pub fn labels(&self) -> (r: &Vec<LabelRow>)
        ensures
            r@ == self.labels_v(),
    {
        &self.labels
    }

    pub fn label_values(&self) -> (r: &Vec<LabelValueRow>)
        ensures
            r@ == self.label_values_v(),
    {
        &self.label_values
    }

    pub fn series(&self) -> (r: &Vec<SeriesRow>)
        ensures
            r@ == self.series_v(),
    {
        &self.series
    }

    pub fn values(&self) -> (r: &Vec<ValueRow>)
        ensures
            r@ == self.values_v(),
    {
        &self.values
    }

    /// Hands out the value rows added so far and forgets them.
    pub fn take_values(&mut self) -> (r: Vec<ValueRow>)
        requires
            old(self).wf(),
        ensures
            old(self).refs_ok() ==> final(self).refs_ok(),
            final(self).wf(),
            r@ == old(self).values_v(),
            final(self).values_v().len() == 0,
            final(self).grows_from(old(self)),
            final(self).metrics_v() == old(self).metrics_v(),
            final(self).series_v() == old(self).series_v(),
    {
        let mut r: Vec<ValueRow> = Vec::new();
        std::mem::swap(&mut r, &mut self.values);
        proof {
            assert(self.metrics_v().subrange(0, self.metrics_v().len() as int) =~= self.metrics_v());
            assert(self.labels_v().subrange(0, self.labels_v().len() as int) =~= self.labels_v());
            assert(self.label_values_v().subrange(0, self.label_values_v().len() as int)
                =~= self.label_values_v());
            assert(self.series_v().subrange(0, self.series_v().len() as int) =~= self.series_v());
        }
        r
    }
}

proof fn lemma_unique_push(rows: Seq<MetricRow>, row: MetricRow)
    requires
        forall|i: int| 0 <= i < rows.len() ==> (#[trigger] rows[i]).name@ != row.name@,
        forall|i: int, j: int|
            0 <= i < rows.len() && 0 <= j < rows.len() && #[trigger] rows[i].name@ == #[trigger] rows[j].name@ ==> i == j,
        forall|i: int| 0 <= i < rows.len() ==> #[trigger] rows[i].id == i + 1,
        row.id == rows.len() + 1,
    ensures
        forall|i: int, j: int|
            0 <= i < rows.push(row).len() && 0 <= j < rows.push(row).len() && #[trigger] rows.push(row)[i].name@
                == #[trigger] rows.push(row)[j].name@ ==> i == j,
        forall|i: int| 0 <= i < rows.push(row).len() ==> #[trigger] rows.push(row)[i].id == i + 1,
{
    let r = rows.push(row);
    assert forall|i: int, j: int| 0 <= i < r.len() && 0 <= j < r.len() && #[trigger] r[i].name@ == #[trigger] r[j].name@ implies i == j by {
        if i < rows.len() && j < rows.len() {
            assert(r[i] == rows[i] && r[j] == rows[j]);
        } else if i < rows.len() {
            assert(r[i] == rows[i]);
        } else if j < rows.len() {
            assert(r[j] == rows[j]);
        }
    }
    assert forall|i: int| 0 <= i < r.len() implies #[trigger] r[i].id == i + 1 by {
        if i < rows.len() {
            assert(r[i] == rows[i]);
        }
    }
}

pub proof fn lemma_prefix_push<T>(s: Seq<T>, x: T)
    ensures
        is_prefix(s, s.push(x)),
{
    assert(s.push(x).subrange(0, s.len() as int) =~= s);
}

pub proof fn lemma_prefix_refl<T>(s: Seq<T>)
    ensures
        is_prefix(s, s),
{
    assert(s.subrange(0, s.len() as int) =~= s);
}

pub proof fn lemma_prefix_trans<T>(a: Seq<T>, b: Seq<T>, c: Seq<T>)
    requires
        is_prefix(a, b),
        is_prefix(b, c),
    ensures
        is_prefix(a, c),
{
    assert(c.subrange(0, a.len() as int) =~= b.subrange(0, a.len() as int));
}

/// The label value row `id` holds `value` for the label named `name`.
pub open spec fn is_label_value(w: &TableWriter, name: Seq<char>, value: Seq<char>, id: u64) -> bool {
    &&& 1 <= id <= w.label_values_v().len()
    &&& w.label_values_v()[id - 1].value@ == value
    &&& 1 <= w.label_values_v()[id - 1].label_id <= w.labels_v().len()
    &&& w.labels_v()[w.label_values_v()[id - 1].label_id - 1].name@ == name
}

/// The label values that every series gets: `instance`, then `job`, where set.
pub open spec fn configured(w: &TableWriter) -> Seq<u64> {
    let i: Seq<u64> = match w.instance_v() {
        Some(i) => seq![i],
        None => seq![],
    };
    let j: Seq<u64> = match w.job_v() {
        Some(j) => seq![j],
        None => seq![],
    };
    i + j
}

/// `lvs` lists the configured label values, then one for each of `labels`, in order.
pub open spec fn lists_labels(w: &TableWriter, lvs: Seq<u64>, labels: Seq<(Seq<char>, Seq<char>)>) -> bool {
    let pre = configured(w);
    &&& lvs.len() == pre.len() + labels.len()
    &&& lvs.subrange(0, pre.len() as int) == pre
    &&& forall|k: int|
        0 <= k < labels.len() ==> is_label_value(w, labels[k].0, labels[k].1, #[trigger] lvs[pre.len() + k])
}

pub proof fn lemma_grows_keeps_label_value(
    w1: &TableWriter,
    w2: &TableWriter,
    name: Seq<char>,
    value: Seq<char>,
    id: u64,
)
    requires
        w2.grows_from(w1),
        is_label_value(w1, name, value, id),
    ensures
        is_label_value(w2, name, value, id),
{
    assert(w2.label_values_v()[id - 1] == w2.label_values_v().subrange(0, w1.label_values_v().len() as int)[id - 1]);
    let l = w1.label_values_v()[id - 1].label_id;
    assert(w2.labels_v()[l - 1] == w2.labels_v().subrange(0, w1.labels_v().len() as int)[l - 1]);
}

pub proof fn lemma_grows_trans(w1: &TableWriter, w2: &TableWriter, w3: &TableWriter)
    requires
        w2.grows_from(w1),
        w3.grows_from(w2),
    ensures
        w3.grows_from(w1),
{
    lemma_prefix_trans(w1.metrics_v(), w2.metrics_v(), w3.metrics_v());
    lemma_prefix_trans(w1.labels_v(), w2.labels_v(), w3.labels_v());
    lemma_prefix_trans(w1.label_values_v(), w2.label_values_v(), w3.label_values_v());
    lemma_prefix_trans(w1.series_v(), w2.series_v(), w3.series_v());
}

pub proof fn lemma_grows_keeps_metric(w1: &TableWriter, w2: &TableWriter, n: Seq<char>)
    requires
        w2.grows_from(w1),
        w1.has_metric(n),
    ensures
        w2.has_metric(n),
{
    let i = choose|i: int| 0 <= i < w1.metrics_v().len() && #[trigger] w1.metrics_v()[i].name@ == n;
    assert(w2.metrics_v()[i] == w2.metrics_v().subrange(0, w1.metrics_v().len() as int)[i]);
}

fn contains_id(v: &Vec<u64>, x: u64) -> (r: bool)
    ensures
        r == v@.contains(x),
{
    let mut i: usize = 0;
    while i < v.len()
        invariant
            i <= v@.len(),
            forall|j: int| 0 <= j < i ==> v@[j] != x,
        decreases v@.len() - i,
    {
        if v[i] == x {
            return true;
        }
        i += 1;
    }
    false
}

fn includes_all(a: &Vec<u64>, b: &Vec<u64>) -> (r: bool)
    ensures
        r == (forall|x: u64| a@.contains(x) ==> b@.contains(x)),
{
    let mut i: usize = 0;
    while i < a.len()
        invariant
            i <= a@.len(),
            forall|j: int| 0 <= j < i ==> b@.contains(#[trigger] a@[j]),
        decreases a@.len() - i,
    {
        if !contains_id(b, a[i]) {
            assert(a@.contains(a@[i as int]));
            return false;
        }
        i += 1;
    }
    assert forall|x: u64| a@.contains(x) implies b@.contains(x) by {
        let j = choose|j: int| 0 <= j < a@.len() && a@[j] == x;
        assert(b@.contains(a@[j]));
    }
    true
}

/// Whether `a` and `b` hold the same elements.
pub fn same_set(a: &Vec<u64>, b: &Vec<u64>) -> (r: bool)
    ensures
        r == (a@.to_set() == b@.to_set()),
{
    let ab = includes_all(a, b);
    let ba = includes_all(b, a);
    if ab && ba {
        assert(a@.to_set() =~= b@.to_set());
        true
    } else {
        proof {
            if !ab {
                let x = choose|x: u64| a@.contains(x) && !b@.contains(x);
                assert(a@.to_set().contains(x) && !b@.to_set().contains(x));
            } else {
                let x = choose|x: u64| b@.contains(x) && !a@.contains(x);
                assert(b@.to_set().contains(x) && !a@.to_set().contains(x));
            }
        }
        false
    }
}

impl TableWriter {
    fn find_metric(&self, n: &String) -> (r: Option<usize>)
        ensures
            match r {
                Some(i) => i < self.metrics_v().len() && self.metrics_v()[i as int].name@ == n@,
                None => !self.has_metric(n@),
            },
    {
        let mut i: usize = 0;
        while i < self.metrics.len()
            invariant
                i <= self.metrics@.len(),
                forall|j: int| 0 <= j < i ==> (#[trigger] self.metrics@[j]).name@ != n@,
            decreases self.metrics@.len() - i,
        {
            if self.metrics[i].name == *n {
                return Some(i);
            }
            i += 1;
        }
        None
    }

    /// The key of the metric named `n`; a row is added, with `metric_type` and
    /// `help`, where there is none yet. A metric keeps the type it was first seen with.
    pub fn get_metric_id(&mut self, n: &String, metric_type: SampleType, help: &Option<String>) -> (r: Option<(u64, SampleType)>)
        ensures
            old(self).refs_ok() ==> final(self).refs_ok(),
            final(self).wf(),
            final(self).grows_from(old(self)),
            final(self).values_v() == old(self).values_v(),
            final(self).labels_v() == old(self).labels_v(),
            final(self).label_values_v() == old(self).label_values_v(),
            final(self).series_v() == old(self).series_v(),
            old(self).has_metric(n@) ==> final(self).metrics_v() == old(self).metrics_v(),
            !old(self).has_metric(n@) ==> (r matches Some((id, t)) ==> t == metric_type),
            !old(self).has_metric(n@) && r is Some ==> final(self).metrics_v().len() == old(self).metrics_v().len() + 1
                && final(self).metrics_v().last().id == old(self).metrics_v().len() + 1
                && final(self).metrics_v().last().name@ == n@
                && final(self).metrics_v().last().metric_type == metric_type
                && crate::model::opt_view(final(self).metrics_v().last().help) == crate::model::opt_view(*help),
            match r {
                Some((id, t)) => 1 <= id <= final(self).metrics_v().len() && final(self).metrics_v()[id - 1].name@ == n@
                    && final(self).metrics_v()[id - 1].metric_type == t,
                None => !old(self).has_metric(n@) && old(self).metrics_v().len() + 1 == u64::MAX
                    && final(self).metrics_v() == old(self).metrics_v(),
            },
    {
        proof {
            use_type_invariant(&*self);
            lemma_prefix_refl(self.metrics@);
            lemma_prefix_refl(self.labels@);
            lemma_prefix_refl(self.label_values@);
            lemma_prefix_refl(self.series@);
        }
        match self.find_metric(n) {
            Some(i) => Some((self.metrics[i].id, self.metrics[i].metric_type)),
            None => {
                if self.metrics.len() as u64 >= u64::MAX - 1 {
                    return None;
                }
                let id = self.metrics.len() as u64 + 1;
                let h = match help {
                    Some(h) => Some(h.clone()),
                    None => None,
                };
                let row = MetricRow { id, name: n.clone(), metric_type, help: h };
                proof {
                    lemma_prefix_push(self.metrics@, row);
                }
                let ghost before = self.metrics@;
                assert(forall|i: int| 0 <= i < before.len() ==> (#[trigger] before[i]).name@ != n@);
                let mut rows: Vec<MetricRow> = Vec::new();
                std::mem::swap(&mut rows, &mut self.metrics);
                rows.push(row);
                assert(rows@ == before.push(row));
                proof {
                    lemma_unique_push(before, row);
                }
                self.metrics = rows;
                Some((id, metric_type))
            },
        }
    }

    fn find_label(&self, n: &String) -> (r: Option<usize>)
        ensures
            match r {
                Some(i) => i < self.labels_v().len() && self.labels_v()[i as int].name@ == n@,
                None => forall|j: int| 0 <= j < self.labels_v().len() ==> (#[trigger] self.labels_v()[j]).name@ != n@,
            },
    {
        let mut i: usize = 0;
        while i < self.labels.len()
            invariant
                i <= self.labels@.len(),
                forall|j: int| 0 <= j < i ==> (#[trigger] self.labels@[j]).name@ != n@,
            decreases self.labels@.len() - i,
        {
            if self.labels[i].name == *n {
                return Some(i);
            }
            i += 1;
        }
        None
    }

    /// The key of the label named `n`, added where it is new.
    fn get_label_id(&mut self, n: &String) -> (r: Option<u64>)
        ensures
            old(self).refs_ok() ==> final(self).refs_ok(),
            final(self).grows_from(old(self)),
            final(self).values_v() == old(self).values_v(),
            final(self).metrics_v() == old(self).metrics_v(),
            final(self).label_values_v() == old(self).label_values_v(),
            final(self).series_v() == old(self).series_v(),
            r matches Some(id) ==> 1 <= id <= final(self).labels_v().len()
                && final(self).labels_v()[id - 1].name@ == n@,
            r is None ==> final(self).labels_v().len() + 1 >= u64::MAX,
            final(self).labels_v().len() <= old(self).labels_v().len() + 1,
            old(self).labels_v().len() + 1 < u64::MAX ==> r is Some,
            (exists|i: int| 0 <= i < old(self).labels_v().len() && (#[trigger] old(self).labels_v()[i]).name@ == n@)
                ==> final(self).labels_v() == old(self).labels_v(),
    {
        proof {
            use_type_invariant(&*self);
            lemma_prefix_refl(self.metrics@);
            lemma_prefix_refl(self.labels@);
            lemma_prefix_refl(self.label_values@);
            lemma_prefix_refl(self.series@);
        }
        proof {
            if exists|i: int| 0 <= i < old(self).labels_v().len() && (#[trigger] old(self).labels_v()[i]).name@ == n@ {
                let i = choose|i: int| 0 <= i < old(self).labels_v().len() && (#[trigger] old(self).labels_v()[i]).name@ == n@;
                assert(self.labels_v()[i].name@ == n@);
            }
        }
        match self.find_label(n) {
            Some(i) => Some(self.labels[i].id),
            None => {
                if self.labels.len() as u64 >= u64::MAX - 1 {
                    return None;
                }
                let id = self.labels.len() as u64 + 1;
                let row = LabelRow { id, name: n.clone() };
                proof {
                    lemma_prefix_push(self.labels@, row);
                }
                let mut rows: Vec<LabelRow> = Vec::new();
                std::mem::swap(&mut rows, &mut self.labels);
                rows.push(row);
                self.labels = rows;
                Some(id)
            },
        }
    }

    fn find_label_value(&self, label_id: u64, v: &String) -> (r: Option<usize>)
        ensures
            match r {
                Some(i) => i < self.label_values_v().len() && self.label_values_v()[i as int].label_id
                    == label_id && self.label_values_v()[i as int].value@ == v@,
                None => forall|j: int|
                    0 <= j < self.label_values_v().len() ==> !((#[trigger] self.label_values_v()[j]).label_id
                        == label_id && self.label_values_v()[j].value@ == v@),
            },
    {
        let mut i: usize = 0;
        while i < self.label_values.len()
            invariant
                i <= self.label_values@.len(),
                forall|j: int|
                    0 <= j < i ==> !((#[trigger] self.label_values@[j]).label_id == label_id
                        && self.label_values@[j].value@ == v@),
            decreases self.label_values@.len() - i,
        {
            if self.label_values[i].label_id == label_id && self.label_values[i].value == *v {
                return Some(i);
            }
            i += 1;
        }
        None
    }

    /// The key of `value` for the label named `name`; label and value rows are
    /// added where they are new.
    pub fn get_label_value_id(&mut self, name: &String, value: &String) -> (r: Option<u64>)
        ensures
            old(self).refs_ok() ==> final(self).refs_ok(),
            final(self).wf(),
            final(self).grows_from(old(self)),
            final(self).values_v() == old(self).values_v(),
            final(self).metrics_v() == old(self).metrics_v(),
            final(self).series_v() == old(self).series_v(),
            r matches Some(id) ==> is_label_value(final(self), name@, value@, id),
            r is None ==> final(self).is_full(),
            final(self).labels_v().len() <= old(self).labels_v().len() + 1,
            final(self).label_values_v().len() <= old(self).label_values_v().len() + 1,
            old(self).labels_v().len() + 1 < u64::MAX && old(self).label_values_v().len() + 1 < u64::MAX ==> r is Some,
            (exists|id: u64| is_label_value(old(self), name@, value@, id)) ==> final(self).labels_v()
                == old(self).labels_v() && final(self).label_values_v() == old(self).label_values_v(),
    {
        let label_id = match self.get_label_id(name) {
            Some(l) => l,
            None => {
                proof { use_type_invariant(&*self); }
                return None;
            },
        };
        proof {
            use_type_invariant(&*self);
            lemma_prefix_refl(self.metrics@);
            lemma_prefix_refl(self.labels@);
            lemma_prefix_refl(self.label_values@);
            lemma_prefix_refl(self.series@);
        }
        let ghost mid = *self;
        proof {
            if exists|id: u64| is_label_value(old(self), name@, value@, id) {
                let id = choose|id: u64| is_label_value(old(self), name@, value@, id);
                let l = old(self).label_values_v()[id - 1].label_id;
                assert(old(self).labels_v()[l - 1].name@ == name@);
                assert(self.labels_v() == old(self).labels_v());
                assert(self.labels_v()[label_id - 1].name@ == name@);
                assert(self.labels_v()[label_id - 1].id == label_id);
                assert(self.labels_v()[l - 1].id == l);
                assert(label_id == l);
                assert(self.label_values_v()[id - 1].label_id == label_id && self.label_values_v()[id - 1].value@ == value@);
            }
        }
        let r = match self.find_label_value(label_id, value) {
            Some(i) => Some(self.label_values[i].id),
            None => {
                if self.label_values.len() as u64 >= u64::MAX - 1 {
                    return None;
                }
                let id = self.label_values.len() as u64 + 1;
                let row = LabelValueRow { id, label_id, value: value.clone() };
                proof {
                    lemma_prefix_push(self.label_values@, row);
                }
                let mut rows: Vec<LabelValueRow> = Vec::new();
                std::mem::swap(&mut rows, &mut self.label_values);
                rows.push(row);
                self.label_values = rows;
                Some(id)
            },
        };
        proof {
            use_type_invariant(&*self);
            lemma_grows_trans(old(self), &mid, &*self);
        }
        r
    }

    fn find_series(&self, metric_id: u64, lvs: &Vec<u64>) -> (r: Option<usize>)
        ensures
            match r {
                Some(i) => i < self.series_v().len() && self.series_v()[i as int].metric_id == metric_id
                    && self.series_v()[i as int].label_values@.to_set() == lvs@.to_set(),
                None => forall|j: int|
                    0 <= j < self.series_v().len() ==> !((#[trigger] self.series_v()[j]).metric_id == metric_id
                        && self.series_v()[j].label_values@.to_set() == lvs@.to_set()),
            },
    {
        let mut i: usize = 0;
        while i < self.series.len()
            invariant
                i <= self.series@.len(),
                forall|j: int|
                    0 <= j < i ==> !((#[trigger] self.series@[j]).metric_id == metric_id
                        && self.series@[j].label_values@.to_set() == lvs@.to_set()),
            decreases self.series@.len() - i,
        {
            if self.series[i].metric_id == metric_id && same_set(&self.series[i].label_values, lvs) {
                return Some(i);
            }
            i += 1;
        }
        None
    }

    /// The key of the series of `metric_id` whose label values are the elements of
    /// `lvs`, in any order; a row is added where there is none.
    pub fn get_series_id(&mut self, metric_id: u64, lvs: Vec<u64>) -> (r: Option<u64>)
        ensures
            old(self).refs_ok() && 1 <= metric_id <= old(self).metrics_v().len() && (forall|k: int|
                0 <= k < lvs@.len() ==> 1 <= #[trigger] lvs@[k] <= old(self).label_values_v().len())
                ==> final(self).refs_ok(),
            final(self).wf(),
            final(self).grows_from(old(self)),
            final(self).values_v() == old(self).values_v(),
            final(self).metrics_v() == old(self).metrics_v(),
            final(self).labels_v() == old(self).labels_v(),
            final(self).label_values_v() == old(self).label_values_v(),
            (exists|id: u64| old(self).has_series(metric_id, lvs@.to_set(), id)) ==> final(self).series_v()
                == old(self).series_v(),
            r matches Some(id) ==> final(self).has_series(metric_id, lvs@.to_set(), id)
                && (id <= old(self).series_v().len() || final(self).series_v()[id - 1].label_values@ == lvs@),
            r is None ==> final(self).is_full(),
            final(self).series_v().len() <= old(self).series_v().len() + 1,
            old(self).series_v().len() + 1 < u64::MAX ==> r is Some,
    {
        proof {
            use_type_invariant(&*self);
            lemma_prefix_refl(self.metrics@);
            lemma_prefix_refl(self.labels@);
            lemma_prefix_refl(self.label_values@);
            lemma_prefix_refl(self.series@);
        }
        match self.find_series(metric_id, &lvs) {
            Some(i) => Some(self.series[i].id),
            None => {
                if self.series.len() as u64 >= u64::MAX - 1 {
                    return None;
                }
                let id = self.series.len() as u64 + 1;
                let row = SeriesRow { id, metric_id, label_values: lvs };
                proof {
                    lemma_prefix_push(self.series@, row);
                }
                let mut rows: Vec<SeriesRow> = Vec::new();
                std::mem::swap(&mut rows, &mut self.series);
                rows.push(row);
                self.series = rows;
                Some(id)
            },
        }
    }
}

/// Series `sid` belongs to the metric named `n`, and its label values are
/// those of `sample` (with the configured ones).
pub open spec fn sample_series(w: &TableWriter, sid: u64, n: Seq<char>, sample: crate::model::SampleV) -> bool {
    &&& 1 <= sid <= w.series_v().len()
    &&& 1 <= w.series_v()[sid - 1].metric_id <= w.metrics_v().len()
    &&& w.metrics_v()[w.series_v()[sid - 1].metric_id - 1].name@ == n
    &&& exists|lvs: Seq<u64>|
        lists_labels(w, lvs, sample.labels) && #[trigger] lvs.to_set()
            == w.series_v()[sid - 1].label_values@.to_set()
}

/// Some series of the metric named `n` has the label values of `sample`.
pub open spec fn has_sample_series(w: &TableWriter, n: Seq<char>, sample: crate::model::SampleV) -> bool {
    exists|sid: u64| sample_series(w, sid, n, sample)
}

/// A value row of `sample` at `ts` for the metric named `n`, in the sample's series.
pub open spec fn is_value_row(
    w: &TableWriter,
    row: ValueRow,
    n: Seq<char>,
    ts: u64,
    sample: crate::model::SampleV,
) -> bool {
    &&& row.table@ == n
    &&& row.timestamp_millis == ts
    &&& row.value@ == sample.value
    &&& sample_series(w, row.series_id, n, sample)
}

/// How many label pairs the samples hold in all.
pub open spec fn label_total(ss: Seq<crate::model::SampleV>) -> nat
    decreases ss.len(),
{
    if ss.len() == 0 {
        0
    } else {
        label_total(ss.drop_last()) + ss.last().labels.len()
    }
}

proof fn lemma_label_total_take(ss: Seq<crate::model::SampleV>, k: int)
    requires
        0 <= k < ss.len(),
    ensures
        label_total(ss.take(k + 1)) == label_total(ss.take(k)) + ss[k].labels.len(),
        label_total(ss.take(k + 1)) <= label_total(ss),
    decreases ss.len(),
{
    assert(ss.take(k + 1).drop_last() =~= ss.take(k));
    if k + 1 < ss.len() {
        assert(ss.drop_last().take(k + 1) =~= ss.take(k + 1));
        assert(ss.drop_last().take(k) =~= ss.take(k));
        assert(ss.drop_last()[k] == ss[k]);
        lemma_label_total_take(ss.drop_last(), k);
    } else {
        assert(ss.take(k + 1) =~= ss);
    }
}

/// A series of `metric_id` already has the configured labels and `labels`.
pub open spec fn has_series_for(w: &TableWriter, metric_id: u64, labels: crate::model::LabelsV) -> bool {
    exists|lvs: Seq<u64>, sid: u64|
        lists_labels(w, lvs, labels) && #[trigger] w.has_series(metric_id, lvs.to_set(), sid)
}

/// The family's metric and the series of all its samples are interned already.
pub open spec fn interned_already(w: &TableWriter, f: FamilyV) -> bool {
    &&& f.var matches Some(n) && w.has_metric(n)
    &&& forall|k: int| 0 <= k < f.samples.len() ==> #[trigger] has_sample_series(w, f.var->Some_0, f.samples[k])
}

/// The interned tables and the configuration of two writers are the same.
pub open spec fn same_interned(a: &TableWriter, b: &TableWriter) -> bool {
    &&& a.metrics_v() == b.metrics_v()
    &&& a.labels_v() == b.labels_v()
    &&& a.label_values_v() == b.label_values_v()
    &&& a.series_v() == b.series_v()
    &&& a.instance_v() == b.instance_v()
    &&& a.job_v() == b.job_v()
}

/// Whether every value of the family is a number of the exposition format.
pub open spec fn values_valid(f: FamilyV) -> bool {
    forall|k: int| 0 <= k < f.samples.len() ==> valid_value(#[trigger] f.samples[k].value)
}

/// Whether the tables have keys left for every row that the family could add.
pub open spec fn has_room(w: &TableWriter, f: FamilyV) -> bool {
    &&& w.metrics_v().len() + 1 < u64::MAX
    &&& w.labels_v().len() + label_total(f.samples) + 1 < u64::MAX
    &&& w.label_values_v().len() + label_total(f.samples) + 1 < u64::MAX
    &&& w.series_v().len() + f.samples.len() + 1 < u64::MAX
}

/// What processing family `f` at `ts` does, taking `w0` to `w1` with result `r`.
pub open spec fn processed(w0: &TableWriter, w1: &TableWriter, ts: u64, f: FamilyV, r: bool) -> bool {
    &&& w1.grows_from(w0)
    &&& is_prefix(w0.values_v(), w1.values_v())
    &&& !r ==> w1.values_v() == w0.values_v()
    &&& match f.var {
        None => !r && w1.metrics_v() == w0.metrics_v() && w1.labels_v() == w0.labels_v()
            && w1.label_values_v() == w0.label_values_v() && w1.series_v() == w0.series_v(),
        Some(n) => {
            &&& w1.metrics_v().len() <= w0.metrics_v().len() + 1
            &&& w1.labels_v().len() <= w0.labels_v().len() + label_total(f.samples)
            &&& w1.label_values_v().len() <= w0.label_values_v().len() + label_total(f.samples)
            &&& w1.series_v().len() <= w0.series_v().len() + f.samples.len()
            &&& w0.has_metric(n) ==> w1.metrics_v() == w0.metrics_v()
            &&& interned_already(w0, f) ==> same_interned(w0, w1)
            &&& !w0.has_metric(n) && w1.metrics_v().len() > w0.metrics_v().len() ==> {
                let row = w1.metrics_v()[w0.metrics_v().len() as int];
                row.id == w0.metrics_v().len() + 1 && row.name@ == n && row.metric_type == f.metric_type
                    && crate::model::opt_view(row.help) == f.help
            }
            &&& w0.has_metric(n) || w0.metrics_v().len() + 1 < u64::MAX ==> w1.has_metric(n)
            &&& w0.type_clash(n, f.metric_type) ==> !r
            &&& is_scalar(f.metric_type) && !values_valid(f) ==> !r
            &&& !w0.type_clash(n, f.metric_type) && (is_scalar(f.metric_type) ==> values_valid(f))
                && has_room(w0, f) ==> r
            &&& !r ==> w0.type_clash(n, f.metric_type) || (is_scalar(f.metric_type) && !values_valid(f))
                || w1.is_full()
            &&& r ==> w1.has_metric(n) && forall|k: int|
                0 <= k < f.samples.len() ==> #[trigger] has_sample_series(w1, n, f.samples[k])
            &&& r && !is_scalar(f.metric_type) ==> w1.values_v() == w0.values_v()
            &&& r && is_scalar(f.metric_type) ==> w1.values_v().len() == w0.values_v().len() + f.samples.len()
                && forall|k: int|
                0 <= k < f.samples.len() ==> is_value_row(
                    w1,
                    #[trigger] w1.values_v()[w0.values_v().len() + k],
                    n,
                    ts,
                    f.samples[k],
                )
        },
    }
}

pub proof fn lemma_grows_keeps_lists(w1: &TableWriter, w2: &TableWriter, lvs: Seq<u64>, labels: Seq<(Seq<char>, Seq<char>)>)
    requires
        w2.grows_from(w1),
        lists_labels(w1, lvs, labels),
    ensures
        lists_labels(w2, lvs, labels),
{
    let pre = configured(w1);
    assert(configured(w2) == pre);
    assert forall|k: int| 0 <= k < labels.len() implies is_label_value(w2, labels[k].0, labels[k].1, #[trigger] lvs[pre.len() + k]) by {
        lemma_grows_keeps_label_value(w1, w2, labels[k].0, labels[k].1, lvs[pre.len() + k]);
    }
}

pub proof fn lemma_grows_keeps_series(w1: &TableWriter, w2: &TableWriter, sid: u64, n: Seq<char>, sample: crate::model::SampleV)
    requires
        w2.grows_from(w1),
        sample_series(w1, sid, n, sample),
    ensures
        sample_series(w2, sid, n, sample),
{
    assert(w2.series_v()[sid - 1] == w2.series_v().subrange(0, w1.series_v().len() as int)[sid - 1]);
    let m = w1.series_v()[sid - 1].metric_id;
    assert(w2.metrics_v()[m - 1] == w2.metrics_v().subrange(0, w1.metrics_v().len() as int)[m - 1]);
    let lvs = choose|lvs: Seq<u64>| lists_labels(w1, lvs, sample.labels) && #[trigger] lvs.to_set()
        == w1.series_v()[sid - 1].label_values@.to_set();
    lemma_grows_keeps_lists(w1, w2, lvs, sample.labels);
}

/// Something that persists the metric families of each scrape.
pub trait Exporter {
    /// Stores `family`, observed at `timestamp_millis`; `false` where it could not be stored.
    fn export(&mut self, timestamp_millis: u64, family: &MetricFamily) -> bool;

    /// Called once, after the last family.
    fn close(&mut self);
}

impl TableWriter {
    /// Uses `instance` as the value of the `instance` label of every series.
    pub fn set_instance(&mut self, instance: &str) -> (r: bool)
        ensures
            old(self).refs_ok() ==> final(self).refs_ok(),
            final(self).wf(),
            final(self).values_v() == old(self).values_v(),
            final(self).job_v() == old(self).job_v(),
            r ==> (final(self).instance_v() matches Some(id) && is_label_value(final(self), "instance"@, instance@, id)),
            !r ==> final(self).instance_v() == old(self).instance_v() && final(self).is_full(),
    {
        let name = String::from_str("instance");
        let value = String::from_str(instance);
        match self.get_label_value_id(&name, &value) {
            Some(id) => {
                self.instance = Some(id);
                proof { use_type_invariant(&*self); }
                true
            },
            None => {
                proof { use_type_invariant(&*self); }
                false
            },
        }
    }

    /// Uses `job` as the value of the `job` label of every series.
    pub fn set_job(&mut self, job: &str) -> (r: bool)
        ensures
            old(self).refs_ok() ==> final(self).refs_ok(),
            final(self).wf(),
            final(self).values_v() == old(self).values_v(),
            final(self).instance_v() == old(self).instance_v(),
            r ==> (final(self).job_v() matches Some(id) && is_label_value(final(self), "job"@, job@, id)),
            !r ==> final(self).job_v() == old(self).job_v() && final(self).is_full(),
    {
        let name = String::from_str("job");
        let value = String::from_str(job);
        match self.get_label_value_id(&name, &value) {
            Some(id) => {
                self.job = Some(id);
                proof { use_type_invariant(&*self); }
                true
            },
            None => {
                proof { use_type_invariant(&*self); }
                false
            },
        }
    }

    /// The key of the series of `metric_id` with the configured labels and `labels`.
    fn series_id_for(&mut self, metric_id: u64, labels: &LabelSet) -> (r: Option<u64>)
        ensures
            old(self).refs_ok() && 1 <= metric_id <= old(self).metrics_v().len() ==> final(self).refs_ok(),
            final(self).grows_from(old(self)),
            final(self).values_v() == old(self).values_v(),
            final(self).metrics_v() == old(self).metrics_v(),
            r matches Some(id) ==> 1 <= id <= final(self).series_v().len()
                && final(self).series_v()[id - 1].metric_id == metric_id
                && exists|lvs: Seq<u64>|
                lists_labels(final(self), lvs, crate::model::labels_view(labels@)) && #[trigger] lvs.to_set()
                    == final(self).series_v()[id - 1].label_values@.to_set(),
            r is None ==> final(self).is_full(),
            final(self).labels_v().len() <= old(self).labels_v().len() + labels@.len(),
            final(self).label_values_v().len() <= old(self).label_values_v().len() + labels@.len(),
            final(self).series_v().len() <= old(self).series_v().len() + 1,
            has_series_for(old(self), metric_id, crate::model::labels_view(labels@)) ==> same_interned(old(self), final(self)),
            old(self).labels_v().len() + labels@.len() + 1 < u64::MAX && old(self).label_values_v().len()
                + labels@.len() + 1 < u64::MAX && old(self).series_v().len() + 1 < u64::MAX ==> r is Some,
    {
        proof {
            use_type_invariant(&*self);
            lemma_prefix_refl(self.metrics@);
            lemma_prefix_refl(self.labels@);
            lemma_prefix_refl(self.label_values@);
            lemma_prefix_refl(self.series@);
        }
        let mut lvs: Vec<u64> = Vec::new();
        if let Some(i) = self.instance {
            lvs.push(i);
        }
        if let Some(j) = self.job {
            lvs.push(j);
        }
        let ghost pre = lvs@;
        let ghost lv = crate::model::labels_view(labels@);
        assert(self.refs_ok() ==> forall|q: int| 0 <= q < lvs@.len() ==> 1 <= #[trigger] lvs@[q] <= self.label_values_v().len());
        assert(pre =~= configured(self));
        let mut k: usize = 0;
        while k < labels.len()
            invariant
                self.grows_from(old(self)),
                self.values_v() == old(self).values_v(),
                self.metrics_v() == old(self).metrics_v(),
                lv == crate::model::labels_view(labels@),
                pre == configured(self),
                k <= labels@.len(),
                lvs@.len() == pre.len() + k,
                lvs@.subrange(0, pre.len() as int) == pre,
                forall|m: int| 0 <= m < k ==> is_label_value(self, lv[m].0, lv[m].1, #[trigger] lvs@[pre.len() + m]),
                old(self).refs_ok() ==> self.refs_ok(),
                old(self).refs_ok() ==> forall|q: int| 0 <= q < lvs@.len() ==> 1 <= #[trigger] lvs@[q] <= self.label_values_v().len(),
                self.labels_v().len() <= old(self).labels_v().len() + k,
                self.label_values_v().len() <= old(self).label_values_v().len() + k,
                self.series_v().len() == old(self).series_v().len(),
                has_series_for(old(self), metric_id, lv) ==> same_interned(old(self), self),
            decreases labels@.len() - k,
        {
            let ghost before = *self;
            proof {
                if has_series_for(old(self), metric_id, lv) {
                    let (lvs0, sid0) = choose|lvs0: Seq<u64>, sid0: u64|
                        lists_labels(old(self), lvs0, lv) && #[trigger] old(self).has_series(metric_id, lvs0.to_set(), sid0);
                    let c = configured(old(self));
                    assert(is_label_value(old(self), lv[k as int].0, lv[k as int].1, lvs0[c.len() + k]));
                    assert(is_label_value(self, lv[k as int].0, lv[k as int].1, lvs0[c.len() + k]));
                    assert(lv[k as int].0 == labels@[k as int].0@ && lv[k as int].1 == labels@[k as int].1@);
                }
            }
            match self.get_label_value_id(&labels[k].0, &labels[k].1) {
                Some(id) => {
                    proof {
                        lemma_grows_trans(old(self), &before, &*self);
                        assert forall|m: int| 0 <= m < k implies is_label_value(self, lv[m].0, lv[m].1, #[trigger] lvs@[pre.len() + m]) by {
                            lemma_grows_keeps_label_value(&before, &*self, lv[m].0, lv[m].1, lvs@[pre.len() + m]);
                        }
                    }
                    let ghost old_lvs = lvs@;
                    lvs.push(id);
                    assert(old(self).refs_ok() ==> forall|q: int| 0 <= q < lvs@.len() ==> 1 <= #[trigger] lvs@[q] <= self.label_values_v().len()) by {
                        if old(self).refs_ok() {
                            assert forall|q: int| 0 <= q < lvs@.len() implies 1 <= #[trigger] lvs@[q] <= self.label_values_v().len() by {
                                if q < old_lvs.len() {
                                    assert(lvs@[q] == old_lvs[q]);
                                }
                            }
                        }
                    }
                    assert(lvs@.subrange(0, pre.len() as int) =~= old_lvs.subrange(0, pre.len() as int));
                },
                None => {
                    proof {
                        lemma_grows_trans(old(self), &before, &*self);
                    }
                    return None;
                },
            }
            k += 1;
        }
        let ghost key = lvs@;
        proof {
            assert(lists_labels(self, key, lv));
            if has_series_for(old(self), metric_id, lv) {
                let (lvs0, sid0) = choose|lvs0: Seq<u64>, sid0: u64|
                    lists_labels(old(self), lvs0, lv) && #[trigger] old(self).has_series(metric_id, lvs0.to_set(), sid0);
                assert(lists_labels(self, lvs0, lv));
                lemma_lists_subset(self, key, lv, lvs0, lv);
                lemma_lists_subset(self, lvs0, lv, key, lv);
                assert(key.to_set() =~= lvs0.to_set());
                assert(self.has_series(metric_id, key.to_set(), sid0));
            }
        }
        let ghost before = *self;
        let r = self.get_series_id(metric_id, lvs);
        proof {
            lemma_grows_trans(old(self), &before, &*self);
            lemma_grows_keeps_lists(&before, &*self, key, lv);
        }
        r
    }

    /// Interns the family's metric and the series of its samples, and adds a
    /// value row for each sample of a scalar family; histogram and summary
    /// samples get their series but no value row. It fails where the family
    /// has no name, where a scalar family meets a metric first seen with a type
    /// that has no value table, where a scalar family holds a value that is not
    /// a number, or where a table is full; a failed family adds no value row.
    pub fn process_family(&mut self, timestamp_millis: u64, family: &MetricFamily) -> (r: bool)
        ensures
            old(self).refs_ok() ==> final(self).refs_ok(),
            final(self).wf(),
            processed(old(self), final(self), timestamp_millis, family@, r),
    {
        proof {
            use_type_invariant(&*self);
            lemma_prefix_refl(self.metrics@);
            lemma_prefix_refl(self.labels@);
            lemma_prefix_refl(self.label_values@);
            lemma_prefix_refl(self.series@);
            lemma_prefix_refl(self.values@);
        }
        let ghost f = family@;
        let n = match &family.var {
            Some(n) => n,
            None => {
                return false;
            },
        };
        let (mid, stored_type) = match self.get_metric_id(n, family.metric_type, &family.help) {
            Some(found) => found,
            None => {
                return false;
            },
        };
        proof {
            use_type_invariant(&*self);
            lemma_prefix_refl(self.values@);
            assert(self.metrics_v()[mid - 1].name@ == n@);
            assert(self.has_metric(n@));
            if old(self).has_metric(n@) {
                let i = choose|i: int| 0 <= i < old(self).metrics_v().len() && #[trigger] old(self).metrics_v()[i].name@ == n@;
                assert(self.metrics_v()[i].name@ == n@);
                assert(i == mid - 1);
            }
        }
        let scalar = is_scalar_exec(family.metric_type);
        if scalar && !is_scalar_exec(stored_type) {
            return false;
        }
        proof {
            if old(self).type_clash(n@, f.metric_type) {
                let i = choose|i: int| 0 <= i < old(self).metrics_v().len() && #[trigger] old(self).metrics_v()[i].name@ == n@
                    && is_scalar(f.metric_type) && !is_scalar(old(self).metrics_v()[i].metric_type);
                assert(self.metrics_v()[i].name@ == n@);
            }
        }
        if scalar && !values_valid_exec(family) {
            return false;
        }
        let ghost w1 = *self;
        proof {
            assert(w1.has_metric(n@));
            lemma_prefix_refl(self.metrics@);
            lemma_prefix_refl(self.labels@);
            lemma_prefix_refl(self.label_values@);
            lemma_prefix_refl(self.series@);
        }
        let mut rows: Vec<ValueRow> = Vec::new();
        let ghost mut sids: Seq<u64> = Seq::empty();
        let mut k: usize = 0;
        while k < family.samples.len()
            invariant
                f == family@,
                self.grows_from(&w1),
                w1.grows_from(old(self)),
                self.values_v() == old(self).values_v(),
                1 <= mid <= w1.metrics_v().len(),
                w1.metrics_v()[mid - 1].name@ == n@,
                family.var == Some(*n),
                k <= family.samples@.len(),
                scalar == is_scalar(family.metric_type),
                scalar ==> rows@.len() == k,
                !scalar ==> rows@.len() == 0,
                scalar ==> forall|m: int| 0 <= m < k ==> is_value_row(self, #[trigger] rows@[m], n@, timestamp_millis, f.samples[m]),
                sids.len() == k,
                forall|m: int| 0 <= m < k ==> sample_series(self, #[trigger] sids[m], n@, f.samples[m]),
                old(self).refs_ok() ==> self.refs_ok(),
                w1.labels_v() == old(self).labels_v(),
                w1.label_values_v() == old(self).label_values_v(),
                w1.series_v() == old(self).series_v(),
                self.labels_v().len() <= w1.labels_v().len() + label_total(f.samples.take(k as int)),
                self.label_values_v().len() <= w1.label_values_v().len() + label_total(f.samples.take(k as int)),
                self.series_v().len() <= w1.series_v().len() + k,
                self.metrics_v() == w1.metrics_v(),
                old(self).has_metric(n@) ==> w1.metrics_v() == old(self).metrics_v(),
                !old(self).has_metric(n@) ==> w1.metrics_v().len() == old(self).metrics_v().len() + 1
                    && w1.metrics_v()[old(self).metrics_v().len() as int].id == old(self).metrics_v().len() + 1
                    && w1.metrics_v()[old(self).metrics_v().len() as int].name@ == n@
                    && w1.metrics_v()[old(self).metrics_v().len() as int].metric_type == f.metric_type
                    && crate::model::opt_view(w1.metrics_v()[old(self).metrics_v().len() as int].help) == f.help,
                old(self).wf(),
                interned_already(old(self), f) ==> same_interned(old(self), self),
            decreases family.samples@.len() - k,
        {
            let ghost before = *self;
            proof {
                lemma_label_total_take(f.samples, k as int);
                assert(f.samples[k as int].labels == crate::model::labels_view(family.samples@[k as int].labels@));
                if interned_already(old(self), f) {
                    let w0 = old(self);
                    let smp = f.samples[k as int];
                    assert(has_sample_series(w0, n@, smp));
                    let sid = choose|sid: u64| sample_series(w0, sid, n@, smp);
                    let m = w0.series_v()[sid - 1].metric_id;
                    assert(w0.metrics_v()[m - 1].name@ == n@);
                    assert(w0.metrics_v()[mid - 1].name@ == n@);
                    assert(w0.metrics_v()[m - 1].id == m && w0.metrics_v()[mid - 1].id == mid);
                    assert(m == mid);
                    let lvs = choose|lvs: Seq<u64>| lists_labels(w0, lvs, smp.labels) && #[trigger] lvs.to_set()
                        == w0.series_v()[sid - 1].label_values@.to_set();
                    assert(w0.has_series(mid, lvs.to_set(), sid));
                    assert(self.has_series(mid, lvs.to_set(), sid));
                    assert(lists_labels(self, lvs, smp.labels));
                    assert(has_series_for(self, mid, smp.labels));
                }
            }
            let sid = match self.series_id_for(mid, &family.samples[k].labels) {
                Some(id) => id,
                None => {
                    proof {
                        use_type_invariant(&*self);
                        lemma_grows_trans(&w1, &before, &*self);
                        lemma_grows_trans(old(self), &w1, &*self);
                        lemma_prefix_refl(self.values@);
                        lemma_grows_keeps_metric(&w1, &*self, n@);
                    }
                    return false;
                },
            };
            proof {
                lemma_grows_trans(&w1, &before, &*self);
                assert(self.metrics_v()[mid - 1] == self.metrics_v().subrange(0, w1.metrics_v().len() as int)[mid - 1]);
                assert(sample_series(self, sid, n@, f.samples[k as int]));
                assert forall|m: int| 0 <= m < k implies sample_series(self, #[trigger] sids[m], n@, f.samples[m]) by {
                    lemma_grows_keeps_series(&before, &*self, sids[m], n@, f.samples[m]);
                }
                if scalar {
                    assert forall|m: int| 0 <= m < k implies is_value_row(self, #[trigger] rows@[m], n@, timestamp_millis, f.samples[m]) by {
                        lemma_grows_keeps_series(&before, &*self, rows@[m].series_id, n@, f.samples[m]);
                    }
                }
                sids = sids.push(sid);
            }
            if scalar {
                let row = ValueRow {
                    table: n.clone(),
                    series_id: sid,
                    timestamp_millis,
                    value: family.samples[k].value.clone(),
                };
                assert(is_value_row(self, row, n@, timestamp_millis, f.samples[k as int]));
                rows.push(row);
            }
            k += 1;
        }
        proof {
            use_type_invariant(&*self);
        }
        let mut values: Vec<ValueRow> = Vec::new();
        std::mem::swap(&mut values, &mut self.values);
        let ghost old_values = values@;
        let ghost added = rows@;
        values.append(&mut rows);
        self.values = values;
        proof {
            lemma_grows_trans(old(self), &w1, &*self);
            assert(self.values_v().subrange(0, old_values.len() as int) =~= old_values);
            assert(w1.metrics_v()[mid - 1] == self.metrics_v().subrange(0, w1.metrics_v().len() as int)[mid - 1]);
            assert(self.has_metric(n@));
            assert(f.samples.take(f.samples.len() as int) =~= f.samples);
            assert forall|m: int| 0 <= m < f.samples.len() implies #[trigger] has_sample_series(self, n@, f.samples[m]) by {
                assert(sample_series(self, sids[m], n@, f.samples[m]));
            }
            if scalar {
                assert forall|m: int| 0 <= m < f.samples.len() implies is_value_row(self, #[trigger] self.values_v()[old_values.len() + m], n@, timestamp_millis, f.samples[m]) by {
                    assert(self.values_v()[old_values.len() + m] == added[m]);
                }
            } else {
                assert(self.values_v() =~= old_values);
            }
        }
        true
    }
}

impl TableWriter {
    /// Decodes an exposition (without added labels) and processes each of its
    /// families in turn, as `process_family` does. `false` where it does not
    /// decode, and then nothing changes, or where a family failed; the other
    /// families are processed all the same.
    pub fn write(&mut self, timestamp_millis: u64, exposition: &str) -> (r: bool)
        ensures
            old(self).refs_ok() ==> final(self).refs_ok(),
            final(self).wf(),
            parse_spec(None, None, exposition@) is None ==> !r && *final(self) == *old(self),
            parse_spec(None, None, exposition@) matches Some(fs) ==> processed_all(
                old(self),
                final(self),
                timestamp_millis,
                fs,
                r,
            ),
    {
        proof {
            use_type_invariant(&*self);
        }
        let families = match parse(None, None, exposition) {
            Some(f) => f,
            None => {
                return false;
            },
        };
        let ghost fs = families_view(families@);
        let mut ok = true;
        let ghost mut ws: Seq<TableWriter> = seq![*self];
        let ghost mut oks: Seq<bool> = Seq::empty();
        let mut i: usize = 0;
        while i < families.len()
            invariant
                fs == families_view(families@),
                i <= families@.len(),
                ws.len() == i + 1,
                oks.len() == i,
                ws[0] == *old(self),
                ws[i as int] == *self,
                forall|j: int| 0 <= j < i ==> #[trigger] processed(&ws[j], &ws[j + 1], timestamp_millis, fs[j], oks[j]),
                ok == (forall|j: int| 0 <= j < i ==> #[trigger] oks[j]),
                old(self).refs_ok() ==> self.refs_ok(),
            decreases families@.len() - i,
        {
            let done = self.process_family(timestamp_millis, &families[i]);
            proof {
                assert(fs[i as int] == families@[i as int]@);
                let ws0 = ws;
                let oks0 = oks;
                ws = ws.push(*self);
                oks = oks.push(done);
                assert forall|j: int| 0 <= j < i + 1 implies #[trigger] processed(&ws[j], &ws[j + 1], timestamp_millis, fs[j], oks[j]) by {
                    if j < i {
                        assert(ws[j] == ws0[j] && ws[j + 1] == ws0[j + 1] && oks[j] == oks0[j]);
                    }
                }
                assert((ok && done) == (forall|j: int| 0 <= j < i + 1 ==> #[trigger] oks[j])) by {
                    assert forall|j: int| 0 <= j < i implies oks[j] == oks0[j] by {}
                    if !(ok && done) {
                        if !done {
                            assert(!oks[i as int]);
                        } else {
                            let j = choose|j: int| 0 <= j < i && !#[trigger] oks0[j];
                            assert(!oks[j]);
                        }
                    }
                }
            }
            if !done {
                ok = false;
            }
            i += 1;
        }
        proof {
            use_type_invariant(&*self);
            assert(chain(ws, oks, timestamp_millis, fs));
        }
        ok
    }
}

impl Exporter for TableWriter {
    fn export(&mut self, timestamp_millis: u64, family: &MetricFamily) -> bool {
        self.process_family(timestamp_millis, family)
    }

    fn close(&mut self) {
    }
}

/// `ws` are the states before and after each family of `fs`, and `oks` the results.
pub open spec fn chain(ws: Seq<TableWriter>, oks: Seq<bool>, ts: u64, fs: Seq<FamilyV>) -> bool {
    &&& ws.len() == fs.len() + 1
    &&& oks.len() == fs.len()
    &&& forall|j: int| 0 <= j < fs.len() ==> #[trigger] processed(&ws[j], &ws[j + 1], ts, fs[j], oks[j])
}

/// Processing `fs` in turn takes `w0` to `w1`; `r` tells whether every family succeeded.
pub open spec fn processed_all(w0: &TableWriter, w1: &TableWriter, ts: u64, fs: Seq<FamilyV>, r: bool) -> bool {
    exists|ws: Seq<TableWriter>, oks: Seq<bool>|
        #[trigger] chain(ws, oks, ts, fs) && ws[0] == *w0 && ws[fs.len() as int] == *w1 && r == (forall|j: int|
            0 <= j < oks.len() ==> #[trigger] oks[j])
}

/// Interning is idempotent: however many scrapes were processed, a metric name
/// that has a row has exactly one.
pub proof fn law_metric_row_unique(w: &TableWriter, n: Seq<char>)
    requires
        w.wf(),
        w.has_metric(n),
    ensures
        exists|i: int|
            0 <= i < w.metrics_v().len() && #[trigger] w.metrics_v()[i].name@ == n && forall|j: int|
                0 <= j < w.metrics_v().len() && #[trigger] w.metrics_v()[j].name@ == n ==> j == i,
{
    let i = choose|i: int| 0 <= i < w.metrics_v().len() && #[trigger] w.metrics_v()[i].name@ == n;
    assert(forall|j: int| 0 <= j < w.metrics_v().len() && #[trigger] w.metrics_v()[j].name@ == n ==> j == i);
}

/// Series are identified by their label sets: two series keys of one metric are
/// equal exactly where the label-value sets are equal.
pub proof fn law_series_identity(w: &TableWriter, metric_id: u64, a: Set<u64>, b: Set<u64>, id_a: u64, id_b: u64)
    requires
        w.wf(),
        w.has_series(metric_id, a, id_a),
        w.has_series(metric_id, b, id_b),
    ensures
        (id_a == id_b) == (a == b),
{
    assert(w.series_v()[id_a - 1].id == id_a);
    assert(w.series_v()[id_b - 1].id == id_b);
}

impl TableWriter {
    /// Adds a metric row read back from storage. Refused, with nothing changed,
    /// where its key is not the next one or its name already has a row.
    pub fn restore_metric(&mut self, row: MetricRow) -> (r: bool)
        ensures
            old(self).refs_ok() ==> final(self).refs_ok(),
            final(self).wf(),
            r == (row.id == old(self).metrics_v().len() + 1 && row.id < u64::MAX && !old(self).has_metric(row.name@)),
            r ==> final(self).metrics_v() == old(self).metrics_v().push(row),
            !r ==> final(self).metrics_v() == old(self).metrics_v(),
            final(self).labels_v() == old(self).labels_v(),
            final(self).label_values_v() == old(self).label_values_v(),
            final(self).series_v() == old(self).series_v(),
    {
        proof {
            use_type_invariant(&*self);
        }
        if row.id as u128 != self.metrics.len() as u128 + 1 || row.id == u64::MAX {
            return false;
        }
        if self.find_metric(&row.name).is_some() {
            return false;
        }
        let ghost before = self.metrics@;
        assert(forall|i: int| 0 <= i < before.len() ==> (#[trigger] before[i]).name@ != row.name@);
        let mut rows: Vec<MetricRow> = Vec::new();
        std::mem::swap(&mut rows, &mut self.metrics);
        rows.push(row);
        assert(rows@ == before.push(row));
        proof {
            lemma_unique_push(before, row);
        }
        self.metrics = rows;
        true
    }

    /// Adds a label row read back from storage, under the same conditions.
    pub fn restore_label(&mut self, row: LabelRow) -> (r: bool)
        ensures
            old(self).refs_ok() ==> final(self).refs_ok(),
            final(self).wf(),
            r == (row.id == old(self).labels_v().len() + 1 && row.id < u64::MAX && forall|j: int|
                0 <= j < old(self).labels_v().len() ==> (#[trigger] old(self).labels_v()[j]).name@ != row.name@),
            r ==> final(self).labels_v() == old(self).labels_v().push(row),
            !r ==> final(self).labels_v() == old(self).labels_v(),
            final(self).metrics_v() == old(self).metrics_v(),
            final(self).label_values_v() == old(self).label_values_v(),
            final(self).series_v() == old(self).series_v(),
    {
        proof {
            use_type_invariant(&*self);
        }
        if row.id as u128 != self.labels.len() as u128 + 1 || row.id == u64::MAX {
            return false;
        }
        if self.find_label(&row.name).is_some() {
            return false;
        }
        let mut rows: Vec<LabelRow> = Vec::new();
        std::mem::swap(&mut rows, &mut self.labels);
        rows.push(row);
        self.labels = rows;
        true
    }

    /// Adds a label value row read back from storage, under the same conditions.
    pub fn restore_label_value(&mut self, row: LabelValueRow) -> (r: bool)
        ensures
            old(self).refs_ok() ==> final(self).refs_ok(),
            final(self).wf(),
            r == (row.id == old(self).label_values_v().len() + 1 && row.id < u64::MAX && 1 <= row.label_id
                <= old(self).labels_v().len() && forall|j: int|
                0 <= j < old(self).label_values_v().len() ==> !((#[trigger] old(self).label_values_v()[j]).label_id
                    == row.label_id && old(self).label_values_v()[j].value@ == row.value@)),
            r ==> final(self).label_values_v() == old(self).label_values_v().push(row),
            !r ==> final(self).label_values_v() == old(self).label_values_v(),
            final(self).metrics_v() == old(self).metrics_v(),
            final(self).labels_v() == old(self).labels_v(),
            final(self).series_v() == old(self).series_v(),
    {
        proof {
            use_type_invariant(&*self);
        }
        if row.id as u128 != self.label_values.len() as u128 + 1 || row.id == u64::MAX {
            return false;
        }
        if row.label_id == 0 || row.label_id as u128 > self.labels.len() as u128 {
            return false;
        }
        if self.find_label_value(row.label_id, &row.value).is_some() {
            return false;
        }
        let mut rows: Vec<LabelValueRow> = Vec::new();
        std::mem::swap(&mut rows, &mut self.label_values);
        rows.push(row);
        self.label_values = rows;
        true
    }

    /// Adds a series row read back from storage, under the same conditions.
    pub fn restore_series(&mut self, row: SeriesRow) -> (r: bool)
        ensures
            old(self).refs_ok() ==> final(self).refs_ok(),
            final(self).wf(),
            r == (row.id == old(self).series_v().len() + 1 && row.id < u64::MAX && 1 <= row.metric_id
                <= old(self).metrics_v().len() && (forall|k: int|
                0 <= k < row.label_values@.len() ==> 1 <= #[trigger] row.label_values@[k]
                    <= old(self).label_values_v().len()) && forall|j: int|
                0 <= j < old(self).series_v().len() ==> !((#[trigger] old(self).series_v()[j]).metric_id
                    == row.metric_id && old(self).series_v()[j].label_values@.to_set()
                    == row.label_values@.to_set())),
            r ==> final(self).series_v() == old(self).series_v().push(row),
            !r ==> final(self).series_v() == old(self).series_v(),
            final(self).metrics_v() == old(self).metrics_v(),
            final(self).labels_v() == old(self).labels_v(),
            final(self).label_values_v() == old(self).label_values_v(),
    {
        proof {
            use_type_invariant(&*self);
        }
        if row.id as u128 != self.series.len() as u128 + 1 || row.id == u64::MAX {
            return false;
        }
        if row.metric_id == 0 || row.metric_id as u128 > self.metrics.len() as u128 {
            return false;
        }
        let mut k: usize = 0;
        while k < row.label_values.len()
            invariant
                k <= row.label_values@.len(),
                forall|q: int| 0 <= q < k ==> 1 <= #[trigger] row.label_values@[q] <= self.label_values@.len(),
            decreases row.label_values@.len() - k,
        {
            if row.label_values[k] == 0 || row.label_values[k] as u128 > self.label_values.len() as u128 {
                proof {
                    use_type_invariant(&*self);
                }
                return false;
            }
            k += 1;
        }
        if self.find_series(row.metric_id, &row.label_values).is_some() {
            return false;
        }
        let mut rows: Vec<SeriesRow> = Vec::new();
        std::mem::swap(&mut rows, &mut self.series);
        rows.push(row);
        self.series = rows;
        true
    }
}

proof fn lemma_label_value_unique(w: &TableWriter, n: Seq<char>, v: Seq<char>, a: u64, b: u64)
    requires
        w.wf(),
        is_label_value(w, n, v, a),
        is_label_value(w, n, v, b),
    ensures
        a == b,
{
    let la = w.label_values_v()[a - 1].label_id;
    let lb = w.label_values_v()[b - 1].label_id;
    assert(w.labels_v()[la - 1].name@ == w.labels_v()[lb - 1].name@);
    assert(la == lb);
    assert(w.label_values_v()[a - 1].label_id == w.label_values_v()[b - 1].label_id);
    assert(w.label_values_v()[a - 1].id == a);
    assert(w.label_values_v()[b - 1].id == b);
}

proof fn lemma_label_value_pair(w: &TableWriter, n1: Seq<char>, v1: Seq<char>, n2: Seq<char>, v2: Seq<char>, a: u64)
    requires
        is_label_value(w, n1, v1, a),
        is_label_value(w, n2, v2, a),
    ensures
        n1 == n2 && v1 == v2,
{
}

/// Every label value id listed for a sample's own labels stands for one of its pairs.
proof fn lemma_lists_subset(
    w: &TableWriter,
    lvs1: Seq<u64>,
    l1: Seq<(Seq<char>, Seq<char>)>,
    lvs2: Seq<u64>,
    l2: Seq<(Seq<char>, Seq<char>)>,
)
    requires
        w.wf(),
        lists_labels(w, lvs1, l1),
        lists_labels(w, lvs2, l2),
        l1.to_set() == l2.to_set(),
    ensures
        lvs1.to_set().subset_of(lvs2.to_set()),
{
    let pre = configured(w);
    assert forall|x: u64| lvs1.to_set().contains(x) implies lvs2.to_set().contains(x) by {
        let i = choose|i: int| 0 <= i < lvs1.len() && lvs1[i] == x;
        if i < pre.len() {
            assert(lvs1.subrange(0, pre.len() as int)[i] == lvs2.subrange(0, pre.len() as int)[i]);
            assert(lvs2[i] == x);
        } else {
            let k = i - pre.len();
            let p = l1[k];
            assert(is_label_value(w, p.0, p.1, lvs1[pre.len() + k]));
            assert(l1.to_set().contains(p));
            assert(l2.to_set().contains(p));
            let k2 = choose|k2: int| 0 <= k2 < l2.len() && l2[k2] == p;
            assert(is_label_value(w, l2[k2].0, l2[k2].1, lvs2[pre.len() + k2]));
            lemma_label_value_unique(w, p.0, p.1, lvs1[pre.len() + k], lvs2[pre.len() + k2]);
            assert(lvs2[pre.len() + k2] == x);
        }
    }
}

proof fn lemma_lists_pairs(
    w: &TableWriter,
    lvs1: Seq<u64>,
    l1: Seq<(Seq<char>, Seq<char>)>,
    lvs2: Seq<u64>,
    l2: Seq<(Seq<char>, Seq<char>)>,
)
    requires
        w.wf(),
        configured(w).len() == 0,
        lists_labels(w, lvs1, l1),
        lists_labels(w, lvs2, l2),
        lvs1.to_set() == lvs2.to_set(),
    ensures
        l1.to_set().subset_of(l2.to_set()),
{
    assert forall|p: (Seq<char>, Seq<char>)| l1.to_set().contains(p) implies l2.to_set().contains(p) by {
        let k = choose|k: int| 0 <= k < l1.len() && l1[k] == p;
        let x = lvs1[k];
        assert(is_label_value(w, p.0, p.1, lvs1[0 + k]));
        assert(lvs1.to_set().contains(x));
        let j = choose|j: int| 0 <= j < lvs2.len() && lvs2[j] == x;
        assert(is_label_value(w, l2[j].0, l2[j].1, lvs2[0 + j]));
        lemma_label_value_pair(w, p.0, p.1, l2[j].0, l2[j].1, x);
        assert(l2[j] == p);
    }
}

/// Series follow label sets: two value rows of one metric whose samples carry
/// the same set of label pairs belong to the same series, and where no
/// `instance` or `job` label is configured, rows of one series carry the same set.
pub proof fn law_series_follow_label_sets(
    w: &TableWriter,
    n: Seq<char>,
    r1: ValueRow,
    t1: u64,
    s1: crate::model::SampleV,
    r2: ValueRow,
    t2: u64,
    s2: crate::model::SampleV,
)
    requires
        w.wf(),
        is_value_row(w, r1, n, t1, s1),
        is_value_row(w, r2, n, t2, s2),
    ensures
        s1.labels.to_set() == s2.labels.to_set() ==> r1.series_id == r2.series_id,
        configured(w).len() == 0 && r1.series_id == r2.series_id ==> s1.labels.to_set() == s2.labels.to_set(),
{
    let a = r1.series_id;
    let b = r2.series_id;
    let sa = w.series_v()[a - 1];
    let sb = w.series_v()[b - 1];
    let lvs1 = choose|lvs: Seq<u64>| lists_labels(w, lvs, s1.labels) && #[trigger] lvs.to_set() == sa.label_values@.to_set();
    let lvs2 = choose|lvs: Seq<u64>| lists_labels(w, lvs, s2.labels) && #[trigger] lvs.to_set() == sb.label_values@.to_set();
    if s1.labels.to_set() == s2.labels.to_set() {
        lemma_lists_subset(w, lvs1, s1.labels, lvs2, s2.labels);
        lemma_lists_subset(w, lvs2, s2.labels, lvs1, s1.labels);
        assert(lvs1.to_set() =~= lvs2.to_set());
        assert(w.metrics_v()[sa.metric_id - 1].name@ == w.metrics_v()[sb.metric_id - 1].name@);
        assert(sa.metric_id == sb.metric_id);
        assert(sa.id == a && sb.id == b);
    }
    if configured(w).len() == 0 && a == b {
        lemma_lists_pairs(w, lvs1, s1.labels, lvs2, s2.labels);
        lemma_lists_pairs(w, lvs2, s2.labels, lvs1, s1.labels);
        assert(s1.labels.to_set() =~= s2.labels.to_set());
    }
}

proof fn lemma_grows_refl(w: &TableWriter)
    ensures
        w.grows_from(w),
{
    lemma_prefix_refl(w.metrics_v());
    lemma_prefix_refl(w.labels_v());
    lemma_prefix_refl(w.label_values_v());
    lemma_prefix_refl(w.series_v());
}

proof fn lemma_chain_grows(ws: Seq<TableWriter>, oks: Seq<bool>, ts: u64, fs: Seq<FamilyV>, j: int)
    requires
        chain(ws, oks, ts, fs),
        0 <= j <= fs.len(),
    ensures
        ws[fs.len() as int].grows_from(&ws[j]),
    decreases fs.len() - j,
{
    if j == fs.len() {
        lemma_grows_refl(&ws[j]);
    } else {
        assert(processed(&ws[j], &ws[j + 1], ts, fs[j], oks[j]));
        lemma_chain_grows(ws, oks, ts, fs, j + 1);
        lemma_grows_trans(&ws[j], &ws[j + 1], &ws[fs.len() as int]);
    }
}

proof fn lemma_interned_grows(w: &TableWriter, w2: &TableWriter, f: FamilyV)
    requires
        w2.grows_from(w),
        interned_already(w, f),
    ensures
        interned_already(w2, f),
{
    let n = f.var->Some_0;
    lemma_grows_keeps_metric(w, w2, n);
    assert forall|k: int| 0 <= k < f.samples.len() implies #[trigger] has_sample_series(w2, n, f.samples[k]) by {
        assert(has_sample_series(w, n, f.samples[k]));
        let sid = choose|sid: u64| sample_series(w, sid, n, f.samples[k]);
        lemma_grows_keeps_series(w, w2, sid, n, f.samples[k]);
    }
}

proof fn lemma_interned_same(a: &TableWriter, b: &TableWriter, f: FamilyV)
    requires
        same_interned(a, b),
        interned_already(a, f),
    ensures
        interned_already(b, f),
{
    let n = f.var->Some_0;
    let i = choose|i: int| 0 <= i < a.metrics_v().len() && #[trigger] a.metrics_v()[i].name@ == n;
    assert(b.metrics_v()[i].name@ == n);
    assert(configured(a) == configured(b));
    assert forall|k: int| 0 <= k < f.samples.len() implies #[trigger] has_sample_series(b, n, f.samples[k]) by {
        assert(has_sample_series(a, n, f.samples[k]));
        let sid = choose|sid: u64| sample_series(a, sid, n, f.samples[k]);
        let lvs = choose|lvs: Seq<u64>| lists_labels(a, lvs, f.samples[k].labels) && #[trigger] lvs.to_set()
            == a.series_v()[sid - 1].label_values@.to_set();
        assert(lists_labels(b, lvs, f.samples[k].labels));
        assert(sample_series(b, sid, n, f.samples[k]));
    }
}

proof fn lemma_second_pass(w1: &TableWriter, ws: Seq<TableWriter>, oks: Seq<bool>, ts: u64, fs: Seq<FamilyV>, j: int)
    requires
        chain(ws, oks, ts, fs),
        ws[0] == *w1,
        0 <= j <= fs.len(),
        forall|i: int| 0 <= i < fs.len() ==> #[trigger] interned_already(w1, fs[i]),
    ensures
        same_interned(w1, &ws[j]),
    decreases j,
{
    if j > 0 {
        lemma_second_pass(w1, ws, oks, ts, fs, j - 1);
        assert(interned_already(w1, fs[j - 1]));
        lemma_interned_same(w1, &ws[j - 1], fs[j - 1]);
        let i = j - 1;
        assert(processed(&ws[i], &ws[i + 1], ts, fs[i], oks[i]));
        assert(i + 1 == j);
    }
}

/// Interning is idempotent across scrapes: after an exposition whose families
/// all succeeded, writing the same families again (at any time) adds no metric,
/// label, label value or series row; only value rows are added.
pub proof fn law_repeated_scrape(
    w0: &TableWriter,
    w1: &TableWriter,
    w2: &TableWriter,
    t1: u64,
    t2: u64,
    fs: Seq<FamilyV>,
    r2: bool,
)
    requires
        processed_all(w0, w1, t1, fs, true),
        processed_all(w1, w2, t2, fs, r2),
    ensures
        same_interned(w1, w2),
{
    let (ws, oks) = choose|ws: Seq<TableWriter>, oks: Seq<bool>|
        #[trigger] chain(ws, oks, t1, fs) && ws[0] == *w0 && ws[fs.len() as int] == *w1 && true == (forall|j: int|
            0 <= j < oks.len() ==> #[trigger] oks[j]);
    assert forall|i: int| 0 <= i < fs.len() implies #[trigger] interned_already(w1, fs[i]) by {
        assert(oks[i]);
        assert(processed(&ws[i], &ws[i + 1], t1, fs[i], oks[i]));
        assert(interned_already(&ws[i + 1], fs[i]));
        lemma_chain_grows(ws, oks, t1, fs, i + 1);
        lemma_interned_grows(&ws[i + 1], w1, fs[i]);
    }
    let (vs, pks) = choose|vs: Seq<TableWriter>, pks: Seq<bool>|
        #[trigger] chain(vs, pks, t2, fs) && vs[0] == *w1 && vs[fs.len() as int] == *w2 && r2 == (forall|j: int|
            0 <= j < pks.len() ==> #[trigger] pks[j]);
    lemma_second_pass(w1, vs, pks, t2, fs, fs.len() as int);
}

} // verus!
