use driver::model::SampleType;
use driver::normalize::{Exporter, LabelRow, LabelValueRow, MetricRow, SeriesRow, TableWriter};

const E1: &str = "# HELP requests_total total\n# TYPE requests_total counter\nrequests_total{method=\"GET\"} 3\nrequests_total{method=\"POST\"} 1\n";
const T: u64 = 1700000000000;

#[test]
fn one_scrape_makes_one_metric_two_series_two_values() {
    let mut w = TableWriter::new();
    assert!(w.write(T, E1));
    assert_eq!(w.metrics().len(), 1);
    let m = &w.metrics()[0];
    assert_eq!((m.id, m.name.as_str(), m.metric_type, m.help.as_deref()), (1, "requests_total", SampleType::Counter, Some("total")));
    assert_eq!(w.series().len(), 2);
    let values = w.values();
    assert_eq!(values.len(), 2);
    assert_eq!(values[0].value.parse::<f64>().unwrap(), 3.0);
    assert_eq!(values[1].value.parse::<f64>().unwrap(), 1.0);
    assert!(values.iter().all(|v| v.timestamp_millis == T && v.table == "requests_total"));
    assert_ne!(values[0].series_id, values[1].series_id);
}

#[test]
fn configured_labels_join_every_series() {
    let mut w = TableWriter::new();
    assert!(w.set_instance("host-a"));
    assert!(w.set_job("web"));
    assert!(w.write(T, E1));
    assert_eq!(w.series().len(), 2);
    let lv = |name: &str, value: &str| {
        let label = w.labels().iter().find(|l| l.name == name).unwrap().id;
        w.label_values().iter().find(|v| v.label_id == label && v.value == value).unwrap().id
    };
    let (i, j) = (lv("instance", "host-a"), lv("job", "web"));
    let (get, post) = (lv("method", "GET"), lv("method", "POST"));
    let s0 = &w.series()[0].label_values;
    let s1 = &w.series()[1].label_values;
    assert_eq!(s0, &vec![i, j, get]);
    assert_eq!(s1, &vec![i, j, post]);
}

#[test]
fn repeated_scrape_only_grows_the_value_table() {
    let mut w = TableWriter::new();
    assert!(w.write(T, E1));
    assert!(w.write(T + 5000, E1));
    assert_eq!(w.metrics().len(), 1);
    assert_eq!(w.labels().len(), 1);
    assert_eq!(w.label_values().len(), 2);
    assert_eq!(w.series().len(), 2);
    assert_eq!(w.values().len(), 4);
    assert_eq!(w.values()[0].series_id, w.values()[2].series_id);
    assert_eq!(w.values()[1].series_id, w.values()[3].series_id);
}

#[test]
fn label_order_does_not_change_the_series() {
    let mut w = TableWriter::new();
    assert!(w.write(T, "x{a=\"1\",b=\"2\"} 1\n"));
    assert!(w.write(T + 1, "x{b=\"2\",a=\"1\"} 1\n"));
    assert_eq!(w.series().len(), 1);
    assert!(w.write(T + 2, "x{a=\"1\"} 1\n"));
    assert_eq!(w.series().len(), 2);
    assert!(w.write(T + 3, "x{a=\"1\",b=\"2\",c=\"3\"} 1\n"));
    assert_eq!(w.series().len(), 3);
}

#[test]
fn malformed_scrape_changes_nothing() {
    let mut w = TableWriter::new();
    assert!(!w.write(T, "# TYPE x gauge\nx 1\n# HELP x oops\n"));
    assert_eq!(w.metrics().len(), 0);
    assert_eq!(w.values().len(), 0);
}

#[test]
fn metric_keeps_its_first_type() {
    let mut w = TableWriter::new();
    assert!(w.write(T, "# TYPE h histogram\nh_sum 1\n"));
    assert_eq!(w.values().len(), 0);
    assert_eq!(w.series().len(), 1);
    assert!(!w.write(T, "# TYPE h gauge\nh 1\n"));
    assert_eq!(w.metrics()[0].metric_type, SampleType::Histogram);
    assert_eq!(w.values().len(), 0);
}

#[test]
fn take_values_drains() {
    let mut w = TableWriter::new();
    assert!(w.write(T, E1));
    let taken = w.take_values();
    assert_eq!(taken.len(), 2);
    assert_eq!(w.values().len(), 0);
    assert_eq!(w.series().len(), 2);
}

#[test]
fn export_processes_one_family() {
    let mut w = TableWriter::new();
    let fams = driver::parse::parse(None, None, E1).unwrap();
    assert!(w.export(T, &fams[0]));
    assert_eq!(w.values().len(), 2);
    let mut nameless = fams[0].clone();
    nameless.var = None;
    assert!(!w.export(T, &nameless));
    w.close();
}

#[test]
fn restored_rows_are_reused() {
    let mut w = TableWriter::new();
    assert!(w.restore_metric(MetricRow { id: 1, name: "requests_total".to_string(), metric_type: SampleType::Counter, help: Some("total".to_string()) }));
    assert!(!w.restore_metric(MetricRow { id: 2, name: "requests_total".to_string(), metric_type: SampleType::Gauge, help: None }));
    assert!(!w.restore_metric(MetricRow { id: 5, name: "other".to_string(), metric_type: SampleType::Gauge, help: None }));
    assert!(w.restore_label(LabelRow { id: 1, name: "method".to_string() }));
    assert!(w.restore_label_value(LabelValueRow { id: 1, label_id: 1, value: "GET".to_string() }));
    assert!(!w.restore_label_value(LabelValueRow { id: 2, label_id: 1, value: "GET".to_string() }));
    assert!(w.restore_series(SeriesRow { id: 1, metric_id: 1, label_values: vec![1] }));
    assert!(!w.restore_series(SeriesRow { id: 2, metric_id: 1, label_values: vec![1, 1] }));
    assert!(w.write(T, E1));
    assert_eq!(w.metrics().len(), 1);
    assert_eq!(w.labels().len(), 1);
    assert_eq!(w.label_values().len(), 2);
    assert_eq!(w.series().len(), 2);
    assert_eq!(w.values()[0].series_id, 1);
    assert_eq!(w.values()[1].series_id, 2);
}

#[test]
fn value_that_is_not_a_number_fails_the_family() {
    let mut w = TableWriter::new();
    let mut fams = driver::parse::parse(None, None, E1).unwrap();
    fams[0].samples[1].value = "abc".to_string();
    assert!(!w.export(T, &fams[0]));
    assert_eq!(w.values().len(), 0);
    assert_eq!(w.metrics().len(), 1);
}

#[test]
fn failing_family_does_not_stop_the_others() {
    let mut w = TableWriter::new();
    assert!(w.write(T, "# TYPE h histogram\nh_sum 1\n"));
    assert!(!w.write(T, "# TYPE h gauge\nh 1\n# TYPE g gauge\ng 2\n"));
    assert_eq!(w.metrics().len(), 2);
    assert_eq!(w.values().len(), 1);
    assert_eq!(w.values()[0].table, "g");
}
