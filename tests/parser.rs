use driver::model::{MetricFamily, Sample, SampleType};
use driver::parse::parse;

const E1: &str = "# HELP requests_total total\n# TYPE requests_total counter\nrequests_total{method=\"GET\"} 3\nrequests_total{method=\"POST\"} 1\n";

fn labels(pairs: &[(&str, &str)]) -> Vec<(String, String)> {
    pairs.iter().map(|(a, b)| (a.to_string(), b.to_string())).collect()
}

#[test]
fn scalar_family_decodes() {
    let fams = parse(None, None, E1).expect("decodes");
    assert_eq!(fams.len(), 1);
    let f = &fams[0];
    assert_eq!(f.var.as_deref(), Some("requests_total"));
    assert_eq!(f.help.as_deref(), Some("total"));
    assert_eq!(f.metric_type, SampleType::Counter);
    assert_eq!(f.samples.len(), 2);
    assert_eq!(f.samples[0].var, "requests_total");
    assert_eq!(f.samples[0].labels, labels(&[("method", "GET")]));
    assert_eq!(f.samples[0].value, "3");
    assert_eq!(f.samples[1].labels, labels(&[("method", "POST")]));
    assert_eq!(f.samples[1].value, "1");
}

#[test]
fn labels_are_augmented_instance_then_job() {
    let fams = parse(Some("host-a"), Some("web"), E1).expect("decodes");
    for s in &fams[0].samples {
        assert_eq!(s.labels[0], ("instance".to_string(), "host-a".to_string()));
        assert_eq!(s.labels[1], ("job".to_string(), "web".to_string()));
        assert_eq!(s.labels.len(), 3);
    }
    assert_eq!(fams[0].samples[0].labels[2], ("method".to_string(), "GET".to_string()));
}

#[test]
fn samples_without_labels_are_augmented_too() {
    let fams = parse(Some("i"), None, "up 1\n").expect("decodes");
    assert_eq!(fams[0].samples[0].labels, labels(&[("instance", "i")]));
    let fams = parse(None, Some("j"), "up 1\n").expect("decodes");
    assert_eq!(fams[0].samples[0].labels, labels(&[("job", "j")]));
}

#[test]
fn descriptor_after_sample_is_rejected() {
    assert!(parse(None, None, "# TYPE x gauge\nx 1\n# HELP x oops\n").is_none());
    assert!(parse(None, None, "x 1\n# TYPE x gauge\n").is_none());
}

#[test]
fn descriptor_for_another_metric_opens_a_family() {
    let fams = parse(None, None, "a 1\n# TYPE b gauge\nb 2\n").expect("decodes");
    assert_eq!(fams.len(), 2);
    assert_eq!(fams[0].var.as_deref(), Some("a"));
    assert_eq!(fams[0].metric_type, SampleType::Untyped);
    assert_eq!(fams[1].var.as_deref(), Some("b"));
    assert_eq!(fams[1].metric_type, SampleType::Gauge);
}

#[test]
fn mismatching_sample_closes_the_family() {
    let fams = parse(None, None, "a 1\nb 2\na 3\n").expect("decodes");
    let names: Vec<_> = fams.iter().map(|f| f.var.clone().unwrap()).collect();
    assert_eq!(names, vec!["a", "b", "a"]);
}

#[test]
fn histogram_suffixes_stay_in_the_family() {
    let text = "# TYPE h histogram\nh_bucket{le=\"1\"} 2\nh_bucket{le=\"+Inf\"} 3\nh_sum 4.5\nh_count 3\n";
    let fams = parse(None, None, text).expect("decodes");
    assert_eq!(fams.len(), 1);
    assert_eq!(fams[0].samples.len(), 4);
    assert_eq!(fams[0].samples[2].var, "h_sum");
}

#[test]
fn suffixes_of_untyped_metrics_open_new_families() {
    let fams = parse(None, None, "h 1\nh_sum 2\n").expect("decodes");
    assert_eq!(fams.len(), 2);
}

#[test]
fn empty_input_has_no_family() {
    assert_eq!(parse(None, None, "").expect("decodes").len(), 0);
    assert_eq!(parse(None, None, "\n\n# just a comment\n").expect("decodes").len(), 0);
}

#[test]
fn descriptors_alone_make_a_family() {
    let fams = parse(None, None, "# HELP x the x\n").expect("decodes");
    assert_eq!(fams.len(), 1);
    assert_eq!(fams[0].samples.len(), 0);
    assert_eq!(fams[0].help.as_deref(), Some("the x"));
}

#[test]
fn final_newline_is_required() {
    assert!(parse(None, None, "x 1").is_none());
}

#[test]
fn values_and_timestamps() {
    for v in ["NaN", "+Inf", "-Inf", "1", "-1.5", "1e3", "2.5E-3", ".5", "5."] {
        let text = format!("x {}\n", v);
        let fams = parse(None, None, &text).expect("decodes");
        assert_eq!(fams[0].samples[0].value, v);
    }
    for v in ["inf", "nan", "1.2.3", "abc", "--1", "1e", "."] {
        let text = format!("x {}\n", v);
        assert!(parse(None, None, &text).is_none(), "{}", v);
    }
    let fams = parse(None, None, "x 1 1700000000000\n").expect("decodes");
    assert_eq!(fams[0].samples[0].value, "1");
    assert!(parse(None, None, "x 1 12ab\n").is_none());
}

#[test]
fn quoted_values_keep_their_escapes() {
    let fams = parse(None, None, "x{a=\"q\\\"b\",c=\"\\\\\",} 1\n").expect("decodes");
    assert_eq!(fams[0].samples[0].labels, labels(&[("a", "q\\\"b"), ("c", "\\\\")]));
    assert!(parse(None, None, "x{a=\"open} 1\n").is_none());
}

#[test]
fn lexical_errors_are_rejected() {
    assert!(parse(None, None, "1x 1\n").is_none());
    assert!(parse(None, None, "x{1a=\"v\"} 1\n").is_none());
    assert!(parse(None, None, "# TYPE x widget\n").is_none());
    assert!(parse(None, None, "# HELP\n").is_none());
    assert!(parse(None, None, "x\n").is_none());
}

#[test]
fn rendered_families_decode_to_the_same_structure() {
    let text = "# comment\n# TYPE a  gauge\na{x=\"1\"}   2   17\n\nb 3\n";
    let first = parse(None, None, text).expect("decodes");
    let rendered = "# TYPE a gauge\na{x=\"1\"} 2\nb 3\n";
    let second = parse(None, None, rendered).expect("decodes");
    assert_eq!(first, second);
}

#[test]
fn fetch_parse_adds_no_labels() {
    let a = driver::fetch::parse(E1).expect("decodes");
    let b = parse(None, None, E1).expect("decodes");
    assert_eq!(a, b);
    let expected = MetricFamily {
        var: Some("up".to_string()),
        help: None,
        metric_type: SampleType::Untyped,
        samples: vec![Sample { var: "up".to_string(), labels: vec![], value: "1".to_string() }],
    };
    assert_eq!(driver::fetch::parse("up 1\n").unwrap(), vec![expected]);
}

#[test]
fn render_then_parse_gives_the_same_families() {
    let text = "# comment\n# HELP a the a\n# TYPE a  gauge\na{x=\"1\",y=\"q\\\"\"}   2   17\n\nb 3\n# TYPE h histogram\nh_bucket{le=\"+Inf\"} 1\nh_sum 2\n";
    let fams = parse(None, None, text).unwrap();
    let out = driver::render::render_families(&fams);
    assert_eq!(
        out,
        "# HELP a the a\n# TYPE a gauge\na{x=\"1\",y=\"q\\\"\"} 2\nb 3\n# TYPE h histogram\nh_bucket{le=\"+Inf\"} 1\nh_sum 2\n"
    );
    assert_eq!(parse(None, None, &out).unwrap(), fams);
}

#[test]
fn render_writes_empty_help_without_text() {
    let fams = parse(None, None, "# HELP x   \n").unwrap();
    assert_eq!(fams[0].help.as_deref(), Some(""));
    let out = driver::render::render_families(&fams);
    assert_eq!(out, "# HELP x\n# TYPE x untyped\n");
    assert_eq!(parse(None, None, &out).unwrap(), fams);
}

#[test]
fn descriptor_after_samples_of_a_closed_family_is_rejected() {
    assert!(parse(None, None, "x 1\n# HELP y h\n# HELP x oops\n").is_none());
    assert!(parse(None, None, "x 1\n# HELP y h\ny 2\n# TYPE x gauge\n").is_none());
    assert!(parse(None, None, "# TYPE h histogram\nh_sum 1\nz 2\n# HELP h late\n").is_none());
}

#[test]
fn descriptor_name_mismatch_is_rejected() {
    assert!(parse(None, None, "# HELP a x\n# TYPE b gauge\n").is_none());
    assert!(parse(None, None, "# TYPE a gauge\n# HELP b x\nb 1\n").is_none());
}

#[test]
fn render_repeated_names_round_trip() {
    let fams = parse(None, None, "a 1\nb 2\na 3\n# HELP c x\nd 4\n").unwrap();
    assert_eq!(fams.len(), 5);
    let out = driver::render::render_families(&fams);
    assert_eq!(out, "# TYPE a untyped\na 1\nb 2\na 3\n# HELP c x\n# TYPE c untyped\nd 4\n");
    assert_eq!(parse(None, None, &out).unwrap(), fams);
}
