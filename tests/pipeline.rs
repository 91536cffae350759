use driver::model::MetricFamily;
use driver::normalize::Exporter;
use driver::pipeline::{instance_label, is_stdin_target, process_scrape, Scrape, ScrapeQueue, Ticker};

fn scrape(t: u64) -> Scrape {
    Scrape { timestamp_millis: t, body: format!("x {}\n", t) }
}

#[test]
fn full_queue_drops_the_new_scrape() {
    let mut q = ScrapeQueue::new(1);
    assert!(q.try_send(scrape(1)).is_ok());
    let back = q.try_send(scrape(2)).unwrap_err();
    assert_eq!(back.timestamp_millis, 2);
    assert_eq!(q.len(), 1);
    let first = q.recv().unwrap();
    assert_eq!(first.timestamp_millis, 1);
    assert!(q.recv().is_none());
}

#[test]
fn queue_is_first_in_first_out_and_closes() {
    let mut q = ScrapeQueue::new(3);
    for t in 1..=3 {
        assert!(q.try_send(scrape(t)).is_ok());
    }
    q.close();
    assert!(q.is_closed());
    assert!(q.try_send(scrape(4)).is_err());
    let order: Vec<u64> = std::iter::from_fn(|| q.recv()).map(|s| s.timestamp_millis).collect();
    assert_eq!(order, vec![1, 2, 3]);
}

#[test]
fn stalled_ticker_fires_once_then_waits_an_interval() {
    let mut t = Ticker::new(0, 1000);
    assert!(t.poll(0));
    assert!(!t.poll(500));
    assert!(t.poll(1000));
    assert_eq!(t.deadline(), 2000);
    assert!(t.poll(2300));
    assert_eq!(t.deadline(), 3300);
    // the loop stalls for three seconds
    assert!(t.poll(6300));
    assert!(!t.poll(6300));
    assert!(!t.poll(7299));
    assert_eq!(t.deadline(), 7300);
    assert!(t.poll(7300));
}

#[test]
fn late_tick_reschedules_from_now() {
    let mut t = Ticker::new(0, 1000);
    assert!(t.poll(10));
    assert_eq!(t.deadline(), 1010);
    assert!(!t.poll(1009));
    assert!(t.poll(1010));
}

struct Recorder {
    seen: Vec<(u64, String, usize)>,
    refuse: bool,
}

impl Exporter for Recorder {
    fn export(&mut self, timestamp_millis: u64, family: &MetricFamily) -> bool {
        self.seen.push((timestamp_millis, family.var.clone().unwrap_or_default(), family.samples.len()));
        !self.refuse
    }

    fn close(&mut self) {}
}

#[test]
fn writer_exports_families_in_order() {
    let mut r = Recorder { seen: vec![], refuse: false };
    let out = process_scrape(&mut r, Some("i"), None, 7, "a 1\nb 2\nb 3\n");
    assert_eq!(out, Some((2, 0)));
    assert_eq!(r.seen, vec![(7, "a".to_string(), 1), (7, "b".to_string(), 2)]);
}

#[test]
fn writer_counts_refused_families() {
    let mut r = Recorder { seen: vec![], refuse: true };
    assert_eq!(process_scrape(&mut r, None, None, 7, "a 1\nb 2\n"), Some((2, 2)));
}

#[test]
fn malformed_scrape_reaches_no_exporter() {
    let mut r = Recorder { seen: vec![], refuse: false };
    assert_eq!(process_scrape(&mut r, None, None, 7, "# TYPE x gauge\nx 1\n# HELP x oops\n"), None);
    assert!(r.seen.is_empty());
}

#[test]
fn stdin_target_and_instance_label() {
    assert!(is_stdin_target("-"));
    assert!(!is_stdin_target("http://localhost:9100/metrics"));
    assert!(!is_stdin_target("--"));
    assert_eq!(instance_label(Some("a"), Some("h:1")).as_deref(), Some("a"));
    assert_eq!(instance_label(None, Some("h:1")).as_deref(), Some("h:1"));
    assert_eq!(instance_label(None, None), None);
}

#[test]
fn zero_depth_queue_drops_everything() {
    let mut q = ScrapeQueue::new(0);
    assert!(q.try_send(scrape(1)).is_err());
    assert_eq!(q.len(), 0);
}
