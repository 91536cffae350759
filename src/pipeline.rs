//! The decisions of the scrape pipeline: when a scrape is due, what the bounded
//! queue between scraper and writer does, and what the writer does with one scrape.
use vstd::prelude::*;
use crate::grammar::parse_spec;
use crate::model::{families_view, opt_str_view};
use crate::normalize::Exporter;
use crate::parse::parse;

verus! {

/// A periodic schedule whose missed ticks are delayed, never made up in a burst.
pub struct Ticker {
    pub interval_millis: u64,
    pub next_millis: u64,
}

/// Whether a tick fires at `now`, and the deadline after it: a tick fires once
/// its deadline has come, and the next one is due an interval after `now`, so a
/// late tick delays the schedule rather than being made up.
pub open spec fn tick_spec(interval: u64, next: u64, now: u64) -> (bool, u64) {
    if now < next {
        (false, next)
    } else {
        (true, sat_add(now, interval))
    }
}

pub open spec fn sat_add(a: u64, b: u64) -> u64 {
    if a + b > u64::MAX {
        u64::MAX
    } else {
        (a + b) as u64
    }
}

impl Ticker {
    /// A schedule whose first tick is due at `start_millis`.
    pub fn new(start_millis: u64, interval_millis: u64) -> (r: Ticker)
        requires
            interval_millis > 0,
        ensures
            r.interval_millis == interval_millis,
            r.next_millis == start_millis,
    {
        Ticker { interval_millis, next_millis: start_millis }
    }

    /// When the next tick is due.
    pub fn deadline(&self) -> (r: u64)
        ensures
            r == self.next_millis,
    {
        self.next_millis
    }

    /// Whether a tick fires at `now`; the schedule moves on where it does.
    pub fn poll(&mut self, now_millis: u64) -> (r: bool)
        ensures
            (r, final(self).next_millis) == tick_spec(old(self).interval_millis, old(self).next_millis, now_millis),
            final(self).interval_millis == old(self).interval_millis,
    {
        if now_millis < self.next_millis {
            false
        } else {
            self.next_millis = now_millis.saturating_add(self.interval_millis);
            true
        }
    }
}

/// Once a tick fires at `now`, however late, no other tick fires before
/// `now + interval`: after a pause one tick fires at once, and the later ones
/// are spaced by the interval.
pub proof fn law_tick_no_burst(interval: u64, next: u64, now: u64)
    requires
        interval > 0,
        now >= next,
        now + interval <= u64::MAX,
    ensures
        tick_spec(interval, next, now).0,
        tick_spec(interval, next, now).1 == now + interval,
        forall|t: u64| now <= t < now + interval ==> !(#[trigger] tick_spec(interval, tick_spec(interval, next, now).1, t)).0,
{
}

/// One fetched exposition and the time it was taken at.
pub struct Scrape {
    pub timestamp_millis: u64,
    pub body: String,
}

/// A scrape as a timestamp and characters.
pub open spec fn scrape_view(s: Scrape) -> (u64, Seq<char>) {
    (s.timestamp_millis, s.body@)
}

/// Whether a queue with `len` scrapes accepts one more.
pub open spec fn accepts(len: nat, capacity: nat, closed: bool) -> bool {
    !closed && len < capacity
}

/// A first-in first-out queue of scrapes that holds at most `capacity` of them
/// and drops, rather than waits, where it is full.
pub struct ScrapeQueue {
    items: Vec<Scrape>,
    capacity: usize,
    closed: bool,
}

impl ScrapeQueue {
    pub closed spec fn items_v(&self) -> Seq<(u64, Seq<char>)> {
        self.items@.map_values(|s: Scrape| scrape_view(s))
    }

    pub closed spec fn capacity_v(&self) -> nat {
        self.capacity as nat
    }

    pub closed spec fn closed_v(&self) -> bool {
        self.closed
    }

    pub fn new(capacity: usize) -> (r: ScrapeQueue)
        ensures
            r.items_v() == Seq::<(u64, Seq<char>)>::empty(),
            r.capacity_v() == capacity,
            !r.closed_v(),
    {
        let r = ScrapeQueue { items: Vec::new(), capacity, closed: false };
        assert(r.items_v() =~= Seq::<(u64, Seq<char>)>::empty());
        r
    }

    pub fn len(&self) -> (r: usize)
        ensures
            r == self.items_v().len(),
    {
        self.items.len()
    }

    pub fn is_closed(&self) -> (r: bool)
        ensures
            r == self.closed_v(),
    {
        self.closed
    }

    /// Adds `s` at the back, or hands it back where the queue is full or closed.
    pub fn try_send(&mut self, s: Scrape) -> (r: Result<(), Scrape>)
        ensures
            final(self).capacity_v() == old(self).capacity_v(),
            final(self).closed_v() == old(self).closed_v(),
            r is Ok == accepts(old(self).items_v().len(), old(self).capacity_v(), old(self).closed_v()),
            match r {
                Ok(()) => final(self).items_v() == old(self).items_v().push(scrape_view(s)),
                Err(back) => back == s && final(self).items_v() == old(self).items_v(),
            },
    {
        if self.closed || self.items.len() >= self.capacity {
            return Err(s);
        }
        let ghost before = self.items@;
        self.items.push(s);
        assert(self.items_v() =~= before.map_values(|s: Scrape| scrape_view(s)).push(scrape_view(s)));
        Ok(())
    }

    /// Takes the oldest scrape, if there is one.
    pub fn recv(&mut self) -> (r: Option<Scrape>)
        ensures
            final(self).capacity_v() == old(self).capacity_v(),
            final(self).closed_v() == old(self).closed_v(),
            match r {
                Some(s) => old(self).items_v().len() > 0 && scrape_view(s) == old(self).items_v()[0]
                    && final(self).items_v() == old(self).items_v().drop_first(),
                None => old(self).items_v().len() == 0 && final(self).items_v() == old(self).items_v(),
            },
    {
        if self.items.len() == 0 {
            return None;
        }
        let ghost before = self.items@;
        let s = self.items.remove(0);
        assert(self.items_v() =~= before.map_values(|s: Scrape| scrape_view(s)).drop_first());
        Some(s)
    }

    /// No scrape is accepted after this; those queued can still be taken.
    pub fn close(&mut self)
        ensures
            final(self).closed_v(),
            final(self).items_v() == old(self).items_v(),
            final(self).capacity_v() == old(self).capacity_v(),
    {
        self.closed = true;
    }
}

/// With room for one scrape, an open empty queue takes a scrape, and once it
/// holds one (the writer having taken nothing) it refuses the next: `try_send`
/// hands that one back and leaves the queue as it was.
pub proof fn law_queue_full_drops(empty: ScrapeQueue, holding_one: ScrapeQueue)
    requires
        empty.capacity_v() == 1,
        empty.items_v().len() == 0,
        !empty.closed_v(),
        holding_one.capacity_v() == 1,
        holding_one.items_v().len() == 1,
    ensures
        accepts(empty.items_v().len(), empty.capacity_v(), empty.closed_v()),
        !accepts(holding_one.items_v().len(), holding_one.capacity_v(), holding_one.closed_v()),
{
}

/// Decodes one scrape and hands each of its families, in order, to `exporter`.
/// `None` where the scrape does not decode, and then the exporter is not called;
/// else the number of families and how many of them the exporter refused.
pub fn process_scrape<E: Exporter>(
    exporter: &mut E,
    instance: Option<&str>,
    job: Option<&str>,
    timestamp_millis: u64,
    body: &str,
) -> (r: Option<(usize, usize)>)
    ensures
        match r {
            None => parse_spec(opt_str_view(instance), opt_str_view(job), body@) is None
                && *final(exporter) == *old(exporter),
            Some((n, failed)) => parse_spec(opt_str_view(instance), opt_str_view(job), body@) matches Some(
                fs,
            ) && n == fs.len() && failed <= n,
        },
{
    let families = match parse(instance, job, body) {
        Some(f) => f,
        None => {
            return None;
        },
    };
    let mut failed: usize = 0;
    let mut i: usize = 0;
    while i < families.len()
        invariant
            i <= families@.len(),
            failed <= i,
        decreases families@.len() - i,
    {
        if !exporter.export(timestamp_millis, &families[i]) {
            failed += 1;
        }
        i += 1;
    }
    assert(families_view(families@).len() == families@.len());
    Some((families.len(), failed))
}

/// Whether the target names the standard input rather than an endpoint.
pub fn is_stdin_target(target: &str) -> (r: bool)
    ensures
        r == (target@ == "-"@),
{
    let t = crate::text::chars_of(target);
    crate::text::same_chars(&t, &crate::text::chars_of("-"))
}

/// The value of the `instance` label: the configured one, else the target's
/// `host:port` where there is a target.
pub fn instance_label(configured: Option<&str>, authority: Option<&str>) -> (r: Option<String>)
    ensures
        match r {
            Some(v) => match configured {
                Some(c) => v@ == c@,
                None => authority matches Some(a) && v@ == a@,
            },
            None => configured is None && authority is None,
        },
{
    match configured {
        Some(c) => Some(String::from_str(c)),
        None => match authority {
            Some(a) => Some(String::from_str(a)),
            None => None,
        },
    }
}

} // verus!
