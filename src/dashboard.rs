//! The dashboard controller's decisions: what a key does, when to scrape
//! again, and what a scrape's outcome does to the displayed snapshot. The loop
//! that waits, reads keys, scrapes and draws runs outside and asks these.
use vstd::prelude::*;
use crate::config::Parameters;
use crate::metrics::cpu::{cpu_report, cpu_sums};
use crate::metrics::info::info_report;
use crate::metrics::labels::{free_view, label_report, label_values, rx_view, size_view, tx_view};
use crate::metrics::memory::memory_report;
use crate::metrics::{all_lines, summarizable, views, MetricsData, Service};
use crate::nodes::StatefulList;
use crate::text::{chars_of, occurs_at, occurs_at_exec, push_chars, push_str, string_of};

verus! {

/// The keys the dashboard reacts to.
#[derive(Clone, Copy, PartialEq, Eq, Debug)]
pub enum Key {
    /// `q` or Escape.
    Quit,
    Up,
    Down,
    /// `p`: the node details overlay.
    TogglePopup,
    Other,
}

/// Whether the loop goes on.
#[derive(Clone, Copy, PartialEq, Eq, Debug)]
pub enum Control {
    Continue,
    Exit,
}

/// When the next scrape is due: the interval, the time of the last scrape (in
/// milliseconds of a monotonic clock), and whether a scrape was asked for.
#[derive(Clone, Copy, Debug)]
pub struct Schedule {
    pub interval_secs: u64,
    pub last_refresh_ms: u64,
    pub refresh_pending: bool,
}

/// Milliseconds since the last scrape; zero where the clock reads earlier.
pub open spec fn elapsed(s: Schedule, now_ms: u64) -> nat {
    if now_ms >= s.last_refresh_ms {
        (now_ms - s.last_refresh_ms) as nat
    } else {
        0
    }
}

/// A scrape is due when one was asked for or a whole interval has passed.
pub open spec fn due(s: Schedule, now_ms: u64) -> bool {
    s.refresh_pending || elapsed(s, now_ms) >= s.interval_secs * 1000
}

/// How long to wait for a key: what is left of the interval, or zero.
pub open spec fn wait_ms(s: Schedule, now_ms: u64) -> nat {
    if elapsed(s, now_ms) >= s.interval_secs * 1000 {
        0
    } else {
        (s.interval_secs * 1000 - elapsed(s, now_ms)) as nat
    }
}

pub open spec fn after_navigation(s: Schedule) -> Schedule {
    Schedule { refresh_pending: true, ..s }
}

pub open spec fn after_refresh(s: Schedule, now_ms: u64) -> Schedule {
    Schedule { refresh_pending: false, last_refresh_ms: now_ms, ..s }
}

impl Schedule {
    /// Whether a scrape is due at `now_ms`.
    pub fn is_due(&self, now_ms: u64) -> (r: bool)
        ensures
            r == due(*self, now_ms),
    {
        let e: u64 = if now_ms >= self.last_refresh_ms { now_ms - self.last_refresh_ms } else { 0 };
        let r = self.refresh_pending || e / 1000 >= self.interval_secs;
        assert(e / 1000 >= self.interval_secs <==> e >= self.interval_secs * 1000) by (nonlinear_arith);
        r
    }

    /// How many milliseconds to wait for a key at `now_ms`.
    pub fn timeout_ms(&self, now_ms: u64) -> (r: u128)
        ensures
            r == wait_ms(*self, now_ms),
    {
        let e: u128 = if now_ms >= self.last_refresh_ms {
            (now_ms - self.last_refresh_ms) as u128
        } else {
            0
        };
        let interval = self.interval_secs as u128 * 1000;
        if e >= interval {
            0
        } else {
            interval - e
        }
    }
}

/// The dashboard's state: title, node list, the displayed snapshot, the
/// overlay flag and the scrape schedule.
pub struct App {
    pub name: String,
    pub nodes: StatefulList<String>,
    pub cpu: Vec<String>,
    pub memory: Vec<String>,
    pub network: Vec<String>,
    pub disk: Vec<String>,
    pub info: Vec<String>,
    pub scrape_duration: u64,
    pub show_popup: bool,
    pub schedule: Schedule,
}

/// The five categories an app displays.
pub open spec fn displayed(a: &App) -> (Seq<String>, Seq<String>, Seq<String>, Seq<String>, Seq<String>) {
    (a.cpu@, a.memory@, a.network@, a.disk@, a.info@)
}

impl App {
    /// The state at startup, titled `[ <name> ]`, over the nodes of `params`,
    /// the first selected, nothing displayed yet; the schedule counts from
    /// `now_ms`.
    pub fn new(name: String, params: Parameters, now_ms: u64) -> (r: App)
        ensures
            r.name@ == "[ "@ + name@ + " ]"@,
            r.nodes.items_view() == params.servers@,
            r.nodes.selection() == (if params.servers@.len() == 0 { None } else { Some(0usize) }),
            r.cpu@.len() == 0 && r.memory@.len() == 0 && r.network@.len() == 0,
            r.disk@.len() == 0 && r.info@.len() == 0,
            r.scrape_duration == params.scrape_duration,
            !r.show_popup,
            r.schedule == (Schedule {
                interval_secs: params.scrape_duration,
                last_refresh_ms: now_ms,
                refresh_pending: false,
            }),
    {
        let mut title: Vec<char> = Vec::new();
        push_str(&mut title, "[ ");
        push_chars(&mut title, &chars_of(&name));
        push_str(&mut title, " ]");
        App {
            name: string_of(&title),
            nodes: StatefulList::with_items(params.servers),
            cpu: Vec::new(),
            memory: Vec::new(),
            network: Vec::new(),
            disk: Vec::new(),
            info: Vec::new(),
            scrape_duration: params.scrape_duration,
            show_popup: false,
            schedule: Schedule {
                interval_secs: params.scrape_duration,
                last_refresh_ms: now_ms,
                refresh_pending: false,
            },
        }
    }

    /// What a key does. Quit ends the loop; Up and Down move the selection,
    /// hide the overlay and ask for a scrape; `p` flips the overlay; other
    /// keys do nothing.
    pub fn handle_key(&mut self, key: Key) -> (r: Control)
        ensures
            r == (if key == Key::Quit { Control::Exit } else { Control::Continue }),
            final(self).nodes.items_view() == old(self).nodes.items_view(),
            displayed(final(self)) == displayed(old(self)),
            final(self).name == old(self).name,
            final(self).scrape_duration == old(self).scrape_duration,
            key == Key::Down ==> final(self).nodes.selection() == (if old(self).nodes.items_view().len() == 0 {
                old(self).nodes.selection()
            } else {
                Some(
                    ((old(self).nodes.selection()->0 + 1) % old(self).nodes.items_view().len() as int) as usize,
                )
            }),
            key == Key::Up ==> final(self).nodes.selection() == (if old(self).nodes.items_view().len() == 0 {
                old(self).nodes.selection()
            } else {
                Some(
                    (if old(self).nodes.selection()->0 == 0 {
                        old(self).nodes.items_view().len() - 1
                    } else {
                        old(self).nodes.selection()->0 - 1
                    }) as usize,
                )
            }),
            key != Key::Up && key != Key::Down ==> final(self).nodes.selection() == old(self).nodes.selection(),
            (key == Key::Up || key == Key::Down) ==> !final(self).show_popup && final(self).schedule == after_navigation(old(self).schedule),
            key == Key::TogglePopup ==> final(self).show_popup == !old(self).show_popup && final(self).schedule == old(self).schedule,
            (key == Key::Quit || key == Key::Other) ==> final(self).show_popup == old(self).show_popup && final(self).schedule == old(self).schedule,
    {
        match key {
            Key::Quit => Control::Exit,
            Key::Down => {
                self.nodes.next();
                self.show_popup = false;
                self.schedule.refresh_pending = true;
                Control::Continue
            },
            Key::Up => {
                self.nodes.previous();
                self.show_popup = false;
                self.schedule.refresh_pending = true;
                Control::Continue
            },
            Key::TogglePopup => {
                self.show_popup = !self.show_popup;
                Control::Continue
            },
            Key::Other => Control::Continue,
        }
    }

    /// Whether to scrape the selected node at `now_ms`.
    pub fn refresh_due(&self, now_ms: u64) -> (r: bool)
        ensures
            r == due(self.schedule, now_ms),
    {
        self.schedule.is_due(now_ms)
    }

    /// How long to wait for a key at `now_ms`, in milliseconds.
    pub fn poll_timeout_ms(&self, now_ms: u64) -> (r: u128)
        ensures
            r == wait_ms(self.schedule, now_ms),
    {
        self.schedule.timeout_ms(now_ms)
    }

    /// The address of the selected node.
    pub fn selected_node(&self) -> (r: Option<&String>)
        ensures
            match self.nodes.selection() {
                None => r is None,
                Some(i) => r == Some(&self.nodes.items_view()[i as int]),
            },
    {
        self.nodes.selected_item()
    }

    /// Takes in the outcome of a scrape made at `now_ms`: `None` where the
    /// transport failed, else the bodies read. A failed transport, or bodies
    /// that cannot be summarized, leave the displayed snapshot as it was;
    /// otherwise the five categories are replaced together. Either way the
    /// scrape is no longer pending and the interval counts from `now_ms`.
    pub fn apply_scrape(&mut self, svc: &mut Service, scraped: Option<Vec<String>>, now_ms: u64)
        ensures
            final(self).schedule == after_refresh(old(self).schedule, now_ms),
            final(self).nodes == old(self).nodes,
            final(self).show_popup == old(self).show_popup,
            final(self).name == old(self).name,
            scraped is None ==> displayed(final(self)) == displayed(old(self)) && final(svc).cpu_state.view() == old(svc).cpu_state.view(),
            scraped is Some ==> final(svc).cpu_state.view() == match cpu_sums(all_lines(views(scraped->0@))) {
                Some(s) => s,
                None => old(svc).cpu_state.view(),
            },
            scraped is Some && !summarizable(views(scraped->0@)) ==> displayed(final(self)) == displayed(old(self)),
            scraped is Some && summarizable(views(scraped->0@)) ==> {
                let bodies = views(scraped->0@);
                let lines = all_lines(bodies);
                &&& views(final(self).cpu@) == cpu_report(
                    old(svc).cpu_state.view(),
                    cpu_sums(lines).unwrap(),
                )
                &&& views(final(self).memory@) == memory_report(bodies).unwrap().2
                &&& views(final(self).network@) == label_report(
                    label_values(lines, rx_view(), tx_view(), 10).unwrap(),
                )
                &&& views(final(self).disk@) == label_report(
                    label_values(lines, size_view(), free_view(), 15).unwrap(),
                )
                &&& views(final(self).info@) == info_report(lines)
            },
    {
        match scraped {
            None => {},
            Some(bodies) => {
                match svc.get_all_metrics(bodies) {
                    Ok(data) => {
                        let MetricsData { cpu, memory, network, disk, info } = data;
                        self.cpu = cpu;
                        self.memory = memory;
                        self.network = network;
                        self.disk = disk;
                        self.info = info;
                    },
                    Err(_) => {},
                }
            },
        }
        self.schedule.refresh_pending = false;
        self.schedule.last_refresh_ms = now_ms;
    }
}

/// The leftmost occurrence of `t` in `s` at or after `i`, or the length of `s`.
pub open spec fn next_occurrence(s: Seq<char>, i: int, t: Seq<char>) -> int
    decreases s.len() - i,
{
    if i >= s.len() || i < 0 {
        s.len() as int
    } else if occurs_at(s, i, t) {
        i
    } else {
        next_occurrence(s, i + 1, t)
    }
}

/// How a node is listed: the part of its address between the first `://` and
/// the next one (or the end); `error` where the address has no `://`.
pub open spec fn node_label_of(addr: Seq<char>) -> Seq<char> {
    let i = next_occurrence(addr, 0, "://"@);
    if i >= addr.len() {
        "error"@
    } else {
        let start = i + "://"@.len();
        addr.subrange(start, next_occurrence(addr, start, "://"@))
    }
}

proof fn lemma_next_occurrence_bounds(s: Seq<char>, i: int, t: Seq<char>)
    requires
        0 <= i,
    ensures
        (i <= s.len() ==> i <= next_occurrence(s, i, t)) && next_occurrence(s, i, t) <= s.len(),
        next_occurrence(s, i, t) < s.len() ==> occurs_at(s, next_occurrence(s, i, t), t),
    decreases s.len() - i,
{
    if i < s.len() && !occurs_at(s, i, t) {
        lemma_next_occurrence_bounds(s, i + 1, t);
    }
}

fn next_occurrence_exec(s: &Vec<char>, i: usize, t: &str) -> (r: usize)
    requires
        i <= s@.len(),
    ensures
        r == next_occurrence(s@, i as int, t@),
{
    let mut j = i;
    while j < s.len() && !occurs_at_exec(s, j, t)
        invariant
            i <= j <= s@.len(),
            next_occurrence(s@, i as int, t@) == next_occurrence(s@, j as int, t@),
        decreases s@.len() - j,
    {
        j = j + 1;
    }
    j
}

/// How a node is listed: its address without the scheme.
pub fn node_label(addr: &String) -> (r: String)
    ensures
        r@ == node_label_of(addr@),
{
    let s = chars_of(addr);
    let i = next_occurrence_exec(&s, 0, "://");
    proof {
        lemma_next_occurrence_bounds(s@, 0, "://"@);
    }
    let mut out: Vec<char> = Vec::new();
    if i >= s.len() {
        push_str(&mut out, "error");
        return string_of(&out);
    }
    let start = i + "://".unicode_len();
    let end = next_occurrence_exec(&s, start, "://");
    proof {
        lemma_next_occurrence_bounds(s@, start as int, "://"@);
    }
    let mut k = start;
    while k < end
        invariant
            start <= k <= end <= s@.len(),
            out@ == s@.subrange(start as int, k as int),
        decreases end - k,
    {
        out.push(s[k]);
        k = k + 1;
        assert(out@ =~= s@.subrange(start as int, k as int));
    }
    string_of(&out)
}

/// A detail line as the overlay shows it: `{` as a space, `}` left out.
pub open spec fn overlay_line(s: Seq<char>) -> Seq<char>
    decreases s.len(),
{
    if s.len() == 0 {
        seq![]
    } else {
        overlay_line(s.drop_last()) + (if s.last() == '}' {
            seq![]
        } else if s.last() == '{' {
            seq![' ']
        } else {
            seq![s.last()]
        })
    }
}

/// The overlay's text: a newline, then the lines one per row.
pub open spec fn overlay_text(lines: Seq<Seq<char>>) -> Seq<char>
    decreases lines.len(),
{
    if lines.len() == 0 {
        seq!['\n']
    } else {
        overlay_text(lines.drop_last()) + (if lines.len() > 1 { seq!['\n'] } else { seq![] })
            + overlay_line(lines.last())
    }
}

/// The text of the node details overlay.
pub fn popup_text(info: &Vec<String>) -> (r: String)
    ensures
        r@ == overlay_text(views(info@)),
{
    let mut out: Vec<char> = Vec::new();
    out.push('\n');
    let mut i: usize = 0;
    while i < info.len()
        invariant
            i <= info@.len(),
            out@ == overlay_text(views(info@.take(i as int))),
        decreases info@.len() - i,
    {
        proof {
            assert(views(info@.take(i + 1)).drop_last() =~= views(info@.take(i as int)));
            assert(views(info@.take(i + 1)).last() == info@[i as int]@);
        }
        if i > 0 {
            out.push('\n');
        }
        let line = chars_of(&info[i]);
        let ghost before = out@;
        let mut k: usize = 0;
        while k < line.len()
            invariant
                k <= line@.len(),
                out@ == before + overlay_line(line@.take(k as int)),
            decreases line@.len() - k,
        {
            assert(line@.take(k + 1).drop_last() =~= line@.take(k as int));
            let c = line[k];
            if c == '{' {
                out.push(' ');
            } else if c != '}' {
                out.push(c);
            }
            k = k + 1;
            assert(out@ =~= before + overlay_line(line@.take(k as int)));
        }
        assert(line@.take(k as int) =~= line@);
        i = i + 1;
        assert(out@ =~= overlay_text(views(info@.take(i as int))));
    }
    assert(info@.take(i as int) =~= info@);
    string_of(&out)
}

/// Moving the selection asks for a scrape at once, whatever is left of the
/// interval; the scrape then restarts the interval from its own time, so
/// none is due again before a whole interval has passed.
pub proof fn lemma_navigation_refreshes_now(s: Schedule, now_ms: u64, later_ms: u64)
    requires
        now_ms <= later_ms,
        later_ms - now_ms < s.interval_secs * 1000,
    ensures
        due(after_navigation(s), now_ms),
        after_refresh(after_navigation(s), now_ms).last_refresh_ms == now_ms,
        !due(after_refresh(after_navigation(s), now_ms), later_ms),
{
}

} // verus!
