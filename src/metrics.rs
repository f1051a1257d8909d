//! Extraction of the curated metric families from exposition text, and the
//! running per-core baseline from which CPU utilization is derived.
//!
//! Sample values are held in micro-units (see `number`). A record that a
//! family's pattern does not fit is skipped; a fitting record whose numeric
//! text is malformed fails the whole category.
use vstd::prelude::*;
use crate::error::GenericError;
use crate::text::{chars_of, push_str, split_exec, split_on, string_of};

pub mod cpu;
pub mod info;
pub mod labels;
pub mod memory;

pub use cpu::{get_cpu_metrics, CpuBaseline};
pub use info::get_info_metrics;
pub use labels::{get_disk_metrics, get_network_metrics};
pub use memory::get_memory_metrics;
use cpu::{cpu_report, cpu_sums};
use info::info_report;
use labels::{free_view, label_report, label_values, rx_view, size_view, tx_view};
use memory::memory_report;

verus! {

/// What one record yields for a category.
pub enum Extract<T> {
    /// The record is not of the category.
    Skip,
    /// The record is of the category but its numeric text is malformed.
    Malformed,
    /// The record's value.
    Found(T),
}

/// The error of a category whose numeric text is malformed.
pub(crate) fn malformed(what: &str) -> GenericError {
    let mut v: Vec<char> = Vec::new();
    push_str(&mut v, what);
    GenericError::new(string_of(&v))
}

/// The text of each string.
pub open spec fn views(v: Seq<String>) -> Seq<Seq<char>> {
    v.map_values(|s: String| s@)
}

/// The records of all bodies, in order: each body split at every newline.
pub open spec fn all_lines(bodies: Seq<Seq<char>>) -> Seq<Seq<char>>
    decreases bodies.len(),
{
    if bodies.len() == 0 {
        seq![]
    } else {
        all_lines(bodies.drop_last()) + split_on(bodies.last(), '\n')
    }
}

/// Splits every body into its records.
pub fn lines_of(bodies: &Vec<String>) -> (r: Vec<Vec<char>>)
    ensures
        r.deep_view() == all_lines(views(bodies@)),
{
    let mut out: Vec<Vec<char>> = Vec::new();
    let mut b: usize = 0;
    while b < bodies.len()
        invariant
            b <= bodies@.len(),
            out.deep_view() == all_lines(views(bodies@.take(b as int))),
        decreases bodies@.len() - b,
    {
        let text = chars_of(&bodies[b]);
        let mut lines = split_exec(&text, '\n');
        let ghost before = out.deep_view();
        let ghost added = lines.deep_view();
        out.append(&mut lines);
        assert(out.deep_view() =~= before + added);
        assert(views(bodies@.take(b + 1)).drop_last() =~= views(bodies@.take(b as int)));
        b = b + 1;
    }
    assert(bodies@.take(b as int) == bodies@);
    out
}

/// The display lines of one refresh.
#[derive(Debug, Clone)]
pub struct MetricsData {
    pub cpu: Vec<String>,
    pub memory: Vec<String>,
    pub network: Vec<String>,
    pub disk: Vec<String>,
    pub info: Vec<String>,
}

/// Summarizes scraped exposition text; holds what must persist between
/// scrapes.
pub trait MetricsInterface: Sized {
    fn new() -> Self;

    fn get_all_metrics(&mut self, vec_metrics: Vec<String>) -> Result<MetricsData, GenericError>;
}

/// The metrics session: the CPU baseline, kept from one refresh to the next.
pub struct Service {
    pub cpu_state: CpuBaseline,
}

/// Whether every category of the bodies can be summarized.
pub open spec fn summarizable(bodies: Seq<Seq<char>>) -> bool {
    let lines = all_lines(bodies);
    cpu_sums(lines) is Some && memory_report(bodies) is Some && label_values(
        lines,
        rx_view(),
        tx_view(),
        10,
    ) is Some && label_values(lines, size_view(), free_view(), 15) is Some
}

impl Service {
    /// A session with an empty baseline.
    pub fn new() -> (r: Service)
        ensures
            r.cpu_state.view() == Seq::<(u64, u128)>::empty(),
    {
        Service { cpu_state: CpuBaseline::new() }
    }

    /// All five categories of the bodies.
    ///
    /// Fails where any category fails; the snapshot is then not assembled. The
    /// baseline is replaced whenever the CPU category succeeds.
    pub fn get_all_metrics(&mut self, vec_metrics: Vec<String>) -> (r: Result<MetricsData, GenericError>)
        ensures
            ({
                let bodies = views(vec_metrics@);
                let lines = all_lines(bodies);
                &&& final(self).cpu_state.view() == match cpu_sums(lines) {
                    Some(s) => s,
                    None => old(self).cpu_state.view(),
                }
                &&& r is Ok <==> summarizable(bodies)
                &&& r matches Ok(d) ==> {
                    &&& views(d.cpu@) == cpu_report(old(self).cpu_state.view(), cpu_sums(lines)->0)
                    &&& views(d.memory@) == memory_report(bodies).unwrap().2
                    &&& views(d.network@) == label_report(
                        label_values(lines, rx_view(), tx_view(), 10)->0,
                    )
                    &&& views(d.disk@) == label_report(
                        label_values(lines, size_view(), free_view(), 15)->0,
                    )
                    &&& views(d.info@) == info_report(lines)
                }
            }),
    {
        let cpu = get_cpu_metrics(&mut self.cpu_state, &vec_metrics)?;
        let memory = get_memory_metrics(&vec_metrics)?;
        let network = get_network_metrics(&vec_metrics)?;
        let disk = get_disk_metrics(&vec_metrics)?;
        let info = get_info_metrics(&vec_metrics)?;
        Ok(MetricsData { cpu, memory, network, disk, info })
    }
}

impl MetricsInterface for Service {
    fn new() -> Service {
        Service::new()
    }

    fn get_all_metrics(&mut self, vec_metrics: Vec<String>) -> Result<MetricsData, GenericError> {
        Service::get_all_metrics(self, vec_metrics)
    }
}

} // verus!
