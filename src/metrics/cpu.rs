//! CPU utilization: busy seconds summed per core, against a baseline kept
//! from the previous call.
use vstd::prelude::*;
use crate::error::GenericError;
use crate::metrics::{all_lines, lines_of, malformed, views, Extract};
use crate::number::{
    decimal, fixed_text, index_value, parse_index, parse_sample, push_decimal, push_fixed,
    round_div, round_div_exec, sample_value, LIMIT,
};
use crate::pattern::{capture_count, find, find_from, Class, Piece};
use crate::text::{contains, contains_exec, string_of};

verus! {

/// `cpu="<digits>",mode="<a-z>"}`, a separator, then the sample; the core
/// and the sample are captured.
pub open spec fn cpu_pieces() -> Seq<Piece> {
    seq![
        Piece::Lit("cpu=\""),
        Piece::Run { class: Class::Digit, nonempty: true, capture: true },
        Piece::Lit("\",mode=\""),
        Piece::Run { class: Class::Lower, nonempty: true, capture: false },
        Piece::Lit("\"}"),
        Piece::Sep,
        Piece::Run { class: Class::Sample, nonempty: true, capture: true },
    ]
}

fn cpu_pattern() -> (r: Vec<Piece>)
    ensures
        r@ == cpu_pieces(),
{
    let r = vec![
        Piece::Lit("cpu=\""),
        Piece::Run { class: Class::Digit, nonempty: true, capture: true },
        Piece::Lit("\",mode=\""),
        Piece::Run { class: Class::Lower, nonempty: true, capture: false },
        Piece::Lit("\"}"),
        Piece::Sep,
        Piece::Run { class: Class::Sample, nonempty: true, capture: true },
    ];
    assert(r@ =~= cpu_pieces());
    r
}

/// A busy-time record: per-core seconds in any mode but idle, iowait and steal.
pub open spec fn is_busy_record(line: Seq<char>) -> bool {
    contains(line, "node_cpu_seconds_total"@) && !contains(line, "idle"@) && !contains(
        line,
        "iowait"@,
    ) && !contains(line, "steal"@)
}

/// The core and busy seconds of a record.
pub open spec fn cpu_record(line: Seq<char>) -> Extract<(u64, u128)> {
    if !is_busy_record(line) {
        Extract::Skip
    } else {
        match find_from(line, 0, cpu_pieces()) {
            None => Extract::Skip,
            Some(c) => match (index_value(c[0]), sample_value(c[1])) {
                (Some(core), Some(v)) => Extract::Found((core, v)),
                _ => Extract::Malformed,
            },
        }
    }
}

/// Adds `v` to the sum of `core` in a list kept in ascending core order.
/// `None` where the sum would pass `LIMIT`.
pub open spec fn add_core(l: Seq<(u64, u128)>, core: u64, v: u128) -> Option<Seq<(u64, u128)>>
    decreases l.len(),
{
    if l.len() == 0 {
        Some(seq![(core, v)])
    } else if l[0].0 == core {
        if l[0].1 + v <= LIMIT {
            Some(seq![(core, (l[0].1 + v) as u128)] + l.skip(1))
        } else {
            None
        }
    } else if core < l[0].0 {
        Some(seq![(core, v)] + l)
    } else {
        match add_core(l.skip(1), core, v) {
            Some(t) => Some(seq![l[0]] + t),
            None => None,
        }
    }
}

/// The busy seconds of each core over the records, summed, in ascending core order.
pub open spec fn cpu_sums(lines: Seq<Seq<char>>) -> Option<Seq<(u64, u128)>>
    decreases lines.len(),
{
    if lines.len() == 0 {
        Some(seq![])
    } else {
        match cpu_sums(lines.drop_last()) {
            None => None,
            Some(acc) => match cpu_record(lines.last()) {
                Extract::Skip => Some(acc),
                Extract::Malformed => None,
                Extract::Found((core, v)) => add_core(acc, core, v),
            },
        }
    }
}

/// The baseline of `core`; zero where it was never observed.
pub open spec fn baseline_of(b: Seq<(u64, u128)>, core: u64) -> u128
    decreases b.len(),
{
    if b.len() == 0 {
        0
    } else if b[0].0 == core {
        b[0].1
    } else {
        baseline_of(b.skip(1), core)
    }
}

/// The change from `base` to `now` as a percentage of `base`, in thousandths,
/// rounded.
pub open spec fn delta_milli(base: nat, now: nat) -> nat {
    let d: nat = if now >= base { (now - base) as nat } else { (base - now) as nat };
    round_div(d * 100_000, base)
}

/// `<core> <percent>%`; the percentage is `0.000` where the baseline is zero.
pub open spec fn cpu_line(core: u64, base: u128, now: u128) -> Seq<char> {
    decimal(core as nat) + seq![' '] + (if base == 0 {
        seq!['0', '.', '0', '0', '0']
    } else {
        fixed_text(delta_milli(base as nat, now as nat), 3)
    }) + seq!['%']
}

pub open spec fn cpu_report(base: Seq<(u64, u128)>, sums: Seq<(u64, u128)>) -> Seq<Seq<char>> {
    sums.map_values(|e: (u64, u128)| cpu_line(e.0, baseline_of(base, e.0), e.1))
}

pub open spec fn sorted_cores(l: Seq<(u64, u128)>) -> bool {
    forall|i: int, j: int| 0 <= i < j < l.len() ==> l[i].0 < l[j].0
}

proof fn lemma_add_core_at(l: Seq<(u64, u128)>, core: u64, v: u128, p: int)
    requires
        0 <= p <= l.len(),
        forall|j: int| 0 <= j < p ==> l[j].0 < core,
        p < l.len() ==> l[p].0 >= core,
    ensures
        add_core(l, core, v) == (if p < l.len() && l[p].0 == core {
            if l[p].1 + v <= LIMIT {
                Some(l.take(p) + seq![(core, (l[p].1 + v) as u128)] + l.skip(p + 1))
            } else {
                None
            }
        } else {
            Some(l.take(p) + seq![(core, v)] + l.skip(p))
        }),
    decreases p,
{
    if p > 0 {
        let t = l.skip(1);
        assert forall|j: int| 0 <= j < p - 1 implies t[j].0 < core by {
            assert(t[j] == l[j + 1]);
        }
        lemma_add_core_at(t, core, v, p - 1);
        assert(l.take(p) =~= seq![l[0]] + t.take(p - 1));
        assert(t.skip(p - 1) =~= l.skip(p));
        if p < l.len() {
            assert(t.skip(p) =~= l.skip(p + 1));
            assert(t[p - 1] == l[p]);
        }
    } else {
        assert(l.take(0) =~= seq![]);
        assert(l.skip(0) =~= l);
        if l.len() > 0 {
            assert(seq![(core, v)] + l =~= seq![] + seq![(core, v)] + l);
        }
    }
}

proof fn lemma_add_core_sorted(l: Seq<(u64, u128)>, core: u64, v: u128)
    requires
        sorted_cores(l),
    ensures
        add_core(l, core, v) matches Some(t) ==> sorted_cores(t) && (forall|j: int|
            0 <= j < t.len() ==> t[j].0 == core || exists|k: int|
                0 <= k < l.len() && l[k].0 == #[trigger] t[j].0),
    decreases l.len(),
{
    if l.len() > 0 && l[0].0 != core && core > l[0].0 {
        let t = l.skip(1);
        assert(sorted_cores(t)) by {
            assert forall|i: int, j: int| 0 <= i < j < t.len() implies t[i].0 < t[j].0 by {
                assert(t[i] == l[i + 1] && t[j] == l[j + 1]);
            }
        }
        lemma_add_core_sorted(t, core, v);
        if let Some(r) = add_core(t, core, v) {
            let full = seq![l[0]] + r;
            assert forall|j: int| 0 <= j < r.len() implies r[j].0 > l[0].0 by {
                if r[j].0 != core {
                    let k = choose|k: int| 0 <= k < t.len() && t[k].0 == r[j].0;
                    assert(t[k] == l[k + 1]);
                }
            }
            assert forall|j: int| 0 <= j < full.len() implies full[j].0 == core || exists|k: int|
                0 <= k < l.len() && l[k].0 == #[trigger] full[j].0 by {
                if j == 0 {
                    assert(l[0].0 == full[0].0);
                } else if r[j - 1].0 != core {
                    let k = choose|k: int| 0 <= k < t.len() && t[k].0 == r[j - 1].0;
                    assert(l[k + 1].0 == full[j].0);
                }
            }
            assert(sorted_cores(full)) by {
                assert forall|i: int, j: int| 0 <= i < j < full.len() implies full[i].0
                    < full[j].0 by {
                    if i > 0 {
                        assert(full[i] == r[i - 1] && full[j] == r[j - 1]);
                    } else {
                        assert(full[j] == r[j - 1]);
                    }
                }
            }
        }
    } else if l.len() > 0 {
        if let Some(r) = add_core(l, core, v) {
            assert forall|j: int| 0 <= j < r.len() implies r[j].0 == core || exists|k: int|
                0 <= k < l.len() && l[k].0 == #[trigger] r[j].0 by {
                if j > 0 && l[0].0 == core {
                    assert(r[j] == l[j]);
                } else if j > 0 {
                    assert(r[j] == l[j - 1]);
                }
            }
        }
    }
}

/// The last-seen busy seconds of each core, in micro-units, in ascending
/// core order.
pub struct CpuBaseline {
    entries: Vec<(u64, u128)>,
}

impl CpuBaseline {
    pub closed spec fn view(&self) -> Seq<(u64, u128)> {
        self.entries@
    }

    /// Cores strictly ascending, every value within `LIMIT`.
    #[verifier::type_invariant]
    closed spec fn wf(&self) -> bool {
        sorted_cores(self.entries@) && forall|j: int|
            0 <= j < self.entries@.len() ==> #[trigger] self.entries@[j].1 <= LIMIT
    }

    /// A baseline that has observed no core.
    pub fn new() -> (r: CpuBaseline)
        ensures
            r.view() == Seq::<(u64, u128)>::empty(),
    {
        CpuBaseline { entries: Vec::new() }
    }

    /// The baseline of `core`; zero where it was never observed.
    pub fn get(&self, core: u64) -> (r: u128)
        ensures
            r == baseline_of(self.view(), core),
    {
        baseline_of_exec(&self.entries, core)
    }

    /// The cores observed, with their values, in ascending core order.
    pub fn entries(&self) -> (r: &Vec<(u64, u128)>)
        ensures
            r@ == self.view(),
    {
        &self.entries
    }
}

/// Adds `v` to the sum of `core` in `sums`, kept in ascending core order.
fn add_core_exec(sums: &mut Vec<(u64, u128)>, core: u64, v: u128) -> (ok: bool)
    requires
        sorted_cores(old(sums)@),
        v <= LIMIT,
        forall|j: int| 0 <= j < old(sums)@.len() ==> #[trigger] old(sums)@[j].1 <= LIMIT,
    ensures
        ok <==> add_core(old(sums)@, core, v) is Some,
        ok ==> add_core(old(sums)@, core, v) == Some(final(sums)@),
        !ok ==> final(sums)@ == old(sums)@,
        ok ==> sorted_cores(final(sums)@),
        ok ==> forall|j: int| 0 <= j < final(sums)@.len() ==> #[trigger] final(sums)@[j].1 <= LIMIT,
{
    let ghost l = sums@;
    let mut p: usize = 0;
    while p < sums.len() && sums[p].0 < core
        invariant
            l == sums@,
            p <= sums@.len(),
            forall|j: int| 0 <= j < p ==> sums@[j].0 < core,
        decreases sums@.len() - p,
    {
        p = p + 1;
    }
    proof {
        lemma_add_core_at(l, core, v, p as int);
        lemma_add_core_sorted(l, core, v);
    }
    if p < sums.len() && sums[p].0 == core {
        let cur = sums[p].1;
        if cur > LIMIT - v {
            return false;
        }
        sums.set(p, (core, cur + v));
        assert(sums@ =~= l.take(p as int) + seq![(core, (l[p as int].1 + v) as u128)] + l.skip(
            p + 1,
        ));
    } else {
        sums.insert(p, (core, v));
        assert(sums@ =~= l.take(p as int) + seq![(core, v)] + l.skip(p as int));
    }
    proof {
        assert forall|j: int| 0 <= j < sums@.len() implies #[trigger] sums@[j].1 <= LIMIT by {
            if j < p {
                assert(sums@[j] == l[j]);
            } else if j > p {
                if sums@.len() == l.len() {
                    assert(sums@[j] == l[j]);
                } else {
                    assert(sums@[j] == l[j - 1]);
                }
            }
        }
    }
    true
}

proof fn lemma_baseline_bound(b: Seq<(u64, u128)>, core: u64)
    requires
        forall|j: int| 0 <= j < b.len() ==> #[trigger] b[j].1 <= LIMIT,
    ensures
        baseline_of(b, core) <= LIMIT,
    decreases b.len(),
{
    if b.len() > 0 {
        let t = b.skip(1);
        assert forall|j: int| 0 <= j < t.len() implies #[trigger] t[j].1 <= LIMIT by {
            assert(t[j] == b[j + 1]);
        }
        lemma_baseline_bound(t, core);
    }
}

fn baseline_of_exec(b: &Vec<(u64, u128)>, core: u64) -> (r: u128)
    ensures
        r == baseline_of(b@, core),
{
    let mut i: usize = 0;
    assert(b@.skip(0) =~= b@);
    while i < b.len()
        invariant
            i <= b@.len(),
            baseline_of(b@, core) == baseline_of(b@.skip(i as int), core),
        decreases b@.len() - i,
    {
        assert(b@.skip(i as int)[0] == b@[i as int]);
        assert(b@.skip(i as int).skip(1) =~= b@.skip(i + 1));
        if b[i].0 == core {
            return b[i].1;
        }
        i = i + 1;
    }
    0
}

fn cpu_line_exec(core: u64, base: u128, now: u128) -> (r: String)
    requires
        base <= LIMIT,
        now <= LIMIT,
    ensures
        r@ == cpu_line(core, base, now),
{
    let mut out: Vec<char> = Vec::new();
    push_decimal(&mut out, core as u128);
    out.push(' ');
    if base == 0 {
        out.push('0');
        out.push('.');
        out.push('0');
        out.push('0');
        out.push('0');
    } else {
        let d = if now >= base { now - base } else { base - now };
        let m = round_div_exec(d * 100_000, base);
        push_fixed(&mut out, m, 3);
    }
    out.push('%');
    assert(out@ =~= cpu_line(core, base, now));
    string_of(&out)
}

/// Busy-time utilization per core since the previous call.
///
/// The busy seconds of each core are summed over the records; each core is
/// reported against `cpu_state`, its baseline, in ascending core order. The
/// baseline is then replaced by the new sums. A malformed record, or a sum out
/// of range, fails the call and leaves the baseline as it was.
pub fn get_cpu_metrics(cpu_state: &mut CpuBaseline, vec_metrics: &Vec<String>) -> (r: Result<
    Vec<String>,
    GenericError,
>)
    ensures
        match cpu_sums(all_lines(views(vec_metrics@))) {
            None => r is Err && final(cpu_state).view() == old(cpu_state).view(),
            Some(sums) => r matches Ok(out) && views(out@) == cpu_report(old(cpu_state).view(), sums)
                && final(cpu_state).view() == sums,
        },
{
    let lines = lines_of(vec_metrics);
    let ghost all = lines.deep_view();
    let pattern = cpu_pattern();
    proof {
        use_type_invariant(&*cpu_state);
    }
    let mut sums: Vec<(u64, u128)> = Vec::new();
    let mut failed = false;
    let mut i: usize = 0;
    while i < lines.len()
        invariant
            i <= lines@.len(),
            all == lines.deep_view(),
            pattern@ == cpu_pieces(),
            failed ==> cpu_sums(all.take(i as int)) is None,
            !failed ==> cpu_sums(all.take(i as int)) == Some(sums@),
            sorted_cores(sums@),
            forall|j: int| 0 <= j < sums@.len() ==> #[trigger] sums@[j].1 <= LIMIT,
        decreases lines@.len() - i,
    {
        assert(all.take(i + 1).drop_last() =~= all.take(i as int));
        assert(all.take(i + 1).last() == lines@[i as int]@);
        let line = &lines[i];
        if !failed && contains_exec(line, "node_cpu_seconds_total") && !contains_exec(line, "idle")
            && !contains_exec(line, "iowait") && !contains_exec(line, "steal") {
            match find(line, &pattern) {
                None => {},
                Some(c) => {
                    assert(c@.len() == 2) by {
                        reveal_with_fuel(capture_count, 8);
                    }
                    assert(c.deep_view()[0] == c@[0]@);
                    assert(c.deep_view()[1] == c@[1]@);
                    match (parse_index(&c[0]), parse_sample(&c[1])) {
                        (Some(core), Some(v)) => {
                            if !add_core_exec(&mut sums, core, v) {
                                failed = true;
                            }
                        },
                        _ => {
                            failed = true;
                        },
                    }
                },
            }
        }
        i = i + 1;
    }
    assert(all.take(i as int) =~= all);
    if failed {
        return Err(malformed("malformed cpu record"));
    }
    let mut out: Vec<String> = Vec::new();
    let mut k: usize = 0;
    while k < sums.len()
        invariant
            k <= sums@.len(),
            forall|j: int| 0 <= j < sums@.len() ==> #[trigger] sums@[j].1 <= LIMIT,
            forall|j: int| 0 <= j < cpu_state.view().len() ==> #[trigger] cpu_state.view()[j].1 <= LIMIT,
            cpu_state.view() == old(cpu_state).view(),
            views(out@) == cpu_report(cpu_state.view(), sums@.take(k as int)),
        decreases sums@.len() - k,
    {
        let (core, now) = sums[k];
        let base = cpu_state.get(core);
        proof {
            lemma_baseline_bound(cpu_state.view(), core);
        }
        let line = cpu_line_exec(core, base, now);
        let ghost prev = out@;
        out.push(line);
        proof {
            assert(sums@.take(k + 1) =~= sums@.take(k as int).push(sums@[k as int]));
            assert(views(out@) =~= views(prev).push(line@));
            assert(cpu_report(cpu_state.view(), sums@.take(k as int).push(sums@[k as int]))
                =~= cpu_report(cpu_state.view(), sums@.take(k as int)).push(line@));
        }
        k = k + 1;
        assert(views(out@) =~= cpu_report(cpu_state.view(), sums@.take(k as int)));
    }
    assert(sums@.take(k as int) =~= sums@);
    cpu_state.entries = sums;
    Ok(out)
}

/// `<core> 0.000%`
pub open spec fn unchanged_line(core: u64) -> Seq<char> {
    decimal(core as nat) + seq![' ', '0', '.', '0', '0', '0', '%']
}

proof fn lemma_baseline_absent(base: Seq<(u64, u128)>, core: u64)
    requires
        forall|j: int| 0 <= j < base.len() ==> (#[trigger] base[j]).0 != core,
    ensures
        baseline_of(base, core) == 0,
    decreases base.len(),
{
    if base.len() > 0 {
        let t = base.skip(1);
        assert forall|j: int| 0 <= j < t.len() implies (#[trigger] t[j]).0 != core by {
            assert(t[j] == base[j + 1]);
        }
        lemma_baseline_absent(t, core);
    }
}

proof fn lemma_baseline_present(base: Seq<(u64, u128)>, j: int)
    requires
        sorted_cores(base),
        0 <= j < base.len(),
    ensures
        baseline_of(base, base[j].0) == base[j].1,
    decreases j,
{
    if j > 0 {
        let t = base.skip(1);
        assert(sorted_cores(t)) by {
            assert forall|a: int, b: int| 0 <= a < b < t.len() implies t[a].0 < t[b].0 by {
                assert(t[a] == base[a + 1] && t[b] == base[b + 1]);
            }
        }
        assert(t[j - 1] == base[j]);
        lemma_baseline_present(t, j - 1);
    }
}

/// The sums of any text list each core once, in ascending order.
pub proof fn lemma_cpu_sums_sorted(lines: Seq<Seq<char>>)
    ensures
        cpu_sums(lines) matches Some(s) ==> sorted_cores(s),
    decreases lines.len(),
{
    if lines.len() > 0 {
        lemma_cpu_sums_sorted(lines.drop_last());
        if let Some(acc) = cpu_sums(lines.drop_last()) {
            if let Extract::Found((core, v)) = cpu_record(lines.last()) {
                lemma_add_core_sorted(acc, core, v);
            }
        }
    }
}

/// A core that the baseline has never observed is reported at `0.000%`,
/// whatever its busy time.
pub proof fn lemma_first_observation(base: Seq<(u64, u128)>, core: u64, now: u128)
    requires
        forall|j: int| 0 <= j < base.len() ==> (#[trigger] base[j]).0 != core,
    ensures
        cpu_line(core, baseline_of(base, core), now) == unchanged_line(core),
{
    lemma_baseline_absent(base, core);
    assert(cpu_line(core, 0, now) =~= unchanged_line(core));
}

/// An idle, iowait or steal record adds to no core's sum: the sums with it
/// are the sums without it.
pub proof fn lemma_idle_excluded(lines: Seq<Seq<char>>, line: Seq<char>)
    requires
        contains(line, "idle"@) || contains(line, "iowait"@) || contains(line, "steal"@),
    ensures
        cpu_record(line) is Skip,
        cpu_sums(lines.push(line)) == cpu_sums(lines),
{
    assert(lines.push(line).drop_last() =~= lines);
}

/// Summarizing the same text twice in a row: the first pass leaves as
/// baseline the text's own sums, so the second reports every core at
/// `0.000%`.
pub proof fn lemma_reparse_same_text(lines: Seq<Seq<char>>)
    requires
        cpu_sums(lines) is Some,
    ensures
        cpu_report(cpu_sums(lines).unwrap(), cpu_sums(lines).unwrap()).len() == cpu_sums(
            lines,
        ).unwrap().len(),
        forall|j: int|
            0 <= j < cpu_sums(lines).unwrap().len() ==> #[trigger] cpu_report(
                cpu_sums(lines).unwrap(),
                cpu_sums(lines).unwrap(),
            )[j] == unchanged_line(cpu_sums(lines).unwrap()[j].0),
{
    let s = cpu_sums(lines).unwrap();
    lemma_cpu_sums_sorted(lines);
    assert forall|j: int| 0 <= j < s.len() implies #[trigger] cpu_report(s, s)[j] == unchanged_line(
        s[j].0,
    ) by {
        lemma_baseline_present(s, j);
        let v = s[j].1;
        if v != 0 {
            assert(delta_milli(v as nat, v as nat) == 0) by (nonlinear_arith)
                requires
                    v > 0,
            ;
            assert(fixed_text(0, 3) =~= seq!['0', '.', '0', '0', '0']) by {
                reveal_with_fuel(crate::number::padded, 4);
                crate::number::lemma_pow10_bound(3);
                reveal_with_fuel(crate::number::pow10, 4);
            }
        }
        assert(cpu_line(s[j].0, v, v) =~= unchanged_line(s[j].0));
    }
}

} // verus!
