//! Total and available memory, and the share in use.
use vstd::prelude::*;
use crate::error::GenericError;
use crate::metrics::{malformed, views, Extract};
use crate::number::{
    cents, cents_exec, fixed_text, parse_sample, push_fixed, round_div, round_div_exec, sample_value,
    LIMIT,
};
use crate::pattern::{capture_count, find, find_from, Class, Piece};
use crate::text::{chars_of, contains, contains_exec, push_str, split_exec, split_on, string_of};

verus! {

/// `<name>`, a separator, then the captured sample.
pub open spec fn memory_pieces(name: &'static str) -> Seq<Piece> {
    seq![Piece::Lit(name), Piece::Sep, Piece::Run { class: Class::Sample, nonempty: true, capture: true }]
}

fn memory_pattern(name: &'static str) -> (r: Vec<Piece>)
    ensures
        r@ == memory_pieces(name),
        capture_count(r@) == 1,
{
    let r = vec![
        Piece::Lit(name),
        Piece::Sep,
        Piece::Run { class: Class::Sample, nonempty: true, capture: true },
    ];
    assert(r@ =~= memory_pieces(name));
    assert(capture_count(r@) == 1) by {
        reveal_with_fuel(capture_count, 4);
    }
    r
}

pub open spec fn memory_sample(m: Option<Seq<Seq<char>>>, is_total: bool) -> Extract<(bool, u128)> {
    match m {
        None => Extract::Skip,
        Some(c) => match sample_value(c[0]) {
            None => Extract::Malformed,
            Some(v) => Extract::Found((is_total, v)),
        },
    }
}

/// A total-bytes record (`true`) or an available-bytes record (`false`).
pub open spec fn memory_record(line: Seq<char>) -> Extract<(bool, u128)> {
    if contains(line, "node_memory_MemTotal_bytes"@) {
        memory_sample(find_from(line, 0, memory_pieces("node_memory_MemTotal_bytes")), true)
    } else if contains(line, "node_memory_MemAvailable_bytes"@) {
        memory_sample(
            find_from(line, 0, memory_pieces("node_memory_MemAvailable_bytes")),
            false,
        )
    } else {
        Extract::Skip
    }
}

/// Total and available bytes after the records of one body, starting from the
/// values carried over, and whether the body held each.
pub open spec fn memory_scan(total: u128, avail: u128, lines: Seq<Seq<char>>) -> Option<
    (u128, u128, bool, bool),
>
    decreases lines.len(),
{
    if lines.len() == 0 {
        Some((total, avail, false, false))
    } else {
        match memory_scan(total, avail, lines.drop_last()) {
            None => None,
            Some(st) => match memory_record(lines.last()) {
                Extract::Skip => Some(st),
                Extract::Malformed => None,
                Extract::Found((is_total, v)) => if is_total {
                    Some((v, st.1, true, st.3))
                } else {
                    Some((st.0, v, st.2, true))
                },
            },
        }
    }
}

/// `(total - available) / total` as a percentage with two decimals; `0.00`
/// where the total is zero.
pub open spec fn used_text(total: u128, avail: u128) -> Seq<char> {
    if total == 0 {
        seq!['0', '.', '0', '0']
    } else {
        let d: nat = if avail > total { (avail - total) as nat } else { (total - avail) as nat };
        let c = round_div(d * 10_000, total as nat);
        (if avail > total && c > 0 { seq!['-'] } else { seq![] }) + fixed_text(c, 2)
    }
}

/// The lines of one body: its total, its available bytes, then the share used.
pub open spec fn memory_lines(st: (u128, u128, bool, bool)) -> Seq<Seq<char>> {
    (if st.2 { seq!["total "@ + fixed_text(cents(st.0), 2)] } else { seq![] }) + (if st.3 {
        seq!["available "@ + fixed_text(cents(st.1), 2)]
    } else {
        seq![]
    }) + seq!["% used "@ + used_text(st.0, st.1)]
}

/// Total and available bytes after all bodies, and the lines of every body.
pub open spec fn memory_report(bodies: Seq<Seq<char>>) -> Option<(u128, u128, Seq<Seq<char>>)>
    decreases bodies.len(),
{
    if bodies.len() == 0 {
        Some((0, 0, seq![]))
    } else {
        match memory_report(bodies.drop_last()) {
            None => None,
            Some(prev) => match memory_scan(prev.0, prev.1, split_on(bodies.last(), '\n')) {
                None => None,
                Some(st) => Some((st.0, st.1, prev.2 + memory_lines(st))),
            },
        }
    }
}

proof fn lemma_scan_none(total: u128, avail: u128, lines: Seq<Seq<char>>, n: int)
    requires
        0 <= n <= lines.len(),
        memory_scan(total, avail, lines.take(n)) is None,
    ensures
        memory_scan(total, avail, lines.take(lines.len() as int)) is None,
    decreases lines.len() - n,
{
    if n < lines.len() {
        assert(lines.take(n + 1).drop_last() =~= lines.take(n));
        lemma_scan_none(total, avail, lines, n + 1);
    }
}

proof fn lemma_report_none(bodies: Seq<Seq<char>>, n: int)
    requires
        0 <= n <= bodies.len(),
        memory_report(bodies.take(n)) is None,
    ensures
        memory_report(bodies.take(bodies.len() as int)) is None,
    decreases bodies.len() - n,
{
    if n < bodies.len() {
        assert(bodies.take(n + 1).drop_last() =~= bodies.take(n));
        lemma_report_none(bodies, n + 1);
    }
}

fn fixed_line(prefix: &str, v: u128) -> (r: String)
    ensures
        r@ == prefix@ + fixed_text(cents(v), 2),
{
    let mut out: Vec<char> = Vec::new();
    push_str(&mut out, prefix);
    push_fixed(&mut out, cents_exec(v), 2);
    string_of(&out)
}

fn used_line(total: u128, avail: u128) -> (r: String)
    requires
        total <= LIMIT,
        avail <= LIMIT,
    ensures
        r@ == "% used "@ + used_text(total, avail),
{
    let mut out: Vec<char> = Vec::new();
    push_str(&mut out, "% used ");
    if total == 0 {
        out.push('0');
        out.push('.');
        out.push('0');
        out.push('0');
    } else {
        let d = if avail > total { avail - total } else { total - avail };
        let c = round_div_exec(d * 10_000, total);
        if avail > total && c > 0 {
            out.push('-');
        }
        push_fixed(&mut out, c, 2);
    }
    assert(out@ =~= "% used "@ + used_text(total, avail));
    string_of(&out)
}

/// Total and available memory, and the share in use.
///
/// For each body: `total <bytes>` where it holds a total-bytes record,
/// `available <bytes>` where it holds an available-bytes record, then
/// `% used <percent>` from the latest values (carried across bodies, zero at
/// first), two decimals each. A zero total gives `0.00`.
pub fn get_memory_metrics(vec_metrics: &Vec<String>) -> (r: Result<Vec<String>, GenericError>)
    ensures
        match memory_report(views(vec_metrics@)) {
            None => r is Err,
            Some(m) => r matches Ok(out) && views(out@) == m.2,
        },
{
    let total_pattern = memory_pattern("node_memory_MemTotal_bytes");
    let avail_pattern = memory_pattern("node_memory_MemAvailable_bytes");
    let mut out: Vec<String> = Vec::new();
    let mut total: u128 = 0;
    let mut avail: u128 = 0;
    let mut b: usize = 0;
    while b < vec_metrics.len()
        invariant
            b <= vec_metrics@.len(),
            total <= LIMIT,
            avail <= LIMIT,
            total_pattern@ == memory_pieces("node_memory_MemTotal_bytes"),
            avail_pattern@ == memory_pieces("node_memory_MemAvailable_bytes"),
            capture_count(total_pattern@) == 1,
            capture_count(avail_pattern@) == 1,
            memory_report(views(vec_metrics@.take(b as int))) == Some((total, avail, views(out@))),
        decreases vec_metrics@.len() - b,
    {
        let text = chars_of(&vec_metrics[b]);
        let lines = split_exec(&text, '\n');
        let ghost ls = lines.deep_view();
        let ghost start = (total, avail);
        let mut saw_total = false;
        let mut saw_avail = false;
        let mut i: usize = 0;
        while i < lines.len()
            invariant
                i <= lines@.len(),
                ls == lines.deep_view(),
                b < vec_metrics@.len(),
                ls == split_on(vec_metrics@[b as int]@, '\n'),
                memory_report(views(vec_metrics@.take(b as int))) == Some(
                    (start.0, start.1, views(out@)),
                ),
                total <= LIMIT,
                avail <= LIMIT,
                total_pattern@ == memory_pieces("node_memory_MemTotal_bytes"),
                avail_pattern@ == memory_pieces("node_memory_MemAvailable_bytes"),
                capture_count(total_pattern@) == 1,
                capture_count(avail_pattern@) == 1,
                memory_scan(start.0, start.1, ls.take(i as int)) == Some(
                    (total, avail, saw_total, saw_avail),
                ),
            decreases lines@.len() - i,
        {
            assert(ls.take(i + 1).drop_last() =~= ls.take(i as int));
            assert(ls.take(i + 1).last() == lines@[i as int]@);
            let line = &lines[i];
            let is_total = contains_exec(line, "node_memory_MemTotal_bytes");
            let found = if is_total {
                find(line, &total_pattern)
            } else if contains_exec(line, "node_memory_MemAvailable_bytes") {
                find(line, &avail_pattern)
            } else {
                None
            };
            if let Some(c) = found {
                assert(c.deep_view()[0] == c@[0]@);
                match parse_sample(&c[0]) {
                    None => {
                        proof {
                            assert(memory_scan(start.0, start.1, ls.take(i + 1)) is None);
                            lemma_scan_none(start.0, start.1, ls, i + 1);
                            assert(ls.take(ls.len() as int) =~= ls);
                            let bs = views(vec_metrics@.take(b + 1));
                            assert(bs.drop_last() =~= views(vec_metrics@.take(b as int)));
                            assert(bs.last() == vec_metrics@[b as int]@);
                            assert(views(vec_metrics@).take(b + 1) =~= bs);
                            assert(memory_report(bs) is None);
                            lemma_report_none(views(vec_metrics@), b + 1);
                            assert(views(vec_metrics@).take(views(vec_metrics@).len() as int)
                                =~= views(vec_metrics@));
                        }
                        return Err(malformed("malformed memory record"));
                    },
                    Some(v) => {
                        if is_total {
                            total = v;
                            saw_total = true;
                        } else {
                            avail = v;
                            saw_avail = true;
                        }
                    },
                }
            }
            i = i + 1;
        }
        assert(ls.take(i as int) =~= ls);
        let ghost prev = views(out@);
        if saw_total {
            out.push(fixed_line("total ", total));
        }
        if saw_avail {
            out.push(fixed_line("available ", avail));
        }
        out.push(used_line(total, avail));
        proof {
            assert(views(vec_metrics@.take(b + 1)).drop_last() =~= views(vec_metrics@.take(b as int)));
            assert(views(vec_metrics@.take(b + 1)).last() == vec_metrics@[b as int]@);
            assert(views(out@) =~= prev + memory_lines((total, avail, saw_total, saw_avail)));
        }
        b = b + 1;
    }
    assert(vec_metrics@.take(b as int) =~= vec_metrics@);
    Ok(out)
}

} // verus!
