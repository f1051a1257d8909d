//! Host identity: the label fragments of the uname and DMI records.
use vstd::prelude::*;
use crate::error::GenericError;
use crate::metrics::{all_lines, lines_of, views};
use crate::text::{occurs_at, occurs_at_exec, split_exec, split_on, string_of};

verus! {

/// A host-identity record.
pub open spec fn is_info_record(line: Seq<char>) -> bool {
    occurs_at(line, 0, "node_uname_info"@) || occurs_at(line, 0, "node_dmi_info"@)
}

/// The record with each comma that precedes a `1` or a `2` turned into `-`.
pub open spec fn normalize(line: Seq<char>) -> Seq<char> {
    Seq::new(
        line.len(),
        |i: int|
            if line[i] == ',' && i + 1 < line.len() && (line[i + 1] == '1' || line[i + 1] == '2') {
                '-'
            } else {
                line[i]
            },
    )
}

/// The comma-separated fragments of every host-identity record, in order.
pub open spec fn info_report(lines: Seq<Seq<char>>) -> Seq<Seq<char>>
    decreases lines.len(),
{
    if lines.len() == 0 {
        seq![]
    } else {
        info_report(lines.drop_last()) + (if is_info_record(lines.last()) {
            split_on(normalize(lines.last()), ',')
        } else {
            seq![]
        })
    }
}

fn normalize_exec(line: &Vec<char>) -> (r: Vec<char>)
    ensures
        r@ == normalize(line@),
{
    let mut out: Vec<char> = Vec::new();
    let mut i: usize = 0;
    while i < line.len()
        invariant
            i <= line@.len(),
            out@ == normalize(line@).take(i as int),
        decreases line@.len() - i,
    {
        let c = line[i];
        if c == ',' && i + 1 < line.len() && (line[i + 1] == '1' || line[i + 1] == '2') {
            out.push('-');
        } else {
            out.push(c);
        }
        i = i + 1;
        assert(out@ =~= normalize(line@).take(i as int));
    }
    assert(normalize(line@).take(i as int) =~= normalize(line@));
    out
}

/// The comma-separated fragments of the host-identity records
/// (`node_uname_info`, `node_dmi_info`), in the order met, with a comma before
/// a `1` or a `2` read as `-`. Never fails.
pub fn get_info_metrics(vec_metrics: &Vec<String>) -> (r: Result<Vec<String>, GenericError>)
    ensures
        r matches Ok(out) && views(out@) == info_report(all_lines(views(vec_metrics@))),
{
    let lines = lines_of(vec_metrics);
    let ghost all = lines.deep_view();
    let mut out: Vec<String> = Vec::new();
    let mut i: usize = 0;
    while i < lines.len()
        invariant
            i <= lines@.len(),
            all == lines.deep_view(),
            views(out@) == info_report(all.take(i as int)),
        decreases lines@.len() - i,
    {
        assert(all.take(i + 1).drop_last() =~= all.take(i as int));
        assert(all.take(i + 1).last() == lines@[i as int]@);
        let line = &lines[i];
        if occurs_at_exec(line, 0, "node_uname_info") || occurs_at_exec(line, 0, "node_dmi_info") {
            let parts = split_exec(&normalize_exec(line), ',');
            let ghost pv = parts.deep_view();
            let mut k: usize = 0;
            let ghost base = views(out@);
            while k < parts.len()
                invariant
                    k <= parts@.len(),
                    pv == parts.deep_view(),
                    views(out@) == base + pv.take(k as int),
                decreases parts@.len() - k,
            {
                assert(pv[k as int] == parts@[k as int]@);
                let ghost prev = out@;
                let piece = string_of(&parts[k]);
                out.push(piece);
                assert(views(out@) =~= views(prev).push(piece@));
                assert(pv.take(k + 1) =~= pv.take(k as int).push(pv[k as int]));
                k = k + 1;
                assert(views(out@) =~= base + pv.take(k as int));
            }
            assert(pv.take(k as int) =~= pv);
        }
        i = i + 1;
        assert(views(out@) =~= info_report(all.take(i as int)));
    }
    assert(all.take(i as int) =~= all);
    Ok(out)
}

} // verus!
