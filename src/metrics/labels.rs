//! Network and disk counters: the last value of each device label, in
//! ascending label order.
use vstd::prelude::*;
use crate::error::GenericError;
use crate::metrics::{all_lines, lines_of, malformed, views, Extract};
use crate::number::{cents, cents_exec, fixed_text, parse_sample, push_fixed, sample_value};
use crate::pattern::{capture_count, find, find_from, Class, Piece};
use crate::text::{compare, contains, contains_exec, lex_lt, push_chars, push_str, string_of};

verus! {

/// A counter family keyed by device: the text that marks its records, the
/// pattern of a record (capturing device and sample), and the label prefix.
pub struct Family {
    pub name: &'static str,
    pub pieces: Vec<Piece>,
    pub label: &'static str,
}

/// A family as text that marks its records, pattern and label prefix.
pub type FamilyView = (Seq<char>, Seq<Piece>, Seq<char>);

impl Family {
    pub open spec fn view(&self) -> FamilyView {
        (self.name@, self.pieces@, self.label@)
    }
}

/// `<name>` and the captured device, the rest of the labels, `"}`, a
/// separator, then the captured sample.
pub open spec fn family_pieces(dev: Class, name: &'static str, nonempty: bool, rest: Seq<Piece>) -> Seq<Piece> {
    seq![
        Piece::Lit(name),
        Piece::Run { class: dev, nonempty: nonempty, capture: true },
    ] + rest + seq![
        Piece::Lit("\"}"),
        Piece::Sep,
        Piece::Run { class: Class::Sample, nonempty: nonempty, capture: true },
    ]
}

/// `<name><device>"}` with the device of letters and digits.
pub open spec fn network_pieces(name: &'static str) -> Seq<Piece> {
    family_pieces(Class::AlNum, name, true, seq![])
}

/// `<name><device>",device_error="..",fstype="..",mountpoint=".."}`, each
/// value of letters, digits and `/`, possibly empty.
pub open spec fn disk_pieces(name: &'static str) -> Seq<Piece> {
    family_pieces(
        Class::Path,
        name,
        false,
        seq![
            Piece::Lit("\",device_error=\""),
            Piece::Run { class: Class::Path, nonempty: false, capture: false },
            Piece::Lit("\",fstype=\""),
            Piece::Run { class: Class::Path, nonempty: false, capture: false },
            Piece::Lit("\",mountpoint=\""),
            Piece::Run { class: Class::Path, nonempty: false, capture: false },
        ],
    )
}

pub open spec fn pad_right(s: Seq<char>, w: nat) -> Seq<char> {
    if s.len() >= w {
        s
    } else {
        s + Seq::new((w - s.len()) as nat, |i: int| ' ')
    }
}

/// `<prefix><device, padded to width>]` and the sample of a record of the family.
pub open spec fn family_record(line: Seq<char>, f: FamilyView, width: nat) -> Extract<(Seq<char>, u128)> {
    match find_from(line, 0, f.1) {
        None => Extract::Skip,
        Some(c) => match sample_value(c[1]) {
            None => Extract::Malformed,
            Some(v) => Extract::Found((f.2 + pad_right(c[0], width) + seq![']'], v)),
        },
    }
}

/// A record of the first family if it names it, else of the second.
pub open spec fn label_record(line: Seq<char>, a: FamilyView, b: FamilyView, width: nat) -> Extract<
    (Seq<char>, u128),
> {
    if contains(line, a.0) {
        family_record(line, a, width)
    } else if contains(line, b.0) {
        family_record(line, b, width)
    } else {
        Extract::Skip
    }
}

/// Sets the value of `key` in a list kept in ascending label order.
pub open spec fn put_label(l: Seq<(Seq<char>, u128)>, key: Seq<char>, v: u128) -> Seq<(Seq<char>, u128)>
    decreases l.len(),
{
    if l.len() == 0 {
        seq![(key, v)]
    } else if l[0].0 == key {
        seq![(key, v)] + l.skip(1)
    } else if lex_lt(key, l[0].0) {
        seq![(key, v)] + l
    } else {
        seq![l[0]] + put_label(l.skip(1), key, v)
    }
}

/// The last value of each label over the records, in ascending label order.
pub open spec fn label_values(lines: Seq<Seq<char>>, a: FamilyView, b: FamilyView, width: nat) -> Option<
    Seq<(Seq<char>, u128)>,
>
    decreases lines.len(),
{
    if lines.len() == 0 {
        Some(seq![])
    } else {
        match label_values(lines.drop_last(), a, b, width) {
            None => None,
            Some(acc) => match label_record(lines.last(), a, b, width) {
                Extract::Skip => Some(acc),
                Extract::Malformed => None,
                Extract::Found((k, v)) => Some(put_label(acc, k, v)),
            },
        }
    }
}

pub open spec fn label_report(l: Seq<(Seq<char>, u128)>) -> Seq<Seq<char>> {
    l.map_values(|e: (Seq<char>, u128)| e.0 + seq![' '] + fixed_text(cents(e.1), 2))
}

/// Labels strictly ascending.
pub open spec fn sorted_labels(l: Seq<(Seq<char>, u128)>) -> bool {
    forall|i: int, j: int| 0 <= i < j < l.len() ==> lex_lt(l[i].0, l[j].0)
}

proof fn lemma_put_label_sorted(l: Seq<(Seq<char>, u128)>, key: Seq<char>, v: u128)
    requires
        sorted_labels(l),
    ensures
        sorted_labels(put_label(l, key, v)),
        forall|j: int|
            0 <= j < put_label(l, key, v).len() ==> #[trigger] put_label(l, key, v)[j].0 == key
                || exists|k: int| 0 <= k < l.len() && l[k].0 == put_label(l, key, v)[j].0,
    decreases l.len(),
{
    let r = put_label(l, key, v);
    if l.len() == 0 {
    } else if l[0].0 == key {
        assert forall|j: int| 0 <= j < r.len() implies #[trigger] r[j].0 == key || exists|k: int|
            0 <= k < l.len() && l[k].0 == r[j].0 by {
            if j > 0 {
                assert(r[j] == l[j]);
            }
        }
        assert forall|i: int, j: int| 0 <= i < j < r.len() implies lex_lt(r[i].0, r[j].0) by {
            assert(r[j] == l[j]);
            if i > 0 {
                assert(r[i] == l[i]);
            }
        }
    } else if lex_lt(key, l[0].0) {
        assert forall|j: int| 0 <= j < r.len() implies #[trigger] r[j].0 == key || exists|k: int|
            0 <= k < l.len() && l[k].0 == r[j].0 by {
            if j > 0 {
                assert(r[j] == l[j - 1]);
            }
        }
        assert forall|i: int, j: int| 0 <= i < j < r.len() implies lex_lt(r[i].0, r[j].0) by {
            assert(r[j] == l[j - 1]);
            if i > 0 {
                assert(r[i] == l[i - 1]);
            } else if j > 1 {
                crate::text::lemma_lex_trans(key, l[0].0, l[j - 1].0);
            }
        }
    } else {
        let t = l.skip(1);
        assert(sorted_labels(t)) by {
            assert forall|i: int, j: int| 0 <= i < j < t.len() implies lex_lt(t[i].0, t[j].0) by {
                assert(t[i] == l[i + 1] && t[j] == l[j + 1]);
            }
        }
        crate::text::lemma_lex_total(key, l[0].0);
        lemma_put_label_sorted(t, key, v);
        let p = put_label(t, key, v);
        assert(r == seq![l[0]] + p);
        assert forall|j: int| 0 <= j < p.len() implies lex_lt(l[0].0, #[trigger] p[j].0) by {
            if p[j].0 != key {
                let k = choose|k: int| 0 <= k < t.len() && t[k].0 == p[j].0;
                assert(t[k] == l[k + 1]);
            }
        }
        assert forall|j: int| 0 <= j < r.len() implies #[trigger] r[j].0 == key || exists|k: int|
            0 <= k < l.len() && l[k].0 == r[j].0 by {
            if j == 0 {
                assert(l[0].0 == r[0].0);
            } else {
                assert(r[j] == p[j - 1]);
                if p[j - 1].0 != key {
                    let k = choose|k: int| 0 <= k < t.len() && t[k].0 == p[j - 1].0;
                    assert(l[k + 1].0 == r[j].0);
                }
            }
        }
        assert forall|i: int, j: int| 0 <= i < j < r.len() implies lex_lt(r[i].0, r[j].0) by {
            assert(r[j] == p[j - 1]);
            if i > 0 {
                assert(r[i] == p[i - 1]);
            }
        }
    }
}

/// The labels of network and disk lines come out in strictly ascending order,
/// each once.
pub proof fn lemma_label_values_sorted(
    lines: Seq<Seq<char>>,
    a: FamilyView,
    b: FamilyView,
    width: nat,
)
    ensures
        label_values(lines, a, b, width) matches Some(l) ==> sorted_labels(l),
    decreases lines.len(),
{
    if lines.len() > 0 {
        lemma_label_values_sorted(lines.drop_last(), a, b, width);
        if let Some(acc) = label_values(lines.drop_last(), a, b, width) {
            if let Extract::Found((k, v)) = label_record(lines.last(), a, b, width) {
                lemma_put_label_sorted(acc, k, v);
            }
        }
    }
}

proof fn lemma_put_label_at(l: Seq<(Seq<char>, u128)>, key: Seq<char>, v: u128, p: int)
    requires
        0 <= p <= l.len(),
        forall|j: int| 0 <= j < p ==> l[j].0 != key && !lex_lt(key, #[trigger] l[j].0),
        p < l.len() ==> l[p].0 == key || lex_lt(key, l[p].0),
    ensures
        put_label(l, key, v) == (if p < l.len() && l[p].0 == key {
            l.take(p) + seq![(key, v)] + l.skip(p + 1)
        } else {
            l.take(p) + seq![(key, v)] + l.skip(p)
        }),
    decreases p,
{
    if p > 0 {
        let t = l.skip(1);
        assert forall|j: int| 0 <= j < p - 1 implies t[j].0 != key && !lex_lt(key, #[trigger] t[j].0) by {
            assert(t[j] == l[j + 1]);
        }
        assert(l[0].0 != key && !lex_lt(key, l[0].0));
        lemma_put_label_at(t, key, v, p - 1);
        assert(l.take(p) =~= seq![l[0]] + t.take(p - 1));
        assert(t.skip(p - 1) =~= l.skip(p));
        if p < l.len() {
            assert(t.skip(p) =~= l.skip(p + 1));
            assert(t[p - 1] == l[p]);
        }
    } else {
        assert(l.take(0) =~= seq![]);
        assert(l.skip(0) =~= l);
        if l.len() > 0 {
            assert(seq![(key, v)] + l =~= seq![] + seq![(key, v)] + l);
            assert(seq![(key, v)] + l.skip(1) =~= seq![] + seq![(key, v)] + l.skip(1));
        }
    }
}

fn put_label_exec(l: &mut Vec<(Vec<char>, u128)>, key: Vec<char>, v: u128)
    ensures
        final(l).deep_view() == put_label(old(l).deep_view(), key@, v),
{
    let ghost d = l.deep_view();
    let mut p: usize = 0;
    while p < l.len() && compare(&l[p].0, &key) < 0
        invariant
            d == l.deep_view(),
            p <= l@.len(),
            forall|j: int| 0 <= j < p ==> d[j].0 != key@ && !lex_lt(key@, #[trigger] d[j].0),
        decreases l@.len() - p,
    {
        proof {
            assert(d[p as int].0 == l@[p as int].0@);
            crate::text::lemma_lex_asym(l@[p as int].0@, key@);
        }
        p = p + 1;
    }
    let eq = p < l.len() && compare(&l[p].0, &key) == 0;
    proof {
        if p < l@.len() {
            assert(d[p as int].0 == l@[p as int].0@);
            crate::text::lemma_lex_total(l@[p as int].0@, key@);
        }
        lemma_put_label_at(d, key@, v, p as int);
    }
    let ghost kv = key@;
    assert(key.deep_view() =~= key@);
    if eq {
        l.set(p, (key, v));
        assert(l.deep_view() =~= d.take(p as int) + seq![(kv, v)] + d.skip(p + 1));
    } else {
        l.insert(p, (key, v));
        assert(l.deep_view() =~= d.take(p as int) + seq![(kv, v)] + d.skip(p as int));
    }
}

/// The record of family `f`, where its pattern fits.
fn family_record_exec(line: &Vec<char>, f: &Family, width: usize) -> (r: Extract<(Vec<char>, u128)>)
    requires
        capture_count(f.pieces@) == 2,
    ensures
        match family_record(line@, f.view(), width as nat) {
            Extract::Skip => r is Skip,
            Extract::Malformed => r is Malformed,
            Extract::Found((k, v)) => r matches Extract::Found(e) && e.0@ == k && e.1 == v,
        },
{
    match find(line, &f.pieces) {
        None => Extract::Skip,
        Some(c) => {
            assert(c@.len() == 2);
            assert(c.deep_view()[0] == c@[0]@);
            assert(c.deep_view()[1] == c@[1]@);
            match parse_sample(&c[1]) {
                None => Extract::Malformed,
                Some(v) => {
                    let mut key: Vec<char> = Vec::new();
                    push_str(&mut key, f.label);
                    push_chars(&mut key, &c[0]);
                    let mut n = c[0].len();
                    let ghost before = key@;
                    while n < width
                        invariant
                            c@.len() == 2,
                            before == f.label@ + c@[0]@,
                            c@[0]@.len() >= width ==> n == c@[0]@.len(),
                            c@[0]@.len() < width ==> n <= width,
                            c@[0]@.len() <= n,
                            key@ == before + Seq::new((n - c@[0]@.len()) as nat, |i: int| ' '),
                        decreases width - n,
                    {
                        key.push(' ');
                        n = n + 1;
                        assert(key@ =~= before + Seq::new((n - c@[0]@.len()) as nat, |i: int| ' '));
                    }
                    if c[0].len() >= width {
                        assert(key@ =~= f.label@ + c@[0]@);
                        assert(pad_right(c@[0]@, width as nat) == c@[0]@);
                    } else {
                        assert(key@ =~= f.label@ + pad_right(c@[0]@, width as nat));
                    }
                    key.push(']');
                    assert(key@ =~= f.label@ + pad_right(c@[0]@, width as nat) + seq![']']);
                    Extract::Found((key, v))
                },
            }
        },
    }
}

/// The entries of two counter families, the last value of each label, in
/// ascending label order, formatted `<label> <value>` with two decimals.
fn labelled_metrics(vec_metrics: &Vec<String>, a: &Family, b: &Family, width: usize) -> (r: Result<
    Vec<String>,
    GenericError,
>)
    requires
        capture_count(a.pieces@) == 2,
        capture_count(b.pieces@) == 2,
    ensures
        match label_values(all_lines(views(vec_metrics@)), a.view(), b.view(), width as nat) {
            None => r is Err,
            Some(l) => r matches Ok(out) && views(out@) == label_report(l),
        },
{
    let lines = lines_of(vec_metrics);
    let ghost all = lines.deep_view();
    let mut acc: Vec<(Vec<char>, u128)> = Vec::new();
    let mut failed = false;
    let mut i: usize = 0;
    assert(acc.deep_view() =~= Seq::<(Seq<char>, u128)>::empty());
    while i < lines.len()
        invariant
            i <= lines@.len(),
            all == lines.deep_view(),
            capture_count(a.pieces@) == 2,
            capture_count(b.pieces@) == 2,
            failed ==> label_values(all.take(i as int), a.view(), b.view(), width as nat) is None,
            !failed ==> label_values(all.take(i as int), a.view(), b.view(), width as nat) == Some(acc.deep_view()),
        decreases lines@.len() - i,
    {
        assert(all.take(i + 1).drop_last() =~= all.take(i as int));
        assert(all.take(i + 1).last() == lines@[i as int]@);
        let line = &lines[i];
        if !failed {
            let rec = if contains_exec(line, a.name) {
                family_record_exec(line, a, width)
            } else if contains_exec(line, b.name) {
                family_record_exec(line, b, width)
            } else {
                Extract::Skip
            };
            match rec {
                Extract::Skip => {},
                Extract::Malformed => {
                    failed = true;
                },
                Extract::Found((k, v)) => {
                    put_label_exec(&mut acc, k, v);
                },
            }
        }
        i = i + 1;
    }
    assert(all.take(i as int) =~= all);
    if failed {
        return Err(malformed("malformed sample"));
    }
    let mut out: Vec<String> = Vec::new();
    let mut k: usize = 0;
    while k < acc.len()
        invariant
            k <= acc@.len(),
            views(out@) == label_report(acc.deep_view().take(k as int)),
        decreases acc@.len() - k,
    {
        let mut text: Vec<char> = Vec::new();
        push_chars(&mut text, &acc[k].0);
        text.push(' ');
        let c = cents_exec(acc[k].1);
        push_fixed(&mut text, c, 2);
        let line = string_of(&text);
        let ghost prev = out@;
        out.push(line);
        proof {
            let dv = acc.deep_view();
            assert(dv[k as int] == (acc@[k as int].0@, acc@[k as int].1));
            assert(line@ == dv[k as int].0 + seq![' '] + fixed_text(cents(dv[k as int].1), 2));
            assert(dv.take(k + 1) =~= dv.take(k as int).push(dv[k as int]));
            assert(views(out@) =~= views(prev).push(line@));
            assert(label_report(dv.take(k as int).push(dv[k as int])) =~= label_report(
                dv.take(k as int),
            ).push(line@));
        }
        k = k + 1;
    }
    assert(acc.deep_view().take(k as int) =~= acc.deep_view());
    Ok(out)
}

pub open spec fn rx_view() -> FamilyView {
    (
        "node_network_receive_bytes_total"@,
        network_pieces("node_network_receive_bytes_total{device=\""),
        "rx ["@,
    )
}

pub open spec fn tx_view() -> FamilyView {
    (
        "node_network_transmit_bytes_total"@,
        network_pieces("node_network_transmit_bytes_total{device=\""),
        "tx ["@,
    )
}

pub open spec fn size_view() -> FamilyView {
    ("node_filesystem_size_bytes"@, disk_pieces("node_filesystem_size_bytes{device=\""), "total ["@)
}

pub open spec fn free_view() -> FamilyView {
    ("node_filesystem_free_bytes"@, disk_pieces("node_filesystem_free_bytes{device=\""), "free ["@)
}

fn network_family(name: &'static str, lit: &'static str, label: &'static str) -> (r: Family)
    ensures
        r.view() == (name@, network_pieces(lit), label@),
        capture_count(r.pieces@) == 2,
{
    let pieces = vec![
        Piece::Lit(lit),
        Piece::Run { class: Class::AlNum, nonempty: true, capture: true },
        Piece::Lit("\"}"),
        Piece::Sep,
        Piece::Run { class: Class::Sample, nonempty: true, capture: true },
    ];
    assert(pieces@ =~= network_pieces(lit));
    assert(capture_count(pieces@) == 2) by {
        reveal_with_fuel(capture_count, 6);
    }
    Family { name, pieces, label }
}

fn disk_family(name: &'static str, lit: &'static str, label: &'static str) -> (r: Family)
    ensures
        r.view() == (name@, disk_pieces(lit), label@),
        capture_count(r.pieces@) == 2,
{
    let pieces = vec![
        Piece::Lit(lit),
        Piece::Run { class: Class::Path, nonempty: false, capture: true },
        Piece::Lit("\",device_error=\""),
        Piece::Run { class: Class::Path, nonempty: false, capture: false },
        Piece::Lit("\",fstype=\""),
        Piece::Run { class: Class::Path, nonempty: false, capture: false },
        Piece::Lit("\",mountpoint=\""),
        Piece::Run { class: Class::Path, nonempty: false, capture: false },
        Piece::Lit("\"}"),
        Piece::Sep,
        Piece::Run { class: Class::Sample, nonempty: false, capture: true },
    ];
    assert(pieces@ =~= disk_pieces(lit));
    assert(capture_count(pieces@) == 2) by {
        reveal_with_fuel(capture_count, 12);
    }
    Family { name, pieces, label }
}

/// Received and transmitted bytes per network device.
///
/// Each record yields a label `rx [<device>]` or `tx [<device>]` (the device
/// padded to ten characters) and its value; a later value of a label replaces
/// an earlier one. One line `<label> <value>` per label, two decimals, in
/// ascending label order.
pub fn get_network_metrics(vec_metrics: &Vec<String>) -> (r: Result<Vec<String>, GenericError>)
    ensures
        match label_values(all_lines(views(vec_metrics@)), rx_view(), tx_view(), 10) {
            None => r is Err,
            Some(l) => r matches Ok(out) && views(out@) == label_report(l),
        },
{
    let rx = network_family(
        "node_network_receive_bytes_total",
        "node_network_receive_bytes_total{device=\"",
        "rx [",
    );
    let tx = network_family(
        "node_network_transmit_bytes_total",
        "node_network_transmit_bytes_total{device=\"",
        "tx [",
    );
    labelled_metrics(vec_metrics, &rx, &tx, 10)
}

/// Size and free bytes per filesystem device.
///
/// Each record yields a label `total [<device>]` or `free [<device>]` (the
/// device padded to fifteen characters) and its value; a later value of a
/// label replaces an earlier one. One line `<label> <value>` per label, two
/// decimals, in ascending label order.
pub fn get_disk_metrics(vec_metrics: &Vec<String>) -> (r: Result<Vec<String>, GenericError>)
    ensures
        match label_values(all_lines(views(vec_metrics@)), size_view(), free_view(), 15) {
            None => r is Err,
            Some(l) => r matches Ok(out) && views(out@) == label_report(l),
        },
{
    let size = disk_family(
        "node_filesystem_size_bytes",
        "node_filesystem_size_bytes{device=\"",
        "total [",
    );
    let free = disk_family(
        "node_filesystem_free_bytes",
        "node_filesystem_free_bytes{device=\"",
        "free [",
    );
    labelled_metrics(vec_metrics, &size, &free, 15)
}

} // verus!
