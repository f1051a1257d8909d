use node_metrics::number::{cents_exec, parse_index, push_fixed, round_div_exec};
use node_metrics::pattern::{find, Class, Piece};
use node_metrics::text::{compare, contains_exec, split_exec};

fn chars(s: &str) -> Vec<char> {
    s.chars().collect()
}

fn text(v: &[char]) -> String {
    v.iter().collect()
}

#[test]
fn fixed_point_formatting() {
    let mut v = Vec::new();
    push_fixed(&mut v, 12_345, 3);
    assert_eq!(text(&v), "12.345");
    let mut v = Vec::new();
    push_fixed(&mut v, 5, 2);
    assert_eq!(text(&v), "0.05");
    assert_eq!(cents_exec(1_234_999), 123);
    assert_eq!(cents_exec(1_235_000), 124);
    assert_eq!(round_div_exec(2, 3), 1);
}

#[test]
fn core_identifiers() {
    assert_eq!(parse_index(&chars("007")), Some(7));
    assert_eq!(parse_index(&chars("18446744073709551615")), Some(u64::MAX));
    assert_eq!(parse_index(&chars("18446744073709551616")), None);
    assert_eq!(parse_index(&chars("1a")), None);
    assert_eq!(parse_index(&chars("")), None);
}

#[test]
fn leftmost_match_captures() {
    let pattern = vec![
        Piece::Lit("dev=\""),
        Piece::Run { class: Class::AlNum, nonempty: true, capture: true },
        Piece::Lit("\"}"),
        Piece::Sep,
        Piece::Run { class: Class::Sample, nonempty: true, capture: true },
    ];
    let caps = find(&chars("m{dev=\"\"} 1 m{dev=\"sda\"} 2.5e+3 x"), &pattern).unwrap();
    assert_eq!(caps, vec![chars("sda"), chars("2.5e+3")]);
    assert!(find(&chars("m{dev=\"sda\"}_3"), &pattern).is_none());
}

#[test]
fn splitting_and_searching() {
    let parts = split_exec(&chars("a,,b,"), ',');
    assert_eq!(parts, vec![chars("a"), chars(""), chars("b"), chars("")]);
    assert!(contains_exec(&chars("node_cpu_seconds_total{"), "seconds"));
    assert!(!contains_exec(&chars("node"), "nodes"));
    assert!(compare(&chars("rx [a]"), &chars("tx [a]")) < 0);
    assert!(compare(&chars("ab"), &chars("a")) > 0);
    assert_eq!(compare(&chars("ab"), &chars("ab")), 0);
}
