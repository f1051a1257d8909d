//! A small record matcher: literal text, greedy runs of a character class
//! (optionally captured) and single separators, matched at the leftmost
//! position of a record where the whole pattern fits.
use vstd::prelude::*;
use crate::text::{occurs_at, occurs_at_exec};

verus! {

/// The character classes that label values and samples are made of.
#[derive(Clone, Copy)]
pub enum Class {
    /// `0-9`
    Digit,
    /// `a-z`
    Lower,
    /// `a-z A-Z 0-9`
    AlNum,
    /// `a-z A-Z 0-9 /`
    Path,
    /// the characters of a sample: `0-9 e + .`
    Sample,
}

/// One element of a pattern.
#[derive(Clone, Copy)]
pub enum Piece {
    /// This exact text.
    Lit(&'static str),
    /// The longest run of the class from here; `nonempty` asks for at least
    /// one character, `capture` hands the run back.
    Run { class: Class, nonempty: bool, capture: bool },
    /// One character that is not a letter, a digit or `_`.
    Sep,
}

pub open spec fn is_ascii_alnum(c: char) -> bool {
    ('0' <= c && c <= '9') || ('a' <= c && c <= 'z') || ('A' <= c && c <= 'Z')
}

pub open spec fn in_class(c: char, k: Class) -> bool {
    match k {
        Class::Digit => '0' <= c && c <= '9',
        Class::Lower => 'a' <= c && c <= 'z',
        Class::AlNum => is_ascii_alnum(c),
        Class::Path => is_ascii_alnum(c) || c == '/',
        Class::Sample => ('0' <= c && c <= '9') || c == 'e' || c == '+' || c == '.',
    }
}

/// The end of the longest run of class `k` that starts at `i`.
pub open spec fn run_end(s: Seq<char>, i: int, k: Class) -> int
    decreases s.len() - i,
{
    if 0 <= i < s.len() && in_class(s[i], k) {
        run_end(s, i + 1, k)
    } else {
        i
    }
}

/// Matches `ps` against `s` from position `i`; the captured runs, in order.
pub open spec fn match_at(s: Seq<char>, i: int, ps: Seq<Piece>) -> Option<Seq<Seq<char>>>
    decreases ps.len(),
{
    if ps.len() == 0 {
        Some(seq![])
    } else {
        match ps[0] {
            Piece::Lit(t) => if occurs_at(s, i, t@) {
                match_at(s, i + t@.len(), ps.skip(1))
            } else {
                None
            },
            Piece::Sep => if 0 <= i < s.len() && !is_ascii_alnum(s[i]) && s[i] != '_' {
                match_at(s, i + 1, ps.skip(1))
            } else {
                None
            },
            Piece::Run { class, nonempty, capture } => {
                let j = run_end(s, i, class);
                if nonempty && j == i {
                    None
                } else if capture {
                    match match_at(s, j, ps.skip(1)) {
                        Some(c) => Some(seq![s.subrange(i, j)] + c),
                        None => None,
                    }
                } else {
                    match_at(s, j, ps.skip(1))
                }
            },
        }
    }
}

/// The captures of the leftmost match at or after position `i`.
pub open spec fn find_from(s: Seq<char>, i: int, ps: Seq<Piece>) -> Option<Seq<Seq<char>>>
    decreases s.len() + 1 - i,
{
    if i < 0 || i > s.len() {
        None
    } else {
        match match_at(s, i, ps) {
            Some(c) => Some(c),
            None => find_from(s, i + 1, ps),
        }
    }
}

/// The number of capturing pieces.
pub open spec fn capture_count(ps: Seq<Piece>) -> nat
    decreases ps.len(),
{
    if ps.len() == 0 {
        0
    } else {
        (match ps[0] {
            Piece::Run { capture, .. } => if capture { 1nat } else { 0nat },
            _ => 0nat,
        }) + capture_count(ps.skip(1))
    }
}

pub proof fn lemma_match_len(s: Seq<char>, i: int, ps: Seq<Piece>)
    ensures
        match_at(s, i, ps) matches Some(c) ==> c.len() == capture_count(ps),
    decreases ps.len(),
{
    if ps.len() > 0 {
        match ps[0] {
            Piece::Lit(t) => lemma_match_len(s, i + t@.len(), ps.skip(1)),
            Piece::Sep => lemma_match_len(s, i + 1, ps.skip(1)),
            Piece::Run { class, .. } => lemma_match_len(s, run_end(s, i, class), ps.skip(1)),
        }
    }
}

pub proof fn lemma_find_len(s: Seq<char>, i: int, ps: Seq<Piece>)
    ensures
        find_from(s, i, ps) matches Some(c) ==> c.len() == capture_count(ps),
    decreases s.len() + 1 - i,
{
    if 0 <= i <= s.len() {
        lemma_match_len(s, i, ps);
        lemma_find_len(s, i + 1, ps);
    }
}

pub open spec fn prefixed(
    caps: Seq<Seq<char>>,
    rest: Option<Seq<Seq<char>>>,
) -> Option<Seq<Seq<char>>> {
    match rest {
        Some(c) => Some(caps + c),
        None => None,
    }
}

fn in_class_exec(c: char, k: Class) -> (r: bool)
    ensures
        r == in_class(c, k),
{
    match k {
        Class::Digit => '0' <= c && c <= '9',
        Class::Lower => 'a' <= c && c <= 'z',
        Class::AlNum => ('0' <= c && c <= '9') || ('a' <= c && c <= 'z') || ('A' <= c && c <= 'Z'),
        Class::Path => ('0' <= c && c <= '9') || ('a' <= c && c <= 'z') || ('A' <= c && c
            <= 'Z') || c == '/',
        Class::Sample => ('0' <= c && c <= '9') || c == 'e' || c == '+' || c == '.',
    }
}

fn run_end_exec(s: &Vec<char>, i: usize, k: Class) -> (r: usize)
    requires
        i <= s@.len(),
    ensures
        r == run_end(s@, i as int, k),
        i <= r <= s@.len(),
{
    let mut j = i;
    while j < s.len() && in_class_exec(s[j], k)
        invariant
            i <= j <= s@.len(),
            run_end(s@, i as int, k) == run_end(s@, j as int, k),
        decreases s@.len() - j,
    {
        j = j + 1;
    }
    j
}

/// Matches `ps` against `s` from position `i`.
pub fn match_at_exec(s: &Vec<char>, i: usize, ps: &Vec<Piece>) -> (r: Option<Vec<Vec<char>>>)
    requires
        i <= s@.len(),
    ensures
        r matches Some(c) ==> match_at(s@, i as int, ps@) == Some(c.deep_view()),
        r is None ==> match_at(s@, i as int, ps@) is None,
{
    let mut caps: Vec<Vec<char>> = Vec::new();
    let mut pos = i;
    let mut k: usize = 0;
    assert(ps@.skip(0) == ps@);
    while k < ps.len()
        invariant
            k <= ps@.len(),
            pos <= s@.len(),
            match_at(s@, i as int, ps@) == prefixed(
                caps.deep_view(),
                match_at(s@, pos as int, ps@.skip(k as int)),
            ),
        decreases ps@.len() - k,
    {
        let ghost rest = ps@.skip(k as int);
        assert(rest[0] == ps@[k as int]);
        assert(rest.skip(1) == ps@.skip(k + 1));
        match ps[k] {
            Piece::Lit(t) => {
                if !occurs_at_exec(s, pos, t) {
                    return None;
                }
                let n = t.unicode_len();
                let len = s.len();
                assert(pos + n <= len);
                pos = pos + n;
            },
            Piece::Sep => {
                if pos >= s.len() {
                    return None;
                }
                let c = s[pos];
                if ('0' <= c && c <= '9') || ('a' <= c && c <= 'z') || ('A' <= c && c <= 'Z') || c
                    == '_' {
                    return None;
                }
                pos = pos + 1;
            },
            Piece::Run { class, nonempty, capture } => {
                let j = run_end_exec(s, pos, class);
                if nonempty && j == pos {
                    return None;
                }
                if capture {
                    let mut run: Vec<char> = Vec::new();
                    let mut m = pos;
                    while m < j
                        invariant
                            pos <= m <= j <= s@.len(),
                            run@ == s@.subrange(pos as int, m as int),
                        decreases j - m,
                    {
                        run.push(s[m]);
                        m = m + 1;
                        assert(run@ =~= s@.subrange(pos as int, m as int));
                    }
                    let ghost before = caps.deep_view();
                    assert(run.deep_view() =~= run@);
                    caps.push(run);
                    assert(caps.deep_view() =~= before + seq![s@.subrange(pos as int, j as int)]);
                    assert forall|o: Option<Seq<Seq<char>>>|
                        prefixed(before, #[trigger] prefixed(seq![s@.subrange(pos as int, j as int)], o))
                            == prefixed(caps.deep_view(), o) by {
                        if let Some(c) = o {
                            assert(before + (seq![s@.subrange(pos as int, j as int)] + c) =~= caps.deep_view() + c);
                        }
                    }
                }
                pos = j;
            },
        }
        k = k + 1;
    }
    assert(caps.deep_view() + seq![] =~= caps.deep_view());
    Some(caps)
}

/// The captures of the leftmost match of `ps` in `s`.
pub fn find(s: &Vec<char>, ps: &Vec<Piece>) -> (r: Option<Vec<Vec<char>>>)
    ensures
        r matches Some(c) ==> find_from(s@, 0, ps@) == Some(c.deep_view()),
        r matches Some(c) ==> c@.len() == capture_count(ps@),
        r is None ==> find_from(s@, 0, ps@) is None,
{
    proof {
        lemma_find_len(s@, 0, ps@);
    }
    let mut i: usize = 0;
    while i < s.len()
        invariant
            i <= s@.len(),
            find_from(s@, 0, ps@) == find_from(s@, i as int, ps@),
        decreases s@.len() - i,
    {
        match match_at_exec(s, i, ps) {
            Some(c) => {
                assert(c.deep_view().len() == c@.len());
                proof {
                    lemma_match_len(s@, i as int, ps@);
                }
                return Some(c);
            },
            None => {},
        }
        i = i + 1;
    }
    assert(find_from(s@, i + 1, ps@) is None);
    let r = match_at_exec(s, i, ps);
    proof {
        lemma_match_len(s@, i as int, ps@);
    }
    if let Some(c) = &r {
        assert(c.deep_view().len() == c@.len());
    }
    r
}

} // verus!
