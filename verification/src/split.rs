//! Splitting a string at every occurrence of a delimiter, as `str::split` with a
//! string pattern does.
use vstd::prelude::*;

use crate::text::{chars_of, string_from_chars};

verus! {

/// `ps` with `p` put in front of its first piece.
pub open spec fn prepend_to_first(p: Seq<char>, ps: Seq<Seq<char>>) -> Seq<Seq<char>> {
    ps.update(0, p + ps[0])
}

/// The pieces of `s` between the non-overlapping occurrences of `d`, found from left to
/// right. An empty `d` occurs before and after every character.
pub open spec fn split_pieces(s: Seq<char>, d: Seq<char>) -> Seq<Seq<char>>
    decreases s.len(),
{
    if d.len() == 0 {
        seq![Seq::<char>::empty()] + s.map_values(|c: char| seq![c]) + seq![
            Seq::<char>::empty(),
        ]
    } else if s.len() < d.len() {
        seq![s]
    } else if s.take(d.len() as int) == d {
        seq![Seq::<char>::empty()] + split_pieces(s.skip(d.len() as int), d)
    } else {
        prepend_to_first(seq![s[0]], split_pieces(s.drop_first(), d))
    }
}

/// The pieces joined back together with `d` between neighbours.
pub open spec fn join_pieces(ps: Seq<Seq<char>>, d: Seq<char>) -> Seq<char>
    decreases ps.len(),
{
    if ps.len() == 0 {
        Seq::<char>::empty()
    } else if ps.len() == 1 {
        ps[0]
    } else {
        ps[0] + d + join_pieces(ps.drop_first(), d)
    }
}

/// Whether `d` occurs in `s` starting at index `i`.
pub open spec fn occurs_at(s: Seq<char>, d: Seq<char>, i: int) -> bool {
    0 <= i && i + d.len() <= s.len() && s.subrange(i, i + d.len()) == d
}

/// Splitting never gives an empty list of pieces.
pub proof fn lemma_split_pieces_nonempty(s: Seq<char>, d: Seq<char>)
    ensures
        split_pieces(s, d).len() >= 1,
    decreases s.len(),
{
    if d.len() > 0 && s.len() >= d.len() {
        if s.take(d.len() as int) == d {
            lemma_split_pieces_nonempty(s.skip(d.len() as int), d);
        } else {
            lemma_split_pieces_nonempty(s.drop_first(), d);
        }
    }
}

proof fn lemma_join_prepend(p: Seq<char>, ps: Seq<Seq<char>>, d: Seq<char>)
    requires
        ps.len() >= 1,
    ensures
        join_pieces(prepend_to_first(p, ps), d) == p + join_pieces(ps, d),
{
    let q = prepend_to_first(p, ps);
    if ps.len() == 1 {
    } else {
        assert(q.drop_first() =~= ps.drop_first());
        assert(p + ps[0] + d + join_pieces(ps.drop_first(), d) =~= p + (ps[0] + d + join_pieces(
            ps.drop_first(),
            d,
        )));
    }
}

proof fn lemma_join_single_chars(s: Seq<char>)
    ensures
        join_pieces(s.map_values(|c: char| seq![c]) + seq![Seq::<char>::empty()], Seq::<char>::empty())
            == s,
    decreases s.len(),
{
    let e = Seq::<char>::empty();
    let ps = s.map_values(|c: char| seq![c]) + seq![e];
    if s.len() == 0 {
        assert(ps =~= seq![e]);
    } else {
        lemma_join_single_chars(s.drop_first());
        assert(ps.drop_first() =~= s.drop_first().map_values(|c: char| seq![c]) + seq![e]);
        assert(ps[0] == seq![s[0]]);
        assert(seq![s[0]] + e + s.drop_first() =~= s);
    }
}

/// Splitting at `d` and joining the pieces with `d` gives the original text back.
pub proof fn lemma_join_split(s: Seq<char>, d: Seq<char>)
    ensures
        join_pieces(split_pieces(s, d), d) == s,
    decreases s.len(),
{
    let e = Seq::<char>::empty();
    if d.len() == 0 {
        let ps = split_pieces(s, d);
        lemma_join_single_chars(s);
        assert(ps.drop_first() =~= s.map_values(|c: char| seq![c]) + seq![e]);
        assert(ps.len() >= 2);
        assert(e + d + s =~= s);
    } else if s.len() < d.len() {
    } else if s.take(d.len() as int) == d {
        let rest = split_pieces(s.skip(d.len() as int), d);
        lemma_split_pieces_nonempty(s.skip(d.len() as int), d);
        lemma_join_split(s.skip(d.len() as int), d);
        let ps = seq![e] + rest;
        assert(ps.drop_first() =~= rest);
        assert(e + d + s.skip(d.len() as int) =~= s);
    } else {
        lemma_split_pieces_nonempty(s.drop_first(), d);
        lemma_join_split(s.drop_first(), d);
        lemma_join_prepend(seq![s[0]], split_pieces(s.drop_first(), d), d);
        assert(seq![s[0]] + s.drop_first() =~= s);
    }
}

/// Whether `d` occurs in `s` at index `i` (`i + d.len() <= s.len()`).
fn occurs_at_exec(s: &Vec<char>, d: &Vec<char>, i: usize) -> (r: bool)
    requires
        i + d@.len() <= s@.len(),
    ensures
        r == occurs_at(s@, d@, i as int),
{
    let m = d.len();
    let mut k: usize = 0;
    while k < m
        invariant
            m == d@.len(),
            i + m <= s@.len(),
            s@.len() == s.len(),
            k <= m,
            forall|j: int| 0 <= j < k ==> s@[i + j] == d@[j],
        decreases m - k,
    {
        if s[i + k] != d[k] {
            assert(s@.subrange(i as int, i + m)[k as int] != d@[k as int]);
            return false;
        }
        k = k + 1;
    }
    assert(s@.subrange(i as int, i + m) =~= d@);
    true
}

/// The characters `s[from..to]`.
fn slice_chars(s: &Vec<char>, from: usize, to: usize) -> (r: Vec<char>)
    requires
        from <= to <= s@.len(),
    ensures
        r@ == s@.subrange(from as int, to as int),
{
    let mut r: Vec<char> = Vec::new();
    let mut k = from;
    while k < to
        invariant
            from <= k <= to <= s@.len(),
            r@ == s@.subrange(from as int, k as int),
        decreases to - k,
    {
        r.push(s[k]);
        k = k + 1;
        assert(r@ =~= s@.subrange(from as int, k as int));
    }
    r
}

proof fn lemma_split_step_no_match(s: Seq<char>, d: Seq<char>, i: int)
    requires
        d.len() > 0,
        0 <= i,
        i + d.len() <= s.len(),
        !occurs_at(s, d, i),
    ensures
        split_pieces(s.skip(i), d) == prepend_to_first(seq![s[i]], split_pieces(s.skip(i + 1), d)),
{
    let t = s.skip(i);
    assert(t.take(d.len() as int) =~= s.subrange(i, i + d.len()));
    assert(t.drop_first() =~= s.skip(i + 1));
}

proof fn lemma_split_step_match(s: Seq<char>, d: Seq<char>, i: int)
    requires
        d.len() > 0,
        occurs_at(s, d, i),
    ensures
        split_pieces(s.skip(i), d) == seq![Seq::<char>::empty()] + split_pieces(
            s.skip(i + d.len()),
            d,
        ),
{
    let t = s.skip(i);
    assert(t.take(d.len() as int) =~= s.subrange(i, i + d.len()));
    assert(t.skip(d.len() as int) =~= s.skip(i + d.len()));
}

/// The pieces of `s` at delimiter `d`, as character vectors.
pub fn split_chars(s: &Vec<char>, d: &Vec<char>) -> (r: Vec<Vec<char>>)
    ensures
        r@.map_values(|p: Vec<char>| p@) == split_pieces(s@, d@),
{
    let n = s.len();
    let m = d.len();
    let mut pieces: Vec<Vec<char>> = Vec::new();
    if m == 0 {
        pieces.push(Vec::new());
        let mut k: usize = 0;
        while k < n
            invariant
                n == s@.len(),
                k <= n,
                pieces@.map_values(|p: Vec<char>| p@) == seq![Seq::<char>::empty()] + s@.take(
                    k as int,
                ).map_values(|c: char| seq![c]),
            decreases n - k,
        {
            let ghost before = pieces@.map_values(|p: Vec<char>| p@);
            let mut one: Vec<char> = Vec::new();
            one.push(s[k]);
            assert(one@ =~= seq![s@[k as int]]);
            pieces.push(one);
            assert(pieces@.map_values(|p: Vec<char>| p@) =~= before.push(seq![s@[k as int]]));
            assert(s@.take(k + 1).map_values(|c: char| seq![c]) =~= s@.take(k as int).map_values(
                |c: char| seq![c],
            ).push(seq![s@[k as int]]));
            k = k + 1;
            assert(pieces@.map_values(|p: Vec<char>| p@) =~= seq![Seq::<char>::empty()] + s@.take(
                k as int,
            ).map_values(|c: char| seq![c]));
        }
        pieces.push(Vec::new());
        assert(s@.take(n as int) =~= s@);
        assert(pieces@.map_values(|p: Vec<char>| p@) =~= split_pieces(s@, d@));
        return pieces;
    }
    let mut start: usize = 0;
    let mut i: usize = 0;
    proof {
        lemma_split_pieces_nonempty(s@, d@);
        let ps = split_pieces(s@, d@);
        assert(s@.skip(0) =~= s@);
        assert(s@.subrange(0, 0) + ps[0] =~= ps[0]);
        assert(prepend_to_first(s@.subrange(0, 0), ps) =~= ps);
        assert(pieces@.map_values(|p: Vec<char>| p@) + ps =~= ps);
    }
    while m <= n - i
        invariant
            n == s@.len(),
            m == d@.len(),
            m > 0,
            start <= i <= n,
            split_pieces(s@, d@) == pieces@.map_values(|p: Vec<char>| p@) + prepend_to_first(
                s@.subrange(start as int, i as int),
                split_pieces(s@.skip(i as int), d@),
            ),
        decreases n - i,
    {
        let ghost before = pieces@.map_values(|p: Vec<char>| p@);
        if occurs_at_exec(s, d, i) {
            proof {
                lemma_split_step_match(s@, d@, i as int);
                lemma_split_pieces_nonempty(s@.skip(i + m), d@);
            }
            let piece = slice_chars(s, start, i);
            let ghost cur = s@.subrange(start as int, i as int);
            pieces.push(piece);
            i = i + m;
            start = i;
            proof {
                let rest = split_pieces(s@.skip(i as int), d@);
                assert(s@.subrange(start as int, i as int) =~= Seq::<char>::empty());
                assert(prepend_to_first(s@.subrange(start as int, i as int), rest) =~= rest);
                assert(pieces@.map_values(|p: Vec<char>| p@) =~= before.push(cur));
                assert(prepend_to_first(cur, seq![Seq::<char>::empty()] + rest) =~= seq![cur]
                    + rest);
            }
        } else {
            proof {
                lemma_split_step_no_match(s@, d@, i as int);
                lemma_split_pieces_nonempty(s@.skip(i + 1), d@);
            }
            i = i + 1;
            proof {
                let rest = split_pieces(s@.skip(i as int), d@);
                assert(s@.subrange(start as int, i - 1) + seq![s@[i - 1]] =~= s@.subrange(
                    start as int,
                    i as int,
                ));
                assert(s@.subrange(start as int, i - 1) + (seq![s@[i - 1]] + rest[0])
                    =~= s@.subrange(start as int, i as int) + rest[0]);
                assert(prepend_to_first(
                    s@.subrange(start as int, i - 1),
                    prepend_to_first(seq![s@[i - 1]], rest),
                ) =~= prepend_to_first(s@.subrange(start as int, i as int), rest));
            }
        }
    }
    let last = slice_chars(s, start, n);
    pieces.push(last);
    proof {
        assert(s@.skip(i as int).len() < m);
        assert(s@.subrange(start as int, i as int) + s@.skip(i as int) =~= s@.subrange(
            start as int,
            n as int,
        ));
    }
    assert(pieces@.map_values(|p: Vec<char>| p@) =~= split_pieces(s@, d@));
    pieces
}

/// Splits `s` at every occurrence of `d`, as `s.split(d)` does.
pub fn split_by(s: &str, d: &str) -> (r: Vec<String>)
    ensures
        r.deep_view() == split_pieces(s@, d@),
{
    let sc = chars_of(s);
    let dc = chars_of(d);
    let pieces = split_chars(&sc, &dc);
    let mut r: Vec<String> = Vec::new();
    let n = pieces.len();
    for k in 0..n
        invariant
            n == pieces@.len(),
            pieces@.map_values(|p: Vec<char>| p@) == split_pieces(s@, d@),
            r@.len() == k,
            forall|j: int| 0 <= j < k ==> #[trigger] r@[j]@ == pieces@[j]@,
    {
        let piece = string_from_chars(&pieces[k]);
        r.push(piece);
    }
    assert(r.deep_view() =~= pieces@.map_values(|p: Vec<char>| p@));
    r
}

} // verus!
