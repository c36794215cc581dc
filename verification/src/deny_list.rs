//! The text form of a deny list: comma-separated `VID:PID` pairs, as the
//! service reads it from its configuration.
use vstd::prelude::*;

use crate::domain::first_occurrence;
use crate::text::{chars_of, trim, trimmed};

verus! {

/// The pieces of `s` between commas, as `str::split(',')` yields them; an
/// empty text is one empty piece.
pub open spec fn comma_segments(s: Seq<char>) -> Seq<Seq<char>>
    decreases s.len(),
{
    if s.len() == 0 {
        seq![Seq::empty()]
    } else {
        let before = comma_segments(s.drop_last());
        if s.last() == ',' {
            before.push(Seq::empty())
        } else {
            before.update(before.len() - 1, before.last().push(s.last()))
        }
    }
}

/// The pair a piece holds: the trimmed texts before and after its first
/// colon; nothing for a piece without a colon.
pub open spec fn piece_pair(piece: Seq<char>) -> Option<(Seq<char>, Seq<char>)> {
    match first_occurrence(piece, seq![':'], 0) {
        Some(i) => Some((trim(piece.take(i)), trim(piece.skip(i + 1)))),
        None => None,
    }
}

/// The pairs that the pieces hold, in order.
pub open spec fn pieces_pairs(pieces: Seq<Seq<char>>) -> Seq<(Seq<char>, Seq<char>)>
    decreases pieces.len(),
{
    if pieces.len() == 0 {
        Seq::empty()
    } else {
        let before = pieces_pairs(pieces.drop_last());
        match piece_pair(pieces.last()) {
            Some(p) => before.push(p),
            None => before,
        }
    }
}

/// The pairs that a deny-list text holds.
pub open spec fn deny_pairs(s: Seq<char>) -> Seq<(Seq<char>, Seq<char>)> {
    pieces_pairs(comma_segments(s))
}

proof fn lemma_comma_segments_nonempty(s: Seq<char>)
    ensures
        comma_segments(s).len() >= 1,
    decreases s.len(),
{
    if s.len() > 0 {
        lemma_comma_segments_nonempty(s.drop_last());
    }
}

/// The first colon in `v[from..to]`, as an index into `v`.
fn first_colon(v: &Vec<char>, from: usize, to: usize) -> (r: Option<usize>)
    requires
        from <= to <= v@.len(),
    ensures
        match r {
            Some(k) => from <= k < to && first_occurrence(v@.subrange(from as int, to as int), seq![':'], 0)
                == Some((k - from) as int),
            None => first_occurrence(v@.subrange(from as int, to as int), seq![':'], 0) is None,
        },
{
    let ghost piece = v@.subrange(from as int, to as int);
    let mut k = from;
    while k < to
        invariant
            from <= k <= to <= v@.len(),
            piece == v@.subrange(from as int, to as int),
            first_occurrence(piece, seq![':'], 0) == first_occurrence(piece, seq![':'], k - from),
        decreases to - k,
    {
        let found = v[k] == ':';
        assert(piece.subrange(k - from, k - from + 1) =~= seq![v@[k as int]]);
        if found {
            return Some(k);
        }
        assert(seq![v@[k as int]][0] != seq![':'][0]);
        k = k + 1;
    }
    None
}

/// The `VID:PID` pairs of a comma-separated deny list, each side trimmed of
/// white space; pieces without a colon are skipped.
pub fn parse_deny_list(text: &str) -> (pairs: Vec<(String, String)>)
    ensures
        pairs@.map_values(|p: (String, String)| (p.0@, p.1@)) == deny_pairs(text@),
{
    let v = chars_of(text);
    let n = v.len();
    let mut pairs: Vec<(String, String)> = Vec::new();
    let mut start: usize = 0;
    let ghost mut done: Seq<Seq<char>> = Seq::empty();
    assert(v@.take(0) =~= Seq::<char>::empty());
    assert(comma_segments(v@.take(0)) =~= done.push(v@.subrange(0, 0)));
    let mut i: usize = 0;
    loop
        invariant_except_break
            n == v@.len(),
            v@ == text@,
            start <= i <= n,
            comma_segments(v@.take(i as int)) == done.push(v@.subrange(start as int, i as int)),
            pairs@.map_values(|p: (String, String)| (p.0@, p.1@)) == pieces_pairs(done),
        ensures
            v@ == text@,
            comma_segments(v@) == done,
            pairs@.map_values(|p: (String, String)| (p.0@, p.1@)) == pieces_pairs(done),
        decreases n - i,
    {
        if i == n || v[i] == ',' {
            let ghost piece = v@.subrange(start as int, i as int);
            match first_colon(&v, start, i) {
                Some(k) => {
                    let vendor = trimmed(&v, start, k);
                    let product = trimmed(&v, k + 1, i);
                    proof {
                        assert(piece.take(k - start) =~= v@.subrange(start as int, k as int));
                        assert(piece.skip(k - start + 1) =~= v@.subrange(k + 1, i as int));
                    }
                    pairs.push((vendor, product));
                },
                None => {},
            }
            proof {
                assert(done.push(piece).drop_last() =~= done);
                done = done.push(piece);
                assert(pairs@.map_values(|p: (String, String)| (p.0@, p.1@)) =~= pieces_pairs(done));
            }
            if i == n {
                assert(v@.take(n as int) =~= v@);
                break;
            } else {
                proof {
                    let t = v@.take(i + 1);
                    assert(t.drop_last() =~= v@.take(i as int));
                    assert(t.last() == ',');
                }
                i = i + 1;
                start = i;
                assert(v@.subrange(start as int, i as int) =~= Seq::<char>::empty());
            }
        } else {
            proof {
                let t = v@.take(i + 1);
                assert(t.drop_last() =~= v@.take(i as int));
                assert(v@.subrange(start as int, i + 1) =~= v@.subrange(start as int, i as int).push(v@[i as int]));
            }
            i = i + 1;
        }
    }
    pairs
}

} // verus!
