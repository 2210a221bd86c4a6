//! Stable ordering by text keys: the order of `slice::sort_by_key` with a
//! `String` key.
use vstd::prelude::*;
use crate::text::{lex_kleiner, lex_kleiner_exec, lemma_lex_transitiv, lemma_lex_total};

verus! {

/// Position `i` goes before position `j`: a smaller key, or the same key and
/// an earlier position (stability).
pub open spec fn vor(k: Seq<Seq<char>>, i: int, j: int) -> bool {
    lex_kleiner(k[i], k[j]) || (k[i] == k[j] && i < j)
}

/// Position `x` stands somewhere in `p`.
pub open spec fn kommt_vor(p: Seq<usize>, x: int) -> bool {
    exists|a: int| 0 <= a < p.len() && #[trigger] p[a] == x
}

/// `p` lists each of the positions `0..n` exactly once.
pub open spec fn ist_permutation(p: Seq<usize>, n: nat) -> bool {
    &&& p.len() == n
    &&& forall|a: int| 0 <= a < n ==> (#[trigger] p[a]) < n
    &&& forall|a: int, b: int| 0 <= a < b < n ==> #[trigger] p[a] != #[trigger] p[b]
    &&& forall|x: int| 0 <= x < n ==> #[trigger] kommt_vor(p, x)
}

/// `p` is the order in which a stable sort by the keys `k` lists the positions.
pub open spec fn stabil_geordnet(k: Seq<Seq<char>>, p: Seq<usize>) -> bool {
    &&& ist_permutation(p, k.len())
    &&& forall|a: int, b: int|
        0 <= a < b < p.len() ==> vor(k, #[trigger] p[a] as int, #[trigger] p[b] as int)
}

/// Views a list of keys as sequences.
pub open spec fn schluessel_sicht(k: Seq<Vec<char>>) -> Seq<Seq<char>> {
    Seq::new(k.len(), |i: int| k[i]@)
}

/// The positions of `keys` in the order of a stable sort by key.
pub fn stabile_reihenfolge(keys: &Vec<Vec<char>>) -> (p: Vec<usize>)
    ensures
        stabil_geordnet(schluessel_sicht(keys@), p@),
{
    let ghost k = schluessel_sicht(keys@);
    let mut p: Vec<usize> = Vec::new();
    let mut i: usize = 0;
    while i < keys.len()
        invariant
            i <= keys.len(),
            k == schluessel_sicht(keys@),
            p.len() == i,
            forall|a: int| 0 <= a < i ==> (#[trigger] p@[a]) < i,
            forall|a: int, b: int| 0 <= a < b < i ==> #[trigger] p@[a] != #[trigger] p@[b],
            forall|x: int| 0 <= x < i ==> #[trigger] kommt_vor(p@, x),
            forall|a: int, b: int|
                0 <= a < b < i ==> vor(k, #[trigger] p@[a] as int, #[trigger] p@[b] as int),
        decreases keys.len() - i,
    {
        let mut pos = p.len();
        while pos > 0 && lex_kleiner_exec(&keys[i], &keys[p[pos - 1]])
            invariant
                i < keys.len(),
                k == schluessel_sicht(keys@),
                p.len() == i,
                pos <= p.len(),
                forall|a: int| 0 <= a < i ==> (#[trigger] p@[a]) < i,
                forall|m: int| pos <= m < p.len() ==> lex_kleiner(k[i as int], k[#[trigger] p@[m] as int]),
            decreases pos,
        {
            pos -= 1;
        }
        let ghost alt = p@;
        proof {
            if pos > 0 {
                lemma_lex_total(k[i as int], k[alt[pos - 1] as int]);
            }
        }
        p.insert(pos, i);
        proof {
            let neu = p@;
            assert(neu == alt.insert(pos as int, i));
            assert forall|a: int| 0 <= a < i + 1 implies (#[trigger] neu[a]) < i + 1 by {
                if a < pos {
                    assert(neu[a] == alt[a]);
                } else if a > pos {
                    assert(neu[a] == alt[a - 1]);
                }
            }
            assert forall|x: int| 0 <= x < i + 1 implies #[trigger] kommt_vor(neu, x) by {
                if x == i {
                    assert(neu[pos as int] == x);
                } else {
                    assert(kommt_vor(alt, x));
                    let a = choose|a: int| 0 <= a < alt.len() && #[trigger] alt[a] == x;
                    if a < pos {
                        assert(neu[a] == x);
                    } else {
                        assert(neu[a + 1] == x);
                    }
                }
            }
            assert forall|a: int, b: int| 0 <= a < b < i + 1 implies #[trigger] neu[a] != #[trigger] neu[b] by {
                if a < pos {
                    assert(neu[a] == alt[a]);
                } else if a > pos {
                    assert(neu[a] == alt[a - 1]);
                }
                if b < pos {
                    assert(neu[b] == alt[b]);
                } else if b > pos {
                    assert(neu[b] == alt[b - 1]);
                }
            }
            assert forall|a: int, b: int|
                0 <= a < b < i + 1 implies vor(k, #[trigger] neu[a] as int, #[trigger] neu[b] as int) by {
                if b < pos {
                    assert(neu[a] == alt[a] && neu[b] == alt[b]);
                } else if a > pos {
                    assert(neu[a] == alt[a - 1] && neu[b] == alt[b - 1]);
                } else if a < pos && b > pos {
                    assert(neu[a] == alt[a] && neu[b] == alt[b - 1]);
                } else if a == pos {
                    // the new position is before every later one: its key is smaller
                    assert(neu[b] == alt[b - 1]);
                    assert(lex_kleiner(k[i as int], k[alt[b - 1] as int]));
                } else {
                    // b == pos: every earlier key is at most the new key
                    assert(neu[a] == alt[a]);
                    let x = alt[a] as int;
                    let y = alt[pos - 1] as int;
                    assert(!lex_kleiner(k[i as int], k[y]));
                    assert(lex_kleiner(k[y], k[i as int]) || k[y] == k[i as int]);
                    if a < pos - 1 {
                        assert(vor(k, alt[a] as int, alt[pos - 1] as int));
                        if lex_kleiner(k[x], k[y]) && lex_kleiner(k[y], k[i as int]) {
                            lemma_lex_transitiv(k[x], k[y], k[i as int]);
                        }
                    }
                }
            }
        }
        i += 1;
    }
    p
}

} // verus!
