//! Stable sorting by a key made of a small rank and a string, ordered as
//! Rust orders `(u8, String)`.
use vstd::prelude::*;

use crate::text::{seq_lt, str_lt};

verus! {

/// A sort key: a rank first, then a string.
pub type Key = (u8, Seq<char>);

/// Strict order on keys: by rank, then by the string's code points.
pub open spec fn key_lt(a: Key, b: Key) -> bool {
    a.0 < b.0 || (a.0 == b.0 && seq_lt(a.1, b.1))
}

/// `a` is not after `b`.
pub open spec fn key_le(a: Key, b: Key) -> bool {
    a == b || key_lt(a, b)
}

/// Values that sort by a key.
pub trait Keyed {
    spec fn sort_key(&self) -> Key;

    /// Does `self` sort strictly before `other`?
    fn key_before(&self, other: &Self) -> (r: bool)
        ensures
            r == key_lt(self.sort_key(), other.sort_key()),
    ;
}

/// The keys of a sequence of values.
pub open spec fn keys<T: Keyed>(v: Seq<T>) -> Seq<Key> {
    v.map_values(|t: T| t.sort_key())
}

/// `p` lists every index of `keys` exactly once.
pub open spec fn is_permutation(p: Seq<int>, n: int) -> bool {
    &&& p.len() == n
    &&& forall|k: int| 0 <= k < n ==> 0 <= #[trigger] p[k] < n
    &&& forall|k: int, l: int| 0 <= k < l < n ==> p[k] != p[l]
}

/// `p` puts `keys` in order, keeping equal keys in the order they came in.
pub open spec fn is_stable_order(keys: Seq<Key>, p: Seq<int>) -> bool {
    &&& is_permutation(p, keys.len() as int)
    &&& forall|k: int, l: int|
        0 <= k < l < p.len() ==> key_le(keys[#[trigger] p[k]], keys[#[trigger] p[l]])
    &&& forall|k: int, l: int|
        0 <= k < l < p.len() && keys[p[k]] == keys[p[l]] ==> #[trigger] p[k] < #[trigger] p[l]
}

/// `r` is `v` rearranged by `p`.
pub open spec fn rearranged<T>(v: Seq<T>, r: Seq<T>, p: Seq<int>) -> bool {
    r.len() == v.len() && forall|k: int| 0 <= k < r.len() ==> #[trigger] r[k] == v[p[k]]
}

// ---------------------------------------------------------------------------
// The string order is a strict total order
// ---------------------------------------------------------------------------

pub proof fn lemma_seq_lt_irreflexive(a: Seq<char>)
    ensures
        !seq_lt(a, a),
    decreases a.len(),
{
    if a.len() > 0 {
        lemma_seq_lt_irreflexive(a.skip(1));
    }
}

pub proof fn lemma_seq_lt_transitive(a: Seq<char>, b: Seq<char>, c: Seq<char>)
    requires
        seq_lt(a, b),
        seq_lt(b, c),
    ensures
        seq_lt(a, c),
    decreases a.len(),
{
    if a.len() > 0 && b.len() > 0 && c.len() > 0 && a[0] == b[0] && b[0] == c[0] {
        lemma_seq_lt_transitive(a.skip(1), b.skip(1), c.skip(1));
    }
}

pub proof fn lemma_seq_lt_total(a: Seq<char>, b: Seq<char>)
    requires
        a != b,
    ensures
        seq_lt(a, b) || seq_lt(b, a),
    decreases a.len(),
{
    if a.len() == 0 && b.len() == 0 {
        assert(a =~= b);
    } else if a.len() > 0 && b.len() > 0 && a[0] == b[0] {
        if a.skip(1) == b.skip(1) {
            assert(a =~= seq![a[0]] + a.skip(1));
            assert(b =~= seq![b[0]] + b.skip(1));
        }
        lemma_seq_lt_total(a.skip(1), b.skip(1));
    } else if a.len() > 0 && b.len() > 0 {
        assert((a[0] as u32) != (b[0] as u32)) by {
            vstd::utf8::char_u32_cast(a[0], a[0] as u32);
            vstd::utf8::char_u32_cast(b[0], b[0] as u32);
        }
    }
}

pub proof fn lemma_key_lt_irreflexive(a: Key)
    ensures
        !key_lt(a, a),
{
    lemma_seq_lt_irreflexive(a.1);
}

pub proof fn lemma_key_lt_transitive(a: Key, b: Key, c: Key)
    requires
        key_lt(a, b),
        key_lt(b, c),
    ensures
        key_lt(a, c),
{
    if a.0 == b.0 && b.0 == c.0 {
        lemma_seq_lt_transitive(a.1, b.1, c.1);
    }
}

pub proof fn lemma_key_lt_total(a: Key, b: Key)
    requires
        a != b,
    ensures
        key_lt(a, b) || key_lt(b, a),
{
    if a.0 == b.0 {
        lemma_seq_lt_total(a.1, b.1);
    }
}

// ---------------------------------------------------------------------------
// Insertion sort
// ---------------------------------------------------------------------------

/// `v` sorted stably by key (what `sort_by` on the key gives).
pub fn stable_sort<T: Keyed>(v: Vec<T>) -> (r: Vec<T>)
    ensures
        exists|p: Seq<int>| is_stable_order(keys(v@), p) && rearranged(v@, r@, p),
{
    let ghost input = v@;
    let ghost ks = keys(v@);
    let mut rest = v;
    let mut out: Vec<T> = Vec::new();
    let ghost mut p: Seq<int> = Seq::empty();
    // Take the values from the front, in order, by repeatedly removing index 0.
    let n = rest.len();
    let mut i: usize = 0;
    while i < n
        invariant
            ks == keys(input),
            n == input.len(),
            i <= n,
            rest@ == input.skip(i as int),
            out@.len() == i,
            is_permutation(p, i as int),
            forall|k: int| 0 <= k < i ==> #[trigger] out@[k] == input[p[k]],
            forall|k: int, l: int|
                0 <= k < l < i ==> key_le(ks[#[trigger] p[k]], ks[#[trigger] p[l]]),
            forall|k: int, l: int|
                0 <= k < l < i && ks[p[k]] == ks[p[l]] ==> #[trigger] p[k] < #[trigger] p[l],
        decreases n - i,
    {
        let x = rest.remove(0);
        assert(x == input[i as int]);
        assert(rest@ =~= input.skip(i + 1));
        // Find the first position whose key is strictly after x's key.
        let mut pos: usize = 0;
        let mut stop = false;
        while !stop && pos < out.len()
            invariant
                stop ==> pos < out@.len() && key_lt(ks[i as int], ks[p[pos as int]]),
                ks == keys(input),
                n == input.len(),
                i < n,
                x == input[i as int],
                out@.len() == i,
                pos <= out@.len(),
                is_permutation(p, i as int),
                forall|k: int| 0 <= k < i ==> #[trigger] out@[k] == input[p[k]],
                forall|k: int| 0 <= k < pos ==> !key_lt(ks[i as int], #[trigger] ks[p[k]]),
            decreases out.len() - pos + (if stop { 0int } else { 1int }),
        {
            if x.key_before(&out[pos]) {
                stop = true;
            } else {
                pos += 1;
            }
        }
        proof {
            assert(ks[i as int] == x.sort_key());
        }
        let ghost old_p = p;
        let ghost old_out = out@;
        out.insert(pos, x);
        proof {
            p = old_p.insert(pos as int, i as int);
            let ki = ks[i as int];
            // Every value after the insertion point sorts strictly after x.
            assert forall|l: int| pos <= l < i implies key_lt(ki, #[trigger] ks[old_p[l]]) by {
                if pos < i {
                    assert(key_lt(ki, ks[old_p[pos as int]]));
                    if l > pos {
                        let a = ks[old_p[pos as int]];
                        let b = ks[old_p[l]];
                        assert(key_le(a, b));
                        if a != b {
                            lemma_key_lt_transitive(ki, a, b);
                        }
                    }
                }
            }
            // Every value before the insertion point does not sort after x.
            assert forall|k: int| 0 <= k < pos implies key_le(#[trigger] ks[old_p[k]], ki) by {
                if ks[old_p[k]] != ki {
                    lemma_key_lt_total(ks[old_p[k]], ki);
                }
            }
            assert forall|k: int| 0 <= k < i + 1 implies #[trigger] out@[k] == input[p[k]] by {
                if k < pos {
                } else if k == pos {
                } else {
                    assert(out@[k] == old_out[k - 1]);
                }
            }
            assert forall|k: int, l: int| 0 <= k < l < i + 1 implies key_le(
                ks[#[trigger] p[k]],
                ks[#[trigger] p[l]],
            ) by {
                if l < pos {
                    assert(p[k] == old_p[k] && p[l] == old_p[l]);
                } else if l == pos {
                    assert(p[k] == old_p[k]);
                } else if k < pos {
                    assert(p[k] == old_p[k] && p[l] == old_p[l - 1]);
                    let a = ks[old_p[k]];
                    let b = ks[old_p[l - 1]];
                    assert(key_le(a, ki));
                    assert(key_lt(ki, b));
                    if a != ki {
                        lemma_key_lt_transitive(a, ki, b);
                    }
                } else if k == pos {
                    assert(p[l] == old_p[l - 1]);
                } else {
                    assert(p[k] == old_p[k - 1] && p[l] == old_p[l - 1]);
                }
            }
            assert forall|k: int, l: int|
                0 <= k < l < i + 1 && ks[p[k]] == ks[p[l]] implies #[trigger] p[k]
                < #[trigger] p[l] by {
                if l < pos {
                    assert(p[k] == old_p[k] && p[l] == old_p[l]);
                } else if l == pos {
                    assert(p[k] == old_p[k]);
                } else if k < pos {
                    assert(p[k] == old_p[k] && p[l] == old_p[l - 1]);
                    let a = ks[old_p[k]];
                    let b = ks[old_p[l - 1]];
                    assert(key_le(a, ki));
                    assert(key_lt(ki, b));
                    if a == b {
                        if a == ki {
                            lemma_key_lt_irreflexive(ki);
                        } else {
                            lemma_key_lt_transitive(a, ki, b);
                            lemma_key_lt_irreflexive(a);
                        }
                    }
                } else if k == pos {
                    assert(p[l] == old_p[l - 1]);
                    lemma_key_lt_irreflexive(ki);
                } else {
                    assert(p[k] == old_p[k - 1] && p[l] == old_p[l - 1]);
                }
            }
            assert forall|k: int| 0 <= k < i + 1 implies 0 <= #[trigger] p[k] < i + 1 by {
                if k < pos {
                } else if k == pos {
                } else {
                    assert(p[k] == old_p[k - 1]);
                }
            }
            assert forall|k: int, l: int| 0 <= k < l < i + 1 implies p[k] != p[l] by {
                if l < pos {
                    assert(p[k] == old_p[k] && p[l] == old_p[l]);
                } else if l == pos {
                    assert(p[k] == old_p[k]);
                } else if k < pos {
                    assert(p[k] == old_p[k] && p[l] == old_p[l - 1]);
                } else if k == pos {
                    assert(p[l] == old_p[l - 1]);
                } else {
                    assert(p[k] == old_p[k - 1] && p[l] == old_p[l - 1]);
                }
            }
        }
        i += 1;
    }
    assert(is_stable_order(ks, p));
    assert(rearranged(input, out@, p));
    out
}

} // verus!
