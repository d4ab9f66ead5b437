//! Lexicographic order over byte keys: the order in which a store's keys
//! are iterated.

use vstd::prelude::*;

verus! {

/// Strict lexicographic order on byte sequences.
pub open spec fn lex_lt(a: Seq<u8>, b: Seq<u8>) -> bool
    decreases a.len(),
{
    if b.len() == 0 {
        false
    } else if a.len() == 0 {
        true
    } else if a[0] < b[0] {
        true
    } else if a[0] > b[0] {
        false
    } else {
        lex_lt(a.drop_first(), b.drop_first())
    }
}

/// Lexicographic order, allowing equality.
pub open spec fn lex_le(a: Seq<u8>, b: Seq<u8>) -> bool {
    lex_lt(a, b) || a == b
}

/// The order is total: two keys compare one way or the other, or are equal.
pub proof fn lemma_lex_total(a: Seq<u8>, b: Seq<u8>)
    ensures
        lex_lt(a, b) || lex_lt(b, a) || a == b,
    decreases a.len(),
{
    if b.len() == 0 || a.len() == 0 {
        if a.len() == b.len() {
            assert(a =~= b);
        }
    } else if a[0] == b[0] {
        lemma_lex_total(a.drop_first(), b.drop_first());
        if a.drop_first() == b.drop_first() {
            assert(a.drop_first().len() == b.drop_first().len());
            assert(a.len() == b.len());
            assert forall|i: int| 0 <= i < a.len() implies a[i] == b[i] by {
                if i > 0 {
                    assert(a[i] == a.drop_first()[i - 1]);
                    assert(b[i] == b.drop_first()[i - 1]);
                }
            }
            assert(a =~= b);
        }
    }
}

/// The order is strict: no key is below itself.
pub proof fn lemma_lex_irrefl(a: Seq<u8>)
    ensures
        !lex_lt(a, a),
    decreases a.len(),
{
    if a.len() > 0 {
        lemma_lex_irrefl(a.drop_first());
    }
}

/// The order is transitive.
pub proof fn lemma_lex_trans(a: Seq<u8>, b: Seq<u8>, c: Seq<u8>)
    requires
        lex_lt(a, b),
        lex_lt(b, c),
    ensures
        lex_lt(a, c),
    decreases a.len(),
{
    if a.len() > 0 && b.len() > 0 && c.len() > 0 {
        if a[0] == b[0] && b[0] == c[0] {
            lemma_lex_trans(a.drop_first(), b.drop_first(), c.drop_first());
        }
    }
}

/// Comparing two keys is decided by the first position where they differ.
proof fn lemma_lex_suffix(a: Seq<u8>, b: Seq<u8>, i: int)
    requires
        0 <= i <= a.len(),
        0 <= i <= b.len(),
        a.take(i) =~= b.take(i),
    ensures
        lex_lt(a, b) == lex_lt(a.skip(i), b.skip(i)),
    decreases i,
{
    if i == 0 {
        assert(a.skip(0) =~= a);
        assert(b.skip(0) =~= b);
    } else {
        assert(a.len() > 0 && b.len() > 0);
        assert(a[0] == b[0]) by {
            assert(a.take(i)[0] == a[0]);
            assert(b.take(i)[0] == b[0]);
        }
        assert(a.drop_first().take(i - 1) =~= a.take(i).drop_first());
        assert(b.drop_first().take(i - 1) =~= b.take(i).drop_first());
        lemma_lex_suffix(a.drop_first(), b.drop_first(), i - 1);
        assert(a.drop_first().skip(i - 1) =~= a.skip(i));
        assert(b.drop_first().skip(i - 1) =~= b.skip(i));
    }
}

/// Whether a byte sequence is free of NUL bytes, as the engine demands of
/// database names.
pub open spec fn nul_free(bytes: Seq<u8>) -> bool {
    forall|i: int| 0 <= i < bytes.len() ==> bytes[i] != 0
}

/// Decide `nul_free` on a byte slice.
pub fn bytes_nul_free(b: &[u8]) -> (r: bool)
    ensures
        r == nul_free(b@),
{
    let n = b.len();
    let mut i: usize = 0;
    while i < n
        invariant
            n == b@.len(),
            0 <= i <= n,
            forall|p: int| 0 <= p < i ==> b@[p] != 0,
        decreases n - i,
    {
        if *vstd::slice::slice_index_get(b, i) == 0 {
            return false;
        }
        i = i + 1;
    }
    true
}

/// A sequence of key/value entries whose keys strictly ascend.
pub open spec fn entries_sorted(es: Seq<(Seq<u8>, Seq<u8>)>) -> bool {
    forall|i: int, j: int| 0 <= i < j < es.len() ==> lex_lt(#[trigger] es[i].0, #[trigger] es[j].0)
}

/// The entry sequence lists exactly the contents of the map, in ascending
/// key order.
pub open spec fn entries_match(es: Seq<(Seq<u8>, Seq<u8>)>, m: Map<Seq<u8>, Seq<u8>>) -> bool {
    &&& entries_sorted(es)
    &&& (forall|i: int|
        0 <= i < es.len() ==> m.contains_key(#[trigger] es[i].0) && m[es[i].0] == es[i].1)
    &&& (forall|k: Seq<u8>|
        #[trigger] m.contains_key(k) ==> exists|i: int| 0 <= i < es.len() && es[i].0 == k)
}

/// Behind its first entry, a matching listing matches the map without
/// that entry's key.
proof fn lemma_entries_match_tail(es: Seq<(Seq<u8>, Seq<u8>)>, m: Map<Seq<u8>, Seq<u8>>)
    requires
        entries_match(es, m),
        es.len() > 0,
    ensures
        entries_match(es.drop_first(), m.remove(es[0].0)),
{
    let k0 = es[0].0;
    let tail = es.drop_first();
    let m2 = m.remove(k0);
    assert(forall|i: int| 0 <= i < tail.len() ==> #[trigger] tail[i] == es[i + 1]);
    assert forall|i: int| 0 <= i < tail.len() implies m2.contains_key(#[trigger] tail[i].0)
        && m2[tail[i].0] == tail[i].1 by {
        assert(lex_lt(es[0].0, es[i + 1].0));
        lemma_lex_irrefl(k0);
    }
    assert forall|k: Seq<u8>| #[trigger] m2.contains_key(k) implies exists|i: int|
        0 <= i < tail.len() && tail[i].0 == k by {
        assert(m.contains_key(k));
        let i = choose|i: int| 0 <= i < es.len() && (#[trigger] es[i].0) == k;
        assert(i != 0);
        assert(tail[i - 1].0 == k);
    }
}

/// Law: a map has exactly one sorted listing. Any two entry sequences
/// that both list a map's contents in ascending key order are equal —
/// so every contract stated through `entries_match` pins the yielded
/// sequence completely, down to concrete instances.
pub proof fn lemma_entries_match_unique(
    es1: Seq<(Seq<u8>, Seq<u8>)>,
    es2: Seq<(Seq<u8>, Seq<u8>)>,
    m: Map<Seq<u8>, Seq<u8>>,
)
    requires
        entries_match(es1, m),
        entries_match(es2, m),
    ensures
        es1 == es2,
    decreases es1.len(),
{
    if es1.len() == 0 {
        if es2.len() > 0 {
            assert(m.contains_key(es2[0].0));
            assert(false);
        }
        assert(es1 =~= es2);
    } else if es2.len() == 0 {
        assert(m.contains_key(es1[0].0));
        assert(false);
    } else {
        let k1 = es1[0].0;
        let k2 = es2[0].0;
        // Each head's key appears in the other listing; by sortedness
        // each head is its listing's least key, so the heads agree.
        assert(m.contains_key(k1) && m.contains_key(k2));
        let j = choose|j: int| 0 <= j < es2.len() && (#[trigger] es2[j].0) == k1;
        let i = choose|i: int| 0 <= i < es1.len() && (#[trigger] es1[i].0) == k2;
        if i > 0 && j > 0 {
            assert(lex_lt(k1, es1[i].0));
            assert(lex_lt(k2, es2[j].0));
            lemma_lex_trans(k1, k2, k1);
            lemma_lex_irrefl(k1);
        }
        assert(k1 == k2);
        assert(es1[0].1 == m[k1] && es2[0].1 == m[k1]);
        lemma_entries_match_tail(es1, m);
        lemma_entries_match_tail(es2, m);
        lemma_entries_match_unique(es1.drop_first(), es2.drop_first(), m.remove(k1));
        assert(forall|p: int|
            0 <= p < es1.len() - 1 ==> #[trigger] es1.drop_first()[p] == es1[p + 1]);
        assert(forall|p: int|
            0 <= p < es2.len() - 1 ==> #[trigger] es2.drop_first()[p] == es2[p + 1]);
        assert(es1[0] == es2[0]);
        assert(es1.drop_first().len() == es2.drop_first().len());
        assert(es1.len() == es2.len());
        assert forall|p: int| 0 <= p < es1.len() implies es1[p] == es2[p] by {
            if p > 0 {
                assert(es1[p] == es1.drop_first()[p - 1]);
                assert(es2[p] == es2.drop_first()[p - 1]);
            }
        }
        assert(es1 =~= es2);
    }
}

/// The part of a map whose keys are at or after `k`: what a cursor
/// positioned at `k` can still reach.
pub open spec fn keys_from(m: Map<Seq<u8>, Seq<u8>>, k: Seq<u8>) -> Map<Seq<u8>, Seq<u8>> {
    m.restrict(Set::new(|x: Seq<u8>| lex_le(k, x)))
}

/// The part of a map whose keys lie in the given range; an empty bound
/// means that side is unbounded, as an empty key argument does at the API.
pub open spec fn keys_between(m: Map<Seq<u8>, Seq<u8>>, from: Seq<u8>, to: Seq<u8>) -> Map<
    Seq<u8>,
    Seq<u8>,
> {
    m.restrict(
        Set::new(
            |x: Seq<u8>|
                (from.len() == 0 || lex_le(from, x)) && (to.len() == 0 || lex_le(x, to)),
        ),
    )
}

/// Decide `lex_le` on two byte slices.
pub fn lex_le_bytes(a: &[u8], b: &[u8]) -> (r: bool)
    ensures
        r == lex_le(a@, b@),
{
    let a_len = a.len();
    let b_len = b.len();
    let mut i: usize = 0;
    loop
        invariant
            0 <= i <= a_len,
            0 <= i <= b_len,
            a_len == a@.len(),
            b_len == b@.len(),
            a@.take(i as int) =~= b@.take(i as int),
        decreases a_len - i,
    {
        if i == a_len {
            // `a` is a prefix of `b`: below it, or equal to it.
            proof {
                lemma_lex_suffix(a@, b@, i as int);
                if i == b_len {
                    assert(a@.take(i as int) =~= a@);
                    assert(b@.take(i as int) =~= b@);
                    assert(a@ =~= b@);
                } else {
                    assert(lex_lt(a@.skip(i as int), b@.skip(i as int)));
                }
            }
            return true;
        }
        if i == b_len {
            // `b` is a strict prefix of `a`: `a` sorts after it.
            proof {
                lemma_lex_suffix(a@, b@, i as int);
                assert(!lex_lt(a@.skip(i as int), b@.skip(i as int)));
                if a@ == b@ {
                    assert(a@.len() == b@.len());
                }
            }
            return false;
        }
        let x = *vstd::slice::slice_index_get(a, i);
        let y = *vstd::slice::slice_index_get(b, i);
        if x < y {
            proof {
                lemma_lex_suffix(a@, b@, i as int);
                assert(a@.skip(i as int)[0] == x && b@.skip(i as int)[0] == y);
            }
            return true;
        }
        if x > y {
            proof {
                lemma_lex_suffix(a@, b@, i as int);
                assert(a@.skip(i as int)[0] == x && b@.skip(i as int)[0] == y);
                if a@ == b@ {
                    assert(a@[i as int] == b@[i as int]);
                }
            }
            return false;
        }
        proof {
            assert(a@.take(i + 1) =~= a@.take(i as int).push(x));
            assert(b@.take(i + 1) =~= b@.take(i as int).push(y));
        }
        i = i + 1;
    }
}

} // verus!
