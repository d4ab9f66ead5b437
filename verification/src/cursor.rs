//! Range iteration: forward walks over a store's sorted key space, within
//! one reader's snapshot.

use crate::engine;
use crate::engine::iter_items;
use crate::error::StoreError;
use crate::order::{entries_match, keys_between, keys_from, lex_le, lex_le_bytes, lex_lt,
    lemma_lex_irrefl, lemma_lex_total, lemma_lex_trans};
use crate::store::Store;
use crate::txn::Reader;
use crate::value::{decode, spec_decode, DataError, Value, ValueView};
use vstd::prelude::*;

verus! {

/// What one yielded pair says about the stored bytes it came from.
pub open spec fn decode_result_matches(bytes: Seq<u8>, r: Result<Value, DataError>) -> bool {
    match r {
        Ok(v) => spec_decode(bytes) == Ok::<ValueView, DataError>(v@),
        Err(e) => spec_decode(bytes) == Err::<ValueView, DataError>(e),
    }
}

/// The collected pairs list exactly the contents of the map, in ascending
/// key order, each value decoded as its bytes deserve.
pub open spec fn pairs_match(
    ps: Seq<(Vec<u8>, Result<Value, DataError>)>,
    m: Map<Seq<u8>, Seq<u8>>,
) -> bool {
    &&& (forall|i: int, j: int|
        0 <= i < j < ps.len() ==> lex_lt(#[trigger] ps[i].0@, #[trigger] ps[j].0@))
    &&& (forall|i: int|
        0 <= i < ps.len() ==> m.contains_key(#[trigger] ps[i].0@) && decode_result_matches(
            m[ps[i].0@],
            ps[i].1,
        ))
    &&& (forall|k: Seq<u8>|
        #[trigger] m.contains_key(k) ==> exists|i: int| 0 <= i < ps.len() && ps[i].0@ == k)
}

/// A lazy forward walk over one store, borrowing its reader.
///
/// Yields `(key, decode result)` pairs in strictly ascending key order,
/// bounded by the snapshot the reader holds: keys committed after the
/// reader began are never seen. Once exhausted it stays exhausted.
pub struct RangeIter<'t> {
    cursor: lmdb::RoCursor<'t>,
    it: lmdb::Iter<'t>,
    done: bool,
}

impl<'t> RangeIter<'t> {
    /// The entries this walk has still to yield, as raw key/bytes pairs.
    pub closed spec fn remaining(&self) -> Seq<(Seq<u8>, Seq<u8>)> {
        if self.done {
            Seq::empty()
        } else {
            iter_items(&self.it)
        }
    }

    /// Yield the next pair, or `None` when nothing remains — and `None`
    /// again on every later call. A value whose bytes do not decode is
    /// yielded with its key and the data error; an engine failure ends
    /// the walk.
    pub fn next(&mut self) -> (r: Option<Result<(Vec<u8>, Result<Value, DataError>), StoreError>>)
        ensures
            old(self).remaining().len() == 0 ==> !(r matches Some(Ok(_))),
            r is None ==> old(self).remaining().len() == 0 && final(self).remaining()
                == Seq::<(Seq<u8>, Seq<u8>)>::empty(),
            r matches Some(Ok(kv)) ==> old(self).remaining().len() > 0 && kv.0@ == old(self).remaining()[0].0 && decode_result_matches(old(self).remaining()[0].1, kv.1) && final(self).remaining() == old(self).remaining().drop_first(),
            r matches Some(Err(e)) ==> e matches StoreError::Engine(_) && final(self).remaining()
                == Seq::<(Seq<u8>, Seq<u8>)>::empty(),
    {
        if self.done {
            return None;
        }
        match engine::iter_next(&mut self.it) {
            None => {
                self.done = true;
                None
            },
            Some(Err(e)) => {
                self.done = true;
                Some(Err(StoreError::Engine(e.code)))
            },
            Some(Ok((key, bytes))) => {
                match decode(bytes.as_slice()) {
                    Ok(v) => Some(Ok((key, Ok(v)))),
                    Err(e) => Some(Ok((key, Err(e)))),
                }
            },
        }
    }
}

impl<'e> Reader<'e> {
    /// Walk the whole store from its first key: every entry of this
    /// reader's snapshot, in ascending key order.
    pub fn iter_from_start<'t>(&'t self, store: &Store) -> (r: Result<RangeIter<'t>, StoreError>)
        ensures
            r matches Ok(ri) ==> entries_match(ri.remaining(), self.store_snapshot(*store)),
            r is Err ==> r matches Err(StoreError::Engine(_)),
    {
        proof {
            crate::txn::lemma_snapshot_is_ro_view(self);
        }
        match engine::ro_cursor_iter_start(&self.txn, store) {
            Ok((cursor, it)) => Ok(RangeIter { cursor, it, done: false }),
            Err(e) => Err(StoreError::Engine(e.code)),
        }
    }

    /// Walk the store from the first key at or after `start_key`. A start
    /// key past every entry yields an empty walk, and never fails for
    /// being out of range.
    pub fn iter_from<'t>(&'t self, store: &Store, start_key: &[u8]) -> (r: Result<
        RangeIter<'t>,
        StoreError,
    >)
        ensures
            r matches Ok(ri) ==> entries_match(
                ri.remaining(),
                keys_from(self.store_snapshot(*store), start_key@),
            ),
            r is Err ==> r matches Err(StoreError::Engine(_)),
    {
        proof {
            crate::txn::lemma_snapshot_is_ro_view(self);
        }
        match engine::ro_cursor_iter_from(&self.txn, store, start_key) {
            Ok((cursor, it)) => Ok(RangeIter { cursor, it, done: false }),
            Err(e) => Err(StoreError::Engine(e.code)),
        }
    }

    /// Collect the range `from_key ..= to_key` of a store into eager
    /// `(key, decode result)` pairs, in ascending key order; an empty
    /// bound leaves that side of the range open.
    pub fn collect_range(&self, store: &Store, from_key: &[u8], to_key: &[u8]) -> (r: Result<
        Vec<(Vec<u8>, Result<Value, DataError>)>,
        StoreError,
    >)
        ensures
            r matches Ok(ps) ==> pairs_match(
                ps@,
                keys_between(self.store_snapshot(*store), from_key@, to_key@),
            ),
            r is Err ==> r matches Err(StoreError::Engine(_)),
    {
        let ghost snap = self.store_snapshot(*store);
        let ghost m_from = if from_key@.len() == 0 {
            snap
        } else {
            keys_from(snap, from_key@)
        };
        let ghost m = keys_between(snap, from_key@, to_key@);
        let mut walk = if from_key.len() == 0 {
            self.iter_from_start(store)?
        } else {
            self.iter_from(store, from_key)?
        };
        proof {
            if from_key@.len() == 0 {
                assert(entries_match(walk.remaining(), m_from));
            }
        }
        let ghost es0 = walk.remaining();
        proof {
            assert(walk.remaining() =~= es0.skip(0));
        }
        let mut pairs: Vec<(Vec<u8>, Result<Value, DataError>)> = Vec::new();
        let ghost mut idx: int = 0;
        loop
            invariant
                snap == self.store_snapshot(*store),
                entries_match(es0, m_from),
                m_from == (if from_key@.len() == 0 {
                    snap
                } else {
                    keys_from(snap, from_key@)
                }),
                m == keys_between(snap, from_key@, to_key@),
                0 <= idx <= es0.len(),
                walk.remaining() =~= es0.skip(idx),
                pairs@.len() == idx,
                forall|i: int|
                    0 <= i < idx ==> (#[trigger] pairs@[i]).0@ == es0[i].0 && decode_result_matches(
                        es0[i].1,
                        pairs@[i].1,
                    ) && (to_key@.len() == 0 || lex_le(es0[i].0, to_key@)),
            decreases es0.len() - idx,
        {
            match walk.next() {
                None => {
                    proof {
                        assert(es0.skip(idx).len() == 0);
                        assert(idx == es0.len());
                        lemma_collected(es0, m_from, m, snap, from_key@, to_key@, pairs@, idx, true);
                    }
                    return Ok(pairs);
                },
                Some(Err(e)) => {
                    return Err(e);
                },
                Some(Ok(kv)) => {
                    proof {
                        assert(es0.skip(idx)[0] == es0[idx]);
                        assert(es0.skip(idx).drop_first() =~= es0.skip(idx + 1));
                    }
                    if to_key.len() > 0 && !lex_le_bytes(kv.0.as_slice(), to_key) {
                        proof {
                            lemma_collected(
                                es0,
                                m_from,
                                m,
                                snap,
                                from_key@,
                                to_key@,
                                pairs@,
                                idx,
                                false,
                            );
                        }
                        return Ok(pairs);
                    }
                    pairs.push(kv);
                    proof {
                        idx = idx + 1;
                    }
                },
            }
        }
    }
}

/// Law: a walk started past every key yields nothing. If every key of the
/// store sorts below the start key, the entries matched against the
/// tail of the key space are none — the walk is empty rather than an
/// error or a panic.
pub proof fn lemma_iter_past_end(
    es: Seq<(Seq<u8>, Seq<u8>)>,
    m: Map<Seq<u8>, Seq<u8>>,
    k: Seq<u8>,
)
    requires
        entries_match(es, keys_from(m, k)),
        forall|x: Seq<u8>| #[trigger] m.contains_key(x) ==> lex_lt(x, k),
    ensures
        es.len() == 0,
{
    if es.len() > 0 {
        let key0 = es[0].0;
        assert(keys_from(m, k).contains_key(key0));
        assert(m.contains_key(key0) && lex_le(k, key0));
        assert(lex_lt(key0, k));
        if lex_lt(k, key0) {
            lemma_lex_trans(k, key0, k);
            lemma_lex_irrefl(k);
        } else {
            lemma_lex_irrefl(k);
        }
    }
}

/// At the end of a range walk — exhausted, or stopped at the first key
/// past the upper bound — the collected prefix lists exactly the entries
/// of the bounded range.
proof fn lemma_collected(
    es0: Seq<(Seq<u8>, Seq<u8>)>,
    m_from: Map<Seq<u8>, Seq<u8>>,
    m: Map<Seq<u8>, Seq<u8>>,
    snap: Map<Seq<u8>, Seq<u8>>,
    from: Seq<u8>,
    to: Seq<u8>,
    ps: Seq<(Vec<u8>, Result<Value, DataError>)>,
    idx: int,
    exhausted: bool,
)
    requires
        entries_match(es0, m_from),
        m_from == (if from.len() == 0 {
            snap
        } else {
            keys_from(snap, from)
        }),
        m == keys_between(snap, from, to),
        0 <= idx <= es0.len(),
        ps.len() == idx,
        forall|i: int|
            0 <= i < idx ==> (#[trigger] ps[i]).0@ == es0[i].0 && decode_result_matches(
                es0[i].1,
                ps[i].1,
            ) && (to.len() == 0 || lex_le(es0[i].0, to)),
        exhausted ==> idx == es0.len(),
        !exhausted ==> idx < es0.len() && to.len() > 0 && !lex_le(es0[idx].0, to),
    ensures
        pairs_match(ps, m),
{
    // Every key of `m` is a key of `m_from`, and conversely a key of
    // `m_from` within the upper bound is a key of `m`.
    assert forall|k: Seq<u8>| #[trigger] m.contains_key(k) implies m_from.contains_key(k) && (
    to.len() == 0 || lex_le(k, to)) && m[k] == m_from[k] by {}
    // The collected keys strictly ascend, as the walked entries do.
    assert forall|i: int, j: int| 0 <= i < j < ps.len() implies lex_lt(
        #[trigger] ps[i].0@,
        #[trigger] ps[j].0@,
    ) by {
        assert(ps[i].0@ == es0[i].0);
        assert(ps[j].0@ == es0[j].0);
        assert(lex_lt(es0[i].0, es0[j].0));
    }
    // Soundness and order carry over from the walked prefix.
    assert forall|i: int| 0 <= i < ps.len() implies m.contains_key(#[trigger] ps[i].0@)
        && decode_result_matches(m[ps[i].0@], ps[i].1) by {
        assert(m_from.contains_key(es0[i].0));
    }
    // Completeness: a key of `m` sits at some index of `es0`, and that
    // index lies inside the collected prefix.
    assert forall|k: Seq<u8>| #[trigger] m.contains_key(k) implies exists|i: int|
        0 <= i < ps.len() && ps[i].0@ == k by {
        assert(m_from.contains_key(k));
        assert(exists|i: int| 0 <= i < es0.len() && (#[trigger] es0[i].0) == k);
        let i = choose|i: int| 0 <= i < es0.len() && (#[trigger] es0[i].0) == k;
        if !exhausted && i >= idx {
            // Keys at or past the stop point lie above the bound.
            if i > idx {
                assert(lex_lt(es0[idx].0, es0[i].0));
            }
            lemma_lex_total(es0[idx].0, to);
            assert(lex_lt(to, es0[idx].0));
            if i > idx {
                lemma_lex_trans(to, es0[idx].0, es0[i].0);
            }
            assert(lex_lt(to, k));
            if lex_lt(k, to) {
                lemma_lex_trans(to, k, to);
                lemma_lex_irrefl(to);
            }
            if k == to {
                lemma_lex_irrefl(to);
            }
            assert(!lex_le(k, to));
            assert(false);
        }
        assert(0 <= i < idx);
        assert(ps[i].0@ == k);
    }
}

} // verus!
