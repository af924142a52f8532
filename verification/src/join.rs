use vstd::prelude::*;
use crate::errors::Error;
use crate::rows::{Measurement, MeasView, Reader, ExtractErr, extract_spec, opt_int};

verus! {

/// The join key of a buffered measurement (which always has one).
pub open spec fn key_of(m: MeasView) -> Seq<char> {
    match m.join {
        Some(k) => k,
        None => Seq::empty(),
    }
}

/// The pending buffer as a map from join key to buffered measurement; a later
/// entry for a key overwrites an earlier one (last writer wins).
pub open spec fn pending_map(s: Seq<Measurement>) -> Map<Seq<char>, MeasView>
    decreases s.len(),
{
    if s.len() == 0 {
        Map::empty()
    } else {
        pending_map(s.drop_last()).insert(key_of(s.last()@), s.last()@)
    }
}

/// All buffered measurements carry a join key.
pub open spec fn all_keyed(s: Seq<Measurement>) -> bool {
    forall|i: int| 0 <= i < s.len() ==> (#[trigger] s[i])@.join is Some
}

/// No two buffered measurements share a join key.
pub open spec fn keys_unique(s: Seq<Measurement>) -> bool {
    forall|i: int, j: int|
        0 <= i < j < s.len() ==> key_of((#[trigger] s[i])@) != key_of((#[trigger] s[j])@)
}

/// A key is in the buffer's map exactly when some buffered entry carries it.
pub proof fn lemma_pending_map_dom(s: Seq<Measurement>, k: Seq<char>)
    ensures
        pending_map(s).contains_key(k) <==> exists|i: int| 0 <= i < s.len() && key_of((#[trigger] s[i])@) == k,
    decreases s.len(),
{
    if s.len() > 0 {
        lemma_pending_map_dom(s.drop_last(), k);
        if pending_map(s).contains_key(k) {
            if key_of(s.last()@) == k {
                assert(key_of(s[s.len() - 1]@) == k);
            } else {
                let i = choose|i: int| 0 <= i < s.len() - 1 && key_of((#[trigger] s.drop_last()[i])@) == k;
                assert(key_of(s[i]@) == k);
            }
        }
        if exists|i: int| 0 <= i < s.len() && key_of((#[trigger] s[i])@) == k {
            let i = choose|i: int| 0 <= i < s.len() && key_of((#[trigger] s[i])@) == k;
            if i < s.len() - 1 {
                assert(key_of(s.drop_last()[i]@) == k);
            }
        }
    }
}

/// Under unique keys, the buffer's map sends the key of entry `i` to that
/// entry.
pub proof fn lemma_pending_map_at(s: Seq<Measurement>, i: int)
    requires
        keys_unique(s),
        0 <= i < s.len(),
    ensures
        pending_map(s).contains_key(key_of(s[i]@)),
        pending_map(s)[key_of(s[i]@)] == s[i]@,
    decreases s.len(),
{
    if i == s.len() - 1 {
    } else {
        assert(keys_unique(s.drop_last())) by {
            assert(forall|a: int, b: int|
                0 <= a < b < s.len() - 1 ==> key_of((#[trigger] s.drop_last()[a])@)
                    != key_of((#[trigger] s.drop_last()[b])@)) by {
                assert(forall|a: int| 0 <= a < s.len() - 1 ==> s.drop_last()[a] == s[a]);
            }
        }
        assert(s.drop_last()[i] == s[i]);
        lemma_pending_map_at(s.drop_last(), i);
        assert(key_of(s.last()@) != key_of(s[i]@));
    }
}

/// Under unique keys, removing entry `i` from the buffer removes exactly its
/// key from the map.
pub proof fn lemma_pending_map_remove(s: Seq<Measurement>, i: int)
    requires
        keys_unique(s),
        0 <= i < s.len(),
    ensures
        pending_map(s.remove(i)) =~= pending_map(s).remove(key_of(s[i]@)),
    decreases s.len(),
{
    assert(forall|a: int| 0 <= a < s.len() - 1 ==> s.drop_last()[a] == s[a]);
    assert(keys_unique(s.drop_last()));
    if i == s.len() - 1 {
        assert(s.remove(i) =~= s.drop_last());
        lemma_pending_map_dom(s.drop_last(), key_of(s[i]@));
        assert(!pending_map(s.drop_last()).contains_key(key_of(s[i]@)));
        assert(pending_map(s.drop_last()) =~= pending_map(s).remove(key_of(s[i]@)));
    } else {
        assert(s.remove(i).drop_last() =~= s.drop_last().remove(i));
        assert(s.remove(i).last() == s.last());
        lemma_pending_map_remove(s.drop_last(), i);
        assert(s.drop_last()[i] == s[i]);
        assert(key_of(s.last()@) != key_of(s[i]@));
        assert(pending_map(s.remove(i)) == pending_map(s.drop_last().remove(i)).insert(
            key_of(s.last()@),
            s.last()@,
        ));
        assert(pending_map(s.drop_last()).remove(key_of(s[i]@)).insert(key_of(s.last()@), s.last()@)
            =~= pending_map(s.drop_last()).insert(key_of(s.last()@), s.last()@).remove(
            key_of(s[i]@),
        ));
    }
}


/// Removing an entry keeps the buffer well formed and leaves no entry with
/// the removed entry's key.
pub proof fn lemma_remove_keeps(s: Seq<Measurement>, i: int)
    requires
        keys_unique(s),
        all_keyed(s),
        0 <= i < s.len(),
    ensures
        keys_unique(s.remove(i)),
        all_keyed(s.remove(i)),
        forall|a: int|
            0 <= a < s.remove(i).len() ==> key_of((#[trigger] s.remove(i)[a])@) != key_of(s[i]@),
{
    assert(forall|a: int|
        0 <= a < s.remove(i).len() ==> #[trigger] s.remove(i)[a] == (if a < i {
            s[a]
        } else {
            s[a + 1]
        }));
}

/// Appending an entry inserts its key into the buffer's map, and keeps the
/// buffer well formed when no entry already carries that key.
pub proof fn lemma_push_map(s: Seq<Measurement>, m: Measurement)
    ensures
        pending_map(s.push(m)) == pending_map(s).insert(key_of(m@), m@),
        (all_keyed(s) && m@.join is Some) ==> all_keyed(s.push(m)),
        (keys_unique(s) && (forall|a: int|
            0 <= a < s.len() ==> key_of((#[trigger] s[a])@) != key_of(m@))) ==> keys_unique(
            s.push(m),
        ),
{
    assert(s.push(m).drop_last() =~= s);
    assert(s.push(m).last() == m);
    assert(forall|a: int| 0 <= a < s.len() ==> #[trigger] s.push(m)[a] == s[a]);
    assert(s.push(m)[s.len() as int] == m);
}

/// What a `take` does: a hit in the pending buffer, a row found (or buffered,
/// or skipped for want of a key) while scanning the rest of the right stream,
/// exhaustion, or a row that could not be decoded.
pub enum TakeOut {
    /// The matched measurement, the right rows still unread, and the pending
    /// buffer, both as they stand after the call.
    Found(MeasView, Seq<Seq<Seq<char>>>, Map<Seq<char>, MeasView>),
    /// No match: the right stream is exhausted; the pending buffer as it
    /// stands after the call.
    NotFound(Map<Seq<char>, MeasView>),
    /// A right row could not be decoded; the rows pulled before it stay
    /// buffered, and the failing row is consumed.
    TakeFailed(ExtractErr, Seq<Seq<Seq<char>>>, Map<Seq<char>, MeasView>),
}

/// One left-to-right scan of the unread right rows for `key`: a row whose key
/// matches is returned at once; a row with another key is buffered, a later
/// one overwriting an earlier; a row without a key is skipped silently.
pub open spec fn scan_spec(
    key: Seq<char>,
    rem: Seq<Seq<Seq<char>>>,
    pend: Map<Seq<char>, MeasView>,
    p: int,
    r: Option<int>,
    j: Option<int>,
) -> TakeOut
    decreases rem.len(),
{
    if rem.len() == 0 {
        TakeOut::NotFound(pend)
    } else {
        match extract_spec(rem[0], p, r, j) {
            Err(k) => TakeOut::TakeFailed(k, rem.drop_first(), pend),
            Ok(m) => match m.join {
                None => scan_spec(key, rem.drop_first(), pend, p, r, j),
                Some(k2) => if k2 == key {
                    TakeOut::Found(m, rem.drop_first(), pend)
                } else {
                    scan_spec(key, rem.drop_first(), pend.insert(k2, m), p, r, j)
                },
            },
        }
    }
}

/// What `take(key)` returns and leaves behind: the buffered entry for `key`
/// if there is one, else whatever one scan of the unread right rows yields.
pub open spec fn take_spec(
    key: Seq<char>,
    rem: Seq<Seq<Seq<char>>>,
    pend: Map<Seq<char>, MeasView>,
    p: int,
    r: Option<int>,
    j: Option<int>,
) -> TakeOut {
    if pend.contains_key(key) {
        TakeOut::Found(pend[key], rem, pend.remove(key))
    } else {
        scan_spec(key, rem, pend, p, r, j)
    }
}

/// The right side of the merge join: the unread right rows, a cursor into
/// them, and the pending buffer of rows read while seeking an earlier key.
pub struct JoinRHS {
    pub reader: Reader,
    pub rows: Vec<Vec<String>>,
    pub pos: usize,
    pub pending: Vec<Measurement>,
}

impl JoinRHS {
    /// The right rows not yet read.
    pub open spec fn remaining(self) -> Seq<Seq<Seq<char>>> {
        self.rows.deep_view().skip(self.pos as int)
    }

    /// The pending buffer as a map.
    pub open spec fn pend(self) -> Map<Seq<char>, MeasView> {
        pending_map(self.pending@)
    }

    /// The engine's invariant: the cursor is in range and the buffer holds at
    /// most one entry per key, each with a key.
    pub open spec fn wf(self) -> bool {
        &&& self.pos <= self.rows.len()
        &&& all_keyed(self.pending@)
        &&& keys_unique(self.pending@)
    }

    pub fn new(reader: Reader, rows: Vec<Vec<String>>) -> (r: JoinRHS)
        ensures
            r.wf(),
            r.reader == reader,
            r.remaining() == rows.deep_view(),
            r.pend() == Map::<Seq<char>, MeasView>::empty(),
    {
        let r = JoinRHS { reader, rows, pos: 0, pending: Vec::new() };
        proof {
            assert(r.remaining() =~= r.rows.deep_view());
        }
        r
    }

    /// The index of the buffered entry for `key`, if any.
    fn find_pending(&self, key: &str) -> (r: Option<usize>)
        requires
            all_keyed(self.pending@),
        ensures
            r matches Some(i) ==> i < self.pending@.len() && key_of(self.pending@[i as int]@)
                == key@,
            r is None ==> forall|i: int|
                0 <= i < self.pending@.len() ==> key_of((#[trigger] self.pending@[i])@) != key@,
    {
        let mut i: usize = 0;
        while i < self.pending.len()
            invariant
                0 <= i <= self.pending@.len(),
                all_keyed(self.pending@),
                forall|k: int| 0 <= k < i ==> key_of((#[trigger] self.pending@[k])@) != key@,
            decreases self.pending@.len() - i,
        {
            match &self.pending[i].join {
                Some(s) => {
                    if crate::rows::str_eq(s.as_str(), key) {
                        return Some(i);
                    }
                },
                None => {},
            }
            i += 1;
        }
        None
    }

    /// Return the right measurement sharing `join_key`, if any ever arrives:
    /// first from the pending buffer, else by scanning the unread right rows,
    /// buffering the ones that carry other keys. Exactly `take_spec` on the
    /// state before the call.
    pub fn take(&mut self, join_key: String) -> (r: Result<Option<Measurement>, Error>)
        requires
            old(self).wf(),
        ensures
            final(self).wf(),
            final(self).reader == old(self).reader,
            match take_spec(
                join_key@,
                old(self).remaining(),
                old(self).pend(),
                old(self).reader.primary_idx as int,
                opt_int(old(self).reader.rhs_idx),
                opt_int(old(self).reader.join_idx),
            ) {
                TakeOut::Found(m, rem2, pend2) => {
                    &&& r matches Ok(Some(mm)) && mm@ == m
                    &&& final(self).remaining() == rem2
                    &&& final(self).pend() == pend2
                },
                TakeOut::NotFound(pend2) => {
                    &&& r matches Ok(None)
                    &&& final(self).remaining().len() == 0
                    &&& final(self).pend() == pend2
                },
                TakeOut::TakeFailed(k, rem2, pend2) => {
                    &&& r is Err
                    &&& (k is MissingPrimary ==> (r matches Err(e) && e is UserError))
                    &&& (k is Malformed ==> (r matches Err(e) && e is ParseIntError))
                    &&& final(self).remaining() == rem2
                    &&& final(self).pend() == pend2
                },
            },
    {
        let ghost p = self.reader.primary_idx as int;
        let ghost ri = opt_int(self.reader.rhs_idx);
        let ghost ji = opt_int(self.reader.join_idx);
        let ghost rem0 = self.remaining();
        let ghost pend0 = self.pend();
        if let Some(i) = self.find_pending(join_key.as_str()) {
            proof {
                lemma_pending_map_at(self.pending@, i as int);
                lemma_pending_map_remove(self.pending@, i as int);
                lemma_remove_keeps(self.pending@, i as int);
            }
            let m = self.pending.remove(i);
            return Ok(Some(m));
        }
        proof {
            lemma_pending_map_dom(self.pending@, join_key@);
            assert(!pend0.contains_key(join_key@));
        }
        while self.pos < self.rows.len()
            invariant
                self.wf(),
                self.reader == old(self).reader,
                self.rows == old(self).rows,
                p == self.reader.primary_idx as int,
                ri == opt_int(self.reader.rhs_idx),
                ji == opt_int(self.reader.join_idx),
                rem0 == old(self).remaining(),
                pend0 == old(self).pend(),
                !pend0.contains_key(join_key@),
                scan_spec(join_key@, rem0, pend0, p, ri, ji) == scan_spec(
                    join_key@,
                    self.remaining(),
                    self.pend(),
                    p,
                    ri,
                    ji,
                ),
            decreases self.rows@.len() - self.pos,
        {
            let ghost rem_i = self.remaining();
            let ghost pend_i = self.pend();
            let row = &self.rows[self.pos];
            proof {
                assert(rem_i[0] == self.rows.deep_view()[self.pos as int]);
                assert(rem_i[0] == row.deep_view());
                assert(rem_i.drop_first() =~= self.rows.deep_view().skip(self.pos + 1));
            }
            let m = match self.reader.next(row) {
                Ok(m) => m,
                Err(e) => {
                    self.pos = self.pos + 1;
                    proof {
                        assert(scan_spec(join_key@, rem_i, pend_i, p, ri, ji) matches
                            TakeOut::TakeFailed(k2, r2, p2) && r2 == rem_i.drop_first()
                            && p2 == pend_i);
                        assert(self.remaining() == rem_i.drop_first());
                    }
                    return Err(e);
                },
            };
            self.pos = self.pos + 1;
            let ghost mv = m@;
            match &m.join {
                None => {
                    proof {
                        assert(mv.join is None);
                        assert(scan_spec(join_key@, rem_i, pend_i, p, ri, ji) == scan_spec(
                            join_key@,
                            self.remaining(),
                            self.pend(),
                            p,
                            ri,
                            ji,
                        ));
                    }
                },
                Some(k2) => {
                    proof {
                        assert(mv.join == Some(k2@));
                        assert(key_of(mv) == k2@);
                    }
                    if crate::rows::str_eq(k2.as_str(), join_key.as_str()) {
                        proof {
                            assert(scan_spec(join_key@, rem_i, pend_i, p, ri, ji)
                                == TakeOut::Found(mv, rem_i.drop_first(), pend_i));
                        }
                        return Ok(Some(m));
                    }
                    match self.find_pending(k2.as_str()) {
                        Some(idx) => {
                            proof {
                                lemma_pending_map_remove(self.pending@, idx as int);
                                lemma_remove_keeps(self.pending@, idx as int);
                            }
                            let ghost before = self.pending@;
                            let _ = self.pending.remove(idx);
                            proof {
                                assert(key_of(before[idx as int]@) == k2@);
                                assert(pending_map(self.pending@) == pend_i.remove(k2@));
                                lemma_push_map(self.pending@, m);
                            }
                            self.pending.push(m);
                            proof {
                                assert(self.pend() == pend_i.remove(k2@).insert(k2@, mv));
                                assert(self.pend() =~= pend_i.insert(k2@, mv));
                            }
                        },
                        None => {
                            proof {
                                lemma_push_map(self.pending@, m);
                            }
                            self.pending.push(m);
                            proof {
                                assert(self.pend() == pend_i.insert(k2@, mv));
                            }
                        },
                    }
                    proof {
                        assert(scan_spec(join_key@, rem_i, pend_i, p, ri, ji) == scan_spec(
                            join_key@,
                            self.remaining(),
                            self.pend(),
                            p,
                            ri,
                            ji,
                        ));
                    }
                },
            }
        }
        proof {
            assert(self.remaining() =~= Seq::<Seq<Seq<char>>>::empty());
        }
        Ok(None)
    }
}


} // verus!
