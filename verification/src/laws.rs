use vstd::prelude::*;
use crate::rows::{MeasView, extract_spec};
use crate::policy::{OOBRule, decide_spec, clamp_spec};
use crate::pipeline::{RunOut, FailKind, run_single_spec};
use crate::config::outcome_matches;

verus! {

/// The signed differences of the matched pairs a single-stream run sees, in
/// order, or nothing when some row cannot be decoded. A row without a
/// secondary value is a missing observation and yields no pair.
pub open spec fn pair_diffs(
    rows: Seq<Seq<Seq<char>>>,
    p: int,
    r: Option<int>,
    j: Option<int>,
) -> Option<Seq<int>>
    decreases rows.len(),
{
    if rows.len() == 0 {
        Some(Seq::empty())
    } else {
        match extract_spec(rows[0], p, r, j) {
            Err(_) => None,
            Ok(m) => match pair_diffs(rows.drop_first(), p, r, j) {
                None => None,
                Some(t) => match m.rhs {
                    None => Some(t),
                    Some(rv) => Some(seq![m.primary - rv] + t),
                },
            },
        }
    }
}

/// The differences lying in `[0, max)`, in order.
pub open spec fn kept_in_range(ds: Seq<int>, max: u64) -> Seq<u64>
    decreases ds.len(),
{
    if ds.len() == 0 {
        Seq::empty()
    } else if 0 <= ds[0] < max {
        seq![ds[0] as u64] + kept_in_range(ds.drop_first(), max)
    } else {
        kept_in_range(ds.drop_first(), max)
    }
}

/// Every difference, clamped to `[0, max]`, in order.
pub open spec fn clamped_all(ds: Seq<int>, max: u64) -> Seq<u64>
    decreases ds.len(),
{
    if ds.len() == 0 {
        Seq::empty()
    } else {
        seq![clamp_spec(ds[0], max)] + clamped_all(ds.drop_first(), max)
    }
}

/// Under `Drop`, a run over decodable rows never fails, and the histogram
/// receives an entry for a matched pair if and only if its difference lies in
/// `[0, max)` — exactly the in-range differences, in order.
pub proof fn lemma_drop_records_iff_in_range_run(
    rows: Seq<Seq<Seq<char>>>,
    p: int,
    r: Option<int>,
    j: Option<int>,
    max: u64,
)
    ensures
        pair_diffs(rows, p, r, j) matches Some(ds) ==> run_single_spec(
            rows,
            p,
            r,
            j,
            OOBRule::Drop,
            max,
        ) == RunOut::Out(kept_in_range(ds, max)),
    decreases rows.len(),
{
    if rows.len() > 0 {
        lemma_drop_records_iff_in_range_run(rows.drop_first(), p, r, j, max);
        match extract_spec(rows[0], p, r, j) {
            Err(_) => {},
            Ok(m) => match pair_diffs(rows.drop_first(), p, r, j) {
                None => {},
                Some(t) => match m.rhs {
                    None => {},
                    Some(rv) => {
                        let ds = seq![m.primary - rv] + t;
                        assert(ds.drop_first() =~= t);
                        if 0 <= ds[0] < max {
                            assert(kept_in_range(ds, max) =~= seq![ds[0] as u64] + kept_in_range(
                                t,
                                max,
                            ));
                        }
                    },
                },
            },
        }
    }
}

/// Under `Saturate`, a run over decodable rows never fails: every matched
/// pair is recorded, its difference clamped to `[0, max]`.
pub proof fn lemma_saturate_never_fails_run(
    rows: Seq<Seq<Seq<char>>>,
    p: int,
    r: Option<int>,
    j: Option<int>,
    max: u64,
)
    ensures
        pair_diffs(rows, p, r, j) matches Some(ds) ==> run_single_spec(
            rows,
            p,
            r,
            j,
            OOBRule::Saturate,
            max,
        ) == RunOut::Out(clamped_all(ds, max)),
    decreases rows.len(),
{
    if rows.len() > 0 {
        lemma_saturate_never_fails_run(rows.drop_first(), p, r, j, max);
        match extract_spec(rows[0], p, r, j) {
            Err(_) => {},
            Ok(m) => match pair_diffs(rows.drop_first(), p, r, j) {
                None => {},
                Some(t) => match m.rhs {
                    None => {},
                    Some(rv) => {
                        let ds = seq![m.primary - rv] + t;
                        assert(ds.drop_first() =~= t);
                        assert(clamped_all(ds, max) =~= seq![clamp_spec(ds[0], max)]
                            + clamped_all(t, max));
                    },
                },
            },
        }
    }
}

/// Under `Error`, a run succeeds exactly when every matched pair's difference
/// lies in `[0, max)`; one negative or too-large difference makes the whole
/// run fail, so no output is emitted.
pub proof fn lemma_error_fatal_run(
    rows: Seq<Seq<Seq<char>>>,
    p: int,
    r: Option<int>,
    j: Option<int>,
    max: u64,
)
    ensures
        pair_diffs(rows, p, r, j) matches Some(ds) ==> {
            &&& (forall|i: int| 0 <= i < ds.len() ==> 0 <= #[trigger] ds[i] < max)
                ==> run_single_spec(rows, p, r, j, OOBRule::Error, max) == RunOut::Out(
                kept_in_range(ds, max),
            )
            &&& (exists|i: int| 0 <= i < ds.len() && !(0 <= #[trigger] ds[i] < max))
                ==> run_single_spec(rows, p, r, j, OOBRule::Error, max) == RunOut::Failed(
                FailKind::Range,
            )
        },
    decreases rows.len(),
{
    if rows.len() > 0 {
        lemma_error_fatal_run(rows.drop_first(), p, r, j, max);
        match extract_spec(rows[0], p, r, j) {
            Err(_) => {},
            Ok(m) => match pair_diffs(rows.drop_first(), p, r, j) {
                None => {},
                Some(t) => match m.rhs {
                    None => {},
                    Some(rv) => {
                        let d0 = m.primary - rv;
                        let ds = seq![d0] + t;
                        assert(ds.drop_first() =~= t);
                        assert(ds[0] == d0);
                        assert(forall|i: int| 0 <= i < t.len() ==> t[i] == ds[i + 1]);
                        if 0 <= d0 < max {
                            if forall|i: int| 0 <= i < ds.len() ==> 0 <= #[trigger] ds[i] < max {
                                assert(forall|i: int|
                                    0 <= i < t.len() ==> 0 <= #[trigger] t[i] < max);
                                assert(kept_in_range(ds, max) =~= seq![d0 as u64] + kept_in_range(
                                    t,
                                    max,
                                ));
                            }
                            if exists|i: int| 0 <= i < ds.len() && !(0 <= #[trigger] ds[i] < max) {
                                let i = choose|i: int|
                                    0 <= i < ds.len() && !(0 <= #[trigger] ds[i] < max);
                                assert(i > 0);
                                assert(t[i - 1] == ds[i]);
                            }
                        }
                    },
                },
            },
        }
    }
}

/// A scan for a key that never arrives exhausts the right stream: no match.
pub proof fn lemma_scan_no_match(
    key: Seq<char>,
    rem: Seq<Seq<Seq<char>>>,
    pend: Map<Seq<char>, MeasView>,
    p: int,
    r: Option<int>,
    j: Option<int>,
)
    requires
        rows_keyed(rem, p, r, j),
        !row_keys(rem, p, r, j).contains(key),
    ensures
        crate::join::scan_spec(key, rem, pend, p, r, j) is NotFound,
    decreases rem.len(),
{
    if rem.len() > 0 {
        let ks = row_keys(rem, p, r, j);
        let m0 = extract_spec(rem[0], p, r, j)->Ok_0;
        assert(ks[0] == crate::join::key_of(m0));
        let rem1 = rem.drop_first();
        lemma_tail_contains(ks, row_keys(rem1, p, r, j));
        assert(row_keys(rem1, p, r, j) =~= ks.drop_first());
        lemma_scan_no_match(key, rem1, pend.insert(crate::join::key_of(m0), m0), p, r, j);
    }
}

/// A scan that exhausts the right stream leaves a key that never occurred in
/// it exactly as it stood in the buffer before.
pub proof fn lemma_scan_preserves_absent(
    key: Seq<char>,
    rem: Seq<Seq<Seq<char>>>,
    pend: Map<Seq<char>, MeasView>,
    p: int,
    r: Option<int>,
    j: Option<int>,
    kk: Seq<char>,
)
    requires
        rows_keyed(rem, p, r, j),
        !row_keys(rem, p, r, j).contains(key),
        !row_keys(rem, p, r, j).contains(kk),
    ensures
        crate::join::scan_spec(key, rem, pend, p, r, j) matches crate::join::TakeOut::NotFound(
            pend2,
        ) && {
            &&& pend2.contains_key(kk) == pend.contains_key(kk)
            &&& pend.contains_key(kk) ==> pend2[kk] == pend[kk]
        },
    decreases rem.len(),
{
    lemma_scan_no_match(key, rem, pend, p, r, j);
    if rem.len() > 0 {
        let ks = row_keys(rem, p, r, j);
        let m0 = extract_spec(rem[0], p, r, j)->Ok_0;
        assert(ks[0] == crate::join::key_of(m0));
        assert(ks.contains(ks[0]));
        let rem1 = rem.drop_first();
        lemma_tail_contains(ks, row_keys(rem1, p, r, j));
        assert(row_keys(rem1, p, r, j) =~= ks.drop_first());
        lemma_scan_preserves_absent(
            key, rem1, pend.insert(crate::join::key_of(m0), m0), p, r, j, kk);
    }
}

/// A recurring join key overwrites: when the sought key never arrives, so the
/// whole right stream is buffered, the pending buffer afterwards holds, for a
/// key that recurs, exactly the measurement of the last row bearing it.
pub proof fn lemma_last_buffered_wins(
    key: Seq<char>,
    rem: Seq<Seq<Seq<char>>>,
    pend: Map<Seq<char>, MeasView>,
    p: int,
    r: Option<int>,
    j: Option<int>,
    b: int,
)
    requires
        rows_keyed(rem, p, r, j),
        !row_keys(rem, p, r, j).contains(key),
        0 <= b < rem.len(),
        forall|c: int| b < c < rem.len() ==> row_key(#[trigger] rem[c], p, r, j) != row_key(
            rem[b],
            p,
            r,
            j,
        ),
    ensures
        crate::join::scan_spec(key, rem, pend, p, r, j) matches crate::join::TakeOut::NotFound(
            pend2,
        ) && {
            &&& pend2.contains_key(row_key(rem[b], p, r, j))
            &&& pend2[row_key(rem[b], p, r, j)] == extract_spec(rem[b], p, r, j)->Ok_0
        },
    decreases rem.len(),
{
    lemma_scan_no_match(key, rem, pend, p, r, j);
    let ks = row_keys(rem, p, r, j);
    let k = row_key(rem[b], p, r, j);
    let m0 = extract_spec(rem[0], p, r, j)->Ok_0;
    assert(ks[0] == crate::join::key_of(m0));
    assert(ks.contains(ks[0]));
    let rem1 = rem.drop_first();
    let ks1 = row_keys(rem1, p, r, j);
    lemma_tail_contains(ks, ks1);
    assert(ks1 =~= ks.drop_first());
    let pend1 = pend.insert(crate::join::key_of(m0), m0);
    if b == 0 {
        assert(crate::join::key_of(m0) == k);
        assert(!ks1.contains(k)) by {
            if ks1.contains(k) {
                let c = choose|c: int| 0 <= c < ks1.len() && ks1[c] == k;
                assert(row_key(rem[c + 1], p, r, j) == k);
            }
        }
        lemma_scan_preserves_absent(key, rem1, pend1, p, r, j, k);
    } else {
        assert(rem1[b - 1] == rem[b]);
        assert(forall|c: int|
            b - 1 < c < rem1.len() ==> row_key(#[trigger] rem1[c], p, r, j) == row_key(
                rem[c + 1],
                p,
                r,
                j,
            ));
        lemma_last_buffered_wins(key, rem1, pend1, p, r, j, b - 1);
    }
}

/// The signed differences of the matched pairs a dual-stream run sees, in
/// order, or nothing when some row cannot be decoded. Left rows without a
/// join key, and keys the right stream never delivers, yield no pair.
pub open spec fn dual_pair_diffs(
    lrows: Seq<Seq<Seq<char>>>,
    lp: int,
    lj: Option<int>,
    rem: Seq<Seq<Seq<char>>>,
    pend: Map<Seq<char>, MeasView>,
    rp: int,
    rr: Option<int>,
    rj: Option<int>,
) -> Option<Seq<int>>
    decreases lrows.len(),
{
    if lrows.len() == 0 {
        Some(Seq::empty())
    } else {
        match extract_spec(lrows[0], lp, None, lj) {
            Err(_) => None,
            Ok(m) => match m.join {
                None => dual_pair_diffs(lrows.drop_first(), lp, lj, rem, pend, rp, rr, rj),
                Some(k) => match crate::join::take_spec(k, rem, pend, rp, rr, rj) {
                    crate::join::TakeOut::TakeFailed(_, _, _) => None,
                    crate::join::TakeOut::NotFound(pend2) => dual_pair_diffs(
                        lrows.drop_first(),
                        lp,
                        lj,
                        Seq::empty(),
                        pend2,
                        rp,
                        rr,
                        rj,
                    ),
                    crate::join::TakeOut::Found(rm, rem2, pend2) => match dual_pair_diffs(
                        lrows.drop_first(),
                        lp,
                        lj,
                        rem2,
                        pend2,
                        rp,
                        rr,
                        rj,
                    ) {
                        None => None,
                        Some(t) => Some(seq![m.primary - rm.primary] + t),
                    },
                },
            },
        }
    }
}

/// Under `Drop`, a dual-stream run over decodable streams never fails, and
/// records exactly the matched pairs whose difference lies in `[0, max)`, in
/// order.
pub proof fn lemma_dual_drop_records_iff_in_range(
    lrows: Seq<Seq<Seq<char>>>,
    lp: int,
    lj: Option<int>,
    rem: Seq<Seq<Seq<char>>>,
    pend: Map<Seq<char>, MeasView>,
    rp: int,
    rr: Option<int>,
    rj: Option<int>,
    max: u64,
)
    ensures
        dual_pair_diffs(lrows, lp, lj, rem, pend, rp, rr, rj) matches Some(ds)
            ==> (crate::pipeline::run_dual_spec(
            lrows,
            lp,
            lj,
            rem,
            pend,
            rp,
            rr,
            rj,
            OOBRule::Drop,
            max,
        ) matches crate::pipeline::DualOut::DOut(s, remf, pendf) && s == kept_in_range(ds, max)),
    decreases lrows.len(),
{
    if lrows.len() > 0 {
        match extract_spec(lrows[0], lp, None, lj) {
            Err(_) => {},
            Ok(m) => match m.join {
                None => {
                    lemma_dual_drop_records_iff_in_range(
                        lrows.drop_first(), lp, lj, rem, pend, rp, rr, rj, max);
                },
                Some(k) => match crate::join::take_spec(k, rem, pend, rp, rr, rj) {
                    crate::join::TakeOut::TakeFailed(_, _, _) => {},
                    crate::join::TakeOut::NotFound(pend2) => {
                        lemma_dual_drop_records_iff_in_range(
                            lrows.drop_first(), lp, lj, Seq::empty(), pend2, rp, rr, rj, max);
                    },
                    crate::join::TakeOut::Found(rm, rem2, pend2) => {
                        lemma_dual_drop_records_iff_in_range(
                            lrows.drop_first(), lp, lj, rem2, pend2, rp, rr, rj, max);
                        match dual_pair_diffs(lrows.drop_first(), lp, lj, rem2, pend2, rp, rr, rj) {
                            None => {},
                            Some(t) => {
                                let ds = seq![m.primary - rm.primary] + t;
                                assert(ds.drop_first() =~= t);
                                if 0 <= ds[0] < max {
                                    assert(kept_in_range(ds, max) =~= seq![ds[0] as u64]
                                        + kept_in_range(t, max));
                                }
                            },
                        }
                    },
                },
            },
        }
    }
}

/// Under `Saturate`, a dual-stream run over decodable streams never fails:
/// every matched pair is recorded, its difference clamped to `[0, max]`.
pub proof fn lemma_dual_saturate_never_fails(
    lrows: Seq<Seq<Seq<char>>>,
    lp: int,
    lj: Option<int>,
    rem: Seq<Seq<Seq<char>>>,
    pend: Map<Seq<char>, MeasView>,
    rp: int,
    rr: Option<int>,
    rj: Option<int>,
    max: u64,
)
    ensures
        dual_pair_diffs(lrows, lp, lj, rem, pend, rp, rr, rj) matches Some(ds)
            ==> (crate::pipeline::run_dual_spec(
            lrows,
            lp,
            lj,
            rem,
            pend,
            rp,
            rr,
            rj,
            OOBRule::Saturate,
            max,
        ) matches crate::pipeline::DualOut::DOut(s, remf, pendf) && s == clamped_all(ds, max)),
    decreases lrows.len(),
{
    if lrows.len() > 0 {
        match extract_spec(lrows[0], lp, None, lj) {
            Err(_) => {},
            Ok(m) => match m.join {
                None => {
                    lemma_dual_saturate_never_fails(
                        lrows.drop_first(), lp, lj, rem, pend, rp, rr, rj, max);
                },
                Some(k) => match crate::join::take_spec(k, rem, pend, rp, rr, rj) {
                    crate::join::TakeOut::TakeFailed(_, _, _) => {},
                    crate::join::TakeOut::NotFound(pend2) => {
                        lemma_dual_saturate_never_fails(
                            lrows.drop_first(), lp, lj, Seq::empty(), pend2, rp, rr, rj, max);
                    },
                    crate::join::TakeOut::Found(rm, rem2, pend2) => {
                        lemma_dual_saturate_never_fails(
                            lrows.drop_first(), lp, lj, rem2, pend2, rp, rr, rj, max);
                        match dual_pair_diffs(lrows.drop_first(), lp, lj, rem2, pend2, rp, rr, rj) {
                            None => {},
                            Some(t) => {
                                let ds = seq![m.primary - rm.primary] + t;
                                assert(ds.drop_first() =~= t);
                                assert(clamped_all(ds, max) =~= seq![clamp_spec(ds[0], max)]
                                    + clamped_all(t, max));
                            },
                        }
                    },
                },
            },
        }
    }
}

/// Under `Error`, one negative or too-large difference among the matched
/// pairs makes the whole run fail, so no output is emitted (dual-stream
/// form).
pub proof fn lemma_dual_error_fatal(
    lrows: Seq<Seq<Seq<char>>>,
    lp: int,
    lj: Option<int>,
    rem: Seq<Seq<Seq<char>>>,
    pend: Map<Seq<char>, MeasView>,
    rp: int,
    rr: Option<int>,
    rj: Option<int>,
    max: u64,
)
    ensures
        dual_pair_diffs(lrows, lp, lj, rem, pend, rp, rr, rj) matches Some(ds) ==> ((exists|
            i: int,
        | 0 <= i < ds.len() && !(0 <= #[trigger] ds[i] < max)) ==> crate::pipeline::run_dual_spec(
            lrows,
            lp,
            lj,
            rem,
            pend,
            rp,
            rr,
            rj,
            OOBRule::Error,
            max,
        ) == crate::pipeline::DualOut::DFailed(FailKind::Range)),
    decreases lrows.len(),
{
    if lrows.len() > 0 {
        match extract_spec(lrows[0], lp, None, lj) {
            Err(_) => {},
            Ok(m) => match m.join {
                None => {
                    lemma_dual_error_fatal(
                        lrows.drop_first(), lp, lj, rem, pend, rp, rr, rj, max);
                },
                Some(k) => match crate::join::take_spec(k, rem, pend, rp, rr, rj) {
                    crate::join::TakeOut::TakeFailed(_, _, _) => {},
                    crate::join::TakeOut::NotFound(pend2) => {
                        lemma_dual_error_fatal(
                            lrows.drop_first(), lp, lj, Seq::empty(), pend2, rp, rr, rj, max);
                    },
                    crate::join::TakeOut::Found(rm, rem2, pend2) => {
                        lemma_dual_error_fatal(
                            lrows.drop_first(), lp, lj, rem2, pend2, rp, rr, rj, max);
                        match dual_pair_diffs(lrows.drop_first(), lp, lj, rem2, pend2, rp, rr, rj) {
                            None => {},
                            Some(t) => {
                                let d0 = m.primary - rm.primary;
                                let ds = seq![d0] + t;
                                assert(ds.drop_first() =~= t);
                                assert(ds[0] == d0);
                                assert(forall|i: int| 0 <= i < t.len() ==> t[i] == ds[i + 1]);
                                if 0 <= d0 < max {
                                    if exists|i: int|
                                        0 <= i < ds.len() && !(0 <= #[trigger] ds[i] < max) {
                                        let i = choose|i: int|
                                            0 <= i < ds.len() && !(0 <= #[trigger] ds[i] < max);
                                        assert(i > 0);
                                        assert(t[i - 1] == ds[i]);
                                    }
                                }
                            },
                        }
                    },
                },
            },
        }
    }
}


/// Two runs on identical inputs with identical configuration that both
/// produce output produce byte-identical output: the serialized text is a
/// function of the histogram parameters and the recorded values alone.
pub proof fn lemma_identical_runs_identical_output(
    s1: String,
    s2: String,
    max_value: u64,
    sigfigs: u8,
    run: RunOut,
)
    requires
        outcome_matches(Ok(s1), max_value, sigfigs, run),
        outcome_matches(Ok(s2), max_value, sigfigs, run),
    ensures
        s1@ == s2@,
{
}

/// Membership in a sequence's tail, spelled out for a tail held in its own
/// variable.
pub proof fn lemma_tail_contains<A>(s: Seq<A>, t: Seq<A>)
    requires
        s.len() > 0,
        t =~= s.drop_first(),
    ensures
        forall|x: A| #[trigger] t.contains(x) ==> s.contains(x),
        forall|x: A| #[trigger] s.contains(x) ==> x == s[0] || t.contains(x),
        s.no_duplicates() ==> !t.contains(s[0]),
        s.no_duplicates() ==> t.no_duplicates(),
{
    assert forall|x: A| #[trigger] t.contains(x) implies s.contains(x) by {
        let i = choose|i: int| 0 <= i < t.len() && t[i] == x;
        assert(s[i + 1] == x);
    }
    assert forall|x: A| #[trigger] s.contains(x) implies x == s[0] || t.contains(x) by {
        let i = choose|i: int| 0 <= i < s.len() && s[i] == x;
        if i != 0 {
            assert(t[i - 1] == x);
        }
    }
    if s.no_duplicates() {
        if t.contains(s[0]) {
            let i = choose|i: int| 0 <= i < t.len() && t[i] == s[0];
            assert(s[i + 1] == s[0]);
        }
    }
}

/// Every row of a stream decodes into a measurement.
pub open spec fn rows_decodable(
    rows: Seq<Seq<Seq<char>>>,
    p: int,
    r: Option<int>,
    j: Option<int>,
) -> bool {
    forall|i: int| 0 <= i < rows.len() ==> extract_spec(#[trigger] rows[i], p, r, j) is Ok
}

/// A scan over decodable right rows never fails, and the rows it leaves
/// unread are still decodable.
pub proof fn lemma_scan_decodable(
    key: Seq<char>,
    rem: Seq<Seq<Seq<char>>>,
    pend: Map<Seq<char>, MeasView>,
    p: int,
    r: Option<int>,
    j: Option<int>,
)
    requires
        rows_decodable(rem, p, r, j),
    ensures
        !(crate::join::scan_spec(key, rem, pend, p, r, j) is TakeFailed),
        crate::join::scan_spec(key, rem, pend, p, r, j) matches crate::join::TakeOut::Found(
            m,
            rem2,
            pend2,
        ) ==> rows_decodable(rem2, p, r, j),
    decreases rem.len(),
{
    if rem.len() > 0 {
        let rem1 = rem.drop_first();
        assert(rows_decodable(rem1, p, r, j)) by {
            assert(forall|i: int| 0 <= i < rem1.len() ==> #[trigger] rem1[i] == rem[i + 1]);
        }
        let m0 = extract_spec(rem[0], p, r, j)->Ok_0;
        match m0.join {
            None => {
                lemma_scan_decodable(key, rem1, pend, p, r, j);
            },
            Some(k2) => {
                if k2 != key {
                    lemma_scan_decodable(key, rem1, pend.insert(k2, m0), p, r, j);
                }
            },
        }
    }
}

/// Under a rule other than `Error`, a dual-stream run over decodable rows
/// never fails: recording never aborts, whatever the differences are.
pub proof fn lemma_dual_never_fails(
    lrows: Seq<Seq<Seq<char>>>,
    lp: int,
    lj: Option<int>,
    rem: Seq<Seq<Seq<char>>>,
    pend: Map<Seq<char>, MeasView>,
    rp: int,
    rr: Option<int>,
    rj: Option<int>,
    rule: OOBRule,
    max: u64,
)
    requires
        rows_decodable(lrows, lp, None, lj),
        rows_decodable(rem, rp, rr, rj),
        !(rule is Error),
    ensures
        crate::pipeline::run_dual_spec(lrows, lp, lj, rem, pend, rp, rr, rj, rule, max)
            is DOut,
    decreases lrows.len(),
{
    if lrows.len() > 0 {
        let lrest = lrows.drop_first();
        assert(rows_decodable(lrest, lp, None, lj)) by {
            assert(forall|i: int| 0 <= i < lrest.len() ==> #[trigger] lrest[i] == lrows[i + 1]);
        }
        let m = extract_spec(lrows[0], lp, None, lj)->Ok_0;
        match m.join {
            None => {
                lemma_dual_never_fails(lrest, lp, lj, rem, pend, rp, rr, rj, rule, max);
            },
            Some(k) => {
                lemma_scan_decodable(k, rem, pend, rp, rr, rj);
                match crate::join::take_spec(k, rem, pend, rp, rr, rj) {
                    crate::join::TakeOut::Found(rm, rem2, pend2) => {
                        lemma_dual_never_fails(lrest, lp, lj, rem2, pend2, rp, rr, rj, rule, max);
                    },
                    crate::join::TakeOut::NotFound(pend2) => {
                        assert(rows_decodable(Seq::empty(), rp, rr, rj));
                        lemma_dual_never_fails(
                            lrest, lp, lj, Seq::empty(), pend2, rp, rr, rj, rule, max);
                    },
                    crate::join::TakeOut::TakeFailed(_, _, _) => {},
                }
            },
        }
    }
}

/// The join key a row yields under a reader, where it decodes and has one.
pub open spec fn row_key(row: Seq<Seq<char>>, p: int, r: Option<int>, j: Option<int>) -> Seq<
    char,
> {
    match extract_spec(row, p, r, j) {
        Ok(m) => crate::join::key_of(m),
        Err(_) => Seq::empty(),
    }
}

/// Every row decodes and carries a join key.
pub open spec fn rows_keyed(
    rows: Seq<Seq<Seq<char>>>,
    p: int,
    r: Option<int>,
    j: Option<int>,
) -> bool {
    forall|i: int|
        0 <= i < rows.len() ==> (match extract_spec(#[trigger] rows[i], p, r, j) {
            Ok(m) => m.join is Some,
            Err(_) => false,
        })
}

/// The join keys of the rows, in order.
pub open spec fn row_keys(
    rows: Seq<Seq<Seq<char>>>,
    p: int,
    r: Option<int>,
    j: Option<int>,
) -> Seq<Seq<char>> {
    Seq::new(rows.len(), |i: int| row_key(rows[i], p, r, j))
}

/// One scan for a key that occurs exactly once in the unread right rows finds
/// its row, and afterwards the keys still available (buffered or unread) are
/// exactly the ones available before, less the key found.
pub proof fn lemma_scan_unique(
    key: Seq<char>,
    rem: Seq<Seq<Seq<char>>>,
    pend: Map<Seq<char>, MeasView>,
    p: int,
    r: Option<int>,
    j: Option<int>,
)
    requires
        rows_keyed(rem, p, r, j),
        row_keys(rem, p, r, j).no_duplicates(),
        pend.dom().disjoint(row_keys(rem, p, r, j).to_set()),
        row_keys(rem, p, r, j).to_set().contains(key),
    ensures
        crate::join::scan_spec(key, rem, pend, p, r, j) matches crate::join::TakeOut::Found(
            m,
            rem2,
            pend2,
        ) && {
            &&& rows_keyed(rem2, p, r, j)
            &&& row_keys(rem2, p, r, j).no_duplicates()
            &&& pend2.dom().disjoint(row_keys(rem2, p, r, j).to_set())
            &&& pend2.dom().union(row_keys(rem2, p, r, j).to_set()) =~= pend.dom().union(
                row_keys(rem, p, r, j).to_set(),
            ).remove(key)
        },
    decreases rem.len(),
{
    let ks = row_keys(rem, p, r, j);
    assert(rem.len() > 0);
    let m0 = extract_spec(rem[0], p, r, j)->Ok_0;
    let k0 = crate::join::key_of(m0);
    assert(ks[0] == k0);
    let rem1 = rem.drop_first();
    let ks1 = row_keys(rem1, p, r, j);
    assert(ks1 =~= ks.drop_first());
    assert(forall|i: int| 0 <= i < ks1.len() ==> ks1[i] == ks[i + 1]);
    lemma_tail_contains(ks, ks1);
    if k0 == key {
        assert(pend.dom().union(ks1.to_set()) =~= pend.dom().union(ks.to_set()).remove(key));
    } else {
        let pend1 = pend.insert(k0, m0);
        assert(ks.contains(key));
        assert(ks1.contains(key));
        assert(!ks1.contains(k0));
        assert(pend1.dom().disjoint(ks1.to_set()));
        lemma_scan_unique(key, rem1, pend1, p, r, j);
        assert(pend1.dom().union(ks1.to_set()) =~= pend.dom().union(ks.to_set()));
    }
}

/// A `take` for a key available exactly once (buffered or still unread)
/// matches it, and afterwards the available keys are exactly the ones
/// available before, less the key taken.
pub proof fn lemma_take_unique(
    key: Seq<char>,
    rem: Seq<Seq<Seq<char>>>,
    pend: Map<Seq<char>, MeasView>,
    p: int,
    r: Option<int>,
    j: Option<int>,
)
    requires
        rows_keyed(rem, p, r, j),
        row_keys(rem, p, r, j).no_duplicates(),
        pend.dom().disjoint(row_keys(rem, p, r, j).to_set()),
        pend.dom().union(row_keys(rem, p, r, j).to_set()).contains(key),
    ensures
        crate::join::take_spec(key, rem, pend, p, r, j) matches crate::join::TakeOut::Found(
            m,
            rem2,
            pend2,
        ) && {
            &&& rows_keyed(rem2, p, r, j)
            &&& row_keys(rem2, p, r, j).no_duplicates()
            &&& pend2.dom().disjoint(row_keys(rem2, p, r, j).to_set())
            &&& pend2.dom().union(row_keys(rem2, p, r, j).to_set()) =~= pend.dom().union(
                row_keys(rem, p, r, j).to_set(),
            ).remove(key)
        },
{
    let ks = row_keys(rem, p, r, j);
    if pend.contains_key(key) {
        assert(pend.remove(key).dom().union(ks.to_set()) =~= pend.dom().union(ks.to_set()).remove(
            key,
        ));
    } else {
        lemma_scan_unique(key, rem, pend, p, r, j);
    }
}

/// Join correctness: when every left row carries a key, the left keys are
/// pairwise distinct, and the keys still available on the right side
/// (buffered or unread, each at most once) are exactly the left keys, then
/// under `Saturate` every left row is matched exactly once — the run records
/// one value per left row — and at run end the pending buffer is empty and
/// the right stream is exhausted.
pub proof fn lemma_join_complete(
    lrows: Seq<Seq<Seq<char>>>,
    lp: int,
    lj: Option<int>,
    rem: Seq<Seq<Seq<char>>>,
    pend: Map<Seq<char>, MeasView>,
    rp: int,
    rr: Option<int>,
    rj: Option<int>,
    max: u64,
)
    requires
        rows_keyed(lrows, lp, None, lj),
        row_keys(lrows, lp, None, lj).no_duplicates(),
        rows_keyed(rem, rp, rr, rj),
        row_keys(rem, rp, rr, rj).no_duplicates(),
        pend.dom().disjoint(row_keys(rem, rp, rr, rj).to_set()),
        pend.dom().union(row_keys(rem, rp, rr, rj).to_set()) =~= row_keys(
            lrows,
            lp,
            None,
            lj,
        ).to_set(),
    ensures
        crate::pipeline::run_dual_spec(
            lrows,
            lp,
            lj,
            rem,
            pend,
            rp,
            rr,
            rj,
            OOBRule::Saturate,
            max,
        ) matches crate::pipeline::DualOut::DOut(s, remf, pendf) && {
            &&& s.len() == lrows.len()
            &&& pendf.dom() =~= Set::<Seq<char>>::empty()
            &&& remf.len() == 0
        },
    decreases lrows.len(),
{
    let lks = row_keys(lrows, lp, None, lj);
    let rks = row_keys(rem, rp, rr, rj);
    if lrows.len() == 0 {
        assert(pend.dom() =~= Set::<Seq<char>>::empty()) by {
            assert(forall|k: Seq<char>| pend.dom().contains(k) ==> lks.to_set().contains(k));
        }
        assert(rem.len() == 0) by {
            if rem.len() > 0 {
                assert(rks.contains(rks[0]));
                assert(lks.to_set().contains(rks[0]));
            }
        }
    } else {
        let m = extract_spec(lrows[0], lp, None, lj)->Ok_0;
        let k = crate::join::key_of(m);
        assert(lks[0] == k);
        assert(m.join == Some(k));
        assert(lks.to_set().contains(k));
        lemma_take_unique(k, rem, pend, rp, rr, rj);
        match crate::join::take_spec(k, rem, pend, rp, rr, rj) {
            crate::join::TakeOut::Found(rm, rem2, pend2) => {
                let lrest = lrows.drop_first();
                let lks1 = row_keys(lrest, lp, None, lj);
                assert(lks1 =~= lks.drop_first());
                assert(forall|i: int| 0 <= i < lks1.len() ==> lks1[i] == lks[i + 1]);
                lemma_tail_contains(lks, lks1);
                assert(!lks1.contains(k));
                assert(lks.to_set().remove(k) =~= lks1.to_set());
                assert(pend2.dom().union(row_keys(rem2, rp, rr, rj).to_set()) =~= lks1.to_set());
                lemma_join_complete(lrest, lp, lj, rem2, pend2, rp, rr, rj, max);
                assert(decide_spec(OOBRule::Saturate, m.primary - rm.primary, max)
                    is Record);
            },
            _ => {
                assert(false);
            },
        }
    }
}

} // verus!
