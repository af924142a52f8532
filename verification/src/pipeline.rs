use vstd::prelude::*;
use vstd::multiset::Multiset;
use crate::errors::Error;
use crate::rows::{Reader, ExtractErr, extract_spec, opt_int, new_reader, find_col};
use crate::policy::{OOBRule, Disposition, decide, decide_spec, diff_of};
use crate::join::{JoinRHS, TakeOut, take_spec};
use crate::hist::{Hist, serialized_hist, base64_of, base64_encode};

verus! {

/// Why a run failed.
pub enum FailKind {
    /// A configured column or join column name is not in the header.
    MissingColumn,
    /// A row has no field at the primary column.
    MissingField,
    /// A required field could not be decoded as an integer.
    Malformed,
    /// A difference violated the `Error` disposition.
    Range,
}

/// The outcome of a run: the recorded values in order, or the first failure.
pub enum RunOut {
    Out(Seq<u64>),
    Failed(FailKind),
}

/// The failure a row extraction error becomes.
pub open spec fn fail_of(e: ExtractErr) -> FailKind {
    match e {
        ExtractErr::MissingPrimary => FailKind::MissingField,
        ExtractErr::Malformed => FailKind::Malformed,
    }
}

/// A library error matches a run failure kind.
pub open spec fn err_matches(e: Error, k: FailKind) -> bool {
    match k {
        FailKind::MissingColumn => e is ParseIntError,
        FailKind::MissingField => e is UserError,
        FailKind::Malformed => e is ParseIntError,
        FailKind::Range => e is UserError,
    }
}

/// The single-stream run: rows are taken in order; a row whose secondary
/// value is missing is a missing observation and contributes nothing; for the
/// rest the difference `primary - secondary` goes through the out-of-bounds
/// rule, and the run stops at the first fatal outcome.
pub open spec fn run_single_spec(
    rows: Seq<Seq<Seq<char>>>,
    p: int,
    r: Option<int>,
    j: Option<int>,
    rule: OOBRule,
    max: u64,
) -> RunOut
    decreases rows.len(),
{
    if rows.len() == 0 {
        RunOut::Out(Seq::empty())
    } else {
        match extract_spec(rows[0], p, r, j) {
            Err(e) => RunOut::Failed(fail_of(e)),
            Ok(m) => {
                let rest = run_single_spec(rows.drop_first(), p, r, j, rule, max);
                match m.rhs {
                    None => rest,
                    Some(rv) => match decide_spec(rule, diff_of(m.primary, rv), max) {
                        Disposition::Fail => RunOut::Failed(FailKind::Range),
                        Disposition::Skip => rest,
                        Disposition::Record(x) => match rest {
                            RunOut::Out(s) => RunOut::Out(seq![x] + s),
                            RunOut::Failed(k) => RunOut::Failed(k),
                        },
                    },
                }
            },
        }
    }
}

/// Every value a successful run records is at most `max`.
pub proof fn lemma_run_single_bounded(
    rows: Seq<Seq<Seq<char>>>,
    p: int,
    r: Option<int>,
    j: Option<int>,
    rule: OOBRule,
    max: u64,
)
    ensures
        run_single_spec(rows, p, r, j, rule, max) matches RunOut::Out(s) ==> forall|i: int|
            0 <= i < s.len() ==> #[trigger] s[i] <= max,
    decreases rows.len(),
{
    if rows.len() > 0 {
        lemma_run_single_bounded(rows.drop_first(), p, r, j, rule, max);
    }
}

/// Run the single-stream pipeline over the decoded rows, returning the values
/// to record in order, exactly as `run_single_spec` says.
pub fn run_single(reader: &Reader, rows: &Vec<Vec<String>>, rule: OOBRule, max: u64) -> (r: Result<
    Vec<u64>,
    Error,
>)
    ensures
        match run_single_spec(
            rows.deep_view(),
            reader.primary_idx as int,
            opt_int(reader.rhs_idx),
            opt_int(reader.join_idx),
            rule,
            max,
        ) {
            RunOut::Out(s) => r matches Ok(v) && v@ == s,
            RunOut::Failed(k) => r matches Err(e) && err_matches(e, k),
        },
{
    let ghost all = rows.deep_view();
    let ghost p = reader.primary_idx as int;
    let ghost ri = opt_int(reader.rhs_idx);
    let ghost ji = opt_int(reader.join_idx);
    let mut out: Vec<u64> = Vec::new();
    let mut i: usize = 0;
    proof {
        assert(all.skip(0) =~= all);
    }
    while i < rows.len()
        invariant
            0 <= i <= rows.len(),
            all == rows.deep_view(),
            all.len() == rows.len(),
            p == reader.primary_idx as int,
            ri == opt_int(reader.rhs_idx),
            ji == opt_int(reader.join_idx),
            run_single_spec(all, p, ri, ji, rule, max) == (match run_single_spec(
                all.skip(i as int),
                p,
                ri,
                ji,
                rule,
                max,
            ) {
                RunOut::Out(s) => RunOut::Out(out@ + s),
                RunOut::Failed(k) => RunOut::Failed(k),
            }),
        decreases rows.len() - i,
    {
        let ghost suf = all.skip(i as int);
        let row = &rows[i];
        proof {
            assert(suf[0] == all[i as int]);
            assert(suf[0] == row.deep_view());
            assert(suf.drop_first() =~= all.skip(i + 1));
        }
        let m = match reader.next(row) {
            Ok(m) => m,
            Err(e) => {
                return Err(e);
            },
        };
        i += 1;
        let rhs = match m.rhs {
            Some(rv) => rv,
            None => {
                continue;
            },
        };
        match decide(rule, m.primary, rhs, max) {
            Disposition::Fail => {
                return Err(Error::UserError(String::from_str("difference out of range")));
            },
            Disposition::Skip => {},
            Disposition::Record(x) => {
                let ghost out_b = out@;
                out.push(x);
                proof {
                    match run_single_spec(suf.drop_first(), p, ri, ji, rule, max) {
                        RunOut::Out(s) => {
                            assert(out_b + (seq![x] + s) =~= out@ + s);
                        },
                        RunOut::Failed(_) => {},
                    }
                }
            },
        }
    }
    proof {
        assert(all.skip(i as int) =~= Seq::<Seq<Seq<char>>>::empty());
        assert(out@ + Seq::<u64>::empty() =~= out@);
    }
    Ok(out)
}

/// The outcome of a dual-stream run: the recorded values in order together
/// with the right rows never read and the pending buffer at run end, or the
/// first failure.
pub enum DualOut {
    DOut(Seq<u64>, Seq<Seq<Seq<char>>>, Map<Seq<char>, crate::rows::MeasView>),
    DFailed(FailKind),
}

/// The dual-stream run: each left row with a join key asks the merge join for
/// the right row sharing that key; a left row without a key, or one whose key
/// never arrives, contributes nothing; each matched pair's difference of
/// primaries goes through the out-of-bounds rule; the run stops at the first
/// fatal outcome.
pub open spec fn run_dual_spec(
    lrows: Seq<Seq<Seq<char>>>,
    lp: int,
    lj: Option<int>,
    rem: Seq<Seq<Seq<char>>>,
    pend: Map<Seq<char>, crate::rows::MeasView>,
    rp: int,
    rr: Option<int>,
    rj: Option<int>,
    rule: OOBRule,
    max: u64,
) -> DualOut
    decreases lrows.len(),
{
    if lrows.len() == 0 {
        DualOut::DOut(Seq::empty(), rem, pend)
    } else {
        match extract_spec(lrows[0], lp, None, lj) {
            Err(e) => DualOut::DFailed(fail_of(e)),
            Ok(m) => match m.join {
                None => run_dual_spec(lrows.drop_first(), lp, lj, rem, pend, rp, rr, rj, rule, max),
                Some(k) => match take_spec(k, rem, pend, rp, rr, rj) {
                    TakeOut::TakeFailed(e, rem2, pend2) => DualOut::DFailed(fail_of(e)),
                    TakeOut::NotFound(pend2) => run_dual_spec(
                        lrows.drop_first(),
                        lp,
                        lj,
                        Seq::empty(),
                        pend2,
                        rp,
                        rr,
                        rj,
                        rule,
                        max,
                    ),
                    TakeOut::Found(rm, rem2, pend2) => match decide_spec(
                        rule,
                        diff_of(m.primary, rm.primary),
                        max,
                    ) {
                        Disposition::Fail => DualOut::DFailed(FailKind::Range),
                        Disposition::Skip => run_dual_spec(
                            lrows.drop_first(),
                            lp,
                            lj,
                            rem2,
                            pend2,
                            rp,
                            rr,
                            rj,
                            rule,
                            max,
                        ),
                        Disposition::Record(x) => match run_dual_spec(
                            lrows.drop_first(),
                            lp,
                            lj,
                            rem2,
                            pend2,
                            rp,
                            rr,
                            rj,
                            rule,
                            max,
                        ) {
                            DualOut::DOut(s, remf, pendf) => DualOut::DOut(seq![x] + s, remf, pendf),
                            DualOut::DFailed(k) => DualOut::DFailed(k),
                        },
                    },
                },
            },
        }
    }
}

/// Every value a successful dual run records is at most `max`.
pub proof fn lemma_run_dual_bounded(
    lrows: Seq<Seq<Seq<char>>>,
    lp: int,
    lj: Option<int>,
    rem: Seq<Seq<Seq<char>>>,
    pend: Map<Seq<char>, crate::rows::MeasView>,
    rp: int,
    rr: Option<int>,
    rj: Option<int>,
    rule: OOBRule,
    max: u64,
)
    ensures
        run_dual_spec(lrows, lp, lj, rem, pend, rp, rr, rj, rule, max) matches DualOut::DOut(
            s,
            remf,
            pendf,
        ) ==> forall|i: int| 0 <= i < s.len() ==> #[trigger] s[i] <= max,
    decreases lrows.len(),
{
    if lrows.len() > 0 {
        match extract_spec(lrows[0], lp, None, lj) {
            Err(e) => {},
            Ok(m) => match m.join {
                None => {
                    lemma_run_dual_bounded(
                        lrows.drop_first(), lp, lj, rem, pend, rp, rr, rj, rule, max);
                },
                Some(k) => match take_spec(k, rem, pend, rp, rr, rj) {
                    TakeOut::TakeFailed(e, rem2, pend2) => {},
                    TakeOut::NotFound(pend2) => {
                        lemma_run_dual_bounded(
                            lrows.drop_first(), lp, lj, Seq::empty(), pend2, rp, rr, rj, rule, max);
                    },
                    TakeOut::Found(rm, rem2, pend2) => {
                        lemma_run_dual_bounded(
                            lrows.drop_first(), lp, lj, rem2, pend2, rp, rr, rj, rule, max);
                    },
                },
            },
        }
    }
}

/// Run the dual-stream pipeline: drive the merge join over the decoded left
/// rows, returning the values to record in order, exactly as `run_dual_spec`
/// says on the initial state (all right rows unread, empty buffer).
pub fn run_dual(
    lreader: &Reader,
    lrows: &Vec<Vec<String>>,
    rreader: Reader,
    rrows: Vec<Vec<String>>,
    rule: OOBRule,
    max: u64,
) -> (r: Result<Vec<u64>, Error>)
    requires
        lreader.rhs_idx is None,
    ensures
        match run_dual_spec(
            lrows.deep_view(),
            lreader.primary_idx as int,
            opt_int(lreader.join_idx),
            rrows.deep_view(),
            Map::empty(),
            rreader.primary_idx as int,
            opt_int(rreader.rhs_idx),
            opt_int(rreader.join_idx),
            rule,
            max,
        ) {
            DualOut::DOut(s, remf, pendf) => r matches Ok(v) && v@ == s,
            DualOut::DFailed(k) => r matches Err(e) && err_matches(e, k),
        },
{
    let ghost all = lrows.deep_view();
    let ghost lp = lreader.primary_idx as int;
    let ghost lj = opt_int(lreader.join_idx);
    let ghost rp = rreader.primary_idx as int;
    let ghost rr = opt_int(rreader.rhs_idx);
    let ghost rj = opt_int(rreader.join_idx);
    let mut engine = JoinRHS::new(rreader, rrows);
    let ghost rem0 = engine.remaining();
    let ghost pend0 = engine.pend();
    let mut out: Vec<u64> = Vec::new();
    let mut i: usize = 0;
    proof {
        assert(all.skip(0) =~= all);
    }
    while i < lrows.len()
        invariant
            0 <= i <= lrows.len(),
            all == lrows.deep_view(),
            all.len() == lrows.len(),
            lp == lreader.primary_idx as int,
            lj == opt_int(lreader.join_idx),
            lreader.rhs_idx is None,
            engine.wf(),
            rp == engine.reader.primary_idx as int,
            rr == opt_int(engine.reader.rhs_idx),
            rj == opt_int(engine.reader.join_idx),
            rem0 == rrows.deep_view(),
            pend0 == Map::<Seq<char>, crate::rows::MeasView>::empty(),
            rp == rreader.primary_idx as int,
            rr == opt_int(rreader.rhs_idx),
            rj == opt_int(rreader.join_idx),
            run_dual_spec(all, lp, lj, rem0, pend0, rp, rr, rj, rule, max) == (
            match run_dual_spec(
                all.skip(i as int),
                lp,
                lj,
                engine.remaining(),
                engine.pend(),
                rp,
                rr,
                rj,
                rule,
                max,
            ) {
                DualOut::DOut(s, remf, pendf) => DualOut::DOut(out@ + s, remf, pendf),
                DualOut::DFailed(k) => DualOut::DFailed(k),
            }),
        decreases lrows.len() - i,
    {
        let ghost suf = all.skip(i as int);
        let row = &lrows[i];
        proof {
            assert(suf[0] == all[i as int]);
            assert(suf[0] == row.deep_view());
            assert(suf.drop_first() =~= all.skip(i + 1));
        }
        let m = match lreader.next(row) {
            Ok(m) => m,
            Err(e) => {
                return Err(e);
            },
        };
        i += 1;
        let key = match m.join {
            Some(k) => k,
            None => {
                continue;
            },
        };
        let ghost rem_b = engine.remaining();
        let ghost pend_b = engine.pend();
        let rm = match engine.take(key) {
            Ok(Some(rm)) => rm,
            Ok(None) => {
                proof {
                    assert(engine.remaining() =~= Seq::<Seq<Seq<char>>>::empty());
                }
                continue;
            },
            Err(e) => {
                return Err(e);
            },
        };
        match decide(rule, m.primary, rm.primary, max) {
            Disposition::Fail => {
                return Err(Error::UserError(String::from_str("difference out of range")));
            },
            Disposition::Skip => {},
            Disposition::Record(x) => {
                let ghost out_b = out@;
                out.push(x);
                proof {
                    match run_dual_spec(
                        suf.drop_first(),
                        lp,
                        lj,
                        engine.remaining(),
                        engine.pend(),
                        rp,
                        rr,
                        rj,
                        rule,
                        max,
                    ) {
                        DualOut::DOut(s, remf, pendf) => {
                            assert(out_b + (seq![x] + s) =~= out@ + s);
                        },
                        DualOut::DFailed(_) => {},
                    }
                }
            },
        }
    }
    proof {
        assert(all.skip(i as int) =~= Seq::<Seq<Seq<char>>>::empty());
        assert(out@ + Seq::<u64>::empty() =~= out@);
    }
    Ok(out)
}

/// Record the run's values into the fresh histogram and serialize it: the
/// output is the base64 text of the deflate-compressed V2 encoding of a
/// histogram holding exactly those values. Success is owed whenever the
/// values can be counted in an `i64` and the encoding fits the base64 bound.
pub(crate) fn fill_and_serialize(hist: Hist, deltas: &Vec<u64>) -> (r: Result<String, Error>)
    requires
        crate::hist::hist_entries(hist) == Multiset::<u64>::empty(),
        forall|i: int| 0 <= i < deltas@.len() ==> #[trigger] deltas@[i] <= crate::hist::hist_high(
            hist,
        ),
    ensures
        r matches Ok(s) ==> s@ == base64_of(
            serialized_hist(
                crate::hist::hist_high(hist),
                crate::hist::hist_sigfigs(hist),
                deltas@.to_multiset(),
            ),
        ),
        r matches Err(e) ==> e is HistError,
        (deltas@.len() <= i64::MAX as int && serialized_hist(
            crate::hist::hist_high(hist),
            crate::hist::hist_sigfigs(hist),
            deltas@.to_multiset(),
        ).len() <= usize::MAX as int / 4) ==> r is Ok,
{
    let ghost max_value = crate::hist::hist_high(hist);
    let ghost sigfigs = crate::hist::hist_sigfigs(hist);
    if deltas.len() as u64 > i64::MAX as u64 {
        return Err(Error::HistError(String::from_str("too many recorded values to serialize")));
    }
    let mut hist = hist;
    let mut i: usize = 0;
    proof {
        assert(deltas@.subrange(0, 0int) =~= Seq::<u64>::empty());
        deltas@.subrange(0, 0int).to_multiset_ensures();
        assert(deltas@.subrange(0, 0int).to_multiset() =~= Multiset::<u64>::empty());
    }
    while i < deltas.len()
        invariant
            0 <= i <= deltas@.len(),
            forall|k: int| 0 <= k < deltas@.len() ==> #[trigger] deltas@[k] <= max_value,
            crate::hist::hist_high(hist) == max_value,
            crate::hist::hist_sigfigs(hist) == sigfigs,
            crate::hist::hist_entries(hist) == deltas@.subrange(0, i as int).to_multiset(),
        decreases deltas@.len() - i,
    {
        let ok = hist.record(deltas[i]);
        if !ok {
            return Err(Error::HistError(String::from_str("value rejected by histogram")));
        }
        proof {
            assert(deltas@.subrange(0, i + 1) =~= deltas@.subrange(0, i as int).push(
                deltas@[i as int],
            ));
            deltas@.subrange(0, i as int).to_multiset_ensures();
            assert(deltas@.subrange(0, i as int).push(deltas@[i as int]).to_multiset()
                =~= deltas@.subrange(0, i as int).to_multiset().insert(deltas@[i as int]));
        }
        i += 1;
    }
    proof {
        assert(deltas@.subrange(0, i as int) =~= deltas@);
        deltas@.to_multiset_ensures();
    }
    let bytes = match hist.serialize() {
        Some(b) => b,
        None => {
            return Err(Error::HistError(String::from_str("histogram serialization failed")));
        },
    };
    if bytes.len() > usize::MAX / 4 {
        return Err(Error::HistError(String::from_str("serialized histogram too large")));
    }
    Ok(base64_encode(&bytes))
}

} // verus!
