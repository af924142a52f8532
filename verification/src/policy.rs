use vstd::prelude::*;

verus! {

/// An out-of-bounds rule: how a difference outside the histogram's
/// representable range is handled before recording.
#[derive(Debug, Clone, Copy, PartialEq, Eq, Structural)]
pub enum OOBRule {
    Error,
    Drop,
    Saturate,
}

/// What the policy decided for one matched pair: record a value, silently
/// discard the pair, or abort the run.
#[derive(Debug, Clone, Copy, PartialEq, Eq, Structural)]
pub enum Disposition {
    Record(u64),
    Skip,
    Fail,
}

/// The signed difference of a matched pair.
pub open spec fn diff_of(lhs: u64, rhs: u64) -> int {
    lhs - rhs
}

/// `v` clamped to `[0, max]`.
pub open spec fn clamp_spec(v: int, max: u64) -> u64 {
    if v < 0 {
        0u64
    } else if v > max {
        max
    } else {
        v as u64
    }
}

/// The disposition of a difference `v` under `rule` with bound `max`:
/// - `Error`: `v` must lie in `[0, max)`; anything else aborts the run.
/// - `Drop`: record `v` if it lies in `[0, max)`, else discard silently.
/// - `Saturate`: always record, clamping `v` to `[0, max]`.
pub open spec fn decide_spec(rule: OOBRule, v: int, max: u64) -> Disposition {
    match rule {
        OOBRule::Error => if 0 <= v && v < max {
            Disposition::Record(v as u64)
        } else {
            Disposition::Fail
        },
        OOBRule::Drop => if 0 <= v && v < max {
            Disposition::Record(v as u64)
        } else {
            Disposition::Skip
        },
        OOBRule::Saturate => Disposition::Record(clamp_spec(v, max)),
    }
}

/// Apply the out-of-bounds rule to the matched pair `(lhs, rhs)`, whose
/// difference is taken as a signed quantity.
pub fn decide(rule: OOBRule, lhs: u64, rhs: u64, max: u64) -> (d: Disposition)
    ensures
        d == decide_spec(rule, diff_of(lhs, rhs), max),
{
    if lhs >= rhs {
        let v: u64 = lhs - rhs;
        match rule {
            OOBRule::Error => if v < max {
                Disposition::Record(v)
            } else {
                Disposition::Fail
            },
            OOBRule::Drop => if v < max {
                Disposition::Record(v)
            } else {
                Disposition::Skip
            },
            OOBRule::Saturate => Disposition::Record(if v > max {
                max
            } else {
                v
            }),
        }
    } else {
        match rule {
            OOBRule::Error => Disposition::Fail,
            OOBRule::Drop => Disposition::Skip,
            OOBRule::Saturate => Disposition::Record(0),
        }
    }
}

/// Under `Drop`, a pair is recorded if and only if its difference lies in
/// `[0, max)`, and the recorded value is the difference itself; a pair is
/// never fatal.
pub proof fn lemma_drop_records_iff_in_range(v: int, max: u64)
    ensures
        decide_spec(OOBRule::Drop, v, max) is Record <==> 0 <= v < max,
        0 <= v < max ==> decide_spec(OOBRule::Drop, v, max) == Disposition::Record(v as u64),
        !(0 <= v < max) ==> decide_spec(OOBRule::Drop, v, max) == Disposition::Skip,
{
}

/// Under `Saturate`, recording never fails: every difference is recorded,
/// clamped to `[0, max]`.
pub proof fn lemma_saturate_never_fails(v: int, max: u64)
    ensures
        decide_spec(OOBRule::Saturate, v, max) == Disposition::Record(clamp_spec(v, max)),
        v < 0 ==> decide_spec(OOBRule::Saturate, v, max) == Disposition::Record(0u64),
        v > max ==> decide_spec(OOBRule::Saturate, v, max) == Disposition::Record(max),
{
}

/// Under `Error`, a negative or too-large difference is fatal, and only a
/// difference in `[0, max)` is recorded.
pub proof fn lemma_error_fails_iff_out_of_range(v: int, max: u64)
    ensures
        decide_spec(OOBRule::Error, v, max) is Fail <==> !(0 <= v < max),
        0 <= v < max ==> decide_spec(OOBRule::Error, v, max) == Disposition::Record(v as u64),
{
}

} // verus!
