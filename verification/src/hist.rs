use vstd::prelude::*;
use vstd::multiset::Multiset;

verus! {

/// The histogram accumulator: a fixed-range, fixed-precision logarithmic
/// histogram of `hdrhistogram`, held opaquely and reached only through the
/// trusted operations below.
#[verifier::external_body]
pub struct Hist {
    inner: hdrhistogram::Histogram<u64>,
}

/// The multiset of values recorded into a histogram so far.
pub uninterp spec fn hist_entries(h: Hist) -> Multiset<u64>;

/// The highest value a histogram was created to track.
pub uninterp spec fn hist_high(h: Hist) -> u64;

/// The number of significant decimal digits a histogram was created with.
pub uninterp spec fn hist_sigfigs(h: Hist) -> u8;

/// The bytes of the serialized form of a histogram with the given bound,
/// precision and recorded values: the V2 binary bucket layout followed by a
/// deflate pass, a pure function of the accumulated state.
pub uninterp spec fn serialized_hist(high: u64, sigfigs: u8, entries: Multiset<u64>) -> Seq<u8>;

/// The standard base64 text encoding of a byte string.
pub uninterp spec fn base64_of(bytes: Seq<u8>) -> Seq<char>;

impl Hist {
    /// Relies on `hdrhistogram::Histogram::new_with_max`, which validates its
    /// parameters through `new_with_bounds` with a lowest discernible value
    /// of 1: it succeeds exactly when `max >= 2` and `sigfigs <= 5` (the
    /// internal bin count is a `u32`, so the final size conversion cannot
    /// fail here), and the new histogram has no recorded values.
    #[verifier::external_body]
    pub(crate) fn new(max: u64, sigfigs: u8) -> (r: Result<Hist, String>)
        ensures
            r is Ok <==> (max >= 2 && sigfigs <= 5),
            r matches Ok(h) ==> {
                &&& hist_entries(h) == Multiset::<u64>::empty()
                &&& hist_high(h) == max
                &&& hist_sigfigs(h) == sigfigs
            },
    {
        match hdrhistogram::Histogram::<u64>::new_with_max(max, sigfigs) {
            Ok(inner) => Ok(Hist { inner }),
            Err(e) => Err(format!("{}", e)),
        }
    }

    /// Relies on `hdrhistogram::Histogram::record`, which with auto-resize
    /// off (as `new_with_max` leaves it) succeeds whenever the value does not
    /// exceed the highest trackable value (the allocated counts always cover
    /// it), and adds one count for an accepted value. A value past that bound
    /// may still land in the slack of the last bucket, so failure is not
    /// promised for it.
    #[verifier::external_body]
    pub(crate) fn record(&mut self, v: u64) -> (ok: bool)
        ensures
            v <= hist_high(*old(self)) ==> ok,
            hist_high(*final(self)) == hist_high(*old(self)),
            hist_sigfigs(*final(self)) == hist_sigfigs(*old(self)),
            ok ==> hist_entries(*final(self)) == hist_entries(*old(self)).insert(v),
            !ok ==> hist_entries(*final(self)) == hist_entries(*old(self)),
    {
        self.inner.record(v).is_ok()
    }

    /// Relies on `V2DeflateSerializer::serialize` of `hdrhistogram`: the
    /// encoding is a deterministic function of the histogram's parameters and
    /// bucket counts, which the recorded values determine. With `Vec` writers
    /// no i/o error can arise; the remaining failure paths are a bucket count
    /// that cannot be zig-zag encoded, ruled out here because no bucket can
    /// count more than the recorded values, which the caller keeps at or
    /// under `i64::MAX`, and a size calculation that does not fit in a
    /// sub-32-bit `usize`, which cannot happen for the `u32` bin counts here.
    #[verifier::external_body]
    pub(crate) fn serialize(&self) -> (r: Option<Vec<u8>>)
        requires
            hist_entries(*self).len() <= i64::MAX as int,
        ensures
            r is Some,
            r matches Some(b) ==> b@ == serialized_hist(
                hist_high(*self),
                hist_sigfigs(*self),
                hist_entries(*self),
            ),
    {
        let mut ser = hdrhistogram::serialization::V2DeflateSerializer::new();
        let mut buf: Vec<u8> = Vec::new();
        hdrhistogram::serialization::Serializer::serialize(&mut ser, &self.inner, &mut buf)
            .ok()
            .map(|_| buf)
    }
}

/// Relies on `base64::encode`, which encodes with the standard alphabet and
/// padding: four output characters for every three input bytes, rounded up.
/// It panics when that output length overflows `usize`, so the input is kept
/// well below that.
#[verifier::external_body]
pub(crate) fn base64_encode(bytes: &Vec<u8>) -> (r: String)
    requires
        bytes@.len() <= usize::MAX as int / 4,
    ensures
        r@ == base64_of(bytes@),
        r@.len() == 4 * ((bytes@.len() + 2) / 3),
{
    base64::encode(bytes)
}

} // verus!
