use vstd::prelude::*;
use vstd::string::StrSliceExecFns;

verus! {

/// Is `c` an ASCII decimal digit?
pub open spec fn is_digit(c: char) -> bool {
    48 <= c as int <= 57
}

/// The numeric value of a digit character.
pub open spec fn digit_val(c: char) -> int {
    c as int - 48
}

/// Are all characters of `s` decimal digits?
pub open spec fn all_digits(s: Seq<char>) -> bool {
    forall|i: int| 0 <= i < s.len() ==> is_digit(#[trigger] s[i])
}

/// The value of a digit string read in base ten.
pub open spec fn dec_value(s: Seq<char>) -> int
    decreases s.len(),
{
    if s.len() == 0 {
        0
    } else {
        dec_value(s.drop_last()) * 10 + digit_val(s.last())
    }
}

/// `s` with one leading `+` sign removed, as Rust's integer parser accepts.
pub open spec fn digits_of(s: Seq<char>) -> Seq<char> {
    if s.len() > 0 && s[0] == '+' {
        s.subrange(1, s.len() as int)
    } else {
        s
    }
}

/// What a field parses to as an unsigned 64-bit integer: after an optional
/// leading `+`, a non-empty run of decimal digits whose value fits in `u64`;
/// anything else does not parse.
pub open spec fn parse_u64_spec(s: Seq<char>) -> Option<u64> {
    let d = digits_of(s);
    if d.len() > 0 && all_digits(d) && dec_value(d) <= u64::MAX {
        Some(dec_value(d) as u64)
    } else {
        None
    }
}

/// The value of a digit string is non-negative.
pub proof fn lemma_dec_value_nonneg(s: Seq<char>)
    requires
        all_digits(s),
    ensures
        dec_value(s) >= 0,
    decreases s.len(),
{
    if s.len() > 0 {
        assert(all_digits(s.drop_last())) by {
            assert(forall|i: int|
                0 <= i < s.len() - 1 ==> is_digit(#[trigger] s.drop_last()[i]) == is_digit(s[i]));
        }
        lemma_dec_value_nonneg(s.drop_last());
    }
}

/// Extending a digit string on the right cannot decrease its value.
pub proof fn lemma_dec_value_prefix(s: Seq<char>, k: int)
    requires
        all_digits(s),
        0 <= k <= s.len(),
    ensures
        dec_value(s.subrange(0, k)) <= dec_value(s),
    decreases s.len() - k,
{
    if k < s.len() {
        let t = s.subrange(0, k + 1);
        assert(all_digits(t)) by {
            assert(forall|i: int| 0 <= i < t.len() ==> t[i] == s[i]);
        }
        assert(t.drop_last() =~= s.subrange(0, k));
        assert(dec_value(t) == dec_value(s.subrange(0, k)) * 10 + digit_val(t.last()));
        assert(all_digits(s.subrange(0, k))) by {
            assert(forall|i: int| 0 <= i < k ==> s.subrange(0, k)[i] == s[i]);
        }
        lemma_dec_value_nonneg(s.subrange(0, k));
        assert(dec_value(s.subrange(0, k)) <= dec_value(s.subrange(0, k)) * 10) by (nonlinear_arith)
            requires dec_value(s.subrange(0, k)) >= 0;
        lemma_dec_value_prefix(s, k + 1);
    } else {
        assert(s.subrange(0, k) =~= s);
    }
}

/// Parse a field as a `u64`, accepting exactly what `parse_u64_spec` accepts.
pub fn parse_u64(s: &str) -> (r: Option<u64>)
    ensures
        r == parse_u64_spec(s@),
{
    let n = s.unicode_len();
    let start: usize = if n > 0 && s.get_char(0) == '+' {
        1
    } else {
        0
    };
    let ghost d = digits_of(s@);
    proof {
        assert(d =~= s@.subrange(start as int, n as int));
    }
    if n == start {
        return None;
    }
    let mut acc: u64 = 0;
    let mut i = start;
    while i < n
        invariant
            start <= i <= n,
            n == s@.len(),
            d == digits_of(s@),
            d == s@.subrange(start as int, n as int),
            d.len() == n - start,
            all_digits(d.subrange(0, i - start)),
            acc == dec_value(d.subrange(0, i - start)),
        decreases n - i,
    {
        let c = s.get_char(i);
        let cv = c as u32;
        proof {
            assert(d[i - start] == s@[i as int]);
        }
        if cv < 48 || cv > 57 {
            proof {
                assert(!is_digit(d[i - start]));
                assert(!all_digits(d));
            }
            return None;
        }
        let dv: u64 = (cv - 48) as u64;
        let ghost pre = d.subrange(0, i - start);
        let ghost ext = d.subrange(0, i - start + 1);
        proof {
            assert(ext.drop_last() =~= pre);
            assert(ext.last() == d[i - start]);
            assert(all_digits(ext)) by {
                assert(forall|k: int| 0 <= k < ext.len() ==> ext[k] == d[k]);
                assert(forall|k: int| 0 <= k < pre.len() ==> pre[k] == d[k]);
            }
            assert(dec_value(ext) == acc * 10 + dv);
        }
        if acc > (u64::MAX - dv) / 10 {
            // The digits seen so far already exceed `u64::MAX`, so the whole
            // field does too and the parse is rejected.
            proof {
                assert(acc * 10 + dv > u64::MAX) by (nonlinear_arith)
                    requires acc > (u64::MAX - dv) / 10, dv <= 9, acc <= u64::MAX;
                if all_digits(d) {
                    lemma_dec_value_prefix(d, i - start + 1);
                    assert(dec_value(d) > u64::MAX);
                }
            }
            return None;
        }
        proof {
            assert(acc * 10 + dv <= u64::MAX) by (nonlinear_arith)
                requires acc <= (u64::MAX - dv) / 10, dv <= 9;
        }
        acc = acc * 10 + dv;
        i += 1;
    }
    proof {
        assert(d.subrange(0, (i - start) as int) =~= d);
        lemma_dec_value_nonneg(d);
    }
    Some(acc)
}

} // verus!
