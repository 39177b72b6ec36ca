//! The plain metadata of one media attachment, as the engine needs it to
//! schedule a chunked upload: a MIME type and a total byte size. A fetch of an
//! attachment carries both as optional header text; absent or malformed
//! headers are explicit errors, never a panic.

use vstd::prelude::*;
use vstd::string::StrSliceExecFns;

verus! {

/// The metadata of a fetched media attachment.
#[derive(Debug)]
pub struct Media {
    pub content_type: String,
    pub content_size: u64,
}

/// Why media metadata could not be read from a fetch response.
#[derive(PartialEq, Eq, Structural, Clone, Copy, Debug)]
pub enum MediaError {
    MissingContentType,
    MissingContentLength,
    InvalidContentLength,
}

/// A decimal digit, by code point.
pub open spec fn is_digit(c: char) -> bool {
    48 <= c as int <= 57
}

pub open spec fn digit_val(c: char) -> int {
    c as int - 48
}

pub open spec fn all_digits(s: Seq<char>) -> bool {
    forall|i: int| 0 <= i < s.len() ==> is_digit(s[i])
}

/// The number a sequence of decimal digits denotes, most significant first.
pub open spec fn digits_val(s: Seq<char>) -> int
    decreases s.len(),
{
    if s.len() == 0 {
        0
    } else {
        digits_val(s.drop_last()) * 10 + digit_val(s.last())
    }
}

/// What parsing an unsigned 64-bit decimal accepts: an optional leading plus
/// sign, then at least one digit, denoting a value that fits.
pub open spec fn spec_parse_u64(s: Seq<char>) -> Option<u64> {
    let digits = if s.len() > 0 && s[0] == '+' {
        s.drop_first()
    } else {
        s
    };
    if digits.len() > 0 && all_digits(digits) && digits_val(digits) <= u64::MAX as int {
        Some(digits_val(digits) as u64)
    } else {
        None
    }
}

proof fn lemma_digits_val_nonneg(s: Seq<char>)
    requires
        all_digits(s),
    ensures
        digits_val(s) >= 0,
    decreases s.len(),
{
    if s.len() > 0 {
        assert(all_digits(s.drop_last()));
        lemma_digits_val_nonneg(s.drop_last());
        let v = digits_val(s.drop_last());
        assert(v * 10 >= v) by (nonlinear_arith)
            requires v >= 0;
    }
}

/// Reading further digits never decreases the denoted value.
proof fn lemma_digits_val_extend(s: Seq<char>, i: int)
    requires
        all_digits(s),
        0 <= i <= s.len(),
    ensures
        digits_val(s) >= digits_val(s.take(i)),
    decreases s.len() - i,
{
    if i < s.len() {
        lemma_digits_val_extend(s, i + 1);
        assert(s.take(i + 1).drop_last() =~= s.take(i));
        assert(all_digits(s.take(i)));
        lemma_digits_val_nonneg(s.take(i));
        let v = digits_val(s.take(i));
        let d = digit_val(s.take(i + 1).last());
        assert(digits_val(s.take(i + 1)) == v * 10 + d);
        assert(v * 10 + d >= v) by (nonlinear_arith)
            requires v >= 0, d >= 0;
    } else {
        assert(s.take(i) =~= s);
    }
}

/// Parse an unsigned 64-bit decimal: an optional leading plus sign, then at
/// least one digit. Any other character, an empty digit run, or a value that
/// does not fit yields nothing.
pub fn parse_u64(s: &str) -> (r: Option<u64>)
    ensures
        r == spec_parse_u64(s@),
{
    let n = s.unicode_len();
    let start: usize = if n > 0 && s.get_char(0) == '+' {
        1
    } else {
        0
    };
    let ghost digits = if s@.len() > 0 && s@[0] == '+' {
        s@.drop_first()
    } else {
        s@
    };
    proof {
        assert(digits =~= s@.subrange(start as int, n as int));
    }
    if n == start {
        return None;
    }
    let mut val: u64 = 0;
    let mut i: usize = start;
    while i < n
        invariant
            start <= i <= n,
            n == s@.len(),
            start == 0 || start == 1,
            start == 1 ==> n > 0 && s@[0] == '+',
            start == 0 ==> !(s@.len() > 0 && s@[0] == '+'),
            digits =~= s@.subrange(start as int, n as int),
            all_digits(digits.take(i - start)),
            val as int == digits_val(digits.take(i - start)),
        decreases n - i,
    {
        let c = s.get_char(i);
        let u = c as u32;
        proof {
            assert(c as int == u as int);
            assert(digits[i - start] == s@[i as int]);
        }
        if u < 48 || u > 57 {
            proof {
                assert(!is_digit(digits[i - start]));
                assert(!all_digits(digits));
                let sd = if s@.len() > 0 && s@[0] == '+' {
                    s@.drop_first()
                } else {
                    s@
                };
                assert(sd =~= digits);
                assert(!all_digits(sd));
                assert(spec_parse_u64(s@) is None);
            }
            return None;
        }
        let d = (u - 48) as u64;
        let ghost prefix = digits.take(i - start);
        proof {
            assert(d as int == digit_val(digits[i - start]));
            assert(digits.take(i - start + 1).drop_last() =~= prefix);
            assert(digits.take(i - start + 1).last() == digits[i - start]);
        }
        let scaled = match val.checked_mul(10) {
            Some(v) => v,
            None => {
                proof {
                    overflow_implies_none(digits, i - start, val as int, d as int);
                    let sd = if s@.len() > 0 && s@[0] == '+' {
                        s@.drop_first()
                    } else {
                        s@
                    };
                    assert(sd =~= digits);
                }
                return None;
            },
        };
        let next = match scaled.checked_add(d) {
            Some(v) => v,
            None => {
                proof {
                    overflow_implies_none(digits, i - start, val as int, d as int);
                    let sd = if s@.len() > 0 && s@[0] == '+' {
                        s@.drop_first()
                    } else {
                        s@
                    };
                    assert(sd =~= digits);
                }
                return None;
            },
        };
        val = next;
        i += 1;
    }
    proof {
        assert(digits.take(n - start) =~= digits);
    }
    Some(val)
}

/// If one more digit already pushes the running value past the largest
/// representable one, the whole digit run denotes a value that does not fit.
proof fn overflow_implies_none(digits: Seq<char>, i: int, val: int, d: int)
    requires
        0 <= i < digits.len(),
        all_digits(digits.take(i)),
        is_digit(digits[i]),
        val == digits_val(digits.take(i)),
        d == digit_val(digits[i]),
        val * 10 + d > u64::MAX as int,
    ensures
        !(all_digits(digits) && digits_val(digits) <= u64::MAX as int),
{
    if all_digits(digits) {
        lemma_digits_val_extend(digits, i + 1);
        assert(digits.take(i + 1).drop_last() =~= digits.take(i));
        assert(digits.take(i + 1).last() == digits[i]);
        assert(digits_val(digits.take(i + 1)) == val * 10 + d);
    }
}

/// Read media metadata from the optional header text of a fetch response.
/// Both headers must be present and the length must be a decimal byte count;
/// each failure is its own error.
pub fn media_from_headers(content_type: Option<String>, content_length: Option<String>) -> (r:
    Result<Media, MediaError>)
    ensures
        match r {
            Ok(m) => {
                &&& content_type is Some
                &&& content_length is Some
                &&& m.content_type@ == content_type->0@
                &&& spec_parse_u64(content_length->0@) == Some(m.content_size)
            },
            Err(e) => {
                &&& e is MissingContentType <==> content_type is None
                &&& e is MissingContentLength <==> (content_type is Some
                    && content_length is None)
                &&& e is InvalidContentLength <==> (content_type is Some
                    && content_length is Some
                    && spec_parse_u64(content_length->0@) is None)
            },
        },
{
    let ct = match content_type {
        Some(ct) => ct,
        None => {
            return Err(MediaError::MissingContentType);
        },
    };
    let cl = match content_length {
        Some(cl) => cl,
        None => {
            return Err(MediaError::MissingContentLength);
        },
    };
    match parse_u64(cl.as_str()) {
        Some(size) => Ok(Media { content_type: ct, content_size: size }),
        None => Err(MediaError::InvalidContentLength),
    }
}

} // verus!
