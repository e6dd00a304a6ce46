//! Parsing the pending batch-size text: a fallible decimal `i32` parser with
//! an exact specification, replacing an unchecked parse that would abort.

use vstd::prelude::*;

verus! {

/// A decimal digit '0'..'9'.
pub open spec fn is_dec_digit(c: char) -> bool {
    '0' as u32 <= c as u32 <= '9' as u32
}

/// The numeric value of a decimal digit.
pub open spec fn dec_digit_val(c: char) -> int {
    c as u32 - '0' as u32
}

/// Every character of `s` is a decimal digit.
pub open spec fn all_dec_digits(s: Seq<char>) -> bool {
    forall|i: int| 0 <= i < s.len() ==> is_dec_digit(#[trigger] s[i])
}

/// The value of a digit string, most significant digit first.
pub open spec fn digits_val(s: Seq<char>) -> int
    decreases s.len(),
{
    if s.len() == 0 {
        0
    } else {
        digits_val(s.drop_last()) * 10 + dec_digit_val(s.last())
    }
}

/// A digit string has a non-negative value.
pub proof fn lemma_digits_val_nonneg(s: Seq<char>)
    requires
        all_dec_digits(s),
    ensures
        digits_val(s) >= 0,
    decreases s.len(),
{
    if s.len() > 0 {
        assert(all_dec_digits(s.drop_last()));
        lemma_digits_val_nonneg(s.drop_last());
        assert(is_dec_digit(s[s.len() - 1]));
    }
}

/// What an integer literal denotes: an optional sign '+' or '-' followed by
/// at least one decimal digit, as `str::parse` for integer types accepts it.
/// `None` where the text is not of that shape.
pub open spec fn parse_int_spec(s: Seq<char>) -> Option<int> {
    if s.len() > 0 && (s[0] == '+' || s[0] == '-') {
        if s.len() > 1 && all_dec_digits(s.skip(1)) {
            if s[0] == '-' {
                Some(-digits_val(s.skip(1)))
            } else {
                Some(digits_val(s.skip(1)))
            }
        } else {
            None
        }
    } else {
        if s.len() > 0 && all_dec_digits(s) {
            Some(digits_val(s))
        } else {
            None
        }
    }
}

/// The value of `s` as an `i32`: `Some` exactly where `s` is an integer
/// literal whose value fits in `i32`.
pub open spec fn parse_i32_spec(s: Seq<char>) -> Option<int> {
    match parse_int_spec(s) {
        Some(v) => if i32::MIN <= v <= i32::MAX {
            Some(v)
        } else {
            None
        },
        None => None,
    }
}

/// Parse `s` as a decimal `i32`. Returns `Some(v)` exactly on the inputs
/// `str::parse::<i32>` accepts, with the value it would return, and `None`
/// on every other input, in particular on text whose value overflows `i32`.
pub fn parse_i32(s: &str) -> (r: Option<i32>)
    ensures
        match r {
            Some(v) => parse_i32_spec(s@) == Some(v as int),
            None => parse_i32_spec(s@) is None,
        },
{
    let len = s.unicode_len();
    let mut start: usize = 0;
    let mut neg = false;
    if len > 0 {
        let c0 = s.get_char(0);
        if c0 == '+' {
            start = 1;
        } else if c0 == '-' {
            neg = true;
            start = 1;
        }
    }
    if start >= len {
        // empty text, or a bare sign with no digits
        return None;
    }
    let ghost body = s@.skip(start as int);
    // `acc` follows the value of the digits read so far, saturating just
    // above 2^31 so that it never overflows and still decides the range
    // check at the end.
    let mut acc: u64 = 0;
    let mut j: usize = start;
    while j < len
        invariant
            start <= j <= len,
            len == s@.len(),
            body == s@.skip(start as int),
            start < len,
            start == 0 || start == 1,
            start == 1 ==> s@[0] == '+' || s@[0] == '-',
            start == 0 ==> s@[0] != '+' && s@[0] != '-',
            neg <==> (start == 1 && s@[0] == '-'),
            all_dec_digits(body.take(j - start)),
            if digits_val(body.take(j - start)) <= 0x8000_0000 {
                acc == digits_val(body.take(j - start))
            } else {
                acc == 0x8000_0001u64
            },
        decreases len - j,
    {
        let c = s.get_char(j);
        let cv = c as u32;
        if cv < 48 || cv > 57 {
            // not a digit: the text is not an integer literal
            proof {
                assert(!is_dec_digit(s@[j as int]));
                assert(body[j - start] == s@[j as int]);
                assert(!all_dec_digits(body));
                if start == 0 {
                    assert(s@.skip(0) =~= s@);
                }
            }
            return None;
        }
        let d: u64 = (cv - 48) as u64;
        proof {
            let pre = body.take(j - start);
            let nxt = body.take(j - start + 1);
            assert(nxt.drop_last() =~= pre);
            assert(nxt.last() == body[j - start]);
            assert(body[j - start] == s@[j as int]);
            assert(is_dec_digit(nxt.last()));
            assert(digits_val(nxt) == digits_val(pre) * 10 + d);
            lemma_digits_val_nonneg(pre);
        }
        if acc <= 0x8000_0000 {
            acc = acc * 10 + d;
            if acc > 0x8000_0000 {
                acc = 0x8000_0001;
            }
        } else {
            proof {
                let pre = body.take(j - start);
                let nxt = body.take(j - start + 1);
                assert(digits_val(nxt) > 0x8000_0000) by (nonlinear_arith)
                    requires
                        digits_val(nxt) == digits_val(pre) * 10 + dec_digit_val(nxt.last()),
                        digits_val(pre) > 0x8000_0000,
                        dec_digit_val(nxt.last()) >= 0,
                ;
            }
        }
        j = j + 1;
    }
    proof {
        assert(body.take(j - start) =~= body);
        if start == 0 {
            assert(s@.skip(0) =~= s@);
        } else {
            assert(s@.skip(1).len() > 0);
        }
        if neg {
            assert(parse_int_spec(s@) == Some(-digits_val(body)));
        } else {
            assert(parse_int_spec(s@) == Some(digits_val(body)));
        }
        lemma_digits_val_nonneg(body);
    }
    if neg {
        if acc <= 0x8000_0000 {
            let v: i64 = -(acc as i64);
            proof {
                assert(parse_int_spec(s@) == Some(-digits_val(body)));
                assert(i32::MIN <= -digits_val(body) <= i32::MAX);
            }
            Some(v as i32)
        } else {
            proof {
                assert(parse_int_spec(s@) == Some(-digits_val(body)));
                assert(-digits_val(body) < i32::MIN);
            }
            None
        }
    } else {
        if acc <= 0x7FFF_FFFF {
            proof {
                assert(parse_int_spec(s@) == Some(digits_val(body)));
            }
            Some(acc as i32)
        } else {
            proof {
                assert(parse_int_spec(s@) == Some(digits_val(body)));
                assert(digits_val(body) > i32::MAX);
            }
            None
        }
    }
}

} // verus!
