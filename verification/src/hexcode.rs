//! Fixed-width hexadecimal fields: the building blocks of the persistence
//! codec. A value is written as exactly `w` digits, most significant first,
//! so that records can be cut apart without separators.

use vstd::prelude::*;

verus! {

/// The hex digit character for a value in 0..16.
pub open spec fn hex_char(d: int) -> char {
    if d == 0 {
        '0'
    } else if d == 1 {
        '1'
    } else if d == 2 {
        '2'
    } else if d == 3 {
        '3'
    } else if d == 4 {
        '4'
    } else if d == 5 {
        '5'
    } else if d == 6 {
        '6'
    } else if d == 7 {
        '7'
    } else if d == 8 {
        '8'
    } else if d == 9 {
        '9'
    } else if d == 10 {
        'a'
    } else if d == 11 {
        'b'
    } else if d == 12 {
        'c'
    } else if d == 13 {
        'd'
    } else if d == 14 {
        'e'
    } else {
        'f'
    }
}

/// The value of a hex digit character, or -1 where `c` is no hex digit.
pub open spec fn hex_val(c: char) -> int {
    if c == '0' {
        0
    } else if c == '1' {
        1
    } else if c == '2' {
        2
    } else if c == '3' {
        3
    } else if c == '4' {
        4
    } else if c == '5' {
        5
    } else if c == '6' {
        6
    } else if c == '7' {
        7
    } else if c == '8' {
        8
    } else if c == '9' {
        9
    } else if c == 'a' {
        10
    } else if c == 'b' {
        11
    } else if c == 'c' {
        12
    } else if c == 'd' {
        13
    } else if c == 'e' {
        14
    } else if c == 'f' {
        15
    } else {
        -1
    }
}

/// Every character of `s` is a hex digit.
pub open spec fn all_hex(s: Seq<char>) -> bool {
    forall|i: int| 0 <= i < s.len() ==> hex_val(#[trigger] s[i]) >= 0
}

/// The value of a hex digit string, most significant digit first.
pub open spec fn hex_value(s: Seq<char>) -> int
    decreases s.len(),
{
    if s.len() == 0 {
        0
    } else {
        hex_value(s.drop_last()) * 16 + hex_val(s.last())
    }
}

/// 16 to the power `w`: the number of values a `w`-digit field can hold.
pub open spec fn pow16(w: nat) -> int
    decreases w,
{
    if w == 0 {
        1
    } else {
        16 * pow16((w - 1) as nat)
    }
}

pub proof fn lemma_pow16_pos(w: nat)
    ensures
        pow16(w) >= 1,
    decreases w,
{
    if w > 0 {
        lemma_pow16_pos((w - 1) as nat);
    }
}

/// `pow16` grows with the width.
pub proof fn lemma_pow16_mono(v: nat, w: nat)
    requires
        v <= w,
    ensures
        pow16(v) <= pow16(w),
    decreases w,
{
    lemma_pow16_pos(v);
    if v < w {
        lemma_pow16_mono(v, (w - 1) as nat);
    }
}

/// A 16-digit field covers exactly the range of `u64`.
pub proof fn lemma_pow16_16()
    ensures
        pow16(8) == 0x1_0000_0000,
        pow16(16) == 0x1_0000_0000_0000_0000,
{
    reveal_with_fuel(pow16, 17);
}

/// The `w`-digit hex string for a value `n` in `0 .. pow16(w)`.
pub open spec fn hex_seq(n: int, w: nat) -> Seq<char>
    decreases w,
{
    if w == 0 {
        Seq::empty()
    } else {
        hex_seq(n / 16, (w - 1) as nat).push(hex_char(n % 16))
    }
}

/// What `hex_seq` produces is a valid `w`-digit field that reads back as `n`.
pub proof fn lemma_hex_seq_props(n: int, w: nat)
    requires
        0 <= n < pow16(w),
    ensures
        hex_seq(n, w).len() == w,
        all_hex(hex_seq(n, w)),
        hex_value(hex_seq(n, w)) == n,
    decreases w,
{
    if w > 0 {
        assert(0 <= n / 16 && n / 16 < pow16((w - 1) as nat)) by (nonlinear_arith)
            requires
                0 <= n < 16 * pow16((w - 1) as nat),
        ;
        lemma_hex_seq_props(n / 16, (w - 1) as nat);
        let pre = hex_seq(n / 16, (w - 1) as nat);
        let whole = hex_seq(n, w);
        assert(whole == pre.push(hex_char(n % 16)));
        assert(whole.drop_last() =~= pre);
        assert(0 <= n % 16 < 16);
        assert(hex_val(hex_char(n % 16)) == n % 16);
        assert(hex_value(whole) == (n / 16) * 16 + n % 16);
        assert((n / 16) * 16 + n % 16 == n) by (nonlinear_arith);
        assert(forall|i: int|
            0 <= i < whole.len() ==> hex_val(#[trigger] whole[i]) >= 0) by {
            assert(forall|i: int|
                0 <= i < pre.len() ==> whole[i] == #[trigger] pre[i]);
        }
    }
}

/// Append the `w`-digit hex field of `n` to `out`.
pub fn push_hex(out: &mut Vec<char>, n: u64, w: usize)
    requires
        n < pow16(w as nat),
    ensures
        final(out)@ == old(out)@ + hex_seq(n as int, w as nat),
    decreases w,
{
    if w == 0 {
        proof {
            assert(final(out)@ =~= old(out)@ + hex_seq(n as int, 0));
        }
    } else {
        proof {
            assert(0 <= n / 16 < pow16((w - 1) as nat)) by (nonlinear_arith)
                requires
                    0 <= n < 16 * pow16((w - 1) as nat),
            ;
        }
        let ghost pre = out@;
        push_hex(out, n / 16, w - 1);
        let d = n % 16;
        let c = if d == 0 {
            '0'
        } else if d == 1 {
            '1'
        } else if d == 2 {
            '2'
        } else if d == 3 {
            '3'
        } else if d == 4 {
            '4'
        } else if d == 5 {
            '5'
        } else if d == 6 {
            '6'
        } else if d == 7 {
            '7'
        } else if d == 8 {
            '8'
        } else if d == 9 {
            '9'
        } else if d == 10 {
            'a'
        } else if d == 11 {
            'b'
        } else if d == 12 {
            'c'
        } else if d == 13 {
            'd'
        } else if d == 14 {
            'e'
        } else {
            'f'
        };
        proof {
            assert(c == hex_char(n as int % 16));
        }
        out.push(c);
        proof {
            assert(final(out)@ =~= pre + hex_seq(n as int, w as nat));
        }
    }
}

/// Read the `w`-digit hex field of `s` that starts at `pos`. `Some` exactly
/// where all `w` characters are hex digits, with the value they denote.
pub fn read_hex(s: &Vec<char>, pos: usize, w: usize) -> (r: Option<u64>)
    requires
        pos + w <= s@.len(),
        w <= 16,
    ensures
        match r {
            Some(v) => all_hex(s@.subrange(pos as int, pos + w)) && v == hex_value(
                s@.subrange(pos as int, pos + w),
            ) && v < pow16(w as nat),
            None => !all_hex(s@.subrange(pos as int, pos + w)),
        },
{
    let ghost field = s@.subrange(pos as int, pos + w);
    let n = s.len();
    let mut acc: u64 = 0;
    let mut j: usize = 0;
    while j < w
        invariant
            0 <= j <= w,
            w <= 16,
            n == s@.len(),
            pos + w <= n,
            field == s@.subrange(pos as int, pos + w),
            all_hex(field.take(j as int)),
            acc == hex_value(field.take(j as int)),
            acc < pow16(j as nat),
        decreases w - j,
    {
        let c = s[pos + j];
        let v: u64 = match c {
            '0' => 0,
            '1' => 1,
            '2' => 2,
            '3' => 3,
            '4' => 4,
            '5' => 5,
            '6' => 6,
            '7' => 7,
            '8' => 8,
            '9' => 9,
            'a' => 10,
            'b' => 11,
            'c' => 12,
            'd' => 13,
            'e' => 14,
            'f' => 15,
            _ => {
                proof {
                    assert(field[j as int] == s@[pos + j]);
                    assert(hex_val(field[j as int]) < 0);
                    assert(!all_hex(field));
                }
                return None;
            },
        };
        proof {
            assert(field[j as int] == s@[pos + j]);
            assert(v == hex_val(field[j as int]));
            let pre = field.take(j as int);
            let nxt = field.take(j + 1);
            assert(nxt.drop_last() =~= pre);
            assert(nxt.last() == field[j as int]);
            assert(hex_value(nxt) == hex_value(pre) * 16 + v);
            lemma_pow16_mono((j + 1) as nat, 16);
            lemma_pow16_16();
            assert(acc * 16 + v < pow16((j + 1) as nat)) by (nonlinear_arith)
                requires
                    acc < pow16(j as nat),
                    v < 16,
                    pow16((j + 1) as nat) == 16 * pow16(j as nat),
            ;
        }
        acc = acc * 16 + v;
        j = j + 1;
    }
    proof {
        assert(field.take(w as int) =~= field);
    }
    Some(acc)
}

} // verus!
