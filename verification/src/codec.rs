//! The persistence codec: the sample store and the pending text as one
//! character record, written on shutdown and read back on startup. The
//! record is a 16-digit hex point count, then one 8-digit hex field per
//! coordinate (offset so that it is never negative), then the marker 't'
//! and the pending text verbatim. A record cut short right after the points
//! still decodes, with the default pending text "0": the pending-text field
//! may be missing, never malformed.

use vstd::prelude::*;
use vstd::string::StringExecFns;
use vstd::string::StrSliceExecFns;

use crate::geometry::{in_closed_square, Point, SCALE};
use crate::hexcode::{
    all_hex, hex_seq, hex_value, lemma_hex_seq_props, lemma_pow16_16, pow16, push_hex,
    read_hex,
};
use crate::store::TemplateApp;

verus! {

/// Every point of `ps` lies in the closed square [-1, 1] x [-1, 1].
pub open spec fn wf_points(ps: Seq<Point>) -> bool {
    forall|i: int| 0 <= i < ps.len() ==> in_closed_square(#[trigger] ps[i])
}

/// The record characters of one coordinate: its value shifted up by
/// [`SCALE`], so that it is in 0 .. 2 * SCALE + 1, as 8 hex digits.
pub open spec fn encode_coord(c: i64) -> Seq<char> {
    hex_seq(c + SCALE, 8)
}

/// The record characters of one point: x then y.
pub open spec fn encode_point(p: Point) -> Seq<char> {
    encode_coord(p.x) + encode_coord(p.y)
}

/// The record characters of the whole store, in order.
pub open spec fn encode_points_seq(ps: Seq<Point>) -> Seq<char>
    decreases ps.len(),
{
    if ps.len() == 0 {
        Seq::empty()
    } else {
        encode_point(ps.first()) + encode_points_seq(ps.drop_first())
    }
}

/// The full record of a store and a pending text.
pub open spec fn spec_encode(ps: Seq<Point>, text: Seq<char>) -> Seq<char> {
    hex_seq(ps.len() as int, 16) + encode_points_seq(ps) + seq!['t'] + text
}

/// Read `k` points off the front of `s`; what follows them is handed back.
/// `None` where the characters are not `k` well-formed point fields.
pub open spec fn decode_points(s: Seq<char>, k: nat) -> Option<(Seq<Point>, Seq<char>)>
    decreases k,
{
    if k == 0 {
        Some((Seq::empty(), s))
    } else if s.len() < 16 {
        None
    } else {
        let hx = s.take(8);
        let hy = s.subrange(8, 16);
        if all_hex(hx) && all_hex(hy) && hex_value(hx) <= 2 * SCALE && hex_value(hy) <= 2
            * SCALE {
            let p = Point {
                x: (hex_value(hx) - SCALE) as i64,
                y: (hex_value(hy) - SCALE) as i64,
            };
            match decode_points(s.skip(16), (k - 1) as nat) {
                Some((ps, rest)) => Some((seq![p] + ps, rest)),
                None => None,
            }
        } else {
            None
        }
    }
}

/// What a record denotes: the stored points and the pending text, or `None`
/// where the characters are no record. A record that ends right after its
/// points yields the default pending text "0"; one that goes on must do so
/// with the marker 't' and the text.
pub open spec fn spec_decode(s: Seq<char>) -> Option<(Seq<Point>, Seq<char>)> {
    if s.len() < 16 || !all_hex(s.take(16)) {
        None
    } else {
        match decode_points(s.skip(16), hex_value(s.take(16)) as nat) {
            Some((ps, rest)) => if rest.len() == 0 {
                Some((ps, seq!['0']))
            } else if rest[0] == 't' {
                Some((ps, rest.skip(1)))
            } else {
                None
            },
            None => None,
        }
    }
}

/// Relies on String::push: appends one character to the end of the string.
#[verifier::external_body]
fn push_char(s: &mut String, c: char)
    ensures
        final(s)@ == old(s)@.push(c),
{
    s.push(c)
}

/// Point fields read back as the points that were written: the coordinate
/// offsets fit their 8-digit fields, so decoding peels them off one by one.
proof fn lemma_decode_encode_points(ps: Seq<Point>, rest: Seq<char>)
    requires
        wf_points(ps),
    ensures
        decode_points(encode_points_seq(ps) + rest, ps.len()) == Some((ps, rest)),
    decreases ps.len(),
{
    lemma_pow16_16();
    if ps.len() == 0 {
        assert(encode_points_seq(ps) + rest =~= rest);
        assert(Some((Seq::<Point>::empty(), rest)) == Some((ps, rest))) by {
            assert(ps =~= Seq::<Point>::empty());
        }
    } else {
        let p = ps.first();
        let s = encode_points_seq(ps) + rest;
        assert(in_closed_square(ps[0]));
        assert(0 <= p.x + SCALE < pow16(8));
        assert(0 <= p.y + SCALE < pow16(8));
        lemma_hex_seq_props(p.x + SCALE, 8);
        lemma_hex_seq_props(p.y + SCALE, 8);
        assert(s =~= encode_coord(p.x) + encode_coord(p.y) + (encode_points_seq(
            ps.drop_first(),
        ) + rest));
        assert(s.take(8) =~= encode_coord(p.x));
        assert(s.subrange(8, 16) =~= encode_coord(p.y));
        assert(s.skip(16) =~= encode_points_seq(ps.drop_first()) + rest);
        assert(wf_points(ps.drop_first())) by {
            assert(forall|i: int|
                0 <= i < ps.drop_first().len() ==> #[trigger] ps.drop_first()[i] == ps[i
                    + 1]);
        }
        lemma_decode_encode_points(ps.drop_first(), rest);
        let px = Point {
            x: (hex_value(s.take(8)) - SCALE) as i64,
            y: (hex_value(s.subrange(8, 16)) - SCALE) as i64,
        };
        assert(px == p);
        assert(seq![p] + ps.drop_first() =~= ps);
    }
}

/// Round trip: decoding an encoded record gives back exactly the points and
/// the text that went in, for every store whose points lie in the closed
/// square and every pending text.
pub proof fn lemma_encode_decode_round_trip(ps: Seq<Point>, text: Seq<char>)
    requires
        wf_points(ps),
        ps.len() < 0x1_0000_0000_0000_0000,
    ensures
        spec_decode(spec_encode(ps, text)) == Some((ps, text)),
{
    lemma_pow16_16();
    lemma_hex_seq_props(ps.len() as int, 16);
    let s = spec_encode(ps, text);
    assert(s.take(16) =~= hex_seq(ps.len() as int, 16));
    assert(s.skip(16) =~= encode_points_seq(ps) + (seq!['t'] + text));
    lemma_decode_encode_points(ps, seq!['t'] + text);
    let rest = seq!['t'] + text;
    assert(rest.len() > 0 && rest[0] == 't');
    assert(rest.skip(1) =~= text);
}

/// Tolerated shortfall: a record that ends right after its points, with no
/// pending-text field at all, decodes to the same points and the default
/// pending text "0".
pub proof fn lemma_decode_missing_text(ps: Seq<Point>)
    requires
        wf_points(ps),
        ps.len() < 0x1_0000_0000_0000_0000,
    ensures
        spec_decode(hex_seq(ps.len() as int, 16) + encode_points_seq(ps)) == Some(
            (ps, seq!['0']),
        ),
{
    lemma_pow16_16();
    lemma_hex_seq_props(ps.len() as int, 16);
    let s = hex_seq(ps.len() as int, 16) + encode_points_seq(ps);
    assert(s.take(16) =~= hex_seq(ps.len() as int, 16));
    assert(s.skip(16) =~= encode_points_seq(ps) + Seq::<char>::empty());
    lemma_decode_encode_points(ps, Seq::<char>::empty());
}

/// Write the record of `app`: its points and its pending text.
pub fn encode(app: &TemplateApp) -> (out: Vec<char>)
    requires
        app.wf(),
    ensures
        out@ == spec_encode(app.points@, app.darts_to_throw@),
{
    proof {
        lemma_pow16_16();
    }
    let mut out: Vec<char> = Vec::new();
    let k = app.points.len();
    push_hex(&mut out, k as u64, 16);
    proof {
        assert(out@ =~= hex_seq(k as int, 16));
    }
    let ghost head = out@;
    let mut i: usize = 0;
    while i < k
        invariant
            0 <= i <= k,
            k == app.points@.len(),
            app.wf(),
            out@ == head + encode_points_seq(app.points@.take(i as int)),
        decreases k - i,
    {
        let p = app.points[i];
        proof {
            lemma_pow16_16();
            assert(in_closed_square(app.points@[i as int]));
        }
        push_hex(&mut out, (p.x + SCALE) as u64, 8);
        push_hex(&mut out, (p.y + SCALE) as u64, 8);
        proof {
            lemma_encode_points_take_step(app.points@, i as int);
            assert(out@ =~= head + encode_points_seq(app.points@.take(i + 1)));
        }
        i = i + 1;
    }
    proof {
        assert(app.points@.take(k as int) =~= app.points@);
    }
    out.push('t');
    let ghost mid = out@;
    let text = &app.darts_to_throw;
    let tl = text.as_str().unicode_len();
    let mut j: usize = 0;
    while j < tl
        invariant
            0 <= j <= tl,
            tl == text@.len(),
            out@ == mid + text@.take(j as int),
        decreases tl - j,
    {
        let c = text.as_str().get_char(j);
        out.push(c);
        proof {
            assert(out@ =~= mid + text@.take(j + 1));
        }
        j = j + 1;
    }
    proof {
        assert(text@.take(tl as int) =~= text@);
        assert(out@ =~= spec_encode(app.points@, app.darts_to_throw@));
    }
    out
}

/// One more encoded point extends the record by that point's fields.
proof fn lemma_encode_points_take_step(ps: Seq<Point>, i: int)
    requires
        0 <= i < ps.len(),
    ensures
        encode_points_seq(ps.take(i + 1)) == encode_points_seq(ps.take(i)) + encode_point(
            ps[i],
        ),
{
    lemma_encode_points_push(ps.take(i), ps[i]);
    assert(ps.take(i + 1) =~= ps.take(i).push(ps[i]));
}

/// Appending a point to a store appends its fields to the record.
proof fn lemma_encode_points_push(ps: Seq<Point>, p: Point)
    ensures
        encode_points_seq(ps.push(p)) == encode_points_seq(ps) + encode_point(p),
    decreases ps.len(),
{
    if ps.len() == 0 {
        assert(ps.push(p).len() == 1);
        assert(ps.push(p).first() == p);
        assert(ps.push(p).drop_first() =~= Seq::<Point>::empty());
        assert(encode_points_seq(ps.push(p)) == encode_point(p) + encode_points_seq(
            Seq::<Point>::empty(),
        ));
        assert(encode_points_seq(ps.push(p)) =~= encode_point(p));
        assert(encode_points_seq(ps) + encode_point(p) =~= encode_point(p));
    } else {
        assert(ps.push(p).first() == ps.first());
        assert(ps.push(p).drop_first() =~= ps.drop_first().push(p));
        lemma_encode_points_push(ps.drop_first(), p);
        assert(encode_points_seq(ps.push(p)) =~= encode_points_seq(ps) + encode_point(p));
    }
}

/// Read a record back into a state. `Some` exactly where the characters are
/// a record; the points and the pending text are then the decoded ones, and
/// every point lies in the closed square.
pub fn decode(s: &Vec<char>) -> (r: Option<TemplateApp>)
    ensures
        match r {
            Some(app) => spec_decode(s@) == Some((app.points@, app.darts_to_throw@))
                && app.wf(),
            None => spec_decode(s@) is None,
        },
{
    proof {
        lemma_pow16_16();
    }
    let n = s.len();
    if n < 16 {
        return None;
    }
    let k: u64 = match read_hex(s, 0, 16) {
        Some(v) => v,
        None => {
            proof {
                assert(s@.subrange(0, 16) =~= s@.take(16));
            }
            return None;
        },
    };
    proof {
        assert(s@.subrange(0, 16) =~= s@.take(16));
    }
    let mut points: Vec<Point> = Vec::new();
    let mut pos: usize = 16;
    let mut i: u64 = 0;
    while i < k
        invariant
            0 <= i <= k,
            16 <= pos <= n,
            n == s@.len(),
            all_hex(s@.take(16)),
            k == hex_value(s@.take(16)),
            pos == 16 + 16 * i,
            points@.len() == i,
            wf_points(points@),
            decode_points(s@.skip(16), k as nat) == (match decode_points(
                s@.skip(pos as int),
                (k - i) as nat,
            ) {
                Some((q, rest)) => Some((points@ + q, rest)),
                None => None,
            }),
        decreases k - i,
    {
        let ghost tail = s@.skip(pos as int);
        if n - pos < 16 {
            proof {
                assert(tail.len() < 16);
                assert(decode_points(tail, (k - i) as nat) is None);
            }
            return None;
        }
        let ox = match read_hex(s, pos, 8) {
            Some(v) => v,
            None => {
                proof {
                    assert(s@.subrange(pos as int, pos + 8) =~= tail.take(8));
                    assert(decode_points(tail, (k - i) as nat) is None);
                }
                return None;
            },
        };
        let oy = match read_hex(s, pos + 8, 8) {
            Some(v) => v,
            None => {
                proof {
                    assert(s@.subrange(pos + 8, pos + 16) =~= tail.subrange(8, 16));
                    assert(decode_points(tail, (k - i) as nat) is None);
                }
                return None;
            },
        };
        proof {
            assert(s@.subrange(pos as int, pos + 8) =~= tail.take(8));
            assert(s@.subrange(pos + 8, pos + 16) =~= tail.subrange(8, 16));
        }
        if ox > 2_000_000_000u64 || oy > 2_000_000_000u64 {
            proof {
                assert(decode_points(tail, (k - i) as nat) is None);
            }
            return None;
        }
        let p = Point { x: (ox as i64) - SCALE, y: (oy as i64) - SCALE };
        proof {
            assert(in_closed_square(p));
            assert(tail.skip(16) =~= s@.skip(pos + 16));
            let stepped = decode_points(tail.skip(16), (k - i - 1) as nat);
            match stepped {
                Some((q, rest)) => {
                    assert(decode_points(tail, (k - i) as nat) == Some(
                        (seq![p] + q, rest),
                    ));
                    assert(points@.push(p) + q =~= points@ + (seq![p] + q));
                },
                None => {
                    assert(decode_points(tail, (k - i) as nat) is None);
                },
            }
        }
        points.push(p);
        pos = pos + 16;
        i = i + 1;
    }
    proof {
        assert(decode_points(s@.skip(pos as int), 0) == Some(
            (Seq::<Point>::empty(), s@.skip(pos as int)),
        ));
        assert(points@ + Seq::<Point>::empty() =~= points@);
        assert(decode_points(s@.skip(16), k as nat) == Some(
            (points@, s@.skip(pos as int)),
        ));
    }
    let ghost rest = s@.skip(pos as int);
    let mut text = String::new();
    if pos == n {
        proof {
            assert(rest.len() == 0);
            reveal_strlit("0");
        }
        let t = String::from_str("0");
        return Some(TemplateApp { points, darts_to_throw: t });
    }
    let marker = s[pos];
    if marker != 't' {
        proof {
            assert(rest[0] == s@[pos as int]);
        }
        return None;
    }
    proof {
        assert(rest[0] == s@[pos as int]);
    }
    let mut j: usize = pos + 1;
    while j < n
        invariant
            pos + 1 <= j <= n,
            pos < n,
            n == s@.len(),
            rest == s@.skip(pos as int),
            text@ == s@.subrange(pos + 1, j as int),
        decreases n - j,
    {
        push_char(&mut text, s[j]);
        proof {
            assert(text@ =~= s@.subrange(pos + 1, j + 1));
        }
        j = j + 1;
    }
    proof {
        assert(text@ =~= rest.skip(1));
    }
    Some(TemplateApp { points, darts_to_throw: text })
}

} // verus!
