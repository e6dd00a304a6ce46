//! The application state: the append-only sample store and the pending
//! batch-size text, with the dart generator and the counting queries.

use vstd::prelude::*;
use vstd::string::StringExecFns;

use crate::geometry::{
    classify, count_inside, in_closed_square, in_sample_square, Point, SCALE,
};
use crate::numtext::{parse_i32, parse_i32_spec};

verus! {

/// The one error of the library: the pending batch-size text is not a
/// decimal integer that fits in an `i32`.
#[derive(Clone, Copy, PartialEq, Eq, Structural, Debug)]
pub enum DartError {
    InvalidCount,
}

/// The sample store and the live-editable batch-size text. Points are only
/// ever appended, by [`TemplateApp::generate`]; the text mirrors a UI input
/// field and is parsed at the moment a throw is triggered.
pub struct TemplateApp {
    /// All darts thrown so far, in generation order.
    pub points: Vec<Point>,
    /// The textual batch size for the next throw.
    pub darts_to_throw: String,
}

/// Relies on rand::random: one draw of a `u64` from the thread-local
/// generator, each draw independent and unseeded. Nothing is promised of
/// the value; callers state what holds of every outcome.
#[verifier::external_body]
fn random_u64() -> u64 {
    rand::random::<u64>()
}

/// One uniformly drawn scaled coordinate in [-1, 1): the draw of a random
/// value in [0, 1) mapped through v * 2 - 1, carried out on scaled integers.
fn sample_coord() -> (c: i64)
    ensures
        -SCALE <= c < SCALE,
{
    let r = random_u64();
    let m = r % 2_000_000_000u64;
    (m as i64) - SCALE
}

impl Default for TemplateApp {
    /// An empty store and the default pending text "0".
    fn default() -> (r: Self)
        ensures
            r.points@.len() == 0,
            r.darts_to_throw@ == seq!['0'],
            r.wf(),
    {
        TemplateApp::new()
    }
}

impl TemplateApp {
    /// Every stored point lies in the closed square [-1, 1] x [-1, 1]: the
    /// generator only produces such points and the codec only accepts them.
    pub open spec fn wf(&self) -> bool {
        forall|i: int|
            0 <= i < self.points@.len() ==> in_closed_square(#[trigger] self.points@[i])
    }

    /// The state a session starts from: no darts, pending text "0".
    pub fn new() -> (r: Self)
        ensures
            r.points@.len() == 0,
            r.darts_to_throw@ == seq!['0'],
            r.wf(),
    {
        let t = String::from_str("0");
        proof {
            reveal_strlit("0");
        }
        TemplateApp { points: Vec::new(), darts_to_throw: t }
    }

    /// How many darts were thrown so far.
    pub fn total_darts(&self) -> (n: usize)
        ensures
            n == self.points@.len(),
    {
        self.points.len()
    }

    /// How many of the thrown darts lie in the closed unit disk.
    pub fn inside_count(&self) -> (n: usize)
        ensures
            n == count_inside(self.points@),
    {
        let len = self.points.len();
        let mut n: usize = 0;
        let mut i: usize = 0;
        while i < len
            invariant
                0 <= i <= len,
                len == self.points@.len(),
                n == count_inside(self.points@.take(i as int)),
                n <= i,
            decreases len - i,
        {
            let p = self.points[i];
            proof {
                let pre = self.points@.take(i as int);
                let nxt = self.points@.take(i + 1);
                assert(nxt.drop_last() =~= pre);
                assert(nxt.last() == self.points@[i as int]);
            }
            if classify(p.x, p.y) {
                n = n + 1;
            }
            i = i + 1;
        }
        proof {
            assert(self.points@.take(len as int) =~= self.points@);
        }
        n
    }

    /// The dart at position `i`, in generation order.
    pub fn point(&self, i: usize) -> (p: Point)
        requires
            i < self.points@.len(),
        ensures
            p == self.points@[i as int],
    {
        self.points[i]
    }

    /// A copy of the pending batch-size text.
    pub fn pending_text(&self) -> (t: String)
        ensures
            t@ == self.darts_to_throw@,
    {
        self.darts_to_throw.clone()
    }

    /// Replace the pending batch-size text, as the UI input field does on
    /// each edit. The sample store is untouched.
    pub fn set_pending_text(&mut self, t: String)
        ensures
            final(self).darts_to_throw == t,
            final(self).points@ == old(self).points@,
    {
        self.darts_to_throw = t;
    }

    /// Throw `n` darts: append `n` uniformly sampled points of the square
    /// [-1, 1) x [-1, 1) to the store, in generation order. Everything that
    /// was stored stays where it was.
    pub fn generate(&mut self, n: u32)
        ensures
            final(self).points@.len() == old(self).points@.len() + n,
            forall|i: int|
                0 <= i < old(self).points@.len() ==> final(self).points@[i] == old(
                    self,
                ).points@[i],
            forall|i: int|
                old(self).points@.len() <= i < final(self).points@.len() ==> in_sample_square(
                    #[trigger] final(self).points@[i],
                ),
            final(self).darts_to_throw == old(self).darts_to_throw,
            old(self).wf() ==> final(self).wf(),
    {
        let mut i: u32 = 0;
        while i < n
            invariant
                0 <= i <= n,
                self.points@.len() == old(self).points@.len() + i,
                forall|j: int|
                    0 <= j < old(self).points@.len() ==> self.points@[j] == old(
                        self,
                    ).points@[j],
                forall|j: int|
                    old(self).points@.len() <= j < self.points@.len() ==> in_sample_square(
                        #[trigger] self.points@[j],
                    ),
                self.darts_to_throw == old(self).darts_to_throw,
            decreases n - i,
        {
            let x = sample_coord();
            let y = sample_coord();
            self.points.push(Point { x, y });
            i = i + 1;
        }
        proof {
            if old(self).wf() {
                assert forall|i: int|
                    0 <= i < self.points@.len() implies in_closed_square(
                    #[trigger] self.points@[i],
                ) by {
                    if i < old(self).points@.len() {
                        assert(in_closed_square(old(self).points@[i]));
                    } else {
                        assert(in_sample_square(self.points@[i]));
                    }
                }
            }
        }
    }

    /// One trigger action: parse the pending text and, where it is a valid
    /// `i32`, throw that many darts (none for a negative count, as a loop
    /// over an empty range). Where the text does not parse, nothing changes
    /// and the request is rejected instead of aborting.
    pub fn throw_darts(&mut self) -> (r: Result<(), DartError>)
        ensures
            final(self).darts_to_throw == old(self).darts_to_throw,
            old(self).wf() ==> final(self).wf(),
            match parse_i32_spec(old(self).darts_to_throw@) {
                Some(v) => {
                    &&& r is Ok
                    &&& final(self).points@.len() == old(self).points@.len() + (if v >= 0 {
                        v
                    } else {
                        0
                    })
                    &&& forall|i: int|
                        0 <= i < old(self).points@.len() ==> final(self).points@[i] == old(
                            self,
                        ).points@[i]
                    &&& forall|i: int|
                        old(self).points@.len() <= i < final(self).points@.len()
                            ==> in_sample_square(#[trigger] final(self).points@[i])
                },
                None => {
                    &&& r == Err::<(), DartError>(DartError::InvalidCount)
                    &&& final(self).points@ == old(self).points@
                },
            },
    {
        let parsed = parse_i32(self.darts_to_throw.as_str());
        match parsed {
            Some(v) => {
                let n: u32 = if v >= 0 {
                    v as u32
                } else {
                    0
                };
                self.generate(n);
                Ok(())
            },
            None => Err(DartError::InvalidCount),
        }
    }
}

} // verus!
