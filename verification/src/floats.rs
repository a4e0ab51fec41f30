//! Float bookkeeping for one block formatting context.
//!
//! Placed floats are recorded by the rectangle their margin box occupies,
//! per side, in layout order, and are never removed for the context's
//! lifetime. The one query is the free horizontal band at a vertical
//! offset: the space between the rightmost edge of the left floats and the
//! leftmost edge of the right floats whose vertical extent covers that
//! offset. Floats are not assumed sorted; every query scans them all.

use vstd::prelude::*;
use crate::geometry::{Au, Rect, sat64, au_add, au_sub, au_max, au_min};
use crate::style::FloatType;

verus! {

/// The free horizontal band at some vertical offset: it starts at `x` and
/// is `width` long.
#[derive(Clone, Copy, Debug, PartialEq, Eq, Structural)]
pub struct Band {
    pub x: Au,
    pub width: Au,
}

/// The floats placed so far in one block formatting context.
#[derive(Debug)]
pub struct Floats {
    pub lefts: Vec<Rect>,
    pub rights: Vec<Rect>,
}

/// The mathematical value of a float context: the two placement sequences.
#[verifier::ext_equal]
pub struct FloatsV {
    pub lefts: Seq<Rect>,
    pub rights: Seq<Rect>,
}

impl View for Floats {
    type V = FloatsV;

    open spec fn view(&self) -> FloatsV {
        FloatsV { lefts: self.lefts@, rights: self.rights@ }
    }
}

pub open spec fn floats_empty() -> FloatsV {
    FloatsV { lefts: Seq::<Rect>::empty(), rights: Seq::<Rect>::empty() }
}

/// Whether the vertical extent of `r` covers the offset `y`.
pub open spec fn covers_spec(r: Rect, y: Au) -> bool {
    r.y <= y && y < sat64(r.y + r.height)
}

/// The right edge of the first `n` left floats that cover `y`: the maximum
/// of their `x + width`, at least zero.
pub open spec fn left_limit_upto(s: Seq<Rect>, y: Au, n: int) -> Au
    decreases n,
{
    if n <= 0 {
        0
    } else {
        let prev = left_limit_upto(s, y, n - 1);
        if covers_spec(s[n - 1], y) {
            let edge = sat64(s[n - 1].x + s[n - 1].width);
            if edge >= prev {
                edge
            } else {
                prev
            }
        } else {
            prev
        }
    }
}

/// The left edge of the first `n` right floats that cover `y`: the minimum
/// of their `x`, at most `max_width`.
pub open spec fn right_limit_upto(s: Seq<Rect>, y: Au, max_width: Au, n: int) -> Au
    decreases n,
{
    if n <= 0 {
        max_width
    } else {
        let prev = right_limit_upto(s, y, max_width, n - 1);
        if covers_spec(s[n - 1], y) {
            if s[n - 1].x <= prev {
                s[n - 1].x
            } else {
                prev
            }
        } else {
            prev
        }
    }
}

pub open spec fn left_limit_spec(f: FloatsV, y: Au) -> Au {
    left_limit_upto(f.lefts, y, f.lefts.len() as int)
}

pub open spec fn right_limit_spec(f: FloatsV, y: Au, max_width: Au) -> Au {
    right_limit_upto(f.rights, y, max_width, f.rights.len() as int)
}

/// The free band at offset `y` in a context `max_width` wide.
pub open spec fn available_area_spec(f: FloatsV, max_width: Au, y: Au) -> Band {
    Band {
        x: left_limit_spec(f, y),
        width: sat64(right_limit_spec(f, y, max_width) - left_limit_spec(f, y)),
    }
}

/// What registering a float does to the context.
pub open spec fn register_spec(f: FloatsV, side: FloatType, rect: Rect) -> FloatsV {
    match side {
        FloatType::Left => FloatsV { lefts: f.lefts.push(rect), rights: f.rights },
        FloatType::Right => FloatsV { lefts: f.lefts, rights: f.rights.push(rect) },
        FloatType::NoFloat => f,
    }
}

fn clone_rects(v: &Vec<Rect>) -> (r: Vec<Rect>)
    ensures
        r@ == v@,
{
    let mut out: Vec<Rect> = Vec::new();
    let mut i: usize = 0;
    while i < v.len()
        invariant
            0 <= i <= v@.len(),
            out@ == v@.subrange(0, i as int),
        decreases v@.len() - i,
    {
        out.push(v[i]);
        proof {
            assert(out@ =~= v@.subrange(0, i + 1));
        }
        i = i + 1;
    }
    proof {
        assert(out@ =~= v@);
    }
    out
}

impl Clone for Floats {
    /// An independent copy with the same placements.
    fn clone(&self) -> (r: Floats)
        ensures
            r@ == self@,
    {
        Floats { lefts: clone_rects(&self.lefts), rights: clone_rects(&self.rights) }
    }
}

impl Floats {
    /// A context with no floats placed.
    pub fn new() -> (f: Floats)
        ensures
            f@ == floats_empty(),
    {
        let f = Floats { lefts: Vec::new(), rights: Vec::new() };
        proof {
            assert(f@ =~= floats_empty());
        }
        f
    }

    /// Records the margin-box rectangle of a placed float on the given
    /// side, for the rest of this context's lifetime. Registering with
    /// `NoFloat` records nothing.
    pub fn register(&mut self, side: FloatType, rect: Rect)
        ensures
            final(self)@ == register_spec(old(self)@, side, rect),
    {
        match side {
            FloatType::Left => {
                self.lefts.push(rect);
                proof {
                    assert(final(self)@ =~= register_spec(old(self)@, side, rect));
                }
            },
            FloatType::Right => {
                self.rights.push(rect);
                proof {
                    assert(final(self)@ =~= register_spec(old(self)@, side, rect));
                }
            },
            FloatType::NoFloat => {
                proof {
                    assert(final(self)@ =~= register_spec(old(self)@, side, rect));
                }
            },
        }
    }

    /// The free horizontal band for content at vertical offset `y`, clipped
    /// by the floats that cover `y`, in a context `max_width` wide.
    pub fn available_area(&self, max_width: Au, y: Au) -> (b: Band)
        ensures
            b == available_area_spec(self@, max_width, y),
    {
        let mut left: Au = 0;
        let mut i: usize = 0;
        while i < self.lefts.len()
            invariant
                0 <= i <= self.lefts@.len(),
                left == left_limit_upto(self.lefts@, y, i as int),
            decreases self.lefts@.len() - i,
        {
            let r = self.lefts[i];
            if r.y <= y && y < au_add(r.y, r.height) {
                left = au_max(left, au_add(r.x, r.width));
            }
            i = i + 1;
        }
        let mut right: Au = max_width;
        let mut j: usize = 0;
        while j < self.rights.len()
            invariant
                0 <= j <= self.rights@.len(),
                right == right_limit_upto(self.rights@, y, max_width, j as int),
            decreases self.rights@.len() - j,
        {
            let r = self.rights[j];
            if r.y <= y && y < au_add(r.y, r.height) {
                right = au_min(right, r.x);
            }
            j = j + 1;
        }
        Band { x: left, width: au_sub(right, left) }
    }
}

} // verus!
