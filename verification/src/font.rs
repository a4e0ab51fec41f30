//! Fonts and the measurement model.
//!
//! Layout needs three answers about text: how wide a run of text units is,
//! how a font's height splits around the baseline, and how many units of a
//! run fit into a width budget. This module answers them with a
//! deterministic font-metrics model: every text unit advances half the font
//! size, the descent is a fifth of the font size, and the ascent is the
//! rest. The model is a pure function of the font, so a whole layout pass is
//! reproducible; a caller with a real font backend converts its sizes at the
//! style boundary.
//!
//! Text is carried as a vector of text units (Unicode codepoints), and every
//! range into it counts units, so no split can land inside a codepoint.

use vstd::prelude::*;
use crate::geometry::{Au, sat64, au_add, au_sub};

verus! {

#[derive(Clone, Copy, Debug, PartialEq, Eq, Structural)]
pub enum FontWeight {
    Normal,
    Bold,
}

#[derive(Clone, Copy, Debug, PartialEq, Eq, Structural)]
pub enum FontSlant {
    Normal,
    Italic,
}

/// The shared vocabulary between layout and measurement: a size in the
/// length unit, a weight and a slant.
#[derive(Clone, Copy, Debug, PartialEq, Eq, Structural)]
pub struct Font {
    pub size: Au,
    pub weight: FontWeight,
    pub slant: FontSlant,
}

pub open spec fn font_empty() -> Font {
    Font { size: 0, weight: FontWeight::Normal, slant: FontSlant::Normal }
}

/// The advance of one text unit: half the font size (zero for a degenerate
/// negative size).
pub open spec fn char_advance_spec(f: Font) -> Au {
    if f.size >= 0 {
        ((f.size as int) / 2) as i64
    } else {
        0
    }
}

/// The measured width of `n` text units: `n` advances, summed with
/// saturation.
pub open spec fn width_of_units(f: Font, n: nat) -> Au
    decreases n,
{
    if n == 0 {
        0
    } else {
        sat64(width_of_units(f, (n - 1) as nat) + char_advance_spec(f))
    }
}

/// The descent of a font: a fifth of its size.
pub open spec fn descent_spec(f: Font) -> Au {
    if f.size >= 0 {
        ((f.size as int) / 5) as i64
    } else {
        0
    }
}

/// The ascent of a font: its size less the descent, and zero for a
/// degenerate negative size, so both extents are never negative.
pub open spec fn ascent_spec(f: Font) -> Au {
    if f.size >= 0 {
        sat64(f.size - descent_spec(f))
    } else {
        0
    }
}

/// The leading of a font: the extra height of a line over the font size,
/// a fifth of the size (the usual 1.2 line-height factor).
pub open spec fn leading_spec(f: Font) -> Au {
    if f.size >= 0 {
        ((f.size as int) / 5) as i64
    } else {
        0
    }
}

/// The height of a line of this font: size plus leading.
pub open spec fn line_height_spec(f: Font) -> Au {
    sat64(f.size + leading_spec(f))
}

/// Half the leading: the part of a line's height below the baseline under
/// the half-leading rule.
pub open spec fn half_leading_spec(f: Font) -> Au {
    ((leading_spec(f) as int) / 2) as i64
}

/// The part of a line's height above the baseline under the half-leading
/// rule: line height less half the leading.
pub open spec fn above_baseline_spec(f: Font) -> Au {
    sat64(line_height_spec(f) - half_leading_spec(f))
}

/// A text unit at which a line may break: a Unicode whitespace character
/// (the codepoints with the White_Space property) or an ASCII punctuation
/// character. A break after such a unit never lands inside a word.
pub open spec fn is_breakable_spec(c: char) -> bool {
    ||| (0x09 <= c as u32 && c as u32 <= 0x0d)
    ||| c == ' '
    ||| c as u32 == 0x85
    ||| c as u32 == 0xa0
    ||| c as u32 == 0x1680
    ||| (0x2000 <= c as u32 && c as u32 <= 0x200a)
    ||| c as u32 == 0x2028
    ||| c as u32 == 0x2029
    ||| c as u32 == 0x202f
    ||| c as u32 == 0x205f
    ||| c as u32 == 0x3000
    ||| (0x21 <= c as u32 && c as u32 <= 0x2f)
    ||| (0x3a <= c as u32 && c as u32 <= 0x40)
    ||| (0x5b <= c as u32 && c as u32 <= 0x60)
    ||| (0x7b <= c as u32 && c as u32 <= 0x7e)
}

/// Whether a line may break just after unit `c`.
pub fn is_breakable(c: char) -> (r: bool)
    ensures
        r == is_breakable_spec(c),
{
    let v = c as u32;
    (0x09 <= v && v <= 0x0d) || c == ' ' || v == 0x85 || v == 0xa0 || v == 0x1680 || (0x2000 <= v
        && v <= 0x200a) || v == 0x2028 || v == 0x2029 || v == 0x202f || v == 0x205f || v == 0x3000
        || (0x21 <= v && v <= 0x2f) || (0x3a <= v && v <= 0x40) || (0x5b <= v && v <= 0x60) || (
    0x7b <= v && v <= 0x7e)
}

/// The largest count of units whose measured width fits the budget: the
/// greatest `n <= len` with `width_of_units(f, n) <= budget`. Since zero
/// units measure zero, this is zero exactly when the budget is negative or
/// the first unit already overflows it.
pub open spec fn fit_units_spec(f: Font, len: nat, budget: Au) -> nat
    decreases len,
{
    if width_of_units(f, len) <= budget {
        len
    } else if len == 0 {
        0
    } else {
        fit_units_spec(f, (len - 1) as nat, budget)
    }
}

/// The last breakable unit of `s` strictly before position `n`, as
/// `Some(index)`, or `None` when there is none.
pub open spec fn last_breakable_before(s: Seq<char>, n: int) -> Option<int>
    decreases n,
{
    if n <= 0 || n > s.len() {
        None::<int>
    } else if is_breakable_spec(s[n - 1]) {
        Some(n - 1)
    } else {
        last_breakable_before(s, n - 1)
    }
}

/// How many units of `s` a line with width budget `budget` takes, in
/// units: the whole run when it fits; else the longest fitting prefix,
/// cut back to end just after its last breakable unit when it has one; at
/// least one unit is taken from a non-empty run with a non-negative
/// budget even when nothing fits, so a splitter always makes progress.
pub open spec fn max_chars_spec(f: Font, s: Seq<char>, budget: Au) -> nat {
    if budget < 0 {
        0
    } else {
        let fit = fit_units_spec(f, s.len(), budget);
        if fit == s.len() {
            s.len()
        } else if fit == 0 {
            if s.len() == 0 {
                0
            } else {
                1
            }
        } else {
            match last_breakable_before(s, fit as int) {
                Some(j) => (j + 1) as nat,
                None => fit,
            }
        }
    }
}

proof fn lemma_width_monotonic(f: Font, m: nat, n: nat)
    requires
        m <= n,
    ensures
        width_of_units(f, m) <= width_of_units(f, n),
    decreases n,
{
    if m < n {
        lemma_width_monotonic(f, m, (n - 1) as nat);
    }
}

/// Pins the longest fitting prefix down: when `i` units fit and `i + 1`
/// (if available) do not, `i` is the fit for every run length `len >= i`.
proof fn lemma_fit_units_value(f: Font, len: nat, budget: Au, i: nat)
    requires
        i <= len,
        width_of_units(f, i) <= budget,
        i < len ==> width_of_units(f, (i + 1) as nat) > budget,
    ensures
        fit_units_spec(f, len, budget) == i,
    decreases len,
{
    if len == i {
    } else {
        lemma_width_monotonic(f, (i + 1) as nat, len);
        lemma_fit_units_value(f, (len - 1) as nat, budget, i);
    }
}

proof fn lemma_fit_units_le(f: Font, len: nat, budget: Au)
    ensures
        fit_units_spec(f, len, budget) <= len,
    decreases len,
{
    if width_of_units(f, len) <= budget {
    } else if len == 0 {
    } else {
        lemma_fit_units_le(f, (len - 1) as nat, budget);
    }
}

proof fn lemma_last_breakable_lt(s: Seq<char>, n: int)
    ensures
        last_breakable_before(s, n) is Some ==> 0 <= last_breakable_before(s, n).unwrap() < n,
    decreases n,
{
    if n <= 0 || n > s.len() {
    } else if is_breakable_spec(s[n - 1]) {
    } else {
        lemma_last_breakable_lt(s, n - 1);
    }
}

/// A split never takes more than the run it splits.
pub proof fn lemma_max_chars_le(f: Font, s: Seq<char>, budget: Au)
    ensures
        max_chars_spec(f, s, budget) <= s.len(),
{
    if budget >= 0 {
        let fit = fit_units_spec(f, s.len(), budget);
        lemma_fit_units_le(f, s.len(), budget);
        if fit > 0 {
            lemma_last_breakable_lt(s, fit as int);
        }
    }
}

impl Font {
    /// A new font from its three parts.
    pub fn new(size: Au, weight: FontWeight, slant: FontSlant) -> (f: Font)
        ensures
            f == (Font { size, weight, slant }),
    {
        Font { size, weight, slant }
    }

    /// The empty font a freshly built text box starts with, before layout
    /// resolves the styled font.
    pub fn new_empty() -> (f: Font)
        ensures
            f == font_empty(),
    {
        Font { size: 0, weight: FontWeight::Normal, slant: FontSlant::Normal }
    }

    /// The advance of one text unit in this font.
    pub fn char_advance(&self) -> (r: Au)
        ensures
            r == char_advance_spec(*self),
    {
        if self.size >= 0 {
            ((self.size as u64) / 2) as i64
        } else {
            0
        }
    }

    /// The measured width of the units `text[start..end]`.
    pub fn text_width(&self, text: &Vec<char>, start: usize, end: usize) -> (w: Au)
        requires
            start <= end <= text@.len(),
        ensures
            w == width_of_units(*self, (end - start) as nat),
    {
        let adv = self.char_advance();
        let mut w: Au = 0;
        let mut i: usize = start;
        while i < end
            invariant
                start <= i <= end,
                adv == char_advance_spec(*self),
                w == width_of_units(*self, (i - start) as nat),
            decreases end - i,
        {
            w = au_add(w, adv);
            i = i + 1;
        }
        w
    }

    /// The leading of this font: the extra height of a line over the size.
    pub fn leading(&self) -> (r: Au)
        ensures
            r == leading_spec(*self),
    {
        if self.size >= 0 {
            ((self.size as u64) / 5) as i64
        } else {
            0
        }
    }

    /// The height of a line of this font.
    pub fn line_height(&self) -> (r: Au)
        ensures
            r == line_height_spec(*self),
    {
        au_add(self.size, self.leading())
    }

    /// Half the leading: the extent a line of this font reaches below the
    /// baseline.
    pub fn half_leading(&self) -> (r: Au)
        ensures
            r == half_leading_spec(*self),
    {
        let l = self.leading();
        ((l as u64) / 2) as i64
    }

    /// The extent a line of this font reaches above the baseline.
    pub fn above_baseline(&self) -> (r: Au)
        ensures
            r == above_baseline_spec(*self),
    {
        au_sub(self.line_height(), self.half_leading())
    }

    /// The ascent and descent of this font, around the baseline.
    pub fn get_ascent_descent(&self) -> (r: (Au, Au))
        ensures
            r.0 == ascent_spec(*self),
            r.1 == descent_spec(*self),
    {
        if self.size >= 0 {
            let descent: Au = ((self.size as u64) / 5) as i64;
            (au_sub(self.size, descent), descent)
        } else {
            (0, 0)
        }
    }

    /// How many units of `text[start..end]` a line with width budget
    /// `max_width` takes: the whole run when it fits; else the longest
    /// fitting prefix, preferring to end just after the last breakable
    /// unit inside that prefix; one unit of a non-empty run when nothing
    /// fits a non-negative budget; zero on a negative budget.
    pub fn compute_max_chars(&self, text: &Vec<char>, start: usize, end: usize, max_width: Au)
        -> (r: usize)
        requires
            start <= end <= text@.len(),
        ensures
            r == max_chars_spec(*self, text@.subrange(start as int, end as int), max_width),
            r <= end - start,
    {
        let ghost s = text@.subrange(start as int, end as int);
        if max_width < 0 {
            return 0;
        }
        let adv = self.char_advance();
        let mut w: Au = 0;
        let mut i: usize = 0;
        let len = end - start;
        let mut last_break: usize = 0;
        let mut has_break: bool = false;
        // Scan forward while the prefix fits, remembering the last breakable
        // unit seen inside the fitting prefix.
        while i < len
            invariant
                0 <= i <= len,
                len == end - start,
                len == s.len(),
                start <= end <= text@.len(),
                s == text@.subrange(start as int, end as int),
                max_width >= 0,
                adv == char_advance_spec(*self),
                w == width_of_units(*self, i as nat),
                w <= max_width,
                has_break ==> last_break < i && last_breakable_before(s, i as int) == Some(
                    last_break as int,
                ),
                !has_break ==> last_breakable_before(s, i as int) is None,
            decreases len - i,
        {
            let w2 = au_add(w, adv);
            if w2 > max_width {
                // The prefix of i + 1 units overflows: i is the longest fit.
                proof {
                    lemma_fit_units_value(*self, len as nat, max_width, i as nat);
                }
                if i == 0 {
                    return 1;
                }
                if has_break {
                    return last_break + 1;
                }
                return i;
            }
            // The prefix of i + 1 units fits; record a breakable unit.
            proof {
                assert(s[i as int] == text@[start + i]);
            }
            if is_breakable(text[start + i]) {
                last_break = i;
                has_break = true;
            }
            w = w2;
            i = i + 1;
        }
        // The whole run fits: take it all.
        proof {
            lemma_fit_units_value(*self, len as nat, max_width, len as nat);
        }
        len
    }
}

} // verus!
