//! Display settings of the reader: the font size and its bounds.
use vstd::prelude::*;

verus! {

/// The font size, in pixels, where none is set.
pub const FONT_SIZE_DEFAULT: i64 = 20;

/// The change of one step smaller or larger.
pub const FONT_SIZE_INCREMENT: i64 = 2;

/// The smallest font size.
pub const FONT_SIZE_MIN: i64 = 6;

/// The largest font size.
pub const FONT_SIZE_MAX: i64 = 60;

/// `x` kept within `[lo, hi]`.
pub open spec fn clamp(x: int, lo: int, hi: int) -> int {
    if x < lo {
        lo
    } else if x > hi {
        hi
    } else {
        x
    }
}

/// The font size one step larger or smaller than `current` (the default
/// where it is unknown), kept within the bounds.
pub fn stepped_font_size(current: Option<i64>, larger: bool) -> (r: i64)
    ensures
        r == clamp(
            (match current {
                Some(v) => v as int,
                None => FONT_SIZE_DEFAULT as int,
            }) + if larger {
                FONT_SIZE_INCREMENT as int
            } else {
                -FONT_SIZE_INCREMENT
            },
            FONT_SIZE_MIN as int,
            FONT_SIZE_MAX as int,
        ),
{
    let old: i64 = match current {
        Some(v) => v,
        None => FONT_SIZE_DEFAULT,
    };
    let stepped: i64 = if larger {
        if old > FONT_SIZE_MAX {
            FONT_SIZE_MAX
        } else {
            old + FONT_SIZE_INCREMENT
        }
    } else {
        if old < FONT_SIZE_MIN {
            FONT_SIZE_MIN
        } else {
            old - FONT_SIZE_INCREMENT
        }
    };
    if stepped < FONT_SIZE_MIN {
        FONT_SIZE_MIN
    } else if stepped > FONT_SIZE_MAX {
        FONT_SIZE_MAX
    } else {
        stepped
    }
}

} // verus!
