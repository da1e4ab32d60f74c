//! A target width-to-height ratio held as a pair of whole numbers.
use vstd::prelude::*;

verus! {

/// The shape a growing lattice is steered toward: `width` columns for every
/// `height` rows.
#[derive(Clone, Copy, Debug, PartialEq, Eq, Structural)]
pub struct AspectRatio {
    pub width: u64,
    pub height: u64,
}

impl AspectRatio {
    /// Both sides are positive: the ratio is neither zero nor unbounded.
    pub open spec fn is_valid(self) -> bool {
        self.width > 0 && self.height > 0
    }

    /// A block of `w` columns and `h` rows is wider than this ratio:
    /// `w / h > width / height`, compared without division.
    pub open spec fn is_exceeded_by(self, w: int, h: int) -> bool {
        w * self.height > h * self.width
    }

    /// The ratio `width : height`, or `None` where either side is zero.
    pub fn new(width: u64, height: u64) -> (r: Option<AspectRatio>)
        ensures
            r == (if width > 0 && height > 0 {
                Some(AspectRatio { width, height })
            } else {
                None
            }),
    {
        if width > 0 && height > 0 {
            Some(AspectRatio { width, height })
        } else {
            None
        }
    }

    /// Whether `w` columns by `h` rows is wider than this ratio.
    pub fn exceeded_by(&self, w: u64, h: u64) -> (r: bool)
        ensures
            r == self.is_exceeded_by(w as int, h as int),
    {
        proof {
            lemma_product_fits(w, self.height);
            lemma_product_fits(h, self.width);
        }
        let lhs: u128 = (w as u128) * (self.height as u128);
        let rhs: u128 = (h as u128) * (self.width as u128);
        lhs > rhs
    }
}

/// The product of two `u64` values fits in a `u128`.
proof fn lemma_product_fits(a: u64, b: u64)
    ensures
        (a as int) * (b as int) <= u128::MAX,
{
    assert((a as int) * (b as int) <= (u64::MAX as int) * (u64::MAX as int)) by (nonlinear_arith)
        requires
            a <= u64::MAX,
            b <= u64::MAX,
    ;
}

} // verus!
