//! The parts of `axgeom` that the lattice logic works with.
use vstd::prelude::*;

use axgeom::Range;
use axgeom::Rect;
use axgeom::Vec2;

verus! {

/// `axgeom::Vec2`: a pair of public fields `x` and `y`, nothing else.
#[verifier::external_type_specification]
#[verifier::reject_recursive_types(N)]
pub struct ExVec2<N>(Vec2<N>);

/// `axgeom::Range`: a pair of public fields `start` and `end`, nothing else.
#[verifier::external_type_specification]
#[verifier::reject_recursive_types(T)]
pub struct ExRange<T>(Range<T>);

/// `axgeom::Rect`: two public `Range` fields `x` and `y`, nothing else.
#[verifier::external_type_specification]
#[verifier::reject_recursive_types(T)]
pub struct ExRect<T>(Rect<T>);

/// Relies on `axgeom::vec2`: builds the vector with the two given components.
pub assume_specification<N>[ axgeom::vec2::<N> ](x: N, y: N) -> (r: Vec2<N>)
    ensures
        r.x == x,
        r.y == y,
;

/// Relies on `axgeom::vec2same`: both components are the given value.
pub assume_specification<N: Copy>[ axgeom::vec2same::<N> ](a: N) -> (r: Vec2<N>)
    ensures
        r.x == a,
        r.y == a,
;

/// Relies on `axgeom::Rect::new`: the x range is `xstart..xend`, the y range
/// `ystart..yend`.
pub assume_specification<T>[ Rect::<T>::new ](xstart: T, xend: T, ystart: T, yend: T) -> (r: Rect<T>)
    ensures
        r.x.start == xstart,
        r.x.end == xend,
        r.y.start == ystart,
        r.y.end == yend,
;

/// The integer pair held by a vector of signed cell coordinates.
pub open spec fn cell_of(v: Vec2<isize>) -> (int, int) {
    (v.x as int, v.y as int)
}

/// The integer pair held by a vector of unsigned cell coordinates.
pub open spec fn ucell_of(v: Vec2<usize>) -> (int, int) {
    (v.x as int, v.y as int)
}

} // verus!
