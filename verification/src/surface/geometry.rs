//! Points, sizes and rectangles in terminal cell space.
use vstd::prelude::*;

verus! {

/// `a + b`, saturated at `usize::MAX`.
pub open spec fn sat_add(a: int, b: int) -> int {
    if a + b > usize::MAX {
        usize::MAX as int
    } else {
        a + b
    }
}

/// `a - b`, saturated at zero.
pub open spec fn sat_sub(a: int, b: int) -> int {
    if a < b {
        0
    } else {
        a - b
    }
}

/// `a * b`, saturated at `usize::MAX`.
pub open spec fn sat_mul(a: int, b: int) -> int {
    if a * b > usize::MAX {
        usize::MAX as int
    } else {
        a * b
    }
}

/// The smaller of two integers.
pub open spec fn min_of(a: int, b: int) -> int {
    if a <= b {
        a
    } else {
        b
    }
}

/// The larger of two integers.
pub open spec fn max_of(a: int, b: int) -> int {
    if a >= b {
        a
    } else {
        b
    }
}

/// `v` restricted to `[lo, hi]` (with `lo <= hi`).
pub open spec fn clamp_of(v: int, lo: int, hi: int) -> int {
    if v < lo {
        lo
    } else if v > hi {
        hi
    } else {
        v
    }
}

/// Saturating addition on `usize`.
pub fn add_sat(a: usize, b: usize) -> (r: usize)
    ensures
        r == sat_add(a as int, b as int),
{
    a.saturating_add(b)
}

/// Saturating subtraction on `usize`.
pub fn sub_sat(a: usize, b: usize) -> (r: usize)
    ensures
        r == sat_sub(a as int, b as int),
{
    a.saturating_sub(b)
}

/// Saturating multiplication on `usize`.
pub fn mul_sat(a: usize, b: usize) -> (r: usize)
    ensures
        r == sat_mul(a as int, b as int),
{
    match a.checked_mul(b) {
        Some(v) => v,
        None => usize::MAX,
    }
}

/// The smaller of two `usize` values.
pub fn min_usize(a: usize, b: usize) -> (r: usize)
    ensures
        r == min_of(a as int, b as int),
{
    if a <= b {
        a
    } else {
        b
    }
}

/// The larger of two `usize` values.
pub fn max_usize(a: usize, b: usize) -> (r: usize)
    ensures
        r == max_of(a as int, b as int),
{
    if a >= b {
        a
    } else {
        b
    }
}

/// Restricts `v` to `[lo, hi]`.
pub fn clamp_usize(v: usize, lo: usize, hi: usize) -> (r: usize)
    requires
        lo <= hi,
    ensures
        r == clamp_of(v as int, lo as int, hi as int),
        lo <= r <= hi,
{
    if v < lo {
        lo
    } else if v > hi {
        hi
    } else {
        v
    }
}

/// A 2D XY-coordinate within a space.
#[derive(Debug, Clone, Copy, PartialEq, Eq, Structural, PartialOrd, Ord, Hash)]
pub struct Point {
    /// X-coordinate (# of columns) within a space.
    pub x: usize,
    /// Y-coordinate (# of rows) within a space.
    pub y: usize,
}

impl Default for Point {
    fn default() -> (p: Self)
        ensures
            p == (Point { x: 0, y: 0 }),
    {
        Point::zero()
    }
}

impl From<Rect> for Point {
    /// The origin of a rectangle.
    fn from(value: Rect) -> (p: Point) {
        Point { x: value.x, y: value.y }
    }
}

impl vstd::std_specs::convert::FromSpecImpl<Rect> for Point {
    open spec fn obeys_from_spec() -> bool {
        true
    }

    open spec fn from_spec(v: Rect) -> Point {
        Point { x: v.x, y: v.y }
    }
}

impl From<(usize, usize)> for Point {
    /// The point with the pair's first part as column and its second as row.
    fn from(value: (usize, usize)) -> (p: Point) {
        Point { x: value.0, y: value.1 }
    }
}

impl vstd::std_specs::convert::FromSpecImpl<(usize, usize)> for Point {
    open spec fn obeys_from_spec() -> bool {
        true
    }

    open spec fn from_spec(v: (usize, usize)) -> Point {
        Point { x: v.0, y: v.1 }
    }
}

impl From<(u16, u16)> for Point {
    /// The point with the pair's first part as column and its second as row.
    fn from(value: (u16, u16)) -> (p: Point) {
        Point { x: value.0 as usize, y: value.1 as usize }
    }
}

impl vstd::std_specs::convert::FromSpecImpl<(u16, u16)> for Point {
    open spec fn obeys_from_spec() -> bool {
        true
    }

    open spec fn from_spec(v: (u16, u16)) -> Point {
        Point { x: v.0 as usize, y: v.1 as usize }
    }
}

impl From<Point> for (usize, usize) {
    /// The column and row of a point.
    fn from(value: Point) -> (t: (usize, usize)) {
        (value.x, value.y)
    }
}

impl vstd::std_specs::convert::FromSpecImpl<Point> for (usize, usize) {
    open spec fn obeys_from_spec() -> bool {
        true
    }

    open spec fn from_spec(v: Point) -> (usize, usize) {
        (v.x, v.y)
    }
}

impl core::ops::Add<Point> for Point {
    type Output = Point;

    /// Adds coordinates; the sums fit in `usize`.
    fn add(self, rhs: Point) -> (p: Point) {
        Point { x: self.x + rhs.x, y: self.y + rhs.y }
    }
}

impl vstd::std_specs::ops::AddSpecImpl<Point> for Point {
    open spec fn obeys_add_spec() -> bool {
        true
    }

    open spec fn add_req(self, rhs: Point) -> bool {
        self.x + rhs.x <= usize::MAX && self.y + rhs.y <= usize::MAX
    }

    open spec fn add_spec(self, rhs: Point) -> Point {
        Point { x: (self.x + rhs.x) as usize, y: (self.y + rhs.y) as usize }
    }
}

impl core::ops::Sub<Point> for Point {
    type Output = Point;

    /// Subtracts coordinates; neither difference is negative.
    fn sub(self, rhs: Point) -> (p: Point) {
        Point { x: self.x - rhs.x, y: self.y - rhs.y }
    }
}

impl vstd::std_specs::ops::SubSpecImpl<Point> for Point {
    open spec fn obeys_sub_spec() -> bool {
        true
    }

    open spec fn sub_req(self, rhs: Point) -> bool {
        rhs.x <= self.x && rhs.y <= self.y
    }

    open spec fn sub_spec(self, rhs: Point) -> Point {
        Point { x: (self.x - rhs.x) as usize, y: (self.y - rhs.y) as usize }
    }
}

impl Point {
    /// The origin point `(0, 0)`.
    pub fn zero() -> (p: Self)
        ensures
            p == (Point { x: 0, y: 0 }),
    {
        Point { x: 0, y: 0 }
    }

    /// Creates a new instance of a `Point`.
    pub fn new(x: usize, y: usize) -> (p: Self)
        ensures
            p.x == x,
            p.y == y,
    {
        Point { x, y }
    }

    /// Returns this point as a tuple.
    pub fn into_tuple(self) -> (t: (usize, usize))
        ensures
            t == (self.x, self.y),
    {
        (self.x, self.y)
    }

    /// Returns a copy of this point with a different `x`.
    pub fn with_x(self, x: usize) -> (p: Self)
        ensures
            p.x == x,
            p.y == self.y,
    {
        Point { x, y: self.y }
    }

    /// Returns a copy of this point with a different `y`.
    pub fn with_y(self, y: usize) -> (p: Self)
        ensures
            p.x == self.x,
            p.y == y,
    {
        Point { x: self.x, y }
    }

    /// Returns a new point offset by the given delta.
    pub fn offset(self, dx: usize, dy: usize) -> (p: Self)
        requires
            self.x + dx <= usize::MAX,
            self.y + dy <= usize::MAX,
        ensures
            p.x == self.x + dx,
            p.y == self.y + dy,
    {
        Point::new(self.x + dx, self.y + dy)
    }

    /// Returns a new point offset by the given delta, saturating on overflow.
    pub fn saturating_offset(self, dx: usize, dy: usize) -> (p: Self)
        ensures
            p.x == sat_add(self.x as int, dx as int),
            p.y == sat_add(self.y as int, dy as int),
    {
        Point::new(add_sat(self.x, dx), add_sat(self.y, dy))
    }

    /// Returns a new point after saturating addition.
    pub fn saturating_add(self, other: Self) -> (p: Self)
        ensures
            p.x == sat_add(self.x as int, other.x as int),
            p.y == sat_add(self.y as int, other.y as int),
    {
        Point::new(add_sat(self.x, other.x), add_sat(self.y, other.y))
    }

    /// Returns a new point after saturating subtraction.
    pub fn saturating_sub(self, other: Self) -> (p: Self)
        ensures
            p.x == sat_sub(self.x as int, other.x as int),
            p.y == sat_sub(self.y as int, other.y as int),
    {
        Point::new(sub_sat(self.x, other.x), sub_sat(self.y, other.y))
    }

    /// Returns the component-wise minimum.
    pub fn min(self, other: Self) -> (p: Self)
        ensures
            p.x == min_of(self.x as int, other.x as int),
            p.y == min_of(self.y as int, other.y as int),
    {
        Point::new(min_usize(self.x, other.x), min_usize(self.y, other.y))
    }

    /// Returns the component-wise maximum.
    pub fn max(self, other: Self) -> (p: Self)
        ensures
            p.x == max_of(self.x as int, other.x as int),
            p.y == max_of(self.y as int, other.y as int),
    {
        Point::new(max_usize(self.x, other.x), max_usize(self.y, other.y))
    }

    /// Restricts each component to the box spanned by `lo` and `hi` (unlike `Ord::clamp`,
    /// which compares points as a whole).
    pub fn clamp_each(self, lo: Self, hi: Self) -> (p: Self)
        requires
            lo.x <= hi.x,
            lo.y <= hi.y,
        ensures
            p.x == clamp_of(self.x as int, lo.x as int, hi.x as int),
            p.y == clamp_of(self.y as int, lo.y as int, hi.y as int),
    {
        Point::new(clamp_usize(self.x, lo.x, hi.x), clamp_usize(self.y, lo.y, hi.y))
    }

    /// Converts a `Point` into a flattened row-major index.
    pub fn as_index(&self, width: usize) -> (i: usize)
        requires
            self.y * width + self.x <= usize::MAX,
        ensures
            i == self.y * width + self.x,
    {
        proof {
            vstd::arithmetic::mul::lemma_mul_nonnegative(self.y as int, width as int);
        }
        self.y * width + self.x
    }
}

/// Dimensions as columns and rows within a space.
#[derive(Debug, Clone, Copy, PartialEq, Eq, Structural, PartialOrd, Ord)]
pub struct Size {
    /// Width in columns.
    pub width: usize,
    /// Height in rows.
    pub height: usize,
}

impl From<(usize, usize)> for Size {
    /// The size with the pair's first part as width and its second as height.
    fn from(value: (usize, usize)) -> (s: Size) {
        Size { width: value.0, height: value.1 }
    }
}

impl vstd::std_specs::convert::FromSpecImpl<(usize, usize)> for Size {
    open spec fn obeys_from_spec() -> bool {
        true
    }

    open spec fn from_spec(v: (usize, usize)) -> Size {
        Size { width: v.0, height: v.1 }
    }
}

impl From<Rect> for Size {
    /// The size of a rectangle.
    fn from(value: Rect) -> (s: Size) {
        Size { width: value.width, height: value.height }
    }
}

impl vstd::std_specs::convert::FromSpecImpl<Rect> for Size {
    open spec fn obeys_from_spec() -> bool {
        true
    }

    open spec fn from_spec(v: Rect) -> Size {
        Size { width: v.width, height: v.height }
    }
}

impl Size {
    /// Size of 0.
    pub fn zero() -> (s: Self)
        ensures
            s == (Size { width: 0, height: 0 }),
    {
        Size { width: 0, height: 0 }
    }

    /// Creates a new `Size` from dimensions.
    pub fn new(width: usize, height: usize) -> (s: Self)
        ensures
            s.width == width,
            s.height == height,
    {
        Size { width, height }
    }

    /// The number of cells covered: `width * height`, saturating.
    pub fn dot(&self) -> (n: usize)
        ensures
            n == sat_mul(self.width as int, self.height as int),
    {
        mul_sat(self.width, self.height)
    }
}

/// Bounds of an area including position that is based off of a top-left coordinate.
#[derive(Debug, Clone, Copy, PartialEq, Eq, Structural, PartialOrd, Ord)]
pub struct Rect {
    /// Leftmost X-coordinate (column).
    pub x: usize,
    /// Topmost Y-coordinate (row).
    pub y: usize,
    /// Width extending right.
    pub width: usize,
    /// Height extending down.
    pub height: usize,
}

impl Default for Rect {
    /// A one-cell rectangle at the origin.
    fn default() -> (r: Self)
        ensures
            r == (Rect { x: 0, y: 0, width: 1, height: 1 }),
    {
        Rect { x: 0, y: 0, width: 1, height: 1 }
    }
}

impl Rect {
    /// The cells `(px, py)` covered by this rectangle, measured with the saturated right
    /// and bottom edges used throughout the crate.
    pub open spec fn spec_contains(self, px: int, py: int) -> bool {
        &&& self.x <= px
        &&& px < sat_add(self.x as int, self.width as int)
        &&& self.y <= py
        &&& py < sat_add(self.y as int, self.height as int)
    }

    /// Assigns the XY-coordinates to the `Point`.
    pub fn with_origin(self, origin: Point) -> (r: Self)
        ensures
            r == (Rect { x: origin.x, y: origin.y, ..self }),
    {
        Rect { x: origin.x, y: origin.y, width: self.width, height: self.height }
    }

    /// Assigns the width and height to the `Size`.
    pub fn with_size(self, size: Size) -> (r: Self)
        ensures
            r == (Rect { width: size.width, height: size.height, ..self }),
    {
        Rect { x: self.x, y: self.y, width: size.width, height: size.height }
    }

    /// Assigns the position for the `Rect`.
    pub fn position(self, origin: Point) -> (r: Self)
        ensures
            r == (Rect { x: origin.x, y: origin.y, ..self }),
    {
        self.with_origin(origin)
    }

    /// Assigns the width in columns.
    pub fn width(self, width: usize) -> (r: Self)
        ensures
            r == (Rect { width, ..self }),
    {
        Rect { width, ..self }
    }

    /// Assigns the height in rows.
    pub fn height(self, height: usize) -> (r: Self)
        ensures
            r == (Rect { height, ..self }),
    {
        Rect { height, ..self }
    }

    /// Converts from a deconstructed version back into a Rect.
    pub fn from(point: Point, size: Size) -> (r: Self)
        ensures
            r == (Rect { x: point.x, y: point.y, width: size.width, height: size.height }),
    {
        Rect::default().with_origin(point).with_size(size)
    }

    /// Returns a new `Rect` centered on `(x, y)`.
    pub fn center_on(self, x: usize, y: usize) -> (r: Self)
        ensures
            r.x == sat_sub(x as int, (self.width / 2) as int),
            r.y == sat_sub(y as int, (self.height / 2) as int),
            r.width == self.width,
            r.height == self.height,
    {
        Rect {
            x: sub_sat(x, self.width / 2),
            y: sub_sat(y, self.height / 2),
            width: self.width,
            height: self.height,
        }
    }

    /// Returns a new `Rect` whose origin is clamped so that it lies inside `bounds` as far
    /// as its size allows.
    pub fn clamp_to(self, bounds: Rect) -> (r: Self)
        ensures
            r.x == clamp_of(
                self.x as int,
                bounds.x as int,
                sat_add(bounds.x as int, sat_sub(bounds.width as int, self.width as int)),
            ),
            r.y == clamp_of(
                self.y as int,
                bounds.y as int,
                sat_add(bounds.y as int, sat_sub(bounds.height as int, self.height as int)),
            ),
            r.width == self.width,
            r.height == self.height,
    {
        let max_x = add_sat(bounds.x, sub_sat(bounds.width, self.width));
        let max_y = add_sat(bounds.y, sub_sat(bounds.height, self.height));
        Rect {
            x: clamp_usize(self.x, bounds.x, max_x),
            y: clamp_usize(self.y, bounds.y, max_y),
            width: self.width,
            height: self.height,
        }
    }

    /// XY Coordinates for the `Rect`.
    pub fn origin(&self) -> (p: Point)
        ensures
            p == (Point { x: self.x, y: self.y }),
    {
        Point::new(self.x, self.y)
    }

    /// Checks whether the point `(x, y)` lies within this `Rect`.
    pub fn contains(&self, x: usize, y: usize) -> (b: bool)
        ensures
            b == self.spec_contains(x as int, y as int),
    {
        x >= self.x && x < add_sat(self.x, self.width) && y >= self.y && y < add_sat(
            self.y,
            self.height,
        )
    }

    /// Checks if a `Point` is within the `Rect`.
    pub fn contains_point(&self, point: Point) -> (b: bool)
        ensures
            b == self.spec_contains(point.x as int, point.y as int),
    {
        self.contains(point.x, point.y)
    }

    /// Center point of the Rect.
    pub fn center(&self) -> (p: Point)
        ensures
            p.x == sat_add(self.x as int, (self.width / 2) as int),
            p.y == sat_add(self.y as int, (self.height / 2) as int),
    {
        Point::new(add_sat(self.x, (self.width / 2)), add_sat(self.y, (self.height / 2)))
    }
}

} // verus!
