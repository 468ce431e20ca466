use vstd::prelude::*;

verus! {

/// A point in pixel space. The origin is the terminal's top left corner,
/// `x` grows rightward and `y` grows downward.
#[derive(Copy, Clone, Debug, PartialEq, Eq, Hash, Structural)]
pub struct Point {
    pub x: i32,
    pub y: i32,
}

/// The extent of a rectangle, in pixels.
#[derive(Copy, Clone, Debug, PartialEq, Eq, Hash, Structural)]
pub struct Size {
    pub width: u32,
    pub height: u32,
}

/// An axis-aligned rectangle in pixel space, given by its top left corner
/// and its size. A rectangle with zero width or zero height covers no pixels.
#[derive(Copy, Clone, Debug, PartialEq, Eq, Hash, Structural)]
pub struct Rectangle {
    pub top_left: Point,
    pub size: Size,
}

impl Point {
    pub fn new(x: i32, y: i32) -> (p: Point)
        ensures
            p == (Point { x, y }),
    {
        Point { x, y }
    }

    pub fn zero() -> (p: Point)
        ensures
            p == (Point { x: 0, y: 0 }),
    {
        Point { x: 0, y: 0 }
    }
}

impl Size {
    pub fn new(width: u32, height: u32) -> (s: Size)
        ensures
            s == (Size { width, height }),
    {
        Size { width, height }
    }

    pub fn zero() -> (s: Size)
        ensures
            s == (Size { width: 0, height: 0 }),
    {
        Size { width: 0, height: 0 }
    }
}

/// The rectangle covering exactly the pixels that lie in both `a` and `b`;
/// the zero rectangle when they share none. Stated over unbounded integers,
/// so no coordinate arithmetic can wrap.
pub open spec fn spec_intersection(a: Rectangle, b: Rectangle) -> Rectangle {
    let l = if a.left() >= b.left() {
        a.left()
    } else {
        b.left()
    };
    let t = if a.top() >= b.top() {
        a.top()
    } else {
        b.top()
    };
    let r = if a.right() <= b.right() {
        a.right()
    } else {
        b.right()
    };
    let m = if a.bottom() <= b.bottom() {
        a.bottom()
    } else {
        b.bottom()
    };
    if l < r && t < m {
        Rectangle {
            top_left: Point { x: l as i32, y: t as i32 },
            size: Size { width: (r - l) as u32, height: (m - t) as u32 },
        }
    } else {
        Rectangle { top_left: Point { x: 0, y: 0 }, size: Size { width: 0, height: 0 } }
    }
}

impl Rectangle {
    /// The inclusive left edge.
    pub open spec fn left(self) -> int {
        self.top_left.x as int
    }

    /// The inclusive top edge.
    pub open spec fn top(self) -> int {
        self.top_left.y as int
    }

    /// The exclusive right edge.
    pub open spec fn right(self) -> int {
        self.top_left.x + self.size.width
    }

    /// The exclusive bottom edge.
    pub open spec fn bottom(self) -> int {
        self.top_left.y + self.size.height
    }

    /// Whether the pixel at `(x, y)` lies inside the rectangle.
    pub open spec fn spec_contains(self, x: int, y: int) -> bool {
        self.left() <= x < self.right() && self.top() <= y < self.bottom()
    }

    /// Whether the rectangle covers no pixels.
    pub open spec fn spec_is_empty(self) -> bool {
        self.size.width == 0 || self.size.height == 0
    }

    pub fn new(top_left: Point, size: Size) -> (r: Rectangle)
        ensures
            r == (Rectangle { top_left, size }),
    {
        Rectangle { top_left, size }
    }

    pub fn zero() -> (r: Rectangle)
        ensures
            r == (Rectangle {
                top_left: Point { x: 0, y: 0 },
                size: Size { width: 0, height: 0 },
            }),
    {
        Rectangle { top_left: Point { x: 0, y: 0 }, size: Size { width: 0, height: 0 } }
    }

    pub fn is_zero_sized(&self) -> (r: bool)
        ensures
            r == self.spec_is_empty(),
    {
        self.size.width == 0 || self.size.height == 0
    }

    /// Whether `point` lies inside the rectangle.
    pub fn contains(&self, point: Point) -> (r: bool)
        ensures
            r == self.spec_contains(point.x as int, point.y as int),
    {
        let l: i64 = self.top_left.x as i64;
        let t: i64 = self.top_left.y as i64;
        let x: i64 = point.x as i64;
        let y: i64 = point.y as i64;
        l <= x && x < l + self.size.width as i64 && t <= y && y < t + self.size.height as i64
    }

    /// The rectangle covering exactly the pixels inside both `self` and
    /// `other`; zero sized when they overlap nowhere. All arithmetic is done
    /// in a wider integer type, so coordinates at the edge of the
    /// representable range cannot wrap.
    pub fn intersection(&self, other: &Rectangle) -> (r: Rectangle)
        ensures
            r == spec_intersection(*self, *other),
    {
        let al: i64 = self.top_left.x as i64;
        let at: i64 = self.top_left.y as i64;
        let ar: i64 = al + self.size.width as i64;
        let ab: i64 = at + self.size.height as i64;
        let bl: i64 = other.top_left.x as i64;
        let bt: i64 = other.top_left.y as i64;
        let br: i64 = bl + other.size.width as i64;
        let bb: i64 = bt + other.size.height as i64;

        let l: i64 = if al >= bl { al } else { bl };
        let t: i64 = if at >= bt { at } else { bt };
        let r: i64 = if ar <= br { ar } else { br };
        let m: i64 = if ab <= bb { ab } else { bb };

        if l < r && t < m {
            Rectangle {
                top_left: Point { x: l as i32, y: t as i32 },
                size: Size { width: (r - l) as u32, height: (m - t) as u32 },
            }
        } else {
            Rectangle { top_left: Point { x: 0, y: 0 }, size: Size { width: 0, height: 0 } }
        }
    }
}

/// The intersection covers a pixel exactly when both rectangles do.
pub proof fn lemma_intersection_contains(a: Rectangle, b: Rectangle, x: int, y: int)
    ensures
        spec_intersection(a, b).spec_contains(x, y) <==> a.spec_contains(x, y) && b.spec_contains(
            x,
            y,
        ),
{
}

} // verus!
