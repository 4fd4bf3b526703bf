use vstd::prelude::*;

verus! {

/// Plain old integer coordinates.
#[derive(Clone, Copy, PartialEq, Eq, Structural, Hash, Debug)]
pub struct Coords {
    pub x: i32,
    pub y: i32,
}

/// Represents a difference between two `Coords`s.
#[derive(Clone, Copy, PartialEq, Eq, Structural, Debug)]
pub struct CoordsDelta {
    pub dx: i32,
    pub dy: i32,
}

/// Represents the (integer) size of a rectangular area (but not its position).
#[derive(Clone, Copy, PartialEq, Eq, Structural, Debug)]
pub struct Dimensions {
    pub w: i32,
    pub h: i32,
}

#[derive(Clone, Copy, PartialEq, Eq, Structural, Debug)]
pub struct Rect {
    pub top_left: Coords,
    pub dims: Dimensions,
}

/// Whether `c + d` is representable with `i32` components.
pub open spec fn shift_fits(c: Coords, d: CoordsDelta) -> bool {
    i32::MIN <= c.x + d.dx <= i32::MAX && i32::MIN <= c.y + d.dy <= i32::MAX
}

pub open spec fn at(x: int, y: int) -> Coords {
    Coords { x: x as i32, y: y as i32 }
}

pub open spec fn abs(v: int) -> int {
    if v < 0 { -v } else { v }
}

pub open spec fn dir_up() -> CoordsDelta {
    CoordsDelta { dx: 0, dy: -1i32 }
}

pub open spec fn dir_right() -> CoordsDelta {
    CoordsDelta { dx: 1, dy: 0 }
}

pub open spec fn dir_down() -> CoordsDelta {
    CoordsDelta { dx: 0, dy: 1 }
}

pub open spec fn dir_left() -> CoordsDelta {
    CoordsDelta { dx: -1i32, dy: 0 }
}

/// The four directions, in the order in which scans go through them.
pub open spec fn four_directions() -> Seq<CoordsDelta> {
    seq![dir_up(), dir_right(), dir_down(), dir_left()]
}

impl Coords {
    pub fn new(x: i32, y: i32) -> (r: Coords)
        ensures
            r.x == x && r.y == y,
    {
        Coords { x, y }
    }

    /// Manhattan distance.
    pub fn dist(self, rhs: Coords) -> (r: i32)
        requires
            abs(self.x - rhs.x) + abs(self.y - rhs.y) <= i32::MAX,
        ensures
            r == abs(self.x - rhs.x) + abs(self.y - rhs.y),
    {
        let dx: i64 = if self.x >= rhs.x {
            self.x as i64 - rhs.x as i64
        } else {
            rhs.x as i64 - self.x as i64
        };
        let dy: i64 = if self.y >= rhs.y {
            self.y as i64 - rhs.y as i64
        } else {
            rhs.y as i64 - self.y as i64
        };
        (dx + dy) as i32
    }

    /// `self + d`.
    pub fn shifted(self, d: CoordsDelta) -> (r: Coords)
        requires
            shift_fits(self, d),
        ensures
            r.x == self.x + d.dx,
            r.y == self.y + d.dy,
    {
        Coords { x: self.x + d.dx, y: self.y + d.dy }
    }

    /// `self - rhs`.
    pub fn delta_from(self, rhs: Coords) -> (r: CoordsDelta)
        requires
            i32::MIN <= self.x - rhs.x <= i32::MAX,
            i32::MIN <= self.y - rhs.y <= i32::MAX,
        ensures
            r.dx == self.x - rhs.x,
            r.dy == self.y - rhs.y,
    {
        CoordsDelta { dx: self.x - rhs.x, dy: self.y - rhs.y }
    }
}

impl CoordsDelta {
    pub fn new(dx: i32, dy: i32) -> (r: CoordsDelta)
        ensures
            r.dx == dx && r.dy == dy,
    {
        CoordsDelta { dx, dy }
    }

    pub fn up() -> (r: CoordsDelta)
        ensures
            r == dir_up(),
    {
        CoordsDelta { dx: 0, dy: -1 }
    }

    pub fn right() -> (r: CoordsDelta)
        ensures
            r == dir_right(),
    {
        CoordsDelta { dx: 1, dy: 0 }
    }

    pub fn down() -> (r: CoordsDelta)
        ensures
            r == dir_down(),
    {
        CoordsDelta { dx: 0, dy: 1 }
    }

    pub fn left() -> (r: CoordsDelta)
        ensures
            r == dir_left(),
    {
        CoordsDelta { dx: -1, dy: 0 }
    }

    /// The four unit directions: up, right, down, left.
    pub fn iter_4_directions() -> (r: Vec<CoordsDelta>)
        ensures
            r@ == four_directions(),
    {
        let r = vec![
            CoordsDelta::up(),
            CoordsDelta::right(),
            CoordsDelta::down(),
            CoordsDelta::left(),
        ];
        assert(r@ =~= four_directions());
        r
    }

    pub fn neg(self) -> (r: CoordsDelta)
        requires
            self.dx != i32::MIN && self.dy != i32::MIN,
        ensures
            r.dx == -self.dx && r.dy == -self.dy,
    {
        CoordsDelta { dx: -self.dx, dy: -self.dy }
    }
}

impl Dimensions {
    pub fn new(w: i32, h: i32) -> (r: Dimensions)
        ensures
            r.w == w && r.h == h,
    {
        Dimensions { w, h }
    }

    pub open spec fn has(self, c: Coords) -> bool {
        0 <= c.x < self.w && 0 <= c.y < self.h
    }

    pub open spec fn area_spec(self) -> int {
        self.w * self.h
    }

    /// Row-major index of an in-bounds coordinate.
    pub open spec fn index_spec(self, c: Coords) -> int {
        c.y * self.w + c.x
    }

    pub fn square(side: i32) -> (r: Dimensions)
        ensures
            r.w == side && r.h == side,
    {
        Dimensions { w: side, h: side }
    }

    pub fn area(self) -> (r: usize)
        requires
            self.w >= 0,
            self.h >= 0,
            self.w * self.h <= usize::MAX,
        ensures
            r == self.w * self.h,
    {
        let w = self.w as usize;
        let h = self.h as usize;
        w * h
    }

    pub fn contains(self, coords: Coords) -> (r: bool)
        ensures
            r == self.has(coords),
    {
        0 <= coords.x && coords.x < self.w && 0 <= coords.y && coords.y < self.h
    }

    pub fn index_of_coords(self, coords: Coords) -> (r: Option<usize>)
        requires
            self.area_spec() <= usize::MAX,
        ensures
            r.is_some() == self.has(coords),
            r.is_some() ==> r.unwrap() == self.index_spec(coords),
            r.is_some() ==> r.unwrap() < self.area_spec(),
    {
        if self.contains(coords) {
            let x = coords.x as usize;
            let y = coords.y as usize;
            let w = self.w as usize;
            let h = self.h as usize;
            proof {
                lemma_index_in_bounds(x as int, y as int, w as int, h as int);
            }
            Some(y * w + x)
        } else {
            None
        }
    }

    pub fn iter(self) -> (r: IterCoordsRect)
        ensures
            r.wf(),
            r.rect() == (Rect { top_left: Coords { x: 0, y: 0 }, dims: self }),
            r.position() == 0,
    {
        IterCoordsRect::with_rect(Rect { top_left: Coords { x: 0, y: 0 }, dims: self })
    }
}

pub proof fn lemma_index_in_bounds(x: int, y: int, w: int, h: int)
    requires
        0 <= x < w,
        0 <= y < h,
        w <= 0x7fff_ffff,
        h <= 0x7fff_ffff,
    ensures
        0 <= y * w + x < w * h,
        w * h <= 0x7fff_ffff * 0x7fff_ffff,
{
    assert(0 <= y * w + x < w * h) by (nonlinear_arith)
        requires
            0 <= x < w,
            0 <= y < h,
    ;
    assert(w * h <= 0x7fff_ffff * 0x7fff_ffff) by (nonlinear_arith)
        requires
            0 <= w <= 0x7fff_ffff,
            0 <= h <= 0x7fff_ffff,
    ;
}

impl Rect {
    pub open spec fn has(self, c: Coords) -> bool {
        self.top_left.x <= c.x < self.top_left.x + self.dims.w && self.top_left.y <= c.y
            < self.top_left.y + self.dims.h
    }

    /// The `k`-th coordinate of the rectangle in row-major order.
    pub open spec fn nth(self, k: int) -> Coords {
        at(self.top_left.x + k % self.dims.w as int, self.top_left.y + k / self.dims.w as int)
    }

    /// How many coordinates the rectangle holds.
    pub open spec fn count(self) -> int {
        if self.dims.w > 0 && self.dims.h > 0 {
            self.dims.w * self.dims.h
        } else {
            0
        }
    }

    pub open spec fn fits(self) -> bool {
        self.top_left.x + self.dims.w <= i32::MAX && self.top_left.y + self.dims.h <= i32::MAX
    }

    pub fn xywh(x: i32, y: i32, w: i32, h: i32) -> (r: Rect)
        ensures
            r.top_left == (Coords { x, y }),
            r.dims == (Dimensions { w, h }),
    {
        Rect { top_left: Coords { x, y }, dims: Dimensions { w, h } }
    }

    /// The square of side `tiles_side` that the tile `coords` covers.
    pub fn tile(coords: Coords, tiles_side: i32) -> (r: Rect)
        requires
            i32::MIN <= coords.x * tiles_side <= i32::MAX,
            i32::MIN <= coords.y * tiles_side <= i32::MAX,
        ensures
            r.top_left.x == coords.x * tiles_side,
            r.top_left.y == coords.y * tiles_side,
            r.dims.w == tiles_side && r.dims.h == tiles_side,
    {
        Rect {
            top_left: Coords { x: coords.x * tiles_side, y: coords.y * tiles_side },
            dims: Dimensions::square(tiles_side),
        }
    }

    pub fn top(self) -> (r: i32)
        ensures
            r == self.top_left.y,
    {
        self.top_left.y
    }

    pub fn left(self) -> (r: i32)
        ensures
            r == self.top_left.x,
    {
        self.top_left.x
    }

    pub fn bottom_excluded(self) -> (r: i32)
        requires
            i32::MIN <= self.top_left.y + self.dims.h <= i32::MAX,
        ensures
            r == self.top_left.y + self.dims.h,
    {
        self.top_left.y + self.dims.h
    }

    pub fn right_excluded(self) -> (r: i32)
        requires
            i32::MIN <= self.top_left.x + self.dims.w <= i32::MAX,
        ensures
            r == self.top_left.x + self.dims.w,
    {
        self.top_left.x + self.dims.w
    }

    /// Half-open containment: `left <= x < right` and `top <= y < bottom`.
    pub fn contains(self, coords: Coords) -> (r: bool)
        ensures
            r == self.has(coords),
    {
        let right = self.top_left.x as i64 + self.dims.w as i64;
        let bottom = self.top_left.y as i64 + self.dims.h as i64;
        self.top_left.x <= coords.x && (coords.x as i64) < right && self.top_left.y <= coords.y
            && (coords.y as i64) < bottom
    }

    pub fn iter(self) -> (r: IterCoordsRect)
        ensures
            r.wf(),
            r.rect() == self,
            r.position() == 0,
    {
        IterCoordsRect::with_rect(self)
    }

    /// The rectangle grown by `margin` on each of its four sides.
    pub fn add_margin(self, margin: i32) -> (r: Rect)
        requires
            i32::MIN <= self.top_left.x - margin <= i32::MAX,
            i32::MIN <= self.top_left.y - margin <= i32::MAX,
            i32::MIN <= self.dims.w + 2 * margin <= i32::MAX,
            i32::MIN <= self.dims.h + 2 * margin <= i32::MAX,
        ensures
            r.top_left.x == self.top_left.x - margin,
            r.top_left.y == self.top_left.y - margin,
            r.dims.w == self.dims.w + 2 * margin,
            r.dims.h == self.dims.h + 2 * margin,
    {
        Rect {
            top_left: Coords { x: self.top_left.x - margin, y: self.top_left.y - margin },
            dims: Dimensions { w: self.dims.w + margin + margin, h: self.dims.h + margin + margin },
        }
    }
}

/// Goes through the coordinates of a rectangle, in row-major order (y outer, x inner).
pub struct IterCoordsRect {
    current: Coords,
    rect: Rect,
}

impl IterCoordsRect {
    pub closed spec fn rect(self) -> Rect {
        self.rect
    }

    /// How many coordinates were handed out so far.
    pub closed spec fn position(self) -> int {
        if self.rect.has(self.current) {
            (self.current.y - self.rect.top_left.y) * self.rect.dims.w + (self.current.x
                - self.rect.top_left.x)
        } else {
            self.rect.count()
        }
    }

    pub closed spec fn wf(self) -> bool {
        let r = self.rect;
        r.dims.w > 0 && r.dims.h > 0 ==> {
            ||| r.has(self.current)
            ||| self.current == at(r.top_left.x as int, r.top_left.y + r.dims.h)
        }
    }

    pub fn with_rect(rect: Rect) -> (r: IterCoordsRect)
        ensures
            r.wf(),
            r.rect() == rect,
            r.position() == 0,
    {
        let r = IterCoordsRect { current: rect.top_left, rect };
        proof {
            if rect.dims.w > 0 && rect.dims.h > 0 {
                assert(rect.has(rect.top_left));
            }
        }
        r
    }

    /// The next coordinate of the rectangle, `None` once all were handed out.
    pub fn next(&mut self) -> (r: Option<Coords>)
        requires
            old(self).wf(),
            old(self).rect().fits(),
        ensures
            final(self).wf(),
            final(self).rect() == old(self).rect(),
            old(self).position() < old(self).rect().count() ==> {
                &&& r == Some(old(self).rect().nth(old(self).position()))
                &&& final(self).position() == old(self).position() + 1
            },
            !(old(self).position() < old(self).rect().count()) ==> {
                &&& r.is_none()
                &&& final(self).position() == old(self).position()
            },
    {
        let coords = self.current;
        if self.rect.contains(coords) {
            let ghost r = self.rect;
            let ghost k = self.position();
            proof {
                lemma_nth_of_position(r, coords);
            }
            self.current.x = self.current.x + 1;
            if !self.rect.contains(self.current) {
                self.current.x = self.rect.top_left.x;
                self.current.y = self.current.y + 1;
            }
            proof {
                lemma_step_position(r, coords, self.current);
            }
            Some(coords)
        } else {
            proof {
                lemma_outside_position(self.rect, self.current);
            }
            None
        }
    }
}

proof fn lemma_nth_of_position(r: Rect, c: Coords)
    requires
        r.has(c),
    ensures
        ({
            let k = (c.y - r.top_left.y) * r.dims.w + (c.x - r.top_left.x);
            &&& 0 <= k < r.dims.w * r.dims.h
            &&& r.nth(k) == c
        }),
{
    let w = r.dims.w as int;
    let h = r.dims.h as int;
    let dy = c.y - r.top_left.y;
    let dx = c.x - r.top_left.x;
    let k = dy * w + dx;
    assert(0 <= k < w * h) by (nonlinear_arith)
        requires
            0 <= dx < w,
            0 <= dy < h,
            k == dy * w + dx,
    ;
    assert(k % w == dx && k / w == dy) by (nonlinear_arith)
        requires
            0 <= dx < w,
            0 <= dy,
            k == dy * w + dx,
    ;
}

proof fn lemma_step_position(r: Rect, c: Coords, n: Coords)
    requires
        r.has(c),
        r.fits(),
        (c.x + 1 < r.top_left.x + r.dims.w) ==> n == at(c.x + 1, c.y as int),
        !(c.x + 1 < r.top_left.x + r.dims.w) ==> n == at(r.top_left.x as int, c.y + 1),
    ensures
        ({
            let k = (c.y - r.top_left.y) * r.dims.w + (c.x - r.top_left.x);
            let it = IterCoordsRect { current: n, rect: r };
            &&& it.wf()
            &&& it.position() == k + 1
        }),
{
    let w = r.dims.w as int;
    let h = r.dims.h as int;
    let dy = c.y - r.top_left.y;
    let dx = c.x - r.top_left.x;
    let it = IterCoordsRect { current: n, rect: r };
    if c.x + 1 < r.top_left.x + r.dims.w {
        assert(r.has(n));
    } else {
        assert(dx == w - 1);
        if c.y + 1 < r.top_left.y + h {
            assert(r.has(n));
            assert((dy + 1) * w + 0 == dy * w + dx + 1) by (nonlinear_arith)
                requires
                    dx == w - 1,
            ;
        } else {
            assert(dy == h - 1);
            assert(!r.has(n));
            assert(w * h == dy * w + dx + 1) by (nonlinear_arith)
                requires
                    dx == w - 1,
                    dy == h - 1,
            ;
        }
    }
}

proof fn lemma_outside_position(r: Rect, c: Coords)
    requires
        !r.has(c),
    ensures
        !(IterCoordsRect { current: c, rect: r }.position() < r.count()),
{
}

/// A dense two-dimensional array, in row-major order: the cell at `(x, y)`
/// is `content[y * w + x]`, and `content` holds exactly `w * h` cells (see `wf`).
#[derive(Clone)]
pub struct Grid<T> {
    pub dims: Dimensions,
    pub content: Vec<T>,
}

impl<T> Grid<T> {
    /// The content is exactly `w * h` cells.
    pub open spec fn wf(self) -> bool {
        &&& self.dims.w >= 0
        &&& self.dims.h >= 0
        &&& self.cells().len() == self.dims.w * self.dims.h
    }

    pub open spec fn cells(self) -> Seq<T> {
        self.content@
    }

    /// The value at an in-bounds coordinate.
    pub open spec fn cell(self, c: Coords) -> T {
        self.cells()[self.dims.index_spec(c)]
    }

    pub fn of_size_zero() -> (r: Grid<T>)
        ensures
            r.wf(),
            r.dims == (Dimensions { w: 0, h: 0 }),
    {
        Grid { dims: Dimensions { w: 0, h: 0 }, content: Vec::new() }
    }

    /// A grid whose cell at `c` is `initializer(c)`.
    pub fn new<F: Fn(Coords) -> T>(dims: Dimensions, initializer: F) -> (r: Grid<T>)
        requires
            dims.w >= 0,
            dims.h >= 0,
            forall|c: Coords| dims.has(c) ==> initializer.requires((c,)),
        ensures
            r.wf(),
            r.dims == dims,
            forall|c: Coords| dims.has(c) ==> initializer.ensures((c,), #[trigger] r.cell(c)),
    {
        let mut content: Vec<T> = Vec::new();
        let mut y: i32 = 0;
        while y < dims.h
            invariant
                0 <= y <= dims.h,
                dims.w >= 0,
                forall|c: Coords| dims.has(c) ==> #[trigger] initializer.requires((c,)),
                content@.len() == y * dims.w,
                forall|c: Coords|
                    dims.has(c) && c.y < y ==> initializer.ensures(
                        (c,),
                        #[trigger] content@[dims.index_spec(c)],
                    ),
            decreases dims.h - y,
        {
            let mut x: i32 = 0;
            while x < dims.w
                invariant
                    0 <= y < dims.h,
                    0 <= x <= dims.w,
                    forall|c: Coords| dims.has(c) ==> #[trigger] initializer.requires((c,)),
                    content@.len() == y * dims.w + x,
                    forall|c: Coords|
                        (dims.has(c) && c.y < y) || (c.y == y && 0 <= c.x < x) ==> initializer.ensures(
                            (c,),
                            #[trigger] content@[dims.index_spec(c)],
                        ),
                decreases dims.w - x,
            {
                let c = Coords { x, y };
                assert(dims.has(c));
                let v = initializer(c);
                let ghost before = content@;
                content.push(v);
                proof {
                    assert forall|c2: Coords|
                        (dims.has(c2) && c2.y < y) || (c2.y == y && 0 <= c2.x < x + 1) implies initializer.ensures(
                        (c2,),
                        #[trigger] content@[dims.index_spec(c2)],
                    ) by {
                        if c2 == c {
                        } else {
                            lemma_index_before(c2, y as int, x as int, dims.w as int);
                            assert(content@[dims.index_spec(c2)] == before[dims.index_spec(c2)]);
                        }
                    }
                }
                x = x + 1;
            }
            proof {
                assert((y + 1) * dims.w == y * dims.w + dims.w) by (nonlinear_arith);
            }
            y = y + 1;
        }
        assert(dims.h * dims.w == dims.w * dims.h) by (nonlinear_arith);
        Grid { dims, content }
    }

    pub fn get(&self, coords: Coords) -> (r: Option<&T>)
        requires
            self.wf(),
        ensures
            r.is_some() == self.dims.has(coords),
            r.is_some() ==> *r.unwrap() == self.cell(coords),
    {
        let _len = self.content.len();
        match self.dims.index_of_coords(coords) {
            Some(index) => Some(&self.content[index]),
            None => None,
        }
    }

    pub fn get_mut(&mut self, coords: Coords) -> (r: Option<&mut T>)
        requires
            old(self).wf(),
        ensures
            r.is_some() == old(self).dims.has(coords),
            r.is_none() ==> *final(self) == *old(self),
            r.is_some() ==> *r.unwrap() == old(self).cell(coords),
            r.is_some() ==> final(self).dims == old(self).dims && final(self).cells()
                == old(self).cells().update(
                old(self).dims.index_spec(coords),
                *final(r.unwrap()),
            ),
    {
        let _len = self.content.len();
        match self.dims.index_of_coords(coords) {
            Some(index) => Some(&mut self.content[index]),
            None => None,
        }
    }

    /// Replaces the value at an in-bounds coordinate.
    pub fn set(&mut self, coords: Coords, value: T)
        requires
            old(self).wf(),
            old(self).dims.has(coords),
        ensures
            final(self).wf(),
            final(self).dims == old(self).dims,
            final(self).cells() == old(self).cells().update(
                old(self).dims.index_spec(coords),
                value,
            ),
            forall|c: Coords|
                #![trigger final(self).cell(c)]
                final(self).dims.has(c) ==> final(self).cell(c) == if c == coords {
                    value
                } else {
                    old(self).cell(c)
                },
    {
        let _len = self.content.len();
        let index = self.dims.index_of_coords(coords).unwrap();
        self.content.set(index, value);
        proof {
            assert forall|c: Coords| #![trigger self.cell(c)] self.dims.has(c) && c != coords implies self.cell(c)
                == old(self).cell(c) by {
                lemma_index_injective(self.dims, c, coords);
                lemma_index_in_bounds(c.x as int, c.y as int, self.dims.w as int, self.dims.h as int);
            }
        }
    }
}

proof fn lemma_index_before(c: Coords, y: int, x: int, w: int)
    requires
        0 <= c.x < w,
        0 <= c.y,
        (c.y < y) || (c.y == y && c.x < x),
        0 <= x,
    ensures
        c.y * w + c.x < y * w + x,
{
    if c.y < y {
        assert(c.y * w + c.x < y * w + x) by (nonlinear_arith)
            requires
                0 <= c.x < w,
                c.y < y,
                0 <= x,
        ;
    }
}

pub proof fn lemma_index_injective(d: Dimensions, a: Coords, b: Coords)
    requires
        d.has(a),
        d.has(b),
        a != b,
    ensures
        d.index_spec(a) != d.index_spec(b),
{
    let w = d.w as int;
    if a.y == b.y {
    } else if a.y < b.y {
        assert(a.y * w + a.x < b.y * w + b.x) by (nonlinear_arith)
            requires
                0 <= a.x < w,
                0 <= b.x,
                a.y < b.y,
        ;
    } else {
        assert(b.y * w + b.x < a.y * w + a.x) by (nonlinear_arith)
            requires
                0 <= b.x < w,
                0 <= a.x,
                b.y < a.y,
        ;
    }
}

impl<T: Copy> Grid<T> {
    /// The grid made of `self` with `rhs` joined on its right side.
    /// An empty (0×0) left grid gives `rhs` back.
    pub fn add_to_right(self, rhs: Grid<T>) -> (r: Grid<T>)
        requires
            self.wf(),
            rhs.wf(),
            (self.dims.w == 0 && self.dims.h == 0) || self.dims.h == rhs.dims.h,
            self.dims.w + rhs.dims.w <= i32::MAX,
        ensures
            r.wf(),
            r.dims.w == self.dims.w + rhs.dims.w,
            r.dims.h == rhs.dims.h,
            forall|c: Coords|
                #![trigger r.cell(c)]
                r.dims.has(c) ==> r.cell(c) == if c.x < self.dims.w {
                    self.cell(c)
                } else {
                    rhs.cell(at(c.x - self.dims.w, c.y as int))
                },
    {
        if self.dims.w == 0 && self.dims.h == 0 {
            proof {
                assert forall|c: Coords| #![trigger rhs.cell(c)] rhs.dims.has(c) implies rhs.cell(c)
                    == rhs.cell(at(c.x - 0, c.y as int)) by {
                    assert(at(c.x - 0, c.y as int) == c);
                }
            }
            rhs
        } else {
            let w = self.dims.w;
            let dims = Dimensions { w: self.dims.w + rhs.dims.w, h: self.dims.h };
            let mut content: Vec<T> = Vec::new();
            let mut y: i32 = 0;
            while y < dims.h
                invariant
                    self.wf(),
                    rhs.wf(),
                    w == self.dims.w,
                    self.dims.h == rhs.dims.h,
                    dims.w == self.dims.w + rhs.dims.w,
                    dims.h == self.dims.h,
                    0 <= y <= dims.h,
                    content@.len() == y * dims.w,
                    forall|c: Coords|
                        dims.has(c) && c.y < y ==> #[trigger] content@[dims.index_spec(c)] == if c.x
                            < w {
                            self.cell(c)
                        } else {
                            rhs.cell(at(c.x - w, c.y as int))
                        },
                decreases dims.h - y,
            {
                let mut x: i32 = 0;
                while x < dims.w
                    invariant
                        self.wf(),
                        rhs.wf(),
                        w == self.dims.w,
                        self.dims.h == rhs.dims.h,
                        dims.w == self.dims.w + rhs.dims.w,
                        dims.h == self.dims.h,
                        0 <= y < dims.h,
                        0 <= x <= dims.w,
                        content@.len() == y * dims.w + x,
                        forall|c: Coords|
                            (dims.has(c) && c.y < y) || (c.y == y && 0 <= c.x < x)
                                ==> #[trigger] content@[dims.index_spec(c)] == if c.x < w {
                                self.cell(c)
                            } else {
                                rhs.cell(at(c.x - w, c.y as int))
                            },
                    decreases dims.w - x,
                {
                    let c = Coords { x, y };
                    let v: T = if x < w {
                        *self.get(c).unwrap()
                    } else {
                        *rhs.get(Coords { x: x - w, y }).unwrap()
                    };
                    let ghost before = content@;
                    content.push(v);
                    proof {
                        assert(at(c.x - w, c.y as int) == Coords { x: (x - w) as i32, y });
                        assert forall|c2: Coords|
                            (dims.has(c2) && c2.y < y) || (c2.y == y && 0 <= c2.x < x + 1)
                                implies #[trigger] content@[dims.index_spec(c2)] == if c2.x < w {
                            self.cell(c2)
                        } else {
                            rhs.cell(at(c2.x - w, c2.y as int))
                        } by {
                            if c2 != c {
                                lemma_index_before(c2, y as int, x as int, dims.w as int);
                                assert(content@[dims.index_spec(c2)] == before[dims.index_spec(
                                    c2,
                                )]);
                            }
                        }
                    }
                    x = x + 1;
                }
                proof {
                    assert((y + 1) * dims.w == y * dims.w + dims.w) by (nonlinear_arith);
                }
                y = y + 1;
            }
            assert(dims.h * dims.w == dims.w * dims.h) by (nonlinear_arith);
            Grid { dims, content }
        }
    }
}

} // verus!
