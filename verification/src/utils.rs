//! Grid geometry: points, rectangles and the glyph table of code page 437.

use vstd::prelude::*;
use vstd::std_specs::convert::TryIntoSpec;
use vstd::std_specs::ops::AddSpecImpl;
use vstd::arithmetic::div_mod::lemma_fundamental_div_mod_converse;

verus! {

/// `From<T> for T` of std, the conversion of a value into its own type:
/// it hands the value back.
pub assume_specification<A>[ <A as core::convert::From<A>>::from ](t: A) -> (r: A)
    ensures
        r == t,
;

/// The coordinate that a conversion gives: its value, or 0 where it failed.
pub open spec fn coordinate_of<E>(converted: Result<i32, E>) -> i32 {
    match converted {
        Ok(v) => v,
        Err(_) => 0i32,
    }
}

/// A position on the tile grid.
#[derive(PartialEq, Eq, Structural, Clone, Copy, Debug, Hash)]
pub struct Point {
    pub x: i32,
    pub y: i32,
}

impl Point {
    /// The point with the coordinates `x` and `y`, which may be of any
    /// integer type. A coordinate that does not fit becomes 0; the other
    /// one is kept.
    pub fn new<T: TryInto<i32>>(x: T, y: T) -> (p: Point)
        ensures
            T::obeys_try_into_spec() ==> p.x == coordinate_of(x.try_into_spec()) && p.y == coordinate_of(
                y.try_into_spec(),
            ),
            exists|cx: Result<i32, T::Error>, cy: Result<i32, T::Error>|
                {
                    &&& #[trigger] call_ensures(T::try_into, (x,), cx)
                    &&& #[trigger] call_ensures(T::try_into, (y,), cy)
                    &&& p.x == coordinate_of(cx)
                    &&& p.y == coordinate_of(cy)
                },
    {
        let px: i32 = match x.try_into() {
            Ok(v) => v,
            Err(_) => 0,
        };
        let py: i32 = match y.try_into() {
            Ok(v) => v,
            Err(_) => 0,
        };
        Point { x: px, y: py }
    }

    pub fn zero() -> (p: Point)
        ensures
            p.x == 0,
            p.y == 0,
    {
        Point { x: 0, y: 0 }
    }

    /// Squared Euclidean distance to `other`.
    pub open spec fn dist_sq(self, other: Point) -> int {
        (self.x - other.x) * (self.x - other.x) + (self.y - other.y) * (self.y - other.y)
    }

    /// Whether the two points are edge neighbours on the grid.
    pub open spec fn adjacent(self, other: Point) -> bool {
        self.dist_sq(other) == 1
    }
}

impl core::ops::Add<Point> for Point {
    type Output = Point;

    fn add(self, rhs: Point) -> (sum: Point) {
        Point { x: self.x + rhs.x, y: self.y + rhs.y }
    }
}

impl AddSpecImpl<Point> for Point {
    open spec fn obeys_add_spec() -> bool {
        true
    }

    open spec fn add_req(self, rhs: Point) -> bool {
        &&& i32::MIN <= self.x + rhs.x <= i32::MAX
        &&& i32::MIN <= self.y + rhs.y <= i32::MAX
    }

    open spec fn add_spec(self, rhs: Point) -> Point {
        Point { x: (self.x + rhs.x) as i32, y: (self.y + rhs.y) as i32 }
    }
}

/// Half of `a`, rounded toward zero.
pub open spec fn half_toward_zero(a: int) -> int {
    if a >= 0 {
        a / 2
    } else {
        -((-a) / 2)
    }
}

/// How many integers lie in the closed range `lo..=hi`.
pub open spec fn closed_span(lo: int, hi: int) -> nat {
    if hi >= lo {
        (hi - lo + 1) as nat
    } else {
        0
    }
}

/// How many integers lie in the half-open range `lo..hi`.
pub open spec fn open_span(lo: int, hi: int) -> nat {
    if hi > lo {
        (hi - lo) as nat
    } else {
        0
    }
}

/// The points of `rows` rows of `cols` columns whose first point is
/// `(x0, y0)`, one row after the other.
pub open spec fn row_major(x0: int, y0: int, cols: nat, rows: nat) -> Seq<Point> {
    Seq::new(
        cols * rows,
        |k: int| Point { x: (x0 + k % (cols as int)) as i32, y: (y0 + k / (cols as int)) as i32 },
    )
}

/// Each point of a row-by-row sweep lies in the swept block.
pub proof fn lemma_row_major_within(x0: int, y0: int, cols: nat, rows: nat, k: int)
    requires
        0 <= k < cols * rows,
        i32::MIN <= x0,
        x0 + cols <= i32::MAX + 1,
        i32::MIN <= y0,
        y0 + rows <= i32::MAX + 1,
    ensures
        x0 <= row_major(x0, y0, cols, rows)[k].x < x0 + cols,
        y0 <= row_major(x0, y0, cols, rows)[k].y < y0 + rows,
{
    assert(cols > 0) by (nonlinear_arith)
        requires
            0 <= k < cols * rows,
    ;
    vstd::arithmetic::div_mod::lemma_fundamental_div_mod(k, cols as int);
    vstd::arithmetic::div_mod::lemma_mod_bound(k, cols as int);
    let q = k / (cols as int);
    let r = k % (cols as int);
    assert(0 <= q < rows) by (nonlinear_arith)
        requires
            k == cols * q + r,
            0 <= r < cols,
            0 <= k < cols * rows,
    ;
}

/// An axis-aligned rectangle given by two corners.
#[derive(PartialEq, Eq, Structural, Clone, Copy, Debug)]
pub struct Rect {
    pub x1: i32,
    pub x2: i32,
    pub y1: i32,
    pub y2: i32,
}

impl Default for Rect {
    fn default() -> (r: Rect)
        ensures
            r == (Rect { x1: 0, x2: 0, y1: 0, y2: 0 }),
    {
        Rect::zero()
    }
}

impl Rect {
    /// A rectangle from its corner and its size.
    pub fn with_size(x: i32, y: i32, w: i32, h: i32) -> (r: Rect)
        requires
            i32::MIN <= x + w <= i32::MAX,
            i32::MIN <= y + h <= i32::MAX,
        ensures
            r.x1 == x,
            r.y1 == y,
            r.x2 == x + w,
            r.y2 == y + h,
    {
        Rect { x1: x, y1: y, x2: x + w, y2: y + h }
    }

    /// A rectangle from its two corners.
    pub fn with_exact(x1: i32, y1: i32, x2: i32, y2: i32) -> (r: Rect)
        ensures
            r == (Rect { x1, x2, y1, y2 }),
    {
        Rect { x1, y1, x2, y2 }
    }

    pub fn zero() -> (r: Rect)
        ensures
            r == (Rect { x1: 0, x2: 0, y1: 0, y2: 0 }),
    {
        Rect { x1: 0, y1: 0, x2: 0, y2: 0 }
    }

    /// Overlap of the closed spans on both axes: rectangles that only share
    /// an edge or a corner overlap too.
    pub open spec fn overlaps(self, other: Rect) -> bool {
        &&& self.x1 <= other.x2
        &&& self.x2 >= other.x1
        &&& self.y1 <= other.y2
        &&& self.y2 >= other.y1
    }

    /// Whether some point lies inside both rectangles, each taken without
    /// its far edges.
    pub open spec fn shares_interior(self, other: Rect) -> bool {
        exists|p: Point| self.contains(p) && other.contains(p)
    }

    /// Membership without the far edges.
    pub open spec fn contains(self, p: Point) -> bool {
        &&& self.x1 <= p.x < self.x2
        &&& self.y1 <= p.y < self.y2
    }

    /// Membership with the far edges.
    pub open spec fn covers(self, p: Point) -> bool {
        &&& self.x1 <= p.x <= self.x2
        &&& self.y1 <= p.y <= self.y2
    }

    /// Whether the corner sums that `center` halves fit the coordinate type.
    pub open spec fn has_center(self) -> bool {
        &&& i32::MIN <= self.x1 + self.x2 <= i32::MAX
        &&& i32::MIN <= self.y1 + self.y2 <= i32::MAX
    }

    pub open spec fn center_spec(self) -> Point {
        Point {
            x: half_toward_zero(self.x1 + self.x2) as i32,
            y: half_toward_zero(self.y1 + self.y2) as i32,
        }
    }

    /// The points with the far edges, row by row.
    pub open spec fn edge_points(self) -> Seq<Point> {
        row_major(
            self.x1 as int,
            self.y1 as int,
            closed_span(self.x1 as int, self.x2 as int),
            closed_span(self.y1 as int, self.y2 as int),
        )
    }

    /// The points without the far edges, row by row.
    pub open spec fn inner_points(self) -> Seq<Point> {
        row_major(
            self.x1 as int,
            self.y1 as int,
            open_span(self.x1 as int, self.x2 as int),
            open_span(self.y1 as int, self.y2 as int),
        )
    }

    pub fn intersect(&self, other: &Rect) -> (r: bool)
        ensures
            r == self.overlaps(*other),
    {
        self.x1 <= other.x2 && self.x2 >= other.x1 && self.y1 <= other.y2 && self.y2 >= other.y1
    }

    pub fn center(&self) -> (p: Point)
        requires
            self.has_center(),
        ensures
            p == self.center_spec(),
    {
        Point::new((self.x1 + self.x2) / 2, (self.y1 + self.y2) / 2)
    }

    pub fn point_in_rect(&self, point: Point) -> (r: bool)
        ensures
            r == self.contains(point),
    {
        point.x >= self.x1 && point.x < self.x2 && point.y >= self.y1 && point.y < self.y2
    }

    /// Every point of the rectangle, far edges included, in the order of a
    /// row-by-row sweep.
    pub fn for_each(&self) -> (points: Vec<Point>)
        ensures
            points@ == self.edge_points(),
    {
        sweep(self.x1, self.y1, self.x2 as i64 + 1, self.y2 as i64 + 1)
    }

    /// Every point of the rectangle, far edges left out, each once.
    pub fn point_set(&self) -> (points: Vec<Point>)
        ensures
            points@ == self.inner_points(),
    {
        sweep(self.x1, self.y1, self.x2 as i64, self.y2 as i64)
    }

    pub fn width(&self) -> (w: i32)
        requires
            -i32::MAX <= self.x2 - self.x1 <= i32::MAX,
        ensures
            w >= 0,
            w == self.x2 - self.x1 || w == self.x1 - self.x2,
    {
        let d: i32 = self.x2 - self.x1;
        if d < 0 {
            -d
        } else {
            d
        }
    }

    pub fn height(&self) -> (h: i32)
        requires
            -i32::MAX <= self.y2 - self.y1 <= i32::MAX,
        ensures
            h >= 0,
            h == self.y2 - self.y1 || h == self.y1 - self.y2,
    {
        let d: i32 = self.y2 - self.y1;
        if d < 0 {
            -d
        } else {
            d
        }
    }
}

/// The points `(x, y)` with `x0 <= x < x_end` and `y0 <= y < y_end`, row by
/// row.
fn sweep(x0: i32, y0: i32, x_end: i64, y_end: i64) -> (points: Vec<Point>)
    requires
        x_end <= i32::MAX + 1,
        y_end <= i32::MAX + 1,
    ensures
        points@ == row_major(
            x0 as int,
            y0 as int,
            open_span(x0 as int, x_end as int),
            open_span(y0 as int, y_end as int),
        ),
{
    let ghost cols = open_span(x0 as int, x_end as int);
    let ghost rows = open_span(y0 as int, y_end as int);
    let ghost want = row_major(x0 as int, y0 as int, cols, rows);
    let mut points: Vec<Point> = Vec::new();
    if x_end <= x0 as i64 || y_end <= y0 as i64 {
        proof {
            assert(cols * rows == 0) by (nonlinear_arith)
                requires
                    cols == 0 || rows == 0,
            ;
        }
        return points;
    }
    let mut y: i64 = y0 as i64;
    while y < y_end
        invariant
            y0 <= y <= y_end <= i32::MAX + 1,
            x0 < x_end <= i32::MAX + 1,
            cols == x_end - x0,
            rows == y_end - y0,
            want == row_major(x0 as int, y0 as int, cols, rows),
            points@.len() == (y - y0) * cols,
            points@.len() <= want.len(),
            forall|k: int| 0 <= k < points@.len() ==> points@[k] == want[k],
        decreases y_end - y,
    {
        let mut x: i64 = x0 as i64;
        while x < x_end
            invariant
                y0 <= y < y_end <= i32::MAX + 1,
                x0 <= x <= x_end <= i32::MAX + 1,
                cols == x_end - x0,
                rows == y_end - y0,
                want == row_major(x0 as int, y0 as int, cols, rows),
                points@.len() == (y - y0) * cols + (x - x0),
                points@.len() <= want.len(),
                forall|k: int| 0 <= k < points@.len() ==> points@[k] == want[k],
            decreases x_end - x,
        {
            proof {
                let k = (y - y0) * cols + (x - x0);
                lemma_fundamental_div_mod_converse(k, cols as int, (y - y0) as int, (x - x0) as int);
                assert(k < cols * rows) by (nonlinear_arith)
                    requires
                        k == (y - y0) * cols + (x - x0),
                        0 <= x - x0 < cols,
                        0 <= y - y0 < rows,
                ;
            }
            points.push(Point::new(x as i32, y as i32));
            x = x + 1;
        }
        proof {
            assert((y - y0) * cols + cols == (y + 1 - y0) * cols) by (nonlinear_arith);
            assert((y + 1 - y0) * cols <= cols * rows) by (nonlinear_arith)
                requires
                    0 <= y + 1 - y0 <= rows,
                    0 <= cols,
            ;
        }
        y = y + 1;
    }
    proof {
        assert(rows * cols == cols * rows) by (nonlinear_arith);
        assert(points@ =~= want);
    }
    points
}

impl core::ops::Add<Rect> for Rect {
    type Output = Rect;

    /// Moves the rectangle by `rhs`'s near corner, keeping its size.
    fn add(self, rhs: Rect) -> (sum: Rect) {
        let w: i32 = self.width();
        let h: i32 = self.height();
        let x1: i32 = self.x1 + rhs.x1;
        let y1: i32 = self.y1 + rhs.y1;
        Rect { x1, x2: x1 + w, y1, y2: y1 + h }
    }
}

impl AddSpecImpl<Rect> for Rect {
    open spec fn obeys_add_spec() -> bool {
        true
    }

    open spec fn add_req(self, rhs: Rect) -> bool {
        &&& -i32::MAX <= self.x2 - self.x1 <= i32::MAX
        &&& -i32::MAX <= self.y2 - self.y1 <= i32::MAX
        &&& i32::MIN <= self.x1 + rhs.x1
        &&& self.x1 + rhs.x1 + vstd::math::abs(self.x2 - self.x1) <= i32::MAX
        &&& i32::MIN <= self.y1 + rhs.y1
        &&& self.y1 + rhs.y1 + vstd::math::abs(self.y2 - self.y1) <= i32::MAX
    }

    open spec fn add_spec(self, rhs: Rect) -> Rect {
        Rect {
            x1: (self.x1 + rhs.x1) as i32,
            x2: (self.x1 + rhs.x1 + vstd::math::abs(self.x2 - self.x1)) as i32,
            y1: (self.y1 + rhs.y1) as i32,
            y2: (self.y1 + rhs.y1 + vstd::math::abs(self.y2 - self.y1)) as i32,
        }
    }
}

/// Two rectangles with room inside overlap exactly when they share an inner
/// point, provided that neither ends where the other begins.
pub proof fn lemma_overlap_is_shared_interior(a: Rect, b: Rect)
    requires
        a.x1 < a.x2,
        a.y1 < a.y2,
        b.x1 < b.x2,
        b.y1 < b.y2,
        a.x2 != b.x1,
        b.x2 != a.x1,
        a.y2 != b.y1,
        b.y2 != a.y1,
    ensures
        a.overlaps(b) <==> a.shares_interior(b),
{
    if a.overlaps(b) {
        let p = Point {
            x: if a.x1 >= b.x1 { a.x1 } else { b.x1 },
            y: if a.y1 >= b.y1 { a.y1 } else { b.y1 },
        };
        assert(a.contains(p) && b.contains(p));
    }
}

/// Sharing an inner point always means overlapping.
pub proof fn lemma_shared_interior_overlaps(a: Rect, b: Rect)
    requires
        a.shares_interior(b),
    ensures
        a.overlaps(b),
{
}

/// Rectangles that touch along an edge overlap, though they share no inner
/// point.
pub proof fn lemma_touching_rects_overlap(a: Rect, b: Rect)
    requires
        a.x1 <= a.x2,
        a.x2 == b.x1,
        b.x1 <= b.x2,
        a.y1 <= b.y2,
        b.y1 <= a.y2,
    ensures
        a.overlaps(b),
        !a.shares_interior(b),
{
}

/// The code that code page 437 gives to glyph `c`, or 0 where it has none.
pub open spec fn cp437_code(c: char) -> nat {
    match c {
        '☺' => 1, '☻' => 2, '♥' => 3, '♦' => 4, '♣' => 5, '♠' => 6,
        '•' => 7, '◘' => 8, '○' => 9, '◙' => 10, '♂' => 11, '♀' => 12,
        '♪' => 13, '♫' => 14, '☼' => 15, '►' => 16, '◄' => 17, '↕' => 18,
        '‼' => 19, '¶' => 20, '§' => 21, '▬' => 22, '↨' => 23, '↑' => 24,
        '↓' => 25, '→' => 26, '←' => 27, '∟' => 28, '↔' => 29, '▲' => 30,
        '▼' => 31, ' ' => 32, '!' => 33, '"' => 34, '#' => 35, '$' => 36,
        '%' => 37, '&' => 38, '\'' => 39, '(' => 40, ')' => 41, '*' => 42,
        '+' => 43, ',' => 44, '-' => 45, '.' => 46, '/' => 47, '0' => 48,
        '1' => 49, '2' => 50, '3' => 51, '4' => 52, '5' => 53, '6' => 54,
        '7' => 55, '8' => 56, '9' => 57, ':' => 58, ';' => 59, '<' => 60,
        '=' => 61, '>' => 62, '?' => 63, '@' => 64, 'A' => 65, 'B' => 66,
        'C' => 67, 'D' => 68, 'E' => 69, 'F' => 70, 'G' => 71, 'H' => 72,
        'I' => 73, 'J' => 74, 'K' => 75, 'L' => 76, 'M' => 77, 'N' => 78,
        'O' => 79, 'P' => 80, 'Q' => 81, 'R' => 82, 'S' => 83, 'T' => 84,
        'U' => 85, 'V' => 86, 'W' => 87, 'X' => 88, 'Y' => 89, 'Z' => 90,
        '[' => 91, '\\' => 92, ']' => 93, '^' => 94, '_' => 95, '`' => 96,
        'a' => 97, 'b' => 98, 'c' => 99, 'd' => 100, 'e' => 101, 'f' => 102,
        'g' => 103, 'h' => 104, 'i' => 105, 'j' => 106, 'k' => 107, 'l' => 108,
        'm' => 109, 'n' => 110, 'o' => 111, 'p' => 112, 'q' => 113, 'r' => 114,
        's' => 115, 't' => 116, 'u' => 117, 'v' => 118, 'w' => 119, 'x' => 120,
        'y' => 121, 'z' => 122, '{' => 123, '|' => 124, '}' => 125, '~' => 126,
        '⌂' => 127, 'Ç' => 128, 'ü' => 129, 'é' => 130, 'â' => 131, 'ä' => 132,
        'à' => 133, 'å' => 134, 'ç' => 135, 'ê' => 136, 'ë' => 137, 'è' => 138,
        'ï' => 139, 'î' => 140, 'ì' => 141, 'Ä' => 142, 'Å' => 143, 'É' => 144,
        'æ' => 145, 'Æ' => 146, 'ô' => 147, 'ö' => 148, 'ò' => 149, 'û' => 150,
        'ù' => 151, 'ÿ' => 152, 'Ö' => 153, 'Ü' => 154, '¢' => 155, '£' => 156,
        '¥' => 157, '₧' => 158, 'ƒ' => 159, 'á' => 160, 'í' => 161, 'ó' => 162,
        'ú' => 163, 'ñ' => 164, 'Ñ' => 165, 'ª' => 166, 'º' => 167, '¿' => 168,
        '⌐' => 169, '¬' => 170, '½' => 171, '¼' => 172, '¡' => 173, '«' => 174,
        '»' => 175, '░' => 176, '▒' => 177, '▓' => 178, '│' => 179, '┤' => 180,
        '╡' => 181, '╢' => 182, '╖' => 183, '╕' => 184, '╣' => 185, '║' => 186,
        '╗' => 187, '╝' => 188, '╜' => 189, '╛' => 190, '┐' => 191, '└' => 192,
        '┴' => 193, '┬' => 194, '├' => 195, '─' => 196, '┼' => 197, '╞' => 198,
        '╟' => 199, '╚' => 200, '╔' => 201, '╩' => 202, '╦' => 203, '╠' => 204,
        '═' => 205, '╬' => 206, '╧' => 207, '╨' => 208, '╤' => 209, '╥' => 210,
        '╙' => 211, '╘' => 212, '╒' => 213, '╓' => 214, '╫' => 215, '╪' => 216,
        '┘' => 217, '┌' => 218, '█' => 219, '▄' => 220, '▌' => 221, '▐' => 222,
        '▀' => 223, 'α' => 224, 'ß' => 225, 'Γ' => 226, 'π' => 227, 'Σ' => 228,
        'σ' => 229, 'µ' => 230, 'τ' => 231, 'Φ' => 232, 'Θ' => 233, 'Ω' => 234,
        'δ' => 235, '∞' => 236, 'φ' => 237, 'ε' => 238, '∩' => 239, '≡' => 240,
        '±' => 241, '≥' => 242, '≤' => 243, '⌠' => 244, '⌡' => 245, '÷' => 246,
        '≈' => 247, '°' => 248, '∙' => 249, '·' => 250, '√' => 251, 'ⁿ' => 252,
        '²' => 253, '■' => 254,
        _ => 0,
    }
}

/// Looks `c` up in code page 437; glyphs outside the page map to 0.
pub fn to_cp437(c: char) -> (code: usize)
    ensures
        code == cp437_code(c),
        code <= 254,
{
    match c {
        '☺' => 1, '☻' => 2, '♥' => 3, '♦' => 4, '♣' => 5, '♠' => 6,
        '•' => 7, '◘' => 8, '○' => 9, '◙' => 10, '♂' => 11, '♀' => 12,
        '♪' => 13, '♫' => 14, '☼' => 15, '►' => 16, '◄' => 17, '↕' => 18,
        '‼' => 19, '¶' => 20, '§' => 21, '▬' => 22, '↨' => 23, '↑' => 24,
        '↓' => 25, '→' => 26, '←' => 27, '∟' => 28, '↔' => 29, '▲' => 30,
        '▼' => 31, ' ' => 32, '!' => 33, '"' => 34, '#' => 35, '$' => 36,
        '%' => 37, '&' => 38, '\'' => 39, '(' => 40, ')' => 41, '*' => 42,
        '+' => 43, ',' => 44, '-' => 45, '.' => 46, '/' => 47, '0' => 48,
        '1' => 49, '2' => 50, '3' => 51, '4' => 52, '5' => 53, '6' => 54,
        '7' => 55, '8' => 56, '9' => 57, ':' => 58, ';' => 59, '<' => 60,
        '=' => 61, '>' => 62, '?' => 63, '@' => 64, 'A' => 65, 'B' => 66,
        'C' => 67, 'D' => 68, 'E' => 69, 'F' => 70, 'G' => 71, 'H' => 72,
        'I' => 73, 'J' => 74, 'K' => 75, 'L' => 76, 'M' => 77, 'N' => 78,
        'O' => 79, 'P' => 80, 'Q' => 81, 'R' => 82, 'S' => 83, 'T' => 84,
        'U' => 85, 'V' => 86, 'W' => 87, 'X' => 88, 'Y' => 89, 'Z' => 90,
        '[' => 91, '\\' => 92, ']' => 93, '^' => 94, '_' => 95, '`' => 96,
        'a' => 97, 'b' => 98, 'c' => 99, 'd' => 100, 'e' => 101, 'f' => 102,
        'g' => 103, 'h' => 104, 'i' => 105, 'j' => 106, 'k' => 107, 'l' => 108,
        'm' => 109, 'n' => 110, 'o' => 111, 'p' => 112, 'q' => 113, 'r' => 114,
        's' => 115, 't' => 116, 'u' => 117, 'v' => 118, 'w' => 119, 'x' => 120,
        'y' => 121, 'z' => 122, '{' => 123, '|' => 124, '}' => 125, '~' => 126,
        '⌂' => 127, 'Ç' => 128, 'ü' => 129, 'é' => 130, 'â' => 131, 'ä' => 132,
        'à' => 133, 'å' => 134, 'ç' => 135, 'ê' => 136, 'ë' => 137, 'è' => 138,
        'ï' => 139, 'î' => 140, 'ì' => 141, 'Ä' => 142, 'Å' => 143, 'É' => 144,
        'æ' => 145, 'Æ' => 146, 'ô' => 147, 'ö' => 148, 'ò' => 149, 'û' => 150,
        'ù' => 151, 'ÿ' => 152, 'Ö' => 153, 'Ü' => 154, '¢' => 155, '£' => 156,
        '¥' => 157, '₧' => 158, 'ƒ' => 159, 'á' => 160, 'í' => 161, 'ó' => 162,
        'ú' => 163, 'ñ' => 164, 'Ñ' => 165, 'ª' => 166, 'º' => 167, '¿' => 168,
        '⌐' => 169, '¬' => 170, '½' => 171, '¼' => 172, '¡' => 173, '«' => 174,
        '»' => 175, '░' => 176, '▒' => 177, '▓' => 178, '│' => 179, '┤' => 180,
        '╡' => 181, '╢' => 182, '╖' => 183, '╕' => 184, '╣' => 185, '║' => 186,
        '╗' => 187, '╝' => 188, '╜' => 189, '╛' => 190, '┐' => 191, '└' => 192,
        '┴' => 193, '┬' => 194, '├' => 195, '─' => 196, '┼' => 197, '╞' => 198,
        '╟' => 199, '╚' => 200, '╔' => 201, '╩' => 202, '╦' => 203, '╠' => 204,
        '═' => 205, '╬' => 206, '╧' => 207, '╨' => 208, '╤' => 209, '╥' => 210,
        '╙' => 211, '╘' => 212, '╒' => 213, '╓' => 214, '╫' => 215, '╪' => 216,
        '┘' => 217, '┌' => 218, '█' => 219, '▄' => 220, '▌' => 221, '▐' => 222,
        '▀' => 223, 'α' => 224, 'ß' => 225, 'Γ' => 226, 'π' => 227, 'Σ' => 228,
        'σ' => 229, 'µ' => 230, 'τ' => 231, 'Φ' => 232, 'Θ' => 233, 'Ω' => 234,
        'δ' => 235, '∞' => 236, 'φ' => 237, 'ε' => 238, '∩' => 239, '≡' => 240,
        '±' => 241, '≥' => 242, '≤' => 243, '⌠' => 244, '⌡' => 245, '÷' => 246,
        '≈' => 247, '°' => 248, '∙' => 249, '·' => 250, '√' => 251, 'ⁿ' => 252,
        '²' => 253, '■' => 254,
        _ => 0,
    }
}

} // verus!
