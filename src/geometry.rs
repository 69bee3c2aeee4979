use vstd::prelude::*;

verus! {

/// Largest coordinate magnitude any triangle may reach.
pub const COORD_LIMIT: i64 = 0x7fff_ffff_ffff_ffff;

/// A point of the plane in fixed-point coordinates; the triangle that holds it
/// gives the scale.
#[derive(Clone, Copy, Debug, PartialEq, Eq, Structural)]
pub struct Position {
    pub x: i64,
    pub y: i64,
}

/// An RGB colour with 8-bit channels.
#[derive(Clone, Copy, Debug, PartialEq, Eq, Structural)]
pub struct Color {
    pub r: u8,
    pub g: u8,
    pub b: u8,
}

/// Three vertices (apex, left base, right base) and a fill colour.
/// Each coordinate `v` stands for the real number `v / 2^shift`.
#[derive(Clone, Copy, Debug, PartialEq, Eq, Structural)]
pub struct Triangle {
    pub apex: Position,
    pub left: Position,
    pub right: Position,
    pub shift: u32,
    pub color: Color,
}

/// `2^n`.
pub open spec fn pow2(n: nat) -> nat
    decreases n,
{
    if n == 0 {
        1
    } else {
        2 * pow2((n - 1) as nat)
    }
}

pub open spec fn abs(v: int) -> int {
    if v < 0 {
        -v
    } else {
        v
    }
}

/// A coordinate can be scaled up `depth` times (doubled, or added to another
/// such coordinate) without leaving `i64`.
pub open spec fn coord_fits(v: int, depth: nat) -> bool {
    abs(v) * pow2(depth) <= COORD_LIMIT
}

pub open spec fn point_fits(p: Position, depth: nat) -> bool {
    coord_fits(p.x as int, depth) && coord_fits(p.y as int, depth)
}

/// The triangle can be subdivided `depth` levels deep in fixed point.
pub open spec fn fits(t: Triangle, depth: nat) -> bool {
    &&& point_fits(t.apex, depth)
    &&& point_fits(t.left, depth)
    &&& point_fits(t.right, depth)
    &&& t.shift + depth <= u32::MAX
}

/// A vertex rewritten at the next finer scale.
pub open spec fn refine(p: Position) -> Position {
    Position { x: (2 * p.x) as i64, y: (2 * p.y) as i64 }
}

/// The midpoint of `a` and `b`, written at the next finer scale.
pub open spec fn mid(a: Position, b: Position) -> Position {
    Position { x: (a.x + b.x) as i64, y: (a.y + b.y) as i64 }
}

/// The three corner triangles of `t`: each keeps one vertex of `t` and the
/// midpoints of the two edges that meet there. The medial triangle is left out.
pub open spec fn children(t: Triangle) -> (Triangle, Triangle, Triangle) {
    let s = (t.shift + 1) as u32;
    let ml = mid(t.apex, t.left);
    let mr = mid(t.apex, t.right);
    let mb = mid(t.left, t.right);
    (
        Triangle { apex: refine(t.apex), left: ml, right: mr, shift: s, color: t.color },
        Triangle { apex: refine(t.left), left: ml, right: mb, shift: s, color: t.color },
        Triangle { apex: refine(t.right), left: mr, right: mb, shift: s, color: t.color },
    )
}

proof fn lemma_coord_sum_fits(v: int, w: int, depth: nat)
    requires
        coord_fits(v, depth + 1),
        coord_fits(w, depth + 1),
    ensures
        coord_fits(v + w, depth),
        coord_fits(2 * v, depth),
        abs(v + w) <= COORD_LIMIT,
        abs(2 * v) <= COORD_LIMIT,
{
    let p = pow2(depth) as int;
    lemma_pow2_positive(depth);
    assert(pow2(depth + 1) == 2 * p);
    assert(abs(v + w) <= abs(v) + abs(w));
    assert(abs(v + w) * p <= abs(v) * p + abs(w) * p) by (nonlinear_arith)
        requires
            abs(v + w) <= abs(v) + abs(w),
            p >= 0,
    ;
    assert(abs(v) * (2 * p) == 2 * (abs(v) * p)) by (nonlinear_arith);
    assert(abs(w) * (2 * p) == 2 * (abs(w) * p)) by (nonlinear_arith);
    assert(abs(2 * v) * p == 2 * (abs(v) * p)) by (nonlinear_arith);
    assert(abs(v + w) <= abs(v + w) * p) by (nonlinear_arith)
        requires
            p >= 1,
            abs(v + w) >= 0,
    ;
    assert(abs(2 * v) <= abs(2 * v) * p) by (nonlinear_arith)
        requires
            p >= 1,
            abs(2 * v) >= 0,
    ;
}

proof fn lemma_coord_fits_shallower(v: int, depth: nat)
    requires
        coord_fits(v, depth + 1),
    ensures
        coord_fits(v, depth),
{
    let p = pow2(depth) as int;
    assert(pow2(depth + 1) == 2 * p);
    assert(abs(v) * p <= abs(v) * (2 * p)) by (nonlinear_arith)
        requires
            abs(v) >= 0,
            p >= 0,
    ;
}

/// A triangle that fits `depth + 1` levels has children that fit `depth`.
pub proof fn lemma_children_fit(t: Triangle, depth: nat)
    requires
        fits(t, depth + 1),
    ensures
        fits(children(t).0, depth),
        fits(children(t).1, depth),
        fits(children(t).2, depth),
{
    lemma_coord_sum_fits(t.apex.x as int, t.left.x as int, depth);
    lemma_coord_sum_fits(t.apex.y as int, t.left.y as int, depth);
    lemma_coord_sum_fits(t.apex.x as int, t.right.x as int, depth);
    lemma_coord_sum_fits(t.apex.y as int, t.right.y as int, depth);
    lemma_coord_sum_fits(t.left.x as int, t.right.x as int, depth);
    lemma_coord_sum_fits(t.left.y as int, t.right.y as int, depth);
    lemma_coord_sum_fits(t.right.x as int, t.left.x as int, depth);
    lemma_coord_sum_fits(t.right.y as int, t.left.y as int, depth);
}

proof fn lemma_pow2_positive(n: nat)
    ensures
        pow2(n) >= 1,
    decreases n,
{
    if n > 0 {
        lemma_pow2_positive((n - 1) as nat);
    }
}

/// A triangle that fits `depth + 1` levels fits `depth` levels.
pub proof fn lemma_fits_shallower(t: Triangle, depth: nat)
    requires
        fits(t, depth + 1),
    ensures
        fits(t, depth),
{
    lemma_coord_fits_shallower(t.apex.x as int, depth);
    lemma_coord_fits_shallower(t.apex.y as int, depth);
    lemma_coord_fits_shallower(t.left.x as int, depth);
    lemma_coord_fits_shallower(t.left.y as int, depth);
    lemma_coord_fits_shallower(t.right.x as int, depth);
    lemma_coord_fits_shallower(t.right.y as int, depth);
}

/// Splits `t` into its three corner triangles, at the next finer scale.
/// The children keep the colour of `t`.
pub fn subdivide(t: &Triangle) -> (r: (Triangle, Triangle, Triangle))
    requires
        fits(*t, 1),
    ensures
        r == children(*t),
{
    proof {
        lemma_children_fit(*t, 0);
        assert(pow2(1) == 2);
    }
    let s = t.shift + 1;
    let ml = Position { x: t.apex.x + t.left.x, y: t.apex.y + t.left.y };
    let mr = Position { x: t.apex.x + t.right.x, y: t.apex.y + t.right.y };
    let mb = Position { x: t.left.x + t.right.x, y: t.left.y + t.right.y };
    let top = Triangle {
        apex: Position { x: 2 * t.apex.x, y: 2 * t.apex.y },
        left: ml,
        right: mr,
        shift: s,
        color: t.color,
    };
    let left = Triangle {
        apex: Position { x: 2 * t.left.x, y: 2 * t.left.y },
        left: ml,
        right: mb,
        shift: s,
        color: t.color,
    };
    let right = Triangle {
        apex: Position { x: 2 * t.right.x, y: 2 * t.right.y },
        left: mr,
        right: mb,
        shift: s,
        color: t.color,
    };
    (top, left, right)
}

} // verus!

verus! {

/// The vertices of `t`.
pub open spec fn vertices(t: Triangle) -> Set<Position> {
    set![t.apex, t.left, t.right]
}

/// The vertices of `t` and the midpoints of its edges, at the next finer scale.
pub open spec fn subdivision_points(t: Triangle) -> Set<Position> {
    set![
        refine(t.apex),
        refine(t.left),
        refine(t.right),
        mid(t.apex, t.left),
        mid(t.apex, t.right),
        mid(t.left, t.right),
    ]
}

/// The vertices are pairwise distinct and none is the midpoint of the other
/// two.
pub open spec fn proper(t: Triangle) -> bool {
    let (a, l, r) = (t.apex, t.left, t.right);
    &&& a != l && a != r && l != r
    &&& (a.x + l.x != 2 * r.x || a.y + l.y != 2 * r.y)
    &&& (a.x + r.x != 2 * l.x || a.y + r.y != 2 * l.y)
    &&& (l.x + r.x != 2 * a.x || l.y + r.y != 2 * a.y)
}

/// Every child of a subdivision takes its vertices from the vertices of the
/// parent and the midpoints of its edges.
pub proof fn lemma_children_use_subdivision_points(t: Triangle)
    ensures
        vertices(children(t).0).subset_of(subdivision_points(t)),
        vertices(children(t).1).subset_of(subdivision_points(t)),
        vertices(children(t).2).subset_of(subdivision_points(t)),
{
}

/// For a proper triangle each child has three distinct vertices, and each
/// edge midpoint is a vertex of exactly two of the three children: the one
/// at each end of that edge.
pub proof fn lemma_children_share_midpoints(t: Triangle)
    requires
        fits(t, 1),
        proper(t),
    ensures
        vertices(children(t).0).len() == 3,
        vertices(children(t).1).len() == 3,
        vertices(children(t).2).len() == 3,
        vertices(children(t).0).contains(mid(t.apex, t.left)),
        vertices(children(t).1).contains(mid(t.apex, t.left)),
        !vertices(children(t).2).contains(mid(t.apex, t.left)),
        vertices(children(t).0).contains(mid(t.apex, t.right)),
        !vertices(children(t).1).contains(mid(t.apex, t.right)),
        vertices(children(t).2).contains(mid(t.apex, t.right)),
        !vertices(children(t).0).contains(mid(t.left, t.right)),
        vertices(children(t).1).contains(mid(t.left, t.right)),
        vertices(children(t).2).contains(mid(t.left, t.right)),
{
    lemma_children_fit(t, 0);
    assert(pow2(1) == 2);
    let (c0, c1, c2) = children(t);
    lemma_three_distinct(c0.apex, c0.left, c0.right);
    lemma_three_distinct(c1.apex, c1.left, c1.right);
    lemma_three_distinct(c2.apex, c2.left, c2.right);
}

proof fn lemma_three_distinct(a: Position, b: Position, c: Position)
    requires
        a != b && a != c && b != c,
    ensures
        set![a, b, c].len() == 3,
{
    let s0 = Set::<Position>::empty();
    assert(s0.len() == 0);
    assert(!s0.insert(a).contains(b));
    assert(!s0.insert(a).insert(b).contains(c));
}

/// Subdivision is a function of the triangle alone: two results of
/// subdividing the same triangle are equal.
pub proof fn lemma_subdivide_deterministic(
    t: Triangle,
    r1: (Triangle, Triangle, Triangle),
    r2: (Triangle, Triangle, Triangle),
)
    requires
        r1 == children(t),
        r2 == children(t),
    ensures
        r1 == r2,
{
}

} // verus!

verus! {

proof fn lemma_pow2_grows(i: nat, j: nat)
    requires
        i <= j,
    ensures
        pow2(i) <= pow2(j),
    decreases j,
{
    if i < j {
        lemma_pow2_grows(i, (j - 1) as nat);
    }
}

/// Whether `v` can be scaled up `depth` times within `i64`.
fn coord_fits_exec(v: i64, depth: u32) -> (r: bool)
    ensures
        r == coord_fits(v as int, depth as nat),
{
    proof {
        lemma_pow2_positive(depth as nat);
    }
    if v == i64::MIN {
        assert(abs(v as int) * pow2(depth as nat) >= abs(v as int)) by (nonlinear_arith)
            requires
                pow2(depth as nat) >= 1,
                abs(v as int) >= 0,
        ;
        return false;
    }
    let mut a: i64 = if v < 0 {
        -v
    } else {
        v
    };
    let mut i: u32 = 0;
    assert(pow2(0) == 1);
    while i < depth
        invariant
            i <= depth,
            0 <= a <= COORD_LIMIT,
            a == abs(v as int) * pow2(i as nat),
        decreases depth - i,
    {
        if a == 0 {
            proof {
                lemma_pow2_positive(i as nat);
            }
            assert(abs(v as int) == 0) by (nonlinear_arith)
                requires
                    a == abs(v as int) * pow2(i as nat),
                    a == 0,
                    pow2(i as nat) >= 1,
            ;
            return true;
        }
        if a > COORD_LIMIT / 2 {
            proof {
                lemma_pow2_grows((i + 1) as nat, depth as nat);
                assert(pow2((i + 1) as nat) == 2 * pow2(i as nat));
                assert(abs(v as int) * pow2(depth as nat) >= abs(v as int) * pow2((i + 1) as nat))
                    by (nonlinear_arith)
                    requires
                        pow2((i + 1) as nat) <= pow2(depth as nat),
                        abs(v as int) >= 0,
                ;
                assert(abs(v as int) * (2 * pow2(i as nat)) == 2 * a) by (nonlinear_arith)
                    requires
                        a == abs(v as int) * pow2(i as nat),
                ;
            }
            return false;
        }
        proof {
            assert(pow2((i + 1) as nat) == 2 * pow2(i as nat));
            assert(abs(v as int) * (2 * pow2(i as nat)) == 2 * a) by (nonlinear_arith)
                requires
                    a == abs(v as int) * pow2(i as nat),
            ;
        }
        a = 2 * a;
        i = i + 1;
    }
    true
}

impl Position {
    pub fn new(x: i64, y: i64) -> (p: Position)
        ensures
            p == (Position { x, y }),
    {
        Position { x, y }
    }
}

impl Color {
    pub fn new(r: u8, g: u8, b: u8) -> (c: Color)
        ensures
            c == (Color { r, g, b }),
    {
        Color { r, g, b }
    }
}

impl Triangle {
    /// A triangle at whole-unit scale (`shift` 0).
    pub fn new(apex: Position, left: Position, right: Position, color: Color) -> (t: Triangle)
        ensures
            t == (Triangle { apex, left, right, shift: 0, color }),
    {
        Triangle { apex, left, right, shift: 0, color }
    }

    /// Whether this triangle can be subdivided `depth` levels deep without
    /// leaving the range of its fixed-point coordinates.
    pub fn supports_depth(&self, depth: u32) -> (r: bool)
        ensures
            r == fits(*self, depth as nat),
    {
        let ok_shift = depth <= u32::MAX - self.shift;
        ok_shift && coord_fits_exec(self.apex.x, depth) && coord_fits_exec(self.apex.y, depth)
            && coord_fits_exec(self.left.x, depth) && coord_fits_exec(self.left.y, depth)
            && coord_fits_exec(self.right.x, depth) && coord_fits_exec(self.right.y, depth)
    }
}

} // verus!
