use vstd::prelude::*;
use crate::geometry::{children, fits, lemma_children_fit, lemma_fits_shallower, subdivide};
use crate::geometry::{Color, Triangle};
use crate::palette::{random_palette, sampled};

verus! {

/// When triangles are drawn during the recursion.
#[derive(Clone, Copy, Debug, PartialEq, Eq, Structural)]
pub enum Policy {
    /// Draw every triangle met, then recurse into its children.
    DrawEveryLevel,
    /// Draw only the triangles at the final depth.
    DrawOnlyAtLeaves,
}

/// How a fractal is rendered.
#[derive(Clone, Copy, Debug, PartialEq, Eq, Structural)]
pub struct RenderConfig {
    pub policy: Policy,
    /// Give the children of each subdivision a fresh colour from the palette.
    /// Otherwise children keep their parent's colour.
    pub recolor: bool,
    /// Fill each drawn triangle besides stroking its outline.
    pub fill: bool,
}

impl RenderConfig {
    pub fn new(policy: Policy, recolor: bool, fill: bool) -> (c: RenderConfig)
        ensures
            c == (RenderConfig { policy, recolor, fill }),
    {
        RenderConfig { policy, recolor, fill }
    }
}

/// `3^n`.
pub open spec fn pow3(n: nat) -> nat
    decreases n,
{
    if n == 0 {
        1
    } else {
        3 * pow3((n - 1) as nat)
    }
}

/// Number of subdivisions made when recursing `depth` levels from one triangle.
pub open spec fn subdivisions(depth: nat) -> nat
    decreases depth,
{
    if depth == 0 {
        0
    } else {
        1 + 3 * subdivisions((depth - 1) as nat)
    }
}

/// Number of palette colours consumed when recursing `depth` levels.
pub open spec fn colors_used(config: RenderConfig, depth: nat) -> nat {
    if config.recolor {
        subdivisions(depth)
    } else {
        0
    }
}

/// Number of triangles drawn when recursing `depth` levels.
pub open spec fn draw_count(policy: Policy, depth: nat) -> nat
    decreases depth,
{
    if depth == 0 {
        1
    } else {
        let below = 3 * draw_count(policy, (depth - 1) as nat);
        match policy {
            Policy::DrawEveryLevel => 1 + below,
            Policy::DrawOnlyAtLeaves => below,
        }
    }
}

pub open spec fn with_color(t: Triangle, c: Color) -> Triangle {
    Triangle { color: c, ..t }
}

/// The triangles drawn, in order, when rendering `t` for `depth` more levels.
/// A subdivision that recolours takes the palette colour at `start`; its three
/// subtrees then take their colours, in turn, from the positions after it.
pub open spec fn drawn(
    t: Triangle,
    depth: nat,
    config: RenderConfig,
    palette: Seq<Color>,
    start: int,
) -> Seq<Triangle>
    decreases depth,
{
    if depth == 0 {
        seq![t]
    } else {
        let d = (depth - 1) as nat;
        let (a, b, c) = children(t);
        let color = if config.recolor {
            palette[start]
        } else {
            t.color
        };
        let s0 = start + (if config.recolor { 1int } else { 0int });
        let s1 = s0 + colors_used(config, d);
        let s2 = s1 + colors_used(config, d);
        let below = drawn(with_color(a, color), d, config, palette, s0) + drawn(
            with_color(b, color),
            d,
            config,
            palette,
            s1,
        ) + drawn(with_color(c, color), d, config, palette, s2);
        match config.policy {
            Policy::DrawEveryLevel => seq![t] + below,
            Policy::DrawOnlyAtLeaves => below,
        }
    }
}

/// Appends to `out` the triangles drawn when rendering `t` for `depth` levels,
/// with recolouring taken from `palette` at `start`; returns the position
/// after the last colour used.
fn draw_into(
    t: Triangle,
    depth: u32,
    config: RenderConfig,
    palette: &Vec<Color>,
    start: usize,
    out: &mut Vec<Triangle>,
) -> (next: usize)
    requires
        fits(t, depth as nat),
        start + colors_used(config, depth as nat) <= palette.len(),
    ensures
        final(out)@ == old(out)@ + drawn(t, depth as nat, config, palette@, start as int),
        next == start + colors_used(config, depth as nat),
    decreases depth,
{
    if depth == 0 {
        out.push(t);
        return start;
    }
    let ghost before = out@;
    if config.policy == Policy::DrawEveryLevel {
        out.push(t);
    }
    let ghost mid_out = out@;
    let d = depth - 1;
    proof {
        lemma_children_fit(t, d as nat);
    }
    assert(fits(t, 1)) by {
        if d > 0 {
            lemma_fits_at_least_one(t, depth as nat);
        }
    }
    let (a, b, c) = subdivide(&t);
    let mut s0 = start;
    let mut color = t.color;
    if config.recolor {
        color = palette[start];
        s0 = start + 1;
    }
    let s1 = draw_into(Triangle { color, ..a }, d, config, palette, s0, out);
    let s2 = draw_into(Triangle { color, ..b }, d, config, palette, s1, out);
    let s3 = draw_into(Triangle { color, ..c }, d, config, palette, s2, out);
    proof {
        let dd = d as nat;
        let below = drawn(with_color(a, color), dd, config, palette@, s0 as int) + drawn(
            with_color(b, color),
            dd,
            config,
            palette@,
            s1 as int,
        ) + drawn(with_color(c, color), dd, config, palette@, s2 as int);
        assert(out@ =~= mid_out + below);
        assert(drawn(t, depth as nat, config, palette@, start as int) == match config.policy {
            Policy::DrawEveryLevel => seq![t] + below,
            Policy::DrawOnlyAtLeaves => below,
        });
        assert(out@ =~= before + drawn(t, depth as nat, config, palette@, start as int));
    }
    s3
}

proof fn lemma_subdivisions_grow(i: nat, j: nat)
    requires
        i <= j,
    ensures
        subdivisions(i) <= subdivisions(j),
    decreases j,
{
    if i < j {
        lemma_subdivisions_grow(i, (j - 1) as nat);
    }
}

/// The number of subdivisions made over `depth` levels, when it fits in `usize`.
pub fn subdivision_count(depth: u32) -> (r: Option<usize>)
    ensures
        r == (if subdivisions(depth as nat) <= usize::MAX {
            Some(subdivisions(depth as nat) as usize)
        } else {
            None::<usize>
        }),
{
    let mut n: usize = 0;
    let mut i: u32 = 0;
    while i < depth
        invariant
            i <= depth,
            n == subdivisions(i as nat),
        decreases depth - i,
    {
        proof {
            assert(subdivisions((i + 1) as nat) == 1 + 3 * subdivisions(i as nat));
        }
        if n > (usize::MAX - 1) / 3 {
            proof {
                lemma_subdivisions_grow((i + 1) as nat, depth as nat);
            }
            return None;
        }
        n = 3 * n + 1;
        i = i + 1;
    }
    Some(n)
}

/// Renders `root` for `depth` levels and returns the triangles drawn, in
/// drawing order. Recolouring takes colours from `palette` in order; `None`
/// when recolouring needs more colours than `palette` holds.
pub fn sierpinski_with_palette(
    root: &Triangle,
    depth: u32,
    config: &RenderConfig,
    palette: &Vec<Color>,
) -> (r: Option<Vec<Triangle>>)
    requires
        fits(*root, depth as nat),
    ensures
        r is Some <==> colors_used(*config, depth as nat) <= palette.len(),
        r matches Some(v) ==> v@ == drawn(*root, depth as nat, *config, palette@, 0),
        r matches Some(v) ==> v@.len() == draw_count(config.policy, depth as nat),
{
    if config.recolor {
        match subdivision_count(depth) {
            None => {
                return None;
            },
            Some(n) => {
                if n > palette.len() {
                    return None;
                }
            },
        }
    }
    let mut out: Vec<Triangle> = Vec::new();
    draw_into(*root, depth, *config, palette, 0, &mut out);
    assert(out@ =~= drawn(*root, depth as nat, *config, palette@, 0));
    proof {
        lemma_drawn_len(*root, depth as nat, *config, palette@, 0);
    }
    Some(out)
}

/// Renders `root` for `depth` levels and returns the triangles drawn, in
/// drawing order. Each recolouring subdivision gives its children a colour
/// drawn at random.
pub fn sierpinski(root: &Triangle, depth: u32, config: &RenderConfig) -> (r: Vec<Triangle>)
    requires
        fits(*root, depth as nat),
        colors_used(*config, depth as nat) <= usize::MAX,
    ensures
        exists|palette: Seq<Color>|
            {
                &&& palette.len() == colors_used(*config, depth as nat)
                &&& forall|i: int| 0 <= i < palette.len() ==> sampled(#[trigger] palette[i])
                &&& r@ == drawn(*root, depth as nat, *config, palette, 0)
            },
        r@.len() == draw_count(config.policy, depth as nat),
{
    let mut n: usize = 0;
    if config.recolor {
        match subdivision_count(depth) {
            Some(k) => {
                n = k;
            },
            None => {},
        }
    }
    let palette = random_palette(n);
    match sierpinski_with_palette(root, depth, config, &palette) {
        Some(v) => v,
        None => Vec::new(),
    }
}

proof fn lemma_fits_at_least_one(t: Triangle, depth: nat)
    requires
        fits(t, depth),
        depth >= 1,
    ensures
        fits(t, 1),
    decreases depth,
{
    if depth > 1 {
        lemma_fits_shallower(t, (depth - 1) as nat);
        lemma_fits_at_least_one(t, (depth - 1) as nat);
    }
}

} // verus!

verus! {

/// Rendering draws `draw_count(policy, depth)` triangles, whatever the
/// triangle, palette and starting position.
pub proof fn lemma_drawn_len(
    t: Triangle,
    depth: nat,
    config: RenderConfig,
    palette: Seq<Color>,
    start: int,
)
    ensures
        drawn(t, depth, config, palette, start).len() == draw_count(config.policy, depth),
    decreases depth,
{
    if depth > 0 {
        let d = (depth - 1) as nat;
        let (a, b, c) = children(t);
        let color = if config.recolor {
            palette[start]
        } else {
            t.color
        };
        let s0 = start + (if config.recolor { 1int } else { 0int });
        let s1 = s0 + colors_used(config, d);
        let s2 = s1 + colors_used(config, d);
        lemma_drawn_len(with_color(a, color), d, config, palette, s0);
        lemma_drawn_len(with_color(b, color), d, config, palette, s1);
        lemma_drawn_len(with_color(c, color), d, config, palette, s2);
    }
}

/// At depth 0 exactly one triangle is drawn, under either policy.
pub proof fn lemma_depth_zero_draws_once(
    t: Triangle,
    config: RenderConfig,
    palette: Seq<Color>,
    start: int,
)
    ensures
        drawn(t, 0, config, palette, start) == seq![t],
        drawn(t, 0, config, palette, start).len() == 1,
{
}

/// Drawing only at the leaves draws `3^depth` triangles; drawing every level
/// draws `(3^(depth+1) - 1) / 2`.
pub proof fn lemma_draw_count_closed_form(depth: nat)
    ensures
        draw_count(Policy::DrawOnlyAtLeaves, depth) == pow3(depth),
        draw_count(Policy::DrawEveryLevel, depth) == (pow3(depth + 1) - 1) / 2,
    decreases depth,
{
    if depth > 0 {
        lemma_draw_count_closed_form((depth - 1) as nat);
    }
    assert(pow3(depth + 1) == 3 * pow3(depth));
}

/// A recursion of `depth` levels makes `(3^depth - 1) / 2` subdivisions.
pub proof fn lemma_subdivisions_closed_form(depth: nat)
    ensures
        subdivisions(depth) == (pow3(depth) - 1) / 2,
    decreases depth,
{
    if depth > 0 {
        lemma_subdivisions_closed_form((depth - 1) as nat);
    }
}

/// Rendering draws exactly `3^depth` triangles when drawing only at the
/// leaves, and `(3^(depth+1) - 1) / 2` when drawing every level, whatever the
/// root triangle and the colours.
pub proof fn lemma_render_counts(
    t: Triangle,
    depth: nat,
    config: RenderConfig,
    palette: Seq<Color>,
)
    ensures
        config.policy == Policy::DrawOnlyAtLeaves ==> drawn(t, depth, config, palette, 0).len()
            == pow3(depth),
        config.policy == Policy::DrawEveryLevel ==> drawn(t, depth, config, palette, 0).len() == (
        pow3(depth + 1) - 1) / 2,
{
    lemma_drawn_len(t, depth, config, palette, 0);
    lemma_draw_count_closed_form(depth);
}

} // verus!
