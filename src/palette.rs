use vstd::prelude::*;
use crate::geometry::Color;

verus! {

/// Every channel lies in `0..255`, the range that colours are drawn from.
pub open spec fn sampled(c: Color) -> bool {
    c.r < 255 && c.g < 255 && c.b < 255
}

/// Relies on rand::thread_rng and Rng::gen_range: a uniform sample of the
/// half-open range `0..255`, which is not empty.
#[verifier::external_body]
fn random_channel() -> (r: u8)
    ensures
        r < 255,
{
    rand::Rng::gen_range(&mut rand::thread_rng(), 0u8..255u8)
}

/// A colour whose channels are each drawn at random from `0..255`.
pub fn random_color() -> (c: Color)
    ensures
        sampled(c),
{
    let r = random_channel();
    let g = random_channel();
    let b = random_channel();
    Color { r, g, b }
}

/// `n` colours, each drawn at random.
pub fn random_palette(n: usize) -> (p: Vec<Color>)
    ensures
        p.len() == n,
        forall|i: int| 0 <= i < n ==> sampled(#[trigger] p@[i]),
{
    let mut p: Vec<Color> = Vec::new();
    let mut i: usize = 0;
    while i < n
        invariant
            i <= n,
            p.len() == i,
            forall|k: int| 0 <= k < i ==> sampled(#[trigger] p@[k]),
        decreases n - i,
    {
        p.push(random_color());
        i = i + 1;
    }
    p
}

} // verus!
