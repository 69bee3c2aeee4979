use vstd::prelude::*;
use crate::geometry::{Color, Position, Triangle};

verus! {

/// One call on a 2D drawing surface. Coordinates are fixed point: `x` and `y`
/// stand for `x / 2^shift` and `y / 2^shift`.
#[derive(Clone, Copy, Debug, PartialEq, Eq, Structural)]
pub enum Command {
    SetFillStyle(Color),
    BeginPath,
    MoveTo { x: i64, y: i64, shift: u32 },
    LineTo { x: i64, y: i64, shift: u32 },
    ClosePath,
    Stroke,
    Fill,
}

pub open spec fn move_to(p: Position, shift: u32) -> Command {
    Command::MoveTo { x: p.x, y: p.y, shift }
}

pub open spec fn line_to(p: Position, shift: u32) -> Command {
    Command::LineTo { x: p.x, y: p.y, shift }
}

/// The calls that draw `t`: a closed path from the apex through the left and
/// right base vertices back to the apex, stroked, and when `fill` is set also
/// filled with the triangle's colour.
pub open spec fn triangle_commands(t: Triangle, fill: bool) -> Seq<Command> {
    let outline = seq![
        Command::BeginPath,
        move_to(t.apex, t.shift),
        line_to(t.left, t.shift),
        line_to(t.right, t.shift),
        line_to(t.apex, t.shift),
        Command::ClosePath,
        Command::Stroke,
    ];
    if fill {
        seq![Command::SetFillStyle(t.color)] + outline + seq![Command::Fill]
    } else {
        outline
    }
}

/// The calls that draw each triangle of `ts` in turn.
pub open spec fn all_commands(ts: Seq<Triangle>, fill: bool) -> Seq<Command>
    decreases ts.len(),
{
    if ts.len() == 0 {
        seq![]
    } else {
        all_commands(ts.drop_last(), fill) + triangle_commands(ts.last(), fill)
    }
}

/// Appends to `out` the calls that draw `t`.
fn push_triangle(t: &Triangle, fill: bool, out: &mut Vec<Command>)
    ensures
        final(out)@ == old(out)@ + triangle_commands(*t, fill),
{
    let ghost before = out@;
    if fill {
        out.push(Command::SetFillStyle(t.color));
    }
    out.push(Command::BeginPath);
    out.push(Command::MoveTo { x: t.apex.x, y: t.apex.y, shift: t.shift });
    out.push(Command::LineTo { x: t.left.x, y: t.left.y, shift: t.shift });
    out.push(Command::LineTo { x: t.right.x, y: t.right.y, shift: t.shift });
    out.push(Command::LineTo { x: t.apex.x, y: t.apex.y, shift: t.shift });
    out.push(Command::ClosePath);
    out.push(Command::Stroke);
    if fill {
        out.push(Command::Fill);
    }
    assert(out@ =~= before + triangle_commands(*t, fill));
}

/// The calls that draw `t`.
pub fn draw_commands(t: &Triangle, fill: bool) -> (r: Vec<Command>)
    ensures
        r@ == triangle_commands(*t, fill),
{
    let mut out: Vec<Command> = Vec::new();
    push_triangle(t, fill, &mut out);
    assert(out@ =~= triangle_commands(*t, fill));
    out
}

/// The calls that draw each of `ts` in order.
pub fn render_commands(ts: &Vec<Triangle>, fill: bool) -> (r: Vec<Command>)
    ensures
        r@ == all_commands(ts@, fill),
{
    let mut out: Vec<Command> = Vec::new();
    let mut i: usize = 0;
    while i < ts.len()
        invariant
            i <= ts.len(),
            out@ == all_commands(ts@.take(i as int), fill),
        decreases ts.len() - i,
    {
        proof {
            let next = ts@.take(i + 1);
            assert(next.drop_last() =~= ts@.take(i as int));
            assert(next.last() == ts@[i as int]);
        }
        push_triangle(&ts[i], fill, &mut out);
        i = i + 1;
    }
    assert(ts@.take(ts.len() as int) =~= ts@);
    out
}

} // verus!
