use sierpinski::{
    draw_commands, random_color, render_commands, sierpinski, sierpinski_with_palette, subdivide,
    subdivision_count, Color, Command, Policy, Position, RenderConfig, Triangle,
};

fn p(x: i64, y: i64) -> Position {
    Position::new(x, y)
}

fn root() -> Triangle {
    Triangle::new(p(300, 0), p(0, 600), p(600, 600), Color::new(10, 20, 30))
}

fn to_plane(t: &Triangle) -> [(f64, f64); 3] {
    let scale = (1u64 << t.shift) as f64;
    let f = |q: Position| (q.x as f64 / scale, q.y as f64 / scale);
    [f(t.apex), f(t.left), f(t.right)]
}

fn leaves() -> RenderConfig {
    RenderConfig::new(Policy::DrawOnlyAtLeaves, false, false)
}

fn every_level() -> RenderConfig {
    RenderConfig::new(Policy::DrawEveryLevel, false, true)
}

#[test]
fn subdivide_gives_corner_triangles() {
    let (top, left, right) = subdivide(&root());
    assert_eq!(to_plane(&top), [(300.0, 0.0), (150.0, 300.0), (450.0, 300.0)]);
    assert_eq!(to_plane(&left), [(0.0, 600.0), (150.0, 300.0), (300.0, 600.0)]);
    assert_eq!(to_plane(&right), [(600.0, 600.0), (450.0, 300.0), (300.0, 600.0)]);
    assert_eq!(top.shift, 1);
    assert_eq!(top.apex, p(600, 0));
    assert_eq!(top.color, Color::new(10, 20, 30));
}

#[test]
fn subdivide_midpoints_shared_by_two_children() {
    let (top, left, right) = subdivide(&root());
    let has = |t: &Triangle, q: Position| t.apex == q || t.left == q || t.right == q;
    let mids = [p(300, 600), p(900, 600), p(600, 1200)];
    for m in mids {
        let n = [top, left, right].iter().filter(|t| has(t, m)).count();
        assert_eq!(n, 2);
    }
    for t in [top, left, right] {
        assert!(t.apex != t.left && t.apex != t.right && t.left != t.right);
    }
}

#[test]
fn subdivide_is_repeatable() {
    assert_eq!(subdivide(&root()), subdivide(&root()));
}

#[test]
fn depth_zero_draws_once_under_either_policy() {
    for config in [leaves(), every_level()] {
        let drawn = sierpinski_with_palette(&root(), 0, &config, &Vec::new()).unwrap();
        assert_eq!(drawn, vec![root()]);
    }
}

#[test]
fn draw_counts_follow_powers_of_three() {
    for depth in 0..6u32 {
        let three = 3usize.pow(depth);
        let n_leaves = sierpinski_with_palette(&root(), depth, &leaves(), &Vec::new()).unwrap().len();
        let n_every = sierpinski_with_palette(&root(), depth, &every_level(), &Vec::new()).unwrap().len();
        assert_eq!(n_leaves, three);
        assert_eq!(n_every, (3 * three - 1) / 2);
    }
}

#[test]
fn depth_two_leaves_example() {
    let drawn = sierpinski_with_palette(&root(), 2, &leaves(), &Vec::new()).unwrap();
    assert_eq!(drawn.len(), 9);
    let shapes: Vec<[(f64, f64); 3]> = drawn.iter().map(to_plane).collect();
    assert_eq!(shapes[0], [(300.0, 0.0), (225.0, 150.0), (375.0, 150.0)]);
    assert_eq!(shapes[8], [(300.0, 600.0), (450.0, 600.0), (375.0, 450.0)]);
    let (top, _, _) = subdivide(&root());
    assert_eq!(to_plane(&top), [(300.0, 0.0), (150.0, 300.0), (450.0, 300.0)]);
    for t in &drawn {
        assert_eq!(t.shift, 2);
    }
}

#[test]
fn degenerate_triangle_is_accepted() {
    let flat = Triangle::new(p(0, 0), p(2, 0), p(1, 0), Color::new(0, 0, 0));
    let (a, b, c) = subdivide(&flat);
    assert_eq!(a.left, p(2, 0));
    assert_eq!(c.apex, p(2, 0));
    assert_eq!(b.right, p(3, 0));
    let drawn = sierpinski_with_palette(&flat, 3, &every_level(), &Vec::new()).unwrap();
    assert_eq!(drawn.len(), 40);
    let point = Triangle::new(p(5, 5), p(5, 5), p(5, 5), Color::new(0, 0, 0));
    assert_eq!(sierpinski(&point, 2, &leaves()).len(), 9);
}

#[test]
fn palette_colours_children_in_order() {
    let config = RenderConfig::new(Policy::DrawEveryLevel, true, true);
    let palette: Vec<Color> = (0..4u8).map(|i| Color::new(i, i, i)).collect();
    let drawn = sierpinski_with_palette(&root(), 2, &config, &palette).unwrap();
    let colors: Vec<u8> = drawn.iter().map(|t| t.color.r).collect();
    assert_eq!(colors, vec![10, 0, 1, 1, 1, 0, 2, 2, 2, 0, 3, 3, 3]);
}

#[test]
fn short_palette_is_refused() {
    let config = RenderConfig::new(Policy::DrawOnlyAtLeaves, true, false);
    let palette = vec![Color::new(1, 1, 1); 3];
    assert_eq!(sierpinski_with_palette(&root(), 2, &config, &palette), None);
    let longer = vec![Color::new(1, 1, 1); 4];
    assert!(sierpinski_with_palette(&root(), 2, &config, &longer).is_some());
}

#[test]
fn subdivision_count_values() {
    assert_eq!(subdivision_count(0), Some(0));
    assert_eq!(subdivision_count(1), Some(1));
    assert_eq!(subdivision_count(6), Some(364));
    assert_eq!(subdivision_count(200), None);
}

#[test]
fn random_render_keeps_geometry() {
    let config = RenderConfig::new(Policy::DrawEveryLevel, true, true);
    let drawn = sierpinski(&root(), 3, &config);
    let plain = sierpinski_with_palette(&root(), 3, &every_level(), &Vec::new()).unwrap();
    assert_eq!(drawn.len(), 40);
    for (a, b) in drawn.iter().zip(plain.iter()) {
        assert_eq!((a.apex, a.left, a.right, a.shift), (b.apex, b.left, b.right, b.shift));
    }
    assert_eq!(drawn[0].color, root().color);
}

#[test]
fn random_colour_channels_below_255() {
    for _ in 0..200 {
        let c = random_color();
        assert!(c.r < 255 && c.g < 255 && c.b < 255);
    }
}

#[test]
fn supports_depth_limits() {
    assert!(root().supports_depth(40));
    assert!(!root().supports_depth(60));
    let big = Triangle::new(p(i64::MAX, 0), p(0, 0), p(0, 1), Color::new(0, 0, 0));
    assert!(big.supports_depth(0));
    assert!(!big.supports_depth(1));
    let low = Triangle::new(p(i64::MIN, 0), p(0, 0), p(0, 1), Color::new(0, 0, 0));
    assert!(!low.supports_depth(0));
}

#[test]
fn commands_outline_and_fill() {
    let t = root();
    let at = |q: Position| (q.x, q.y, 0u32);
    let outline = vec![
        Command::BeginPath,
        Command::MoveTo { x: at(t.apex).0, y: at(t.apex).1, shift: 0 },
        Command::LineTo { x: 0, y: 600, shift: 0 },
        Command::LineTo { x: 600, y: 600, shift: 0 },
        Command::LineTo { x: 300, y: 0, shift: 0 },
        Command::ClosePath,
        Command::Stroke,
    ];
    assert_eq!(draw_commands(&t, false), outline);
    let mut filled = vec![Command::SetFillStyle(Color::new(10, 20, 30))];
    filled.extend(outline.iter().copied());
    filled.push(Command::Fill);
    assert_eq!(draw_commands(&t, true), filled);
    let all = render_commands(&vec![t, t], true);
    assert_eq!(all.len(), 18);
    assert_eq!(all[9..], filled[..]);
    assert!(render_commands(&Vec::new(), false).is_empty());
}
