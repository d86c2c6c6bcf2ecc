use soft3d::assembly::{indexed_triangles, indices_in_range, triangles};
use soft3d::clip::{clip_triangle, frustum_test, ClipStep, Corner, Piece, Visibility};
use soft3d::frame::{Fragment, Rgb};
use soft3d::outcode::check_cvv;
use soft3d::plane::Plane;
use soft3d::renderer::Renderer;
use soft3d::segment::{sort_segments, Segment};

type Position = [f32; 4];
type Colour = [f32; 3];

/// A vertex after the vertex stage: its place in clip space and its colour.
#[derive(Clone, Copy, Debug, PartialEq)]
struct Vertex {
    pos: Position,
    colour: Colour,
}

fn vertex(x: f32, y: f32, z: f32, w: f32, colour: Colour) -> Vertex {
    Vertex { pos: [x, y, z, w], colour }
}

fn lerp4(a: &Position, b: &Position, t: f32) -> Position {
    [
        a[0] + (b[0] - a[0]) * t,
        a[1] + (b[1] - a[1]) * t,
        a[2] + (b[2] - a[2]) * t,
        a[3] + (b[3] - a[3]) * t,
    ]
}

fn lerp3(a: &Colour, b: &Colour, t: f32) -> Colour {
    [a[0] + (b[0] - a[0]) * t, a[1] + (b[1] - a[1]) * t, a[2] + (b[2] - a[2]) * t]
}

fn outcode(p: &Position) -> u8 {
    check_cvv(p[0].to_bits(), p[1].to_bits(), p[2].to_bits(), p[3].to_bits())
}

fn cut_parameter(s: &Position, e: &Position, plane: Plane) -> f32 {
    let (sw, ew) = (s[3], e[3]);
    match plane {
        Plane::NX => (s[0] + sw) / (s[0] - e[0] + sw - ew),
        Plane::X => (s[0] - sw) / (s[0] - e[0] - sw + ew),
        Plane::NY => (s[1] + sw) / (s[1] - e[1] + sw - ew),
        Plane::Y => (s[1] - sw) / (s[1] - e[1] - sw + ew),
        Plane::NZ => (s[2] + sw) / (s[2] - e[2] + sw - ew),
        Plane::Z => (s[2] - sw) / (s[2] - e[2] - sw + ew),
    }
}

fn corner(tri: &[Vertex; 3], c: Corner, plane: Plane) -> Vertex {
    match c {
        Corner::Keep(i) => tri[i],
        Corner::Cut { from, to } => {
            let t = cut_parameter(&tri[from].pos, &tri[to].pos, plane);
            Vertex {
                pos: lerp4(&tri[from].pos, &tri[to].pos, t),
                colour: lerp3(&tri[from].colour, &tri[to].colour, t),
            }
        }
    }
}

fn piece(tri: &[Vertex; 3], p: &Piece, plane: Plane) -> [Vertex; 3] {
    [corner(tri, p.a, plane), corner(tri, p.b, plane), corner(tri, p.c, plane)]
}

/// Clips a triangle from `plane` on and collects what is left of it.
fn clip(tri: [Vertex; 3], plane: Option<Plane>, out: &mut Vec<[Vertex; 3]>, depth: usize) {
    assert!(depth <= 6, "no plane is cut at twice");
    let codes = [outcode(&tri[0].pos), outcode(&tri[1].pos), outcode(&tri[2].pos)];
    match clip_triangle(codes[0], codes[1], codes[2], plane) {
        ClipStep::Draw => out.push(tri),
        ClipStep::Clip { plane, first, second, next } => {
            clip(piece(&tri, &first, plane), next, out, depth + 1);
            if let Some(second) = second {
                clip(piece(&tri, &second, plane), next, out, depth + 1);
            }
        }
    }
}

/// The triangles that are left of one triangle after the frustum test and
/// the clipping.
fn visible_parts(tri: [Vertex; 3]) -> Vec<[Vertex; 3]> {
    let mut out = Vec::new();
    let codes = [outcode(&tri[0].pos), outcode(&tri[1].pos), outcode(&tri[2].pos)];
    match frustum_test(codes[0], codes[1], codes[2]) {
        Visibility::Outside => {}
        Visibility::Straddling(plane) => clip(tri, Some(plane), &mut out, 0),
        Visibility::Inside => out.push(tri),
    }
    out
}

fn to_screen(target: &Renderer, p: &Position) -> Position {
    let inv = 1.0 / p[3];
    let (x, y, z) = (p[0] * inv, p[1] * inv, p[2] * inv);
    [
        (x + 1.0) * 0.5 * target.width() as f32,
        (-y + 1.0) * 0.5 * target.height() as f32,
        z,
        1.0,
    ]
}

fn to_byte(c: f32) -> u8 {
    (c * 255.0) as u8
}

/// Scans the rows between the ends of the minor edge `s2`, from the minor
/// edge to the major edge `s1`, and gives the fragments row by row.
fn scan(
    pos: &[Position; 3],
    colours: &[Colour; 3],
    s1: &Segment,
    s2: &Segment,
    shade: &dyn Fn(&Colour) -> Colour,
) -> Vec<Vec<Fragment>> {
    let mut rows = Vec::new();
    let (s1s, s1e, s2s, s2e) = (&pos[s1.s], &pos[s1.e], &pos[s2.s], &pos[s2.e]);
    let y_start = s2s[1] as usize;
    let y_end = s2e[1] as usize;
    for y in y_start..y_end {
        let fy = y as f32;
        let t1 = (fy - s2s[1].floor()) / (s2e[1].floor() - s2s[1].floor());
        let t2 = (fy - s1s[1].floor()) / (s1e[1].floor() - s1s[1].floor());
        let mut start = (lerp4(s2s, s2e, t1), lerp3(&colours[s2.s], &colours[s2.e], t1));
        let mut end = (lerp4(s1s, s1e, t2), lerp3(&colours[s1.s], &colours[s1.e], t2));
        if start.0[0] > end.0[0] {
            std::mem::swap(&mut start, &mut end);
        }
        let x_start = start.0[0] as usize;
        let x_end = end.0[0] as usize;
        let x_len = (end.0[0] - start.0[0]).floor();
        let mut row = Vec::new();
        for x in x_start..x_end {
            let t = (x as f32 - start.0[0].floor()) / x_len;
            let p = lerp4(&start.0, &end.0, t);
            let c = shade(&lerp3(&start.1, &end.1, t));
            row.push(Fragment {
                x,
                y,
                depth: p[2].to_bits(),
                color: Rgb { r: to_byte(c[0]), g: to_byte(c[1]), b: to_byte(c[2]) },
            });
        }
        rows.push(row);
    }
    rows
}

/// Draws a triangle given in screen space. Returns how many fragments
/// passed the depth test.
fn draw_on_screen(
    target: &mut Renderer,
    pos: &[Position; 3],
    colours: &[Colour; 3],
    shade: &dyn Fn(&Colour) -> Colour,
) -> usize {
    let edge = |a: usize, b: usize| {
        Segment::new(
            a,
            pos[a][1].to_bits(),
            b,
            pos[b][1].to_bits(),
            (pos[b][1] - pos[a][1]).abs().to_bits(),
        )
    };
    let edges = sort_segments([edge(0, 1), edge(0, 2), edge(1, 2)]);
    let mut drawn = 0;
    for minor in [&edges[1], &edges[2]] {
        for row in scan(pos, colours, &edges[0], minor, shade) {
            for f in &row {
                assert!(target.contains(f.x, f.y), "({}, {}) is no pixel", f.x, f.y);
                if target.draw_fragment(f) {
                    drawn += 1;
                }
            }
        }
    }
    drawn
}

/// The whole way of a run of vertices to the target.
fn render(
    target: &mut Renderer,
    vertices: &[Vertex],
    shade: &dyn Fn(&Colour) -> Colour,
) -> usize {
    let mut drawn = 0;
    for t in triangles(vertices.len()) {
        for part in visible_parts([vertices[t[0]], vertices[t[1]], vertices[t[2]]]) {
            let pos = [
                to_screen(target, &part[0].pos),
                to_screen(target, &part[1].pos),
                to_screen(target, &part[2].pos),
            ];
            let colours = [part[0].colour, part[1].colour, part[2].colour];
            drawn += draw_on_screen(target, &pos, &colours, shade);
        }
    }
    drawn
}

fn pixel(r: &Renderer, x: usize, y: usize) -> [u8; 3] {
    let buf = r.get_color_buffer();
    let i = (y * r.width() + x) * 3;
    [buf[i], buf[i + 1], buf[i + 2]]
}

const WHITE: Colour = [1.0, 1.0, 1.0];

fn plain(c: &Colour) -> Colour {
    *c
}

fn red(_: &Colour) -> Colour {
    [1.0, 0.0, 0.0]
}

fn black_target(w: usize, h: usize) -> Renderer {
    let mut target = Renderer::new(w, h);
    target.clear_color(0, 0, 0);
    target.clear();
    target
}

fn within(p: &Position, slack: f32) -> bool {
    let w = p[3] + slack;
    p[0].abs() <= w && p[1].abs() <= w && p[2].abs() <= w
}

#[test]
fn triangle_within_the_volume_is_handed_on_unchanged() {
    let tri = [
        vertex(-0.5, 0.5, 0.0, 1.0, WHITE),
        vertex(1.0, 1.0, -1.0, 1.0, WHITE),
        vertex(-2.0, -2.0, 2.0, 2.0, WHITE),
    ];
    for v in &tri {
        assert_eq!(outcode(&v.pos), 0);
    }
    assert_eq!(visible_parts(tri), vec![tri]);
    let mut out = Vec::new();
    clip(tri, Some(Plane::NX), &mut out, 0);
    assert_eq!(out, vec![tri]);
}

#[test]
fn triangle_beyond_one_plane_is_dropped() {
    let tri = [
        vertex(2.0, 0.0, 0.0, 1.0, WHITE),
        vertex(3.0, 0.5, 0.0, 1.0, WHITE),
        vertex(1.5, -0.5, 0.0, 1.0, WHITE),
    ];
    assert_eq!(visible_parts(tri), Vec::<[Vertex; 3]>::new());
    let mut target = black_target(8, 8);
    assert_eq!(render(&mut target, &tri, &red), 0);
    assert_eq!(target.get_color_buffer(), &[0u8; 192][..]);
}

#[test]
fn vertex_beyond_x_is_cut_off() {
    let a = vertex(0.0, 0.0, 0.0, 1.0, [1.0, 0.0, 0.0]);
    let b = vertex(0.0, 1.0, 0.0, 1.0, [0.0, 1.0, 0.0]);
    let c = vertex(3.0, 0.0, 0.0, 1.0, [0.0, 0.0, 1.0]);
    let tri = [a, b, c];
    assert_eq!(outcode(&c.pos), 0b000010);

    let parts = visible_parts(tri);
    assert_eq!(parts.len(), 2);

    // The two new vertices lie where the edges to `c` meet x = w.
    let t_b = cut_parameter(&b.pos, &c.pos, Plane::X);
    let t_a = cut_parameter(&a.pos, &c.pos, Plane::X);
    assert!((t_b - 1.0 / 3.0).abs() < 1.0e-6);
    assert!((t_a - 1.0 / 3.0).abs() < 1.0e-6);
    let bc = Vertex { pos: lerp4(&b.pos, &c.pos, t_b), colour: lerp3(&b.colour, &c.colour, t_b) };
    let ac = Vertex { pos: lerp4(&a.pos, &c.pos, t_a), colour: lerp3(&a.colour, &c.colour, t_a) };
    assert_eq!(parts[0], [b, bc, a]);
    assert_eq!(parts[1], [a, bc, ac]);

    for part in &parts {
        for v in part {
            assert!(v.pos[0] <= v.pos[3] + 1.0e-6);
            assert!(within(&v.pos, 1.0e-6));
        }
    }
    assert!((bc.pos[0] - 1.0).abs() < 1.0e-6);
    assert!((ac.pos[0] - 1.0).abs() < 1.0e-6);
    assert!((bc.colour[2] - 1.0 / 3.0).abs() < 1.0e-6);
    assert!((bc.colour[1] - 2.0 / 3.0).abs() < 1.0e-6);
    assert!((ac.colour[0] - 2.0 / 3.0).abs() < 1.0e-6);
}

#[test]
fn two_vertices_beyond_a_plane_leave_a_tip() {
    let a = vertex(0.0, 0.0, 0.0, 1.0, WHITE);
    let b = vertex(0.5, -3.0, 0.0, 1.0, WHITE);
    let c = vertex(-0.5, -3.0, 0.0, 1.0, WHITE);
    let parts = visible_parts([a, b, c]);
    assert_eq!(parts.len(), 1);
    assert_eq!(parts[0][0], a);
    for v in &parts[0] {
        assert!(within(&v.pos, 1.0e-6));
    }
    assert!((parts[0][1].pos[1] + 1.0).abs() < 1.0e-6);
    assert!((parts[0][2].pos[1] + 1.0).abs() < 1.0e-6);
}

#[test]
fn triangle_across_many_planes_is_brought_within_the_volume() {
    let tri = [
        vertex(-3.0, -2.0, 0.5, 1.0, WHITE),
        vertex(4.0, -1.0, -3.0, 1.0, WHITE),
        vertex(0.5, 5.0, 2.0, 1.0, WHITE),
    ];
    let parts = visible_parts(tri);
    assert!(!parts.is_empty());
    assert!(parts.len() <= 64);
    for part in &parts {
        for v in part {
            assert!(within(&v.pos, 1.0e-4), "{:?}", v.pos);
        }
    }
}

#[test]
fn red_triangle_on_black() {
    let vertices = [
        vertex(-0.5, 0.5, 0.0, 1.0, WHITE),
        vertex(0.5, 0.5, 0.0, 1.0, WHITE),
        vertex(-0.5, -0.5, 0.0, 1.0, WHITE),
    ];
    let mut target = black_target(8, 8);
    let drawn = render(&mut target, &vertices, &red);
    // On the screen the corners are (2, 2), (6, 2) and (2, 6).
    let mut inside = 0;
    for y in 0..8 {
        for x in 0..8 {
            if x >= 2 && y >= 2 && x + y < 8 {
                assert_eq!(pixel(&target, x, y), [255, 0, 0], "({}, {})", x, y);
                inside += 1;
            } else {
                assert_eq!(pixel(&target, x, y), [0, 0, 0], "({}, {})", x, y);
            }
        }
    }
    assert_eq!(inside, 10);
    assert_eq!(drawn, 10);
}

#[test]
fn screen_triangle_covers_its_pixels() {
    let mut target = Renderer::new(20, 20);
    target.clear_color(127, 204, 255);
    target.clear();
    let pos = [[0.0, 0.0, 0.5, 1.0], [10.0, 0.0, 0.5, 1.0], [0.0, 10.0, 0.5, 1.0]];
    draw_on_screen(&mut target, &pos, &[WHITE; 3], &plain);
    for y in 0..20 {
        for x in 0..20 {
            let p = pixel(&target, x, y);
            if p != [127, 204, 255] {
                assert_eq!(p, [255, 255, 255]);
                assert!(x + y <= 10, "({}, {})", x, y);
            }
            if x + y < 10 {
                assert_eq!(p, [255, 255, 255], "({}, {})", x, y);
            }
            if x + y >= 10 {
                assert_eq!(p, [127, 204, 255], "({}, {})", x, y);
            }
        }
    }
}

#[test]
fn rendering_a_triangle_again_changes_nothing() {
    let vertices = [
        vertex(-0.8, 0.9, 0.25, 1.0, [1.0, 0.0, 0.0]),
        vertex(0.7, 0.6, -0.5, 1.0, [0.0, 1.0, 0.0]),
        vertex(-0.1, -0.9, 0.75, 1.0, [0.0, 0.0, 1.0]),
    ];
    let mut target = black_target(16, 16);
    let first = render(&mut target, &vertices, &plain);
    assert!(first > 0);
    let after_first = target.get_color_buffer().to_vec();
    let second = render(&mut target, &vertices, &plain);
    assert_eq!(second, 0);
    assert_eq!(target.get_color_buffer(), &after_first[..]);
}

#[test]
fn nearer_triangle_hides_the_farther() {
    let near = [
        vertex(-1.0, 1.0, -0.5, 1.0, WHITE),
        vertex(1.0, 1.0, -0.5, 1.0, WHITE),
        vertex(-1.0, -1.0, -0.5, 1.0, WHITE),
    ];
    let far = [
        vertex(-1.0, 1.0, 0.5, 1.0, WHITE),
        vertex(1.0, 1.0, 0.5, 1.0, WHITE),
        vertex(-1.0, -1.0, 0.5, 1.0, WHITE),
    ];
    let green = |_: &Colour| -> Colour { [0.0, 1.0, 0.0] };

    let mut target = black_target(8, 8);
    assert_eq!(render(&mut target, &far, &red), 36);
    assert_eq!(render(&mut target, &near, &green), 36);
    assert_eq!(pixel(&target, 1, 1), [0, 255, 0]);

    let mut target = black_target(8, 8);
    assert_eq!(render(&mut target, &near, &green), 36);
    assert_eq!(render(&mut target, &far, &red), 0);
    assert_eq!(pixel(&target, 1, 1), [0, 255, 0]);
}

#[test]
fn triangle_without_area_draws_nothing() {
    let vertices = [
        vertex(-0.5, 0.25, 0.0, 1.0, WHITE),
        vertex(0.0, 0.25, 0.0, 1.0, WHITE),
        vertex(0.5, 0.25, 0.0, 1.0, WHITE),
    ];
    let mut target = black_target(8, 8);
    assert_eq!(render(&mut target, &vertices, &red), 0);
    assert_eq!(target.get_color_buffer(), &[0u8; 192][..]);
}

#[test]
fn colours_are_blended_across_a_row() {
    let mut target = black_target(8, 8);
    let pos = [[0.0, 0.0, 0.0, 1.0], [8.0, 0.0, 0.0, 1.0], [0.0, 8.0, 0.0, 1.0]];
    let colours = [[0.0, 0.0, 0.0], [1.0, 0.0, 0.0], [0.0, 0.0, 0.0]];
    draw_on_screen(&mut target, &pos, &colours, &plain);
    // In the top row red rises from 0 at the left to 1 at the right, in
    // steps of an eighth.
    for x in 0..8 {
        assert_eq!(pixel(&target, x, 0), [(x as f32 / 8.0 * 255.0) as u8, 0, 0]);
    }
}

#[test]
fn clipped_triangle_fills_the_part_within_the_target() {
    // The right half of the triangle lies beyond X.
    let vertices = [
        vertex(-1.0, 1.0, 0.0, 1.0, WHITE),
        vertex(3.0, 1.0, 0.0, 1.0, WHITE),
        vertex(-1.0, -1.0, 0.0, 1.0, WHITE),
    ];
    let mut target = black_target(8, 8);
    render(&mut target, &vertices, &red);
    let mut reds = 0;
    for y in 0..8 {
        for x in 0..8 {
            let p = pixel(&target, x, y);
            assert!(p == [255, 0, 0] || p == [0, 0, 0]);
            // The slanted edge runs from (16, 0) to (0, 8).
            let signed = x as f32 + 2.0 * y as f32 - 16.0;
            if signed < -3.0 {
                assert_eq!(p, [255, 0, 0], "({}, {})", x, y);
            }
            if signed > 3.0 {
                assert_eq!(p, [0, 0, 0], "({}, {})", x, y);
            }
            if p == [255, 0, 0] {
                reds += 1;
            }
        }
    }
    assert!(reds >= 40);
}

#[test]
fn indexed_triangles_share_their_vertices() {
    let vertices = [
        vertex(-1.0, 1.0, 0.0, 1.0, WHITE),
        vertex(1.0, 1.0, 0.0, 1.0, WHITE),
        vertex(-1.0, -1.0, 0.0, 1.0, WHITE),
        vertex(1.0, -1.0, 0.0, 1.0, WHITE),
    ];
    let indices = [0, 1, 2, 3, 2, 1];
    assert!(indices_in_range(vertices.len(), &indices));
    let mut target = black_target(4, 4);
    for t in indexed_triangles(vertices.len(), &indices) {
        let part = [vertices[t[0]], vertices[t[1]], vertices[t[2]]];
        assert_eq!(frustum_test(0, 0, 0), Visibility::Inside);
        let pos = [
            to_screen(&target, &part[0].pos),
            to_screen(&target, &part[1].pos),
            to_screen(&target, &part[2].pos),
        ];
        draw_on_screen(&mut target, &pos, &[WHITE; 3], &red);
    }
    let reds = (0..16).filter(|i| pixel(&target, i % 4, i / 4) == [255, 0, 0]).count();
    assert!(reds >= 12);
}
