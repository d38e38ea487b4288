use temty::line::Pen;

fn points(a: (i32, i32), b: (i32, i32), bias: i64) -> Vec<(i64, i64)> {
    let mut pen = Pen::new(a, b, bias);
    let mut out = vec![(pen.x, pen.y)];
    while !pen.done() {
        pen.advance();
        out.push((pen.x, pen.y));
    }
    out
}

/// The usual way to draw a line, in which a tie moves along both axes.
fn eager(a: (i32, i32), b: (i32, i32)) -> Vec<(i64, i64)> {
    let (dx, dy) = ((b.0 - a.0).abs(), -(b.1 - a.1).abs());
    let sx = if a.0 < b.0 { 1 } else { -1 };
    let sy = if a.1 < b.1 { 1 } else { -1 };
    let (mut x, mut y, mut err) = (a.0, a.1, dx + dy);
    let mut out = Vec::new();
    loop {
        out.push((x as i64, y as i64));
        if (x, y) == b {
            return out;
        }
        let e2 = 2 * err;
        if e2 >= dy {
            err += dy;
            x += sx;
        }
        if e2 <= dx {
            err += dx;
            y += sy;
        }
    }
}

/// The usual way to draw a line, in which a tie moves along the longer axis only.
fn lazy(a: (i32, i32), b: (i32, i32)) -> Vec<(i64, i64)> {
    let (dx, dy) = ((b.0 - a.0).abs(), (b.1 - a.1).abs());
    let sx = if a.0 < b.0 { 1 } else { -1 };
    let sy = if a.1 < b.1 { 1 } else { -1 };
    let (mut x, mut y, mut err) = (a.0, a.1, dx - dy);
    let mut out = Vec::new();
    loop {
        out.push((x as i64, y as i64));
        if (x, y) == b {
            return out;
        }
        let e2 = 2 * err;
        if e2 > -dy {
            err -= dy;
            x += sx;
        }
        if e2 < dx {
            err += dx;
            y += sy;
        }
    }
}

#[test]
fn lines_go_where_lines_go() {
    for x in -13..=13 {
        for y in -13..=13 {
            assert_eq!(points((2, -3), (x, y), 0), eager((2, -3), (x, y)), "{} {}", x, y);
            assert_eq!(points((2, -3), (x, y), 1), lazy((2, -3), (x, y)), "{} {}", x, y);
        }
    }
}

#[test]
fn ties_tell_the_two_lines_apart() {
    assert_eq!(points((0, 0), (2, 1), 0), vec![(0, 0), (1, 1), (2, 1)]);
    assert_eq!(points((0, 0), (2, 1), 1), vec![(0, 0), (1, 0), (2, 1)]);
}

#[test]
fn lines_have_no_gaps_and_stay_between_their_ends() {
    for (a, b) in [((0, 0), (100, 37)), ((5, 9), (-80, 91)), ((3, 3), (3, 3)), ((0, 7), (0, -7))] {
        let p = points(a, b, 0);
        assert_eq!(p[0], (a.0 as i64, a.1 as i64));
        assert_eq!(p[p.len() - 1], (b.0 as i64, b.1 as i64));
        for w in p.windows(2) {
            assert!((w[0].0 - w[1].0).abs() <= 1 && (w[0].1 - w[1].1).abs() <= 1);
            assert_ne!(w[0], w[1]);
        }
        for q in &p {
            assert!(q.0 >= a.0.min(b.0) as i64 && q.0 <= a.0.max(b.0) as i64);
            assert!(q.1 >= a.1.min(b.1) as i64 && q.1 <= a.1.max(b.1) as i64);
        }
    }
}
