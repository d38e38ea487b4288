use temty::pixel::PixelBuffer;
use temty::render::{paint, Shape};

fn at(b: &PixelBuffer, x: u32, y: u32) -> (u8, u8, u8, u8) {
    let i = ((y * b.width + x) * 4) as usize;
    (b.pixels[i], b.pixels[i + 1], b.pixels[i + 2], b.pixels[i + 3])
}

fn marked(b: &PixelBuffer) -> Vec<(u32, u32)> {
    let mut out = Vec::new();
    for y in 0..b.height {
        for x in 0..b.width {
            if at(b, x, y).3 == 255 {
                assert_eq!(at(b, x, y), (1, 2, 3, 255));
                out.push((x, y));
            }
        }
    }
    out
}

#[test]
fn a_new_picture_is_blank() {
    let b = PixelBuffer::new(5, 3);
    assert_eq!(b.pixels, vec![0; 60]);
}

#[test]
fn clearing_fills_the_picture() {
    let mut b = PixelBuffer::new(2, 2);
    b.clear(9, 8, 7);
    assert_eq!(b.pixels, vec![9, 8, 7, 255, 9, 8, 7, 255, 9, 8, 7, 255, 9, 8, 7, 255]);
}

#[test]
fn a_pixel_is_set() {
    let mut b = PixelBuffer::new(4, 4);
    b.pixel(1, 2, 1, 2, 3);
    b.pixel(-1, 0, 1, 2, 3);
    b.pixel(4, 0, 1, 2, 3);
    b.pixel(0, 4, 1, 2, 3);
    assert_eq!(marked(&b), vec![(1, 2)]);
}

#[test]
fn a_rectangle_is_clipped() {
    let mut b = PixelBuffer::new(4, 4);
    b.rect(-2, 2, 4, 9, 1, 2, 3);
    assert_eq!(marked(&b), vec![(0, 2), (1, 2), (0, 3), (1, 3)]);
    let mut c = PixelBuffer::new(4, 4);
    c.rect(1, 1, 0, 5, 1, 2, 3);
    c.rect(1, 1, -3, 5, 1, 2, 3);
    c.rect(9, 9, 2, 2, 1, 2, 3);
    assert!(marked(&c).is_empty());
}

#[test]
fn an_outline_has_four_edges() {
    let mut b = PixelBuffer::new(5, 5);
    b.rect_outline(1, 1, 3, 3, 1, 2, 3);
    assert_eq!(
        marked(&b),
        vec![(1, 1), (2, 1), (3, 1), (1, 2), (3, 2), (1, 3), (2, 3), (3, 3)]
    );
}

#[test]
fn a_line_is_drawn_through() {
    let mut b = PixelBuffer::new(5, 3);
    b.line(0, 0, 4, 2, 1, 2, 3, false);
    assert_eq!(marked(&b), vec![(0, 0), (1, 0), (2, 1), (3, 1), (4, 2)]);
}

#[test]
fn dashes_are_four_long() {
    let mut b = PixelBuffer::new(20, 1);
    b.line(-2, 0, 19, 0, 1, 2, 3, true);
    let xs: Vec<u32> = marked(&b).iter().map(|p| p.0).collect();
    assert_eq!(xs, vec![0, 1, 6, 7, 8, 9, 14, 15, 16, 17]);
}

#[test]
fn later_shapes_cover_earlier_ones() {
    let mut b = PixelBuffer::new(4, 1);
    let shapes = vec![
        Shape::Rect { x: 0, y: 0, w: 3, h: 1, color: (10, 10, 10) },
        Shape::Outline { x: 1, y: 0, w: 1, h: 1, color: (20, 20, 20) },
        Shape::Dashes { x0: 2, y0: 0, x1: 2, y1: 0, color: (30, 30, 30) },
    ];
    paint(&mut b, &shapes, (1, 1, 1));
    let reds: Vec<u8> = b.pixels.iter().step_by(4).copied().collect();
    assert_eq!(reds, vec![10, 20, 30, 1]);
}
