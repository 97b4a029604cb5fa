use raycast::canvas::Canvas;
use raycast::canvas::PixelsIterator;
use raycast::scene::Color;

const RED: Color = Color { r: 255, g: 0, b: 0 };

#[test]
fn put_then_get_returns_written_color() {
    let mut canvas = Canvas::new(4, 4);
    canvas.put_pixel(0, 0, RED);
    assert_eq!(canvas.get_pixel(0, 0), Some(RED));
}

#[test]
fn put_at_boundaries() {
    let mut canvas = Canvas::new(4, 4);
    // valid x range is [-2, 2), valid y range is (-2, 2]
    canvas.put_pixel(-2, 2, RED);
    assert_eq!(canvas.get_pixel(-2, 2), Some(RED));
    canvas.put_pixel(1, -1, RED);
    assert_eq!(canvas.get_pixel(1, -1), Some(RED));
}

#[test]
fn out_of_range_write_is_ignored() {
    let mut canvas = Canvas::new(4, 4);
    canvas.put_pixel(2, 0, RED);
    canvas.put_pixel(-3, 0, RED);
    canvas.put_pixel(0, -2, RED);
    canvas.put_pixel(0, 3, RED);
    let mut it = canvas.iter_pixels();
    while let Some((x, y)) = it.next() {
        assert_eq!(canvas.get_pixel(x, y), Some(Color { r: 0, g: 0, b: 0 }));
    }
}

#[test]
fn out_of_range_read_is_none() {
    let canvas = Canvas::new(4, 4);
    assert_eq!(canvas.get_pixel(2, 0), None);
    assert_eq!(canvas.get_pixel(0, -2), None);
    assert_eq!(canvas.get_pixel(100, 100), None);
}

#[test]
fn iterator_covers_every_coordinate_once() {
    let canvas = Canvas::new(4, 6);
    let mut seen: Vec<(i32, i32)> = Vec::new();
    let mut it = canvas.iter_pixels();
    while let Some(c) = it.next() {
        assert!(!seen.contains(&c), "duplicate coordinate {:?}", c);
        seen.push(c);
    }
    assert_eq!(seen.len(), 24);
    for x in -2..2 {
        for y in -2..4 {
            assert!(seen.contains(&(x, y)), "missing coordinate {:?}", (x, y));
        }
    }
}

#[test]
fn iterator_is_restartable() {
    let canvas = Canvas::new(2, 2);
    let mut first: Vec<(i32, i32)> = Vec::new();
    let mut it = canvas.iter_pixels();
    while let Some(c) = it.next() {
        first.push(c);
    }
    let mut second: Vec<(i32, i32)> = Vec::new();
    let mut it2 = PixelsIterator::new(&canvas);
    while let Some(c) = it2.next() {
        second.push(c);
    }
    assert_eq!(first, second);
    assert_eq!(first.len(), 4);
}

#[test]
fn fresh_canvas_is_black() {
    let canvas = Canvas::new(2, 2);
    assert_eq!(canvas.get_pixel(0, 1), Some(Color { r: 0, g: 0, b: 0 }));
    assert_eq!(canvas.get_pixel(-1, 0), Some(Color { r: 0, g: 0, b: 0 }));
}
