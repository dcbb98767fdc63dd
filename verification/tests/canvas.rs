use raytracer::canvas::init_canvas;
use raytracer::canvas::Canvas;
use raytracer::color::Color8b;

#[test]
fn new_canvas_is_black() {
    let canvas = Canvas::new(3, 2);
    assert_eq!(canvas.width, 3);
    assert_eq!(canvas.height, 2);
    assert_eq!(canvas.buffer.len(), 6);
    assert!(canvas.buffer.iter().all(|&p| p == 0));
}

#[test]
fn draw_pixel_writes_row_major() {
    let mut canvas = Canvas::new(3, 2);
    canvas.draw_pixel(1, 1, Color8b::new(0, 0, 7));
    for (i, &p) in canvas.buffer.iter().enumerate() {
        if i == 1 + 1 * 3 {
            assert_eq!(p, 7);
        } else {
            assert_eq!(p, 0);
        }
    }
}

#[test]
fn draw_pixel_packs_channels() {
    let mut canvas = Canvas::new(1, 1);
    canvas.draw_pixel(0, 0, Color8b::new(0xAB, 0xCD, 0xEF));
    assert_eq!(canvas.buffer[0], 0x00ABCDEF);
}

#[test]
fn clear_resets_every_pixel() {
    let mut canvas = Canvas::new(2, 2);
    canvas.draw_pixel(0, 0, Color8b::new(1, 2, 3));
    canvas.draw_pixel(1, 1, Color8b::new(4, 5, 6));
    canvas.clear();
    assert_eq!(canvas.buffer.len(), 4);
    assert!(canvas.buffer.iter().all(|&p| p == 0));
}

#[test]
fn init_canvas_has_window_size() {
    let canvas = init_canvas();
    assert_eq!(canvas.width, 800);
    assert_eq!(canvas.height, 600);
    assert_eq!(canvas.buffer.len(), 800 * 600);
}

#[test]
fn zero_sized_canvas() {
    let canvas = Canvas::new(0, 5);
    assert_eq!(canvas.buffer.len(), 0);
}
