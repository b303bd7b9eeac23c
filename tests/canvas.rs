use renderkit::canvas::{sierpinski_image, sierpinski_pixels, Canvas, MAX_ITER, MIN_ITER};

#[test]
fn new_canvas_is_blank() {
    let mut rng = rand::thread_rng();
    let c = Canvas::new(4, 3, &mut rng);
    assert_eq!(c.width, 4);
    assert_eq!(c.height, 3);
    assert_eq!(c.pixels_index, 0);
    assert_eq!(c.pixels.len(), 48);
    assert!(c.pixels.iter().all(|b| *b == 0));
    assert!(c.max_iter >= MIN_ITER && c.max_iter < MAX_ITER);
}

#[test]
fn passes_resume_after_the_cursor() {
    let mut rng = rand::thread_rng();
    let mut c = Canvas::new(4, 3, &mut rng);
    assert_eq!(c.next_pass(5), (1, 6));
    assert_eq!(c.pixels_index, 5);
    assert_eq!(c.next_pass(5), (6, 11));
    assert_eq!(c.pixels_index, 10);
    assert_eq!(c.next_pass(5), (11, 12));
    assert_eq!(c.pixels_index, 11);
    assert_eq!(c.next_pass(5), (12, 12));
    assert_eq!(c.pixels_index, 11);
}

#[test]
fn reset_restarts_the_passes() {
    let mut rng = rand::thread_rng();
    let mut c = Canvas::new(4, 3, &mut rng);
    c.next_pass(100);
    assert_eq!(c.pixels_index, 11);
    c.reset_image();
    assert_eq!(c.pixels_index, 0);
    assert_eq!(c.next_pass(2), (1, 3));
}

#[test]
fn zero_budget_draws_nothing() {
    let mut rng = rand::thread_rng();
    let mut c = Canvas::new(4, 3, &mut rng);
    assert_eq!(c.next_pass(0), (1, 1));
    assert_eq!(c.pixels_index, 0);
}

#[test]
fn create_image_resizes() {
    let mut rng = rand::thread_rng();
    let mut c = Canvas::new(4, 3, &mut rng);
    c.next_pass(3);
    c.create_image(2, 2);
    assert_eq!((c.width, c.height, c.pixels_index), (2, 2, 0));
    assert_eq!(c.pixels, vec![0u8; 16]);
}

#[test]
fn put_pixel_writes_rgba() {
    let mut rng = rand::thread_rng();
    let mut c = Canvas::new(4, 3, &mut rng);
    c.put_pixel(1, 2, 10, 20, 30);
    assert_eq!(&c.pixels[36..40], &[10, 20, 30, 255]);
    assert_eq!(c.pixels.iter().filter(|b| **b != 0).count(), 4);
}

#[test]
fn pixel_position_is_column_then_row() {
    let mut rng = rand::thread_rng();
    let c = Canvas::new(4, 3, &mut rng);
    assert_eq!(c.pixel_position(9), (1, 2));
    assert_eq!(c.pixel_position(0), (0, 0));
}

#[test]
fn sierpinski_two_by_two() {
    assert_eq!(
        sierpinski_pixels(2, 2, 1, 2, 3),
        vec![1, 2, 3, 255, 1, 2, 3, 255, 1, 2, 3, 255, 0, 0, 0, 0]
    );
}

#[test]
fn sierpinski_empty_image() {
    assert!(sierpinski_pixels(0, 5, 1, 2, 3).is_empty());
}

#[test]
fn random_sierpinski_has_the_shape() {
    let mut rng = rand::thread_rng();
    let p = sierpinski_image(4, 4, &mut rng);
    assert_eq!(p.len(), 64);
    // pixel (0, 0) is drawn, pixel (3, 3) is not
    assert_eq!(p[3], 255);
    assert_eq!(&p[60..64], &[0, 0, 0, 0]);
    // every drawn pixel has the same colour
    assert_eq!(&p[0..4], &p[4..8]);
}

#[test]
fn passes_cover_every_pixel_after_the_first_once() {
    let mut rng = rand::thread_rng();
    let mut c = Canvas::new(5, 4, &mut rng);
    let mut seen = vec![0u32; 20];
    loop {
        let (start, end) = c.next_pass(3);
        assert!(end - start <= 3);
        if start == end {
            break;
        }
        for i in start..end {
            seen[i as usize] += 1;
        }
    }
    assert_eq!(seen[0], 0);
    assert!(seen[1..].iter().all(|n| *n == 1));
}

#[test]
fn iteration_bounds_are_drawn_not_fixed() {
    let mut rng = rand::thread_rng();
    let bounds: Vec<u8> = (0..64).map(|_| Canvas::new(1, 1, &mut rng).max_iter).collect();
    assert!(bounds.iter().all(|b| *b >= MIN_ITER && *b < MAX_ITER));
    assert!(bounds.iter().any(|b| *b != bounds[0]));
}
