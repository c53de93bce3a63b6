use mandelbrot::config::Mandelbrot;
use mandelbrot::error::Error;
use mandelbrot::evaluation::Progress;
use mandelbrot::orbit::Step;
use mandelbrot::range::Range;
use num::complex::Complex;

const A: u32 = 0x00AA_0000;
const B: u32 = 0x0000_00BB;

fn range(lo: f64, hi: f64) -> Range {
    Range::new(lo.to_bits(), hi.to_bits())
}

fn point(m: &Mandelbrot, a: f64, b: f64, power: f64) -> u32 {
    let c = Complex::new(a, b);
    let mut z: Complex<f64> = Complex::new(0.0, 0.0);
    let mut orbit = m.orbit();
    loop {
        z = z.powf(power) + c;
        match orbit.observe(z.norm().to_bits()) {
            Step::Settled(value) => return value,
            Step::Iterate(next) => orbit = next,
        }
    }
}

/// Evaluates the grid as a host does: the kernel names the pixel, the host
/// maps it to the plane and iterates, the kernel resolves the value.
fn evaluate(m: &Mandelbrot, rx: (f64, f64), ry: (f64, f64), power: f64) -> Result<Vec<u32>, Error> {
    let mut walk = m.begin(&range(rx.0, rx.1), &range(ry.0, ry.1))?;
    let scale_x = (m.axis_extent() as f64) / (rx.1 - rx.0);
    let scale_y = (m.axis_extent() as f64) / (ry.1 - ry.0);
    loop {
        let (x, y) = walk.pixel();
        let cx = rx.0 + (x as f64) / scale_x;
        let cy = ry.0 + (y as f64) / scale_y;
        match walk.record(point(m, cx, cy, power))? {
            Progress::Pending(next) => walk = next,
            Progress::Complete(data) => return Ok(data),
        }
    }
}

#[test]
fn two_by_one_grid_with_one_iteration() {
    let m = Mandelbrot::new(2, 1, 1, 2.0f64.to_bits(), vec![A, B]).unwrap();
    assert_eq!(evaluate(&m, (-1.0, 1.0), (0.0, 1.0), 2.0), Ok(vec![A, A]));
}

#[test]
fn zero_span_viewport_is_refused() {
    let m = Mandelbrot::new(2, 1, 1, 2.0f64.to_bits(), vec![A, B]).unwrap();
    assert_eq!(evaluate(&m, (5.0, 5.0), (0.0, 1.0), 2.0), Err(Error::DegenerateViewport));
    assert_eq!(evaluate(&m, (0.0, 1.0), (5.0, 5.0), 2.0), Err(Error::DegenerateViewport));
    assert!(matches!(m.begin(&range(5.0, 5.0), &range(0.0, 1.0)), Err(Error::DegenerateViewport)));
    assert_eq!(
        m.update(&range(5.0, 5.0), &range(0.0, 1.0), &vec![0, 0]),
        Err(Error::DegenerateViewport)
    );
}

#[test]
fn degenerate_viewport_comes_before_palette_failure() {
    let m = Mandelbrot::new(2, 1, 1, 2.0f64.to_bits(), vec![A, B]).unwrap();
    assert_eq!(
        m.update(&range(5.0, 5.0), &range(0.0, 1.0), &vec![9, 9]),
        Err(Error::DegenerateViewport)
    );
}

#[test]
fn update_resolves_values_in_row_major_order() {
    let m = Mandelbrot::new(3, 2, 4, 2.0f64.to_bits(), vec![10, 11, 12, 13]).unwrap();
    let values = vec![0, 1, 2, 3, 2, 1];
    assert_eq!(
        m.update(&range(-1.0, 1.0), &range(-1.0, 1.0), &values),
        Ok(vec![10, 11, 12, 13, 12, 11])
    );
}

#[test]
fn update_returns_width_times_height_palette_entries() {
    let palette = vec![100, 200, 300];
    let m = Mandelbrot::new(5, 4, 3, 2.0f64.to_bits(), palette.clone()).unwrap();
    let values: Vec<u32> = (0..20).map(|k| k % 3).collect();
    let data = m.update(&range(-2.0, 1.0), &range(-1.0, 1.0), &values).unwrap();
    assert_eq!(data.len(), 20);
    for (k, color) in data.iter().enumerate() {
        assert!(palette.contains(color));
        assert_eq!(*color, palette[values[k] as usize]);
    }
}

#[test]
fn update_fails_on_first_value_without_palette_entry() {
    let m = Mandelbrot::new(2, 2, 2, 2.0f64.to_bits(), vec![A, B]).unwrap();
    assert_eq!(
        m.update(&range(-1.0, 1.0), &range(-1.0, 1.0), &vec![0, 7, 1, 5]),
        Err(Error::PaletteIndex(7))
    );
    assert_eq!(
        m.update(&range(-1.0, 1.0), &range(-1.0, 1.0), &vec![0, 1, 1, 2]),
        Err(Error::PaletteIndex(2))
    );
}

#[test]
fn palette_longer_than_budget_resolves_its_spare_entries() {
    let m = Mandelbrot::new(2, 1, 1, 2.0f64.to_bits(), vec![A, B]).unwrap();
    assert_eq!(m.update(&range(-1.0, 1.0), &range(0.0, 1.0), &vec![1, 0]), Ok(vec![B, A]));
}

#[test]
fn update_twice_gives_the_same_buffer() {
    let m = Mandelbrot::new(3, 3, 3, 2.0f64.to_bits(), vec![1, 2, 3]).unwrap();
    let values = vec![0, 1, 2, 2, 1, 0, 1, 1, 1];
    let first = m.update(&range(-2.0, 2.0), &range(-2.0, 2.0), &values);
    let second = m.update(&range(-2.0, 2.0), &range(-2.0, 2.0), &values);
    assert_eq!(first, second);
    assert_eq!(first, Ok(vec![1, 2, 3, 3, 2, 1, 2, 2, 2]));
}

#[test]
fn evaluation_twice_gives_the_same_buffer() {
    let m = Mandelbrot::new(8, 6, 12, 2.0f64.to_bits(), (0..12).collect()).unwrap();
    let first = evaluate(&m, (-2.0, 1.0), (-1.0, 1.0), 2.5);
    let second = evaluate(&m, (-2.0, 1.0), (-1.0, 1.0), 2.5);
    assert!(first.is_ok());
    assert_eq!(first, second);
}

#[test]
fn evaluation_fills_the_grid_from_the_palette() {
    let palette: Vec<u32> = (0..12).map(|k| 1000 + k).collect();
    let m = Mandelbrot::new(8, 6, 12, 2.0f64.to_bits(), palette.clone()).unwrap();
    let data = evaluate(&m, (-2.0, 1.0), (-1.0, 1.0), 2.0).unwrap();
    assert_eq!(data.len(), 48);
    for color in &data {
        assert!(palette.contains(color));
    }
}

#[test]
fn walk_visits_pixels_row_by_row() {
    let m = Mandelbrot::new(3, 2, 1, 2.0f64.to_bits(), vec![A]).unwrap();
    let mut walk = m.begin(&range(0.0, 1.0), &range(0.0, 1.0)).unwrap();
    let mut seen = Vec::new();
    let data = loop {
        seen.push(walk.pixel());
        match walk.record(0).unwrap() {
            Progress::Pending(next) => walk = next,
            Progress::Complete(data) => break data,
        }
    };
    assert_eq!(seen, vec![(0, 0), (1, 0), (2, 0), (0, 1), (1, 1), (2, 1)]);
    assert_eq!(data, vec![A; 6]);
}

#[test]
fn walk_of_one_pixel_completes_at_once() {
    let m = Mandelbrot::new(1, 1, 2, 2.0f64.to_bits(), vec![A, B]).unwrap();
    let walk = m.begin(&range(0.0, 1.0), &range(0.0, 1.0)).unwrap();
    assert_eq!(walk.pixel(), (0, 0));
    match walk.record(1) {
        Ok(Progress::Complete(data)) => assert_eq!(data, vec![B]),
        _ => panic!("one pixel completes the grid"),
    }
}

#[test]
fn walk_fails_without_buffer_on_missing_palette_entry() {
    let m = Mandelbrot::new(2, 1, 2, 2.0f64.to_bits(), vec![A, B]).unwrap();
    let walk = m.begin(&range(0.0, 1.0), &range(0.0, 1.0)).unwrap();
    let walk = match walk.record(0).unwrap() {
        Progress::Pending(next) => next,
        Progress::Complete(_) => panic!("a pixel is left"),
    };
    assert!(matches!(walk.record(2), Err(Error::PaletteIndex(2))));
}

#[test]
fn walk_agrees_with_update() {
    let m = Mandelbrot::new(4, 3, 5, 2.0f64.to_bits(), vec![5, 6, 7, 8, 9]).unwrap();
    let rx = (-2.0, 1.0);
    let ry = (-1.0, 1.0);
    let scale_x = 4.0 / (rx.1 - rx.0);
    let scale_y = 4.0 / (ry.1 - ry.0);
    let mut values = Vec::new();
    for y in 0..3u32 {
        for x in 0..4u32 {
            let cx = rx.0 + (x as f64) / scale_x;
            let cy = ry.0 + (y as f64) / scale_y;
            values.push(point(&m, cx, cy, 2.0));
        }
    }
    assert_eq!(
        evaluate(&m, rx, ry, 2.0),
        m.update(&range(rx.0, rx.1), &range(ry.0, ry.1), &values)
    );
}

#[test]
fn non_integer_exponent_escapes_far_points_at_once() {
    let m = Mandelbrot::new(2, 1, 3, 2.0f64.to_bits(), vec![1, 2, 3]).unwrap();
    // Pixel (0,0) maps to 10 + 0i, pixel (1,0) to 11 + 0i: both beyond the threshold.
    assert_eq!(evaluate(&m, (10.0, 12.0), (0.0, 1.0), 2.5), Ok(vec![1, 1]));
}

#[test]
fn both_axes_are_spread_over_the_width() {
    let m = Mandelbrot::new(4, 2, 5, 2.0f64.to_bits(), vec![0, 1, 2, 3, 4]).unwrap();
    assert_eq!(m.axis_extent(), 4);
    // Rows are one unit apart: pixel (0,1) is the point i, whose orbit stays
    // bounded. Were the rows two units apart it would be 2i, which escapes on
    // the second iteration.
    let data = evaluate(&m, (0.0, 4.0), (0.0, 4.0), 2.0).unwrap();
    assert_eq!(data.len(), 8);
    assert_eq!(data[4], 4);
    // Pixel (0,0) is the origin, which never escapes; pixel (3,0) is 3, which
    // escapes at once.
    assert_eq!(data[0], 4);
    assert_eq!(data[3], 0);
}

#[test]
fn axis_extent_is_the_width_on_a_tall_grid() {
    let m = Mandelbrot::new(2, 7, 1, 2.0f64.to_bits(), vec![A]).unwrap();
    assert_eq!(m.axis_extent(), 2);
}
