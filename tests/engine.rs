use fractal_engine::buffer::PixelBuffer;
use fractal_engine::colors::{iterations_to_color, ColorScheme};
use fractal_engine::fractal::FractalKind;
use fractal_engine::geometry::{Point, Segment};
use fractal_engine::raster::draw_line;
use fractal_engine::sierpinski::fill_triangle;
use fractal_engine::validation::{
    validate_dimensions, validate_iterations, validate_julia_params, validate_recursion_depth,
    validate_zoom,
};
use fractal_engine::{
    FractalError, FractalParams, JuliaFault, JuliaSet, KochSnowflake, MandelbrotSet,
    SierpinskiTriangle, Triangle,
};

/// Escape counts of a width x height view, computed as the service does.
fn escape_counts(p: &FractalParams, julia: Option<(f64, f64)>) -> Vec<u32> {
    let (w, h) = (p.width, p.height);
    let zoom = f64::from_bits(p.zoom_bits);
    let cx0 = f64::from_bits(p.center_x_bits);
    let cy0 = f64::from_bits(p.center_y_bits);
    let aspect = w as f64 / h as f64;
    let scale = 4.0 / zoom;
    let (min_x, max_x) = (cx0 - scale * aspect, cx0 + scale * aspect);
    let (min_y, max_y) = (cy0 - scale, cy0 + scale);
    let mut out = Vec::new();
    for y in 0..h {
        for x in 0..w {
            let px = min_x + (x as f64 / w as f64) * (max_x - min_x);
            let py = min_y + (y as f64 / h as f64) * (max_y - min_y);
            let (mut zx, mut zy, cx, cy) = match julia {
                Some((cr, ci)) => (px, py, cr, ci),
                None => (0.0, 0.0, px, py),
            };
            let mut i = 0;
            while zx * zx + zy * zy <= 4.0 && i < p.max_iterations {
                let t = zx * zx - zy * zy + cx;
                zy = 2.0 * zx * zy + cy;
                zx = t;
                i += 1;
            }
            out.push(i);
        }
    }
    out
}

fn default_wave(m: u32) -> Vec<[u8; 2]> {
    (0..m)
        .map(|i| {
            let t = i as f64 / m as f64;
            [((2.0 * t).sin() * 127.0 + 128.0) as u8, ((3.0 * t).sin() * 127.0 + 128.0) as u8]
        })
        .collect()
}

fn params(width: u32, height: u32) -> FractalParams {
    let mut p = FractalParams::default();
    p.width = width;
    p.height = height;
    p
}

#[test]
fn float_limits_match_their_bit_patterns() {
    assert_eq!(1e10f64.to_bits(), fractal_engine::validation::ZOOM_LIMIT_BITS);
    assert_eq!(2.0f64.to_bits(), fractal_engine::validation::JULIA_LIMIT_BITS);
    assert_eq!(1.0f64.to_bits(), fractal_engine::params::ONE_BITS);
    assert_eq!(3.0f64.to_bits(), fractal_engine::laws::THREE_BITS);
}

#[test]
fn defaults() {
    let p = FractalParams::default();
    assert_eq!((p.width, p.height, p.max_iterations), (800, 600, 100));
    assert_eq!(f64::from_bits(p.zoom_bits), 1.0);
    assert_eq!(f64::from_bits(p.center_x_bits), 0.0);
    assert!(p.color_scheme.is_none() && p.recursion_depth.is_none());
}

#[test]
fn dimension_bounds() {
    assert!(validate_dimensions(1, 1).is_ok());
    assert!(validate_dimensions(4096, 4096).is_ok());
    assert_eq!(validate_dimensions(0, 10), Err(FractalError::InvalidDimensions));
    assert_eq!(validate_dimensions(10, 4097), Err(FractalError::InvalidDimensions));
}

#[test]
fn zoom_bounds() {
    assert!(validate_zoom(1.0f64.to_bits()).is_ok());
    assert!(validate_zoom(1e10f64.to_bits()).is_ok());
    assert!(validate_zoom(f64::MIN_POSITIVE.to_bits()).is_ok());
    for z in [0.0f64, -0.0, -1.0, 1.0000001e10, f64::INFINITY, f64::NAN] {
        assert_eq!(validate_zoom(z.to_bits()), Err(FractalError::InvalidZoom), "zoom {}", z);
    }
}

#[test]
fn iteration_bounds() {
    assert!(validate_iterations(1).is_ok());
    assert!(validate_iterations(10000).is_ok());
    assert_eq!(validate_iterations(0), Err(FractalError::InvalidIterationBound));
    assert_eq!(validate_iterations(10001), Err(FractalError::InvalidIterationBound));
}

#[test]
fn julia_component_bounds() {
    assert!(validate_julia_params((-2.0f64).to_bits(), 2.0f64.to_bits()).is_ok());
    assert!(validate_julia_params((-0.7f64).to_bits(), 0.27f64.to_bits()).is_ok());
    let out = Err(FractalError::InvalidJuliaConstant(JuliaFault::OutOfRange));
    assert_eq!(validate_julia_params(3.0f64.to_bits(), 0.0f64.to_bits()), out);
    assert_eq!(validate_julia_params(0.0f64.to_bits(), (-2.5f64).to_bits()), out);
    assert_eq!(validate_julia_params(f64::NAN.to_bits(), 0.0f64.to_bits()), out);
}

#[test]
fn depth_bounds() {
    assert!(validate_recursion_depth(1).is_ok());
    assert!(validate_recursion_depth(12).is_ok());
    assert_eq!(validate_recursion_depth(0), Err(FractalError::InvalidRecursionDepth));
    assert_eq!(validate_recursion_depth(13), Err(FractalError::InvalidRecursionDepth));
}

#[test]
fn baseline_checks_run_in_order() {
    let mut p = params(0, 600);
    p.zoom_bits = 0;
    p.max_iterations = 0;
    assert_eq!(FractalKind::Koch.validate_params(&p), Err(FractalError::InvalidDimensions));
    p.width = 800;
    assert_eq!(FractalKind::Koch.validate_params(&p), Err(FractalError::InvalidZoom));
    p.zoom_bits = 2.0f64.to_bits();
    assert_eq!(FractalKind::Koch.validate_params(&p), Err(FractalError::InvalidIterationBound));
    p.max_iterations = 50;
    p.recursion_depth = Some(13);
    assert_eq!(FractalKind::Koch.validate_params(&p), Err(FractalError::InvalidRecursionDepth));
    assert_eq!(FractalKind::Mandelbrot.validate_params(&p), Ok(()));
}

#[test]
fn tags_are_case_insensitive() {
    assert_eq!(FractalKind::from_tag("Julia"), Ok(FractalKind::Julia));
    assert_eq!(FractalKind::from_tag("MANDELBROT"), Ok(FractalKind::Mandelbrot));
    assert_eq!(FractalKind::from_tag("koch"), Ok(FractalKind::Koch));
    assert_eq!(FractalKind::from_tag("SierPinski"), Ok(FractalKind::Sierpinski));
    assert_eq!(FractalKind::from_tag("dragon"), Err(FractalError::UnknownFractalType));
    assert!(FractalError::UnknownFractalType.message().contains("mandelbrot, julia, sierpinski, koch"));
    assert_eq!(FractalKind::Sierpinski.name(), "sierpinski");
}

#[test]
fn scheme_names() {
    assert_eq!(ColorScheme::from_str("FIRE"), ColorScheme::Fire);
    assert_eq!(ColorScheme::from_str("Ice"), ColorScheme::Ice);
    assert_eq!(ColorScheme::from_str("RAINBOW"), ColorScheme::Rainbow);
    assert_eq!(ColorScheme::from_str("grayscale"), ColorScheme::Grayscale);
    assert_eq!(ColorScheme::from_str("plaid"), ColorScheme::Default);
    assert_eq!(ColorScheme::from_str(""), ColorScheme::Default);
}

#[test]
fn scheme_formulas() {
    let w = default_wave(100);
    assert_eq!(iterations_to_color(50, 100, &ColorScheme::Fire, &w), [127, 100, 25]);
    assert_eq!(iterations_to_color(50, 100, &ColorScheme::Ice, &w), [50, 100, 127]);
    assert_eq!(iterations_to_color(50, 100, &ColorScheme::Grayscale, &w), [127, 127, 127]);
    assert_eq!(iterations_to_color(50, 100, &ColorScheme::Default, &w), [127, w[50][0], w[50][1]]);
    assert_eq!(iterations_to_color(0, 100, &ColorScheme::Default, &w), [0, 128, 128]);
    assert_eq!(iterations_to_color(50, 100, &ColorScheme::Rainbow, &w), [0, 255, 255]);
    for s in [ColorScheme::Default, ColorScheme::Fire, ColorScheme::Ice, ColorScheme::Rainbow, ColorScheme::Grayscale] {
        assert_eq!(iterations_to_color(100, 100, &s, &w), [0, 0, 0]);
    }
}

#[test]
fn rainbow_landmarks_and_continuity() {
    let none = Vec::new();
    assert_eq!(iterations_to_color(0, 600, &ColorScheme::Rainbow, &none), [255, 0, 0]);
    assert_eq!(iterations_to_color(100, 600, &ColorScheme::Rainbow, &none), [255, 255, 0]);
    assert_eq!(iterations_to_color(200, 600, &ColorScheme::Rainbow, &none), [0, 255, 0]);
    let m = 1000;
    for i in 0..m - 1 {
        let a = iterations_to_color(i, m, &ColorScheme::Rainbow, &none);
        let b = iterations_to_color(i + 1, m, &ColorScheme::Rainbow, &none);
        for c in 0..3 {
            assert!((a[c] as i32 - b[c] as i32).abs() <= 1530 / m as i32 + 1, "i {}", i);
        }
    }
}

#[test]
fn mandelbrot_default_view() {
    let p = FractalParams::default();
    let counts = escape_counts(&p, None);
    assert!(counts.iter().all(|&c| c <= 100));
    assert_eq!(counts[300 * 800 + 400], 100);
    let img = MandelbrotSet.generate(&p, &default_wave(100), &counts).unwrap();
    assert_eq!((img.width(), img.height()), (800, 600));
    assert_eq!(img.pixel(400, 300), [0, 0, 0]);
    for (k, &c) in counts.iter().enumerate() {
        let px = img.pixel((k % 800) as u32, (k / 800) as u32);
        assert_eq!(c == 100, px == [0, 0, 0]);
    }
}

#[test]
fn escape_render_is_deterministic() {
    let mut p = params(64, 48);
    p.color_scheme = Some("rainbow".to_string());
    let wave = default_wave(100);
    let a = MandelbrotSet.generate(&p, &wave, &escape_counts(&p, None)).unwrap().into_raw();
    let b = MandelbrotSet.generate(&p, &wave, &escape_counts(&p, None)).unwrap().into_raw();
    assert_eq!(a.len(), 64 * 48 * 3);
    assert_eq!(a, b);
}

#[test]
fn julia_needs_its_constant() {
    let mut p = FractalParams::default();
    let missing = Err(FractalError::InvalidJuliaConstant(JuliaFault::Missing));
    assert_eq!(JuliaSet.validate_params(&p), missing);
    p.julia_c_real_bits = Some((-0.7f64).to_bits());
    assert_eq!(JuliaSet.validate_params(&p), missing);
    p.julia_c_real_bits = None;
    p.julia_c_imag_bits = Some(0.27f64.to_bits());
    assert_eq!(JuliaSet.validate_params(&p), missing);
    p.julia_c_real_bits = Some(3.0f64.to_bits());
    assert_eq!(
        JuliaSet.validate_params(&p),
        Err(FractalError::InvalidJuliaConstant(JuliaFault::OutOfRange))
    );
    assert!(JuliaSet.generate(&p, &Vec::new(), &Vec::new()).is_err());
}

#[test]
fn julia_scenario() {
    let mut p = FractalParams::default();
    p.julia_c_real_bits = Some((-0.7f64).to_bits());
    p.julia_c_imag_bits = Some(0.27f64.to_bits());
    assert_eq!(JuliaSet.validate_params(&p), Ok(()));
    let counts = escape_counts(&p, Some((-0.7, 0.27)));
    let a = JuliaSet.generate(&p, &default_wave(100), &counts).unwrap();
    let b = JuliaSet.generate(&p, &default_wave(100), &counts).unwrap();
    assert_eq!((a.width(), a.height()), (800, 600));
    assert_eq!(a.into_raw(), b.into_raw());
}

#[test]
fn koch_segment_counts() {
    for d in 0..=4u32 {
        assert_eq!(KochSnowflake.segments(800, 600, d).len(), 3 * 4usize.pow(d));
    }
    let segs: Vec<Segment> = KochSnowflake.segments(300, 300, 3);
    for k in 1..segs.len() {
        assert_eq!(segs[k].start, segs[k - 1].end);
    }
    assert_eq!(segs[0].start, segs[segs.len() - 1].end);
}

#[test]
fn koch_depth_zero_is_refused() {
    let mut p = FractalParams::default();
    p.recursion_depth = Some(0);
    assert_eq!(KochSnowflake.generate(&p).err(), Some(FractalError::InvalidRecursionDepth));
}

#[test]
fn koch_render() {
    let mut p = params(200, 160);
    p.recursion_depth = Some(2);
    let a = KochSnowflake.generate(&p).unwrap();
    assert_eq!((a.width(), a.height()), (200, 160));
    let raw = a.into_raw();
    let mut strokes = 0;
    for px in raw.chunks(3) {
        assert!(px == [255, 255, 255] || px == [0, 100, 200]);
        if px == [0, 100, 200] {
            strokes += 1;
        }
    }
    assert!(strokes > 100);
    assert_eq!(raw, KochSnowflake.generate(&p).unwrap().into_raw());
    assert!(KochSnowflake.generate(&params(1, 1)).is_ok());
}

#[test]
fn sierpinski_triangle_counts() {
    for d in 0..=6u32 {
        assert_eq!(SierpinskiTriangle.triangles(400, 400, d).len(), 3usize.pow(d));
    }
}

#[test]
fn sierpinski_render() {
    let p = params(120, 100);
    let a = SierpinskiTriangle.generate(&p).unwrap();
    assert_eq!((a.width(), a.height()), (120, 100));
    assert_eq!(a.pixel(60, 20), [0, 0, 0]);
    assert_eq!(a.pixel(30, 80), [0, 0, 0]);
    assert_eq!(a.pixel(60, 60), [255, 255, 255]);
    assert_eq!(a.pixel(0, 0), [255, 255, 255]);
    assert_eq!(a.into_raw(), SierpinskiTriangle.generate(&p).unwrap().into_raw());
    let mut bad = params(120, 100);
    bad.recursion_depth = Some(13);
    assert_eq!(SierpinskiTriangle.generate(&bad).err(), Some(FractalError::InvalidRecursionDepth));
}

#[test]
fn lines_are_clipped() {
    let mut b = PixelBuffer::filled(10, 5, [1, 1, 1]);
    draw_line(&mut b, -5, 2, 20, 2, [9, 9, 9]);
    for x in 0..10 {
        assert_eq!(b.pixel(x, 2), [9, 9, 9]);
        assert_eq!(b.pixel(x, 1), [1, 1, 1]);
    }
    draw_line(&mut b, 0, 0, 4, 4, [7, 7, 7]);
    assert_eq!(b.pixel(0, 0), [7, 7, 7]);
    assert_eq!(b.pixel(4, 4), [7, 7, 7]);
    assert_eq!(b.pixel(2, 2), [7, 7, 7]);
    assert_eq!(b.pixel(3, 2), [9, 9, 9]);
}

#[test]
fn triangles_fill_their_inside() {
    let one = 65536;
    let mut b = PixelBuffer::filled(8, 8, [0, 0, 0]);
    let t = Triangle {
        a: Point { x: 0, y: 0 },
        b: Point { x: 6 * one, y: 0 },
        c: Point { x: 0, y: 6 * one },
    };
    fill_triangle(&mut b, t, [5, 5, 5]);
    assert_eq!(b.pixel(0, 0), [5, 5, 5]);
    assert_eq!(b.pixel(3, 3), [5, 5, 5]);
    assert_eq!(b.pixel(4, 3), [0, 0, 0]);
    assert_eq!(b.pixel(7, 7), [0, 0, 0]);
}

#[test]
fn raw_bytes_are_row_major_rgb() {
    let mut b = PixelBuffer::filled(2, 2, [0, 0, 0]);
    b.put_pixel(1, 0, [1, 2, 3]);
    b.put_pixel(0, 1, [4, 5, 6]);
    assert_eq!(b.into_raw(), vec![0, 0, 0, 1, 2, 3, 4, 5, 6, 0, 0, 0]);
}

#[test]
fn svg_document_layout() {
    let mut b = fractal_engine::SvgBuilder::new(4096, 20);
    b.add_element("  <line/>".to_string());
    b.add_element("  <polygon/>".to_string());
    assert_eq!(
        b.build(),
        "<?xml version=\"1.0\" encoding=\"UTF-8\"?>\n<svg xmlns=\"http://www.w3.org/2000/svg\" width=\"4096\" height=\"20\" viewBox=\"0 0 4096 20\">\n  <line/>\n  <polygon/>\n</svg>"
    );
    let empty = fractal_engine::SvgBuilder::new(0, 7).build();
    assert!(empty.contains("width=\"0\" height=\"7\""));
    assert!(empty.ends_with(">\n\n</svg>"));
}

#[test]
fn dispatcher_runs_each_variant() {
    let p = params(40, 30);
    let none: Vec<u32> = Vec::new();
    let koch = FractalKind::Koch.generate(&p, &Vec::new(), &none).unwrap();
    assert_eq!(koch.into_raw(), KochSnowflake.generate(&p).unwrap().into_raw());
    let tri = FractalKind::Sierpinski.generate(&p, &Vec::new(), &none).unwrap();
    assert_eq!((tri.width(), tri.height()), (40, 30));
    let counts = escape_counts(&p, None);
    let m = FractalKind::Mandelbrot.generate(&p, &default_wave(100), &counts).unwrap();
    assert_eq!(m.into_raw(), MandelbrotSet.generate(&p, &default_wave(100), &counts).unwrap().into_raw());
    assert_eq!(
        FractalKind::Julia.generate(&p, &Vec::new(), &none).err(),
        Some(FractalError::InvalidJuliaConstant(JuliaFault::Missing))
    );
    assert_eq!(
        FractalKind::Mandelbrot.generate(&params(0, 30), &Vec::new(), &none).err(),
        Some(FractalError::InvalidDimensions)
    );
}

#[test]
fn error_messages() {
    assert_eq!(
        FractalError::InvalidDimensions.message(),
        "Invalid dimensions. Width and height must be between 1 and 4096."
    );
    assert_eq!(FractalError::InvalidZoom.message(), "Invalid zoom. Must be between 0 and 1e10.");
    assert!(FractalError::InvalidJuliaConstant(JuliaFault::Missing).message().contains("required"));
    assert!(FractalError::InvalidRecursionDepth.message().contains("between 1 and 12"));
}
