use code_render::canvas::{Canvas, Coverage};
use code_render::color::{encode_pixel, linear, over, LinPixel, Rgba8};
use code_render::{canvas_extent, render_bitmap, render_png, LineExtent, MARGIN};

fn rgba(r: u8, g: u8, b: u8, a: u8) -> Rgba8 {
    Rgba8 { r, g, b, a }
}

#[test]
fn opaque_foreground_replaces_background() {
    let bg = linear(rgba(0, 43, 54, 255));
    let fg = linear(rgba(200, 100, 7, 255));
    let out = over(fg, bg);
    assert_eq!(out, fg);
    assert_eq!(encode_pixel(out), rgba(200, 100, 7, 255));
}

#[test]
fn half_alpha_foreground_mixes_evenly() {
    let fg = LinPixel { r: 16000, g: 0, b: 32640, a: 32640 };
    let bg = LinPixel { r: 65280, g: 1000, b: 0, a: 65280 };
    let out = over(fg, bg);
    assert_eq!(out, LinPixel { r: 48640, g: 500, b: 32640, a: 65280 });
}

#[test]
fn linear_premultiplies_by_alpha() {
    assert_eq!(linear(rgba(255, 0, 10, 255)), LinPixel { r: 65280, g: 0, b: 2560, a: 65280 });
    assert_eq!(linear(rgba(255, 255, 255, 0)), LinPixel { r: 0, g: 0, b: 0, a: 0 });
    assert_eq!(linear(rgba(200, 0, 0, 51)), LinPixel { r: 10240, g: 0, b: 0, a: 13056 });
}

#[test]
fn encode_pixel_rounds_to_eight_bits() {
    assert_eq!(encode_pixel(LinPixel { r: 0, g: 0, b: 0, a: 0 }), rgba(0, 0, 0, 0));
    assert_eq!(encode_pixel(LinPixel { r: 10240, g: 0, b: 0, a: 13056 }), rgba(200, 0, 0, 51));
    assert_eq!(encode_pixel(LinPixel { r: 128, g: 127, b: 0, a: 65280 }), rgba(1, 0, 0, 255));
}

#[test]
fn new_canvas_is_background() {
    let c = Canvas::new(3, 2, rgba(1, 2, 3, 255));
    assert_eq!(c.pixels.len(), 6);
    for p in &c.pixels {
        assert_eq!(*p, LinPixel { r: 256, g: 512, b: 768, a: 65280 });
    }
}

#[test]
fn partly_outside_event_is_clamped() {
    let bg = rgba(0, 0, 0, 255);
    let mut c = Canvas::new(4, 3, bg);
    // Shifted by the origin offset of 24, this covers columns -6..4 and rows -23..2.
    let ev = Coverage { x: -30, y: -47, w: 10, h: 25, color: rgba(255, 255, 255, 255) };
    c.apply(&ev);
    let white = LinPixel { r: 65280, g: 65280, b: 65280, a: 65280 };
    let black = LinPixel { r: 0, g: 0, b: 0, a: 65280 };
    for row in 0..3usize {
        for col in 0..4usize {
            let want = if row < 2 { white } else { black };
            assert_eq!(c.pixels[row * 4 + col], want);
        }
    }
}

#[test]
fn fully_outside_events_change_nothing() {
    let bg = rgba(9, 8, 7, 255);
    let mut c = Canvas::new(5, 5, bg);
    let before = c.pixels.clone();
    let events = vec![
        Coverage { x: 100, y: 0, w: 3, h: 3, color: rgba(255, 0, 0, 255) },
        Coverage { x: -60, y: 0, w: 3, h: 3, color: rgba(255, 0, 0, 255) },
        Coverage { x: 0, y: i32::MAX, w: u32::MAX, h: u32::MAX, color: rgba(255, 0, 0, 255) },
        Coverage { x: i32::MIN, y: i32::MIN, w: 1, h: 1, color: rgba(255, 0, 0, 255) },
    ];
    c.composite(&events);
    assert_eq!(c.pixels, before);
}

#[test]
fn events_apply_in_order() {
    let mut c = Canvas::new(1, 1, rgba(0, 0, 0, 255));
    let events = vec![
        Coverage { x: -24, y: -24, w: 1, h: 1, color: rgba(255, 0, 0, 255) },
        Coverage { x: -24, y: -24, w: 1, h: 1, color: rgba(0, 0, 255, 255) },
    ];
    c.composite(&events);
    assert_eq!(encode_pixel(c.pixels[0]), rgba(0, 0, 255, 255));
}

#[test]
fn empty_source_gets_minimum_canvas() {
    assert_eq!(canvas_extent(&vec![]), (1 + MARGIN as u64, 1 + MARGIN as u64));
    let bm = render_bitmap(&vec![], rgba(0, 43, 54, 255), &vec![]).unwrap();
    assert_eq!((bm.width, bm.height), (49, 49));
    assert_eq!(bm.rgba.len(), 49 * 49 * 4);
    assert_eq!(&bm.rgba[0..4], &[0, 43, 54, 255]);
}

#[test]
fn canvas_grows_with_lines_and_width() {
    let a = vec![LineExtent { width: 120, baseline: 53 }];
    let mut b = a.clone();
    b.push(LineExtent { width: 40, baseline: 119 });
    let wider = vec![LineExtent { width: 300, baseline: 53 }];
    let (wa, ha) = canvas_extent(&a);
    let (wb, hb) = canvas_extent(&b);
    let (ww, _) = canvas_extent(&wider);
    assert_eq!((wa, ha), (168, 101));
    assert_eq!((wb, hb), (168, 167));
    assert!(hb >= ha && wb >= wa);
    assert_eq!(ww, 348);
}

#[test]
fn oversized_canvas_is_refused() {
    let lines = vec![LineExtent { width: 100_000, baseline: 100_000 }];
    assert!(render_bitmap(&lines, rgba(0, 0, 0, 255), &vec![]).is_none());
    assert_eq!(
        render_png(&lines, rgba(0, 0, 0, 255), &vec![]),
        Err(code_render::RenderError::CanvasTooLarge)
    );
}

#[test]
fn png_decodes_to_the_bitmap() {
    let lines = vec![LineExtent { width: 11 * 29, baseline: 53 }];
    let events = vec![Coverage { x: 0, y: 0, w: 2, h: 2, color: rgba(133, 153, 0, 255) }];
    let bg = rgba(0, 43, 54, 255);
    let png = render_png(&lines, bg, &events).unwrap();
    assert_eq!(&png[0..8], &[137, 80, 78, 71, 13, 10, 26, 10]);
    let img = image::load_from_memory(&png).unwrap().to_rgba8();
    assert_eq!((img.width(), img.height()), (11 * 29 + 48, 101));
    assert!(img.width() >= 11 * 29);
    assert_eq!(img.get_pixel(24, 24).0, [133, 153, 0, 255]);
    assert_eq!(img.get_pixel(26, 24).0, [0, 43, 54, 255]);
    let bm = render_bitmap(&lines, bg, &events).unwrap();
    assert_eq!(img.into_raw(), bm.rgba);
}

#[test]
fn rendering_is_deterministic() {
    let lines = vec![LineExtent { width: 70, baseline: 53 }, LineExtent { width: 90, baseline: 119 }];
    let events = vec![
        Coverage { x: 3, y: 4, w: 1, h: 1, color: rgba(38, 139, 210, 128) },
        Coverage { x: 3, y: 4, w: 1, h: 1, color: rgba(211, 54, 130, 77) },
    ];
    let a = render_png(&lines, rgba(0, 43, 54, 255), &events).unwrap();
    let b = render_png(&lines, rgba(0, 43, 54, 255), &events).unwrap();
    assert_eq!(a, b);
    assert!(!a.is_empty());
}

#[test]
fn blank_and_empty_snippets_render_alike() {
    let bg = rgba(0, 43, 54, 255);
    let a = render_png(&vec![], bg, &vec![]).unwrap();
    let b = render_png(&vec![], bg, &vec![]).unwrap();
    assert_eq!(a, b);
    let img = image::load_from_memory(&a).unwrap().to_rgba8();
    assert_eq!((img.width(), img.height()), (49, 49));
    assert!(img.pixels().all(|p| p.0 == [0, 43, 54, 255]));
}
