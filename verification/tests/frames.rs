//! Frames around elements, and viewports.

use iris::clip::{round_clip, ClipError, ClipRect, ElementBounds};
use iris::double::Double;
use iris::plan::{element_frame, full_page_frame, viewport_frame, Step};
use iris::image::Format;
use iris::viewport::{parse_size, parse_viewport, size_flag_message, Viewport, ViewportError};

fn d(x: f64) -> Double {
    Double { bits: x.to_bits() }
}

fn bounds(x: f64, y: f64, width: f64, height: f64, doc_width: f64, doc_height: f64) -> ElementBounds {
    ElementBounds {
        x: d(x),
        y: d(y),
        width: d(width),
        height: d(height),
        doc_width: d(doc_width),
        doc_height: d(doc_height),
    }
}

fn rect(x: f64, y: f64, width: f64, height: f64) -> ClipRect {
    ClipRect { x: d(x), y: d(y), width: d(width), height: d(height) }
}

#[test]
fn clip_rounds_outward_and_applies_padding() {
    let clip = round_clip(&bounds(10.25, 20.75, 100.5, 50.5, 200.0, 200.0), 5).unwrap();
    assert_eq!(clip, rect(5.0, 15.0, 111.0, 62.0));
}

#[test]
fn clip_clamps_to_each_document_edge() {
    let top_left = round_clip(&bounds(1.2, 1.2, 20.2, 30.2, 200.0, 200.0), 10).unwrap();
    assert_eq!(top_left, rect(0.0, 0.0, 32.0, 42.0));

    let bottom_right = round_clip(&bounds(190.4, 180.4, 20.0, 30.0, 200.0, 200.0), 5).unwrap();
    assert_eq!(bottom_right, rect(185.0, 175.0, 15.0, 25.0));
}

#[test]
fn elements_without_a_frame_are_refused() {
    assert_eq!(
        round_clip(&bounds(300.0, 10.0, 20.0, 20.0, 200.0, 200.0), 0),
        Err(ClipError::OutsideDocument)
    );
    assert_eq!(
        round_clip(&bounds(f64::NAN, 10.0, 20.0, 20.0, 200.0, 200.0), 0),
        Err(ClipError::InvalidBounds)
    );
    assert_eq!(
        round_clip(&bounds(1e300, 0.0, f64::INFINITY, 20.0, f64::INFINITY, 200.0), 0),
        Err(ClipError::InvalidBounds)
    );
    assert_eq!(ClipError::InvalidBounds.message(), "selected element returned invalid bounds");
    assert_eq!(
        ClipError::OutsideDocument.message(),
        "selected element is outside the document bounds"
    );
    assert!(bounds(0.0, 0.0, 1.0, 1.0, 10.0, 10.0).document_has_size());
    assert!(!bounds(0.0, 0.0, 1.0, 1.0, -1.0, 10.0).document_has_size());
    assert!(!bounds(0.0, 0.0, 1.0, 1.0, 10.0, f64::NAN).document_has_size());
}

#[test]
fn more_padding_only_widens_a_frame() {
    let b = bounds(60.3, 70.7, 20.1, 15.2, 200.0, 160.0);
    let mut last = round_clip(&b, 0).unwrap();
    for padding in 1..300 {
        let next = round_clip(&b, padding).unwrap();
        assert!(next.x.less_or_equal(last.x) && next.y.less_or_equal(last.y));
        assert!(last.width.less_or_equal(next.width) && last.height.less_or_equal(next.height));
        last = next;
    }
    assert_eq!(last, rect(0.0, 0.0, 200.0, 160.0));
}

#[test]
fn frames_are_tight() {
    // One whole pixel less on any side would cut something off.
    for (x, width) in [(10.25, 100.5), (0.5, 7.0), (3.0, 4.0), (190.4, 20.0), (-5.5, 9.25)] {
        for padding in [0u32, 1, 8] {
            let clip = round_clip(&bounds(x, x, width, width, 200.0, 200.0), padding).unwrap();
            let (left, right) = (f64::from_bits(clip.x.bits), f64::from_bits(clip.x.add(clip.width).bits));
            let near = (x - padding as f64).clamp(0.0, 200.0);
            let far = (x + width + padding as f64).clamp(0.0, 200.0);
            assert!(left <= near && near < left + 1.0);
            assert!(right >= far && far > right - 1.0);
        }
    }
}

#[test]
fn viewport_rejects_zero_dimensions_and_invalid_scales() {
    assert!(parse_viewport("0x900", None).is_err());
    assert!(parse_viewport("1440x0", None).is_err());
    assert!(parse_viewport("desktop", Some(d(0.0))).is_err());
    assert!(parse_viewport("desktop", Some(d(f64::NAN))).is_err());
}

fn parts(v: Viewport) -> (u32, u32, f64, bool) {
    (v.width, v.height, f64::from_bits(v.scale.bits), v.mobile)
}

#[test]
fn presets_and_custom_sizes_are_read() {
    assert_eq!(parts(Viewport::desktop()), (1440, 900, 2.0, false));
    assert_eq!(parts(parse_viewport("desktop", None).unwrap()), (1440, 900, 2.0, false));
    assert_eq!(parts(parse_viewport("iphone", None).unwrap()), (390, 844, 3.0, true));
    assert_eq!(parts(parse_viewport("ipad", None).unwrap()), (1024, 1366, 2.0, false));
    assert_eq!(parts(parse_viewport("320x240", Some(d(1.0))).unwrap()), (320, 240, 1.0, false));
    assert_eq!(parts(parse_viewport("+320X0240", None).unwrap()), (320, 240, 2.0, false));
    assert_eq!(
        parts(parse_viewport("4294967295x1", None).unwrap()),
        (4294967295, 1, 2.0, false)
    );
    for bad in ["", "x", "1x", "x1", "1x2x3", "4294967296x1", "-1x2", "1 x2", "Desktop", "+x1"] {
        assert!(
            matches!(parse_viewport(bad, None), Err(ViewportError::Malformed(s)) if s == bad),
            "{}",
            bad
        );
    }
}

#[test]
fn sizes_read_back() {
    for (w, h) in [(1, 1), (1440, 900), (4294967295, 10), (1000, 20304)] {
        let v = parse_viewport(&format!("{}x{}", w, h), None).unwrap();
        assert_eq!((v.width, v.height), (w, h));
    }
}

#[test]
fn refused_viewports_say_why() {
    let malformed = parse_viewport("a\"b", None).unwrap_err();
    assert_eq!(
        malformed.message(""),
        "invalid size \"a\\\"b\": use WxH (e.g. 1440x900) or desktop|iphone|ipad"
    );
    let empty = parse_viewport("0x5", None).unwrap_err();
    assert_eq!(
        empty.message(""),
        "invalid size \"0x5\": width and height must be greater than zero"
    );
    let scale = parse_viewport("ipad", Some(d(-1.5))).unwrap_err();
    assert_eq!(
        scale.message("-1.5"),
        "invalid scale -1.5: use a finite number greater than zero"
    );
    assert!(parse_viewport("ipad", Some(d(f64::INFINITY))).is_err());
    assert!(parse_viewport("ipad", Some(d(-0.0))).is_err());
    assert!(parse_viewport("ipad", Some(d(f64::from_bits(1)))).is_ok());
}

#[test]
fn the_command_line_takes_numbers_as_they_are() {
    assert_eq!(parts(parse_size("0x0", Some(d(0.0))).unwrap()), (0, 0, 0.0, false));
    assert_eq!(parts(parse_size("iphone", Some(d(1.0))).unwrap()), (390, 844, 1.0, true));
    assert!(parse_size("wide", None).is_err());
    assert_eq!(
        size_flag_message("wide"),
        "invalid --size \"wide\": use WxH (e.g. 1440x900) or desktop|iphone|ipad"
    );
}

#[test]
fn tall_pages_fall_back_to_scale_one() {
    let v = Viewport::desktop();
    let short = full_page_frame(v, Some(d(8000.0)), Format::Png);
    assert_eq!((short.width, short.height, short.scale), (1440, 8000, d(2.0)));
    assert!(!short.screenshot.full_page);
    assert!(matches!(short.steps[0], Step::Metrics(grown) if grown.height == 8000));
    assert!(matches!(short.steps[1], Step::Settle));

    let tall = full_page_frame(v, Some(d(8001.0)), Format::Webp);
    assert_eq!((tall.width, tall.height, tall.scale), (1440, 8001, d(1.0)));
    assert!(tall.screenshot.full_page && tall.steps.is_empty());
    assert_eq!(tall.screenshot.quality, Some(90));

    let unmeasured = full_page_frame(v, None, Format::Png);
    assert_eq!(unmeasured.height, 900);
    let low = full_page_frame(v, Some(d(12.7)), Format::Png);
    assert_eq!(low.height, 900);

    // A product that rounds to the limit still renders, as on the machine.
    for (height, scale) in [(5333u32, 3.0001875f64), (16000, 1.0), (15999, 1.00006251), (7, 2285.7142857142858)] {
        let custom = Viewport { width: 10, height: 1, scale: d(scale), mobile: false };
        let frame = full_page_frame(custom, Some(d(height as f64)), Format::Png);
        assert_eq!(!frame.screenshot.full_page, height as f64 * scale <= 16_000.0);
    }
}

#[test]
fn viewports_and_elements_are_framed() {
    let v = Viewport::desktop();
    let plain = viewport_frame(v, Format::Jpeg);
    assert_eq!((plain.width, plain.height, plain.scale), (1440, 900, d(2.0)));
    assert!(plain.steps.is_empty() && plain.screenshot.clip.is_none());
    assert_eq!(plain.screenshot.quality, Some(90));

    let b = bounds(10.25, 20.75, 100.5, 50.5, 200.0, 200.0);
    let element = element_frame(v, &b, 5, Format::Png).unwrap();
    assert_eq!((element.width, element.height), (111, 62));
    assert_eq!(element.screenshot.clip, Some(rect(5.0, 15.0, 111.0, 62.0)));
    assert_eq!(element.screenshot.quality, None);

    for scale in [0.5, 1.0, 3.0] {
        let other = Viewport { scale: d(scale), ..v };
        let same = element_frame(other, &b, 5, Format::Png).unwrap();
        assert_eq!((same.width, same.height, same.scale), (111, 62, d(scale)));
        assert_eq!(same.screenshot, element.screenshot);
    }
}
