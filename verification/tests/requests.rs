//! Capture requests and the replies to them.

use base64::Engine as _;
use iris::double::Double;
use iris::image::{Format, ImageFormat};
use iris::mode::CaptureMode;
use iris::reply::{capture_reply, file_to_write, refuse, report_error, simple_error, Block};
use iris::report::{CapturedImage, Shot};
use iris::request::{CaptureRequest, PreparedCapture, RequestError};

fn request(url: &str) -> CaptureRequest {
    CaptureRequest {
        url: url.into(),
        selector: None,
        padding: None,
        full_page: false,
        size: None,
        dark: false,
        format: None,
        wait_ms: 0,
        wait_for: None,
        scale: None,
        timeout_seconds: None,
        output: None,
    }
}

#[test]
fn request_defaults_and_conflicts_are_validated() {
    let prepared = request("localhost:3000").prepare().unwrap();
    assert_eq!(prepared.url.text, "http://localhost:3000/");
    assert_eq!(prepared.opts.mode, CaptureMode::Viewport);
    assert_eq!(prepared.opts.viewport.width, 1440);
    assert_eq!(prepared.opts.format, Format::Png);
    assert_eq!(prepared.opts.timeout_secs, 30);

    let mut conflict = request("example.com");
    conflict.selector = Some("main".into());
    conflict.full_page = true;
    assert!(conflict.prepare().unwrap_err().message("").contains("selector conflicts with full_page"));

    let mut padding = request("example.com");
    padding.padding = Some(0);
    assert!(padding.prepare().unwrap_err().message("").contains("padding requires selector"));
}

#[test]
fn output_extension_overrides_requested_format() {
    let mut capture = request("example.com");
    capture.format = Some(ImageFormat::Png);
    capture.output = Some("shot.webp".into());
    let prepared = capture.prepare().unwrap();
    assert_eq!(prepared.opts.format, Format::Webp);
}

#[test]
fn colons_in_a_file_name_do_not_hide_its_extension() {
    let mut capture = request("example.com");
    capture.output = Some("shots/at-12:30.jpeg".into());
    let prepared = capture.prepare().unwrap();
    assert_eq!(prepared.opts.format, Format::Jpeg);
    assert_eq!(prepared.output.as_deref(), Some("shots/at-12:30.jpeg"));
}

fn refusal(change: impl Fn(&mut CaptureRequest)) -> RequestError {
    let mut r = request("example.com");
    change(&mut r);
    r.prepare().unwrap_err()
}

#[test]
fn every_refusal_says_why() {
    let bad_url = refusal(|r| r.url = " a b ".into());
    assert!(bad_url.message("").starts_with("invalid URL: a b: "));
    let empty = refusal(|r| r.selector = Some(" \u{2003}".into()));
    assert!(matches!(empty, RequestError::EmptySelector));
    assert_eq!(empty.message(""), "selector must not be empty");
    let size = refusal(|r| r.size = Some("big".into()));
    assert!(matches!(size, RequestError::Viewport(_)));
    assert_eq!(
        size.message(""),
        "invalid size \"big\": use WxH (e.g. 1440x900) or desktop|iphone|ipad"
    );
    let timeout = refusal(|r| r.timeout_seconds = Some(0));
    assert_eq!(timeout.message(""), "timeout_seconds must be greater than zero");
    let wait = refusal(|r| r.wait_for = Some("".into()));
    assert_eq!(wait.message(""), "wait_for must not be empty");
    let bare = refusal(|r| r.output = Some("shot".into()));
    assert_eq!(bare.message(""), "output must end in .png, .jpg, .jpeg, or .webp");
    let gif = refusal(|r| r.output = Some("shot.gif".into()));
    assert_eq!(gif.message(""), "unsupported output extension: .gif");
}

#[test]
fn the_first_failing_check_decides() {
    let all = refusal(|r| {
        r.selector = Some(" ".into());
        r.full_page = true;
        r.size = Some("big".into());
        r.output = Some("x".into());
    });
    assert!(matches!(all, RequestError::EmptySelector));
    let later = refusal(|r| {
        r.padding = Some(1);
        r.size = Some("big".into());
        r.timeout_seconds = Some(0);
    });
    assert!(matches!(later, RequestError::PaddingWithoutSelector));
}

#[test]
fn a_full_request_is_kept() {
    let mut r = request("  https://example.com/a ");
    r.selector = Some("  .target\n".into());
    r.padding = Some(10);
    r.size = Some("320x240".into());
    r.dark = true;
    r.format = Some(ImageFormat::Jpg);
    r.wait_ms = 5;
    r.wait_for = Some(" h1 ".into());
    r.scale = Some(Double { bits: 1.0f64.to_bits() });
    r.timeout_seconds = Some(3);
    let p = r.prepare().unwrap();
    assert_eq!(p.url.text, "https://example.com/a");
    assert_eq!(p.opts.mode, CaptureMode::Element { selector: ".target".into(), padding: 10 });
    assert_eq!((p.opts.viewport.width, p.opts.viewport.height), (320, 240));
    assert_eq!(p.opts.viewport.scale.bits, 1.0f64.to_bits());
    assert!(p.opts.dark && !p.opts.viewport.mobile);
    assert_eq!(p.opts.format, Format::Jpeg);
    assert_eq!((p.opts.wait_ms, p.opts.timeout_secs), (5, 3));
    assert_eq!(p.opts.wait_for.as_deref(), Some("h1"));
    assert_eq!(p.output, None);
}

fn prepared(output: Option<&str>) -> PreparedCapture {
    let mut r = request("example.com");
    r.selector = Some("h1".into());
    r.padding = Some(24);
    r.output = output.map(String::from);
    r.prepare().unwrap()
}

fn image(data: &[u8]) -> CapturedImage {
    CapturedImage {
        shot: Shot {
            width: 141,
            height: 81,
            scale: Double { bits: 1.0f64.to_bits() },
            bytes: data.len() as u64,
        },
        data: data.to_vec(),
    }
}

#[test]
fn a_capture_is_answered_with_its_image() {
    let p = prepared(Some("/tmp/a.png"));
    assert_eq!(p.absolute().as_deref(), Some("/tmp/a.png"));
    let bytes = b"\x89PNG\r\n\x1a\n and more";
    let captured = Ok(image(bytes));
    let write = file_to_write(&p, &captured).unwrap();
    assert_eq!((write.path, write.data.as_slice()), ("/tmp/a.png", &bytes[..]));
    let reply = capture_reply(&p, captured, None, p.absolute(), "1", "1.0");
    assert!(!reply.is_error);
    assert_eq!(reply.blocks.len(), 2);
    match (&reply.blocks[0], &reply.blocks[1]) {
        (Block::Image { data, mime_type }, Block::Text(summary)) => {
            assert_eq!(*mime_type, "image/png");
            let back = base64::engine::general_purpose::STANDARD.decode(data).unwrap();
            assert_eq!(back, bytes);
            assert_eq!(
                summary,
                "Captured 141\u{d7}81 CSS px @1x as png \u{2192} /tmp/a.png"
            );
        }
        _ => panic!("an image and a summary"),
    }
    let report: serde_json::Value = serde_json::from_str(&reply.structured).unwrap();
    assert_eq!(report["status"], "ok");
    assert_eq!(report["mode"], "element");
    assert_eq!(report["css_width"], 141);
    assert_eq!(report["css_height"], 81);
    assert_eq!(report["output"], "/tmp/a.png");
    assert_eq!(report["scale"], 1.0);
    assert_eq!(report["bytes"], bytes.len());
}

#[test]
fn replies_report_the_absolute_path() {
    let p = prepared(Some("/tmp/./a//b.png"));
    let reply = p.reply(Ok(image(b"x")), None, "1", "1.0");
    assert!(!reply.is_error);
    let report: serde_json::Value = serde_json::from_str(&reply.structured).unwrap();
    assert_eq!(report["output"], "/tmp/a/b.png");
    let failed = prepared(Some("b.png")).reply(Err("boom".into()), None, "1", "1.0");
    assert!(failed.is_error);
    let report: serde_json::Value = serde_json::from_str(&failed.structured).unwrap();
    assert!(report["output"].as_str().unwrap().ends_with("/b.png"));
    let unsaved = prepared(None).reply(Ok(image(b"x")), None, "1", "1.0");
    let report: serde_json::Value = serde_json::from_str(&unsaved.structured).unwrap();
    assert!(report.get("output").is_none());
}

#[test]
fn inline_images_keep_every_byte() {
    let p = prepared(None);
    for n in 0..70usize {
        let data: Vec<u8> = (0..n).map(|i| (i * 37 + n * 11) as u8).collect();
        let reply = capture_reply(&p, Ok(image(&data)), None, None, "1", "1.0");
        match &reply.blocks[0] {
            Block::Image { data: text, .. } => {
                assert_eq!(base64::engine::general_purpose::STANDARD.decode(text).unwrap(), data);
            }
            Block::Text(_) => panic!("an image"),
        }
    }
}

fn only_text(blocks: &[Block]) -> &str {
    assert_eq!(blocks.len(), 1);
    match &blocks[0] {
        Block::Text(text) => text,
        Block::Image { .. } => panic!("an error shows no image"),
    }
}

#[test]
fn failures_are_answered_without_an_image() {
    let p = prepared(None);
    let failed = capture_reply(&p, Err("invalid selector: [".into()), None, None, "1", "1.0");
    assert!(failed.is_error);
    assert_eq!(only_text(&failed.blocks), "invalid selector: [");
    let report: serde_json::Value = serde_json::from_str(&failed.structured).unwrap();
    assert_eq!(report["error"], "invalid selector: [");
    assert_eq!(report["status"], "error");
    assert_eq!(report["selector"], "h1");
    assert_eq!(report["padding"], 24);

    let unwritten = capture_reply(&p, Ok(image(b"x")), Some("disk full".into()), None, "1", "1.0");
    assert!(unwritten.is_error);
    assert_eq!(only_text(&unwritten.blocks), "disk full");
    assert!(file_to_write(&p, &Ok(image(b""))).is_none());
    assert!(file_to_write(&prepared(Some("/tmp/a.png")), &Err("e".into())).is_none());

    let direct = report_error(&p, Some("/o.png".into()), "late".into());
    assert_eq!(
        direct.structured,
        r#"{"status":"error","url":"https://example.com/","output":"/o.png","mode":"element","selector":"h1","padding":24,"error":"late"}"#
    );
}

#[test]
fn refusals_carry_only_their_error() {
    let reply = simple_error("no \"way\"".into());
    assert!(reply.is_error);
    assert_eq!(only_text(&reply.blocks), "no \"way\"");
    assert_eq!(reply.structured, r#"{"status":"error","error":"no \"way\""}"#);
    let refused = refuse(&RequestError::ZeroTimeout, "");
    assert_eq!(only_text(&refused.blocks), "timeout_seconds must be greater than zero");
}
