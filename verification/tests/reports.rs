//! Reports, capture modes and sizes of files.

use iris::double::Double;
use iris::image::Format;
use iris::json::Object;
use iris::mode::{capture_mode, CaptureMode};
use iris::report::{
    absolute_output, announce, announce_at, error_report, failure_line, human_size, settled_path, success_line,
    success_report, Channel, Shot,
};

fn d(x: f64) -> Double {
    Double { bits: x.to_bits() }
}

#[test]
fn capture_mode_is_constructed_once_from_validated_cli() {
    assert_eq!(
        capture_mode(Some("main > h1"), Some(24), false),
        CaptureMode::Element { selector: "main > h1".into(), padding: 24 }
    );
    assert_eq!(capture_mode(None, None, true), CaptureMode::FullPage);
    assert_eq!(capture_mode(None, None, false), CaptureMode::Viewport);
    assert_eq!(
        capture_mode(Some("h1"), None, false),
        CaptureMode::Element { selector: "h1".into(), padding: 0 }
    );
}

#[test]
fn json_reports_have_stable_typed_fields() {
    let mode = CaptureMode::Element { selector: "h1".into(), padding: 24 };
    let shot = Shot { width: 180, height: 72, scale: d(2.0), bytes: 14_231 };
    let success = success_report(
        "https://example.com/",
        Some("/tmp/example.png"),
        &mode,
        Format::Png,
        &shot,
    )
    .to_json(&serde_json::to_string(&2.0f64).unwrap());
    assert_eq!(
        success,
        r#"{"status":"ok","url":"https://example.com/","output":"/tmp/example.png","mode":"element","selector":"h1","padding":24,"css_width":180,"css_height":72,"scale":2.0,"format":"png","bytes":14231}"#
    );

    let failure = error_report(
        "https://example.com/",
        Some("/tmp/example.png"),
        &mode,
        "selector never appeared: h1".into(),
    )
    .to_json();
    assert_eq!(
        failure,
        r#"{"status":"error","url":"https://example.com/","output":"/tmp/example.png","mode":"element","selector":"h1","padding":24,"error":"selector never appeared: h1"}"#
    );
}

#[test]
fn missing_members_are_left_out() {
    let shot = Shot { width: 1, height: 2, scale: d(1.5), bytes: 3 };
    assert_eq!(
        success_report("u", None, &CaptureMode::Viewport, Format::Jpeg, &shot).to_json("1.5"),
        r#"{"status":"ok","url":"u","mode":"viewport","css_width":1,"css_height":2,"scale":1.5,"format":"jpg","bytes":3}"#
    );
    assert_eq!(
        error_report("u", None, &CaptureMode::FullPage, "e".into()).to_json(),
        r#"{"status":"error","url":"u","mode":"full_page","error":"e"}"#
    );
}

#[test]
fn reports_are_one_line_of_json_whatever_they_say() {
    let nasty: String = (0u32..0x180).filter_map(char::from_u32).collect();
    let mode = CaptureMode::Element { selector: nasty.clone(), padding: 0 };
    let line = error_report(&nasty, None, &mode, nasty.clone()).to_json();
    assert!(line.chars().all(|c| c >= ' '));
    let value: serde_json::Value = serde_json::from_str(&line).unwrap();
    assert_eq!(value["url"], nasty.as_str());
    assert_eq!(value["selector"], nasty.as_str());
    assert_eq!(value["error"], nasty.as_str());
    assert_eq!(value["padding"], 0);
}

#[test]
fn objects_are_written_member_by_member() {
    assert_eq!(Object::new().finish(), "{}");
    let mut object = Object::new();
    object.put_text("a\"", "\u{1}\n");
    object.put_number("n", u64::MAX);
    object.put("raw", "[1]");
    assert_eq!(object.finish(), "{\"a\\\"\":\"\\u0001\\n\",\"n\":18446744073709551615,\"raw\":[1]}");
}

#[test]
fn modes_name_themselves() {
    let element = CaptureMode::Element { selector: "#x".into(), padding: 7 };
    assert_eq!((element.name(), element.selector(), element.padding()), ("element", Some("#x"), Some(7)));
    assert_eq!(
        (CaptureMode::FullPage.name(), CaptureMode::FullPage.selector(), CaptureMode::FullPage.padding()),
        ("full_page", None, None)
    );
    assert_eq!(CaptureMode::Viewport.name(), "viewport");
}

#[test]
fn output_paths_become_absolute() {
    assert_eq!(absolute_output("/tmp/./x.png"), "/tmp/x.png");
    assert_eq!(absolute_output("/tmp/../a/x.png"), "/tmp/../a/x.png");
    let relative = absolute_output("x.png");
    assert!(relative.starts_with('/') && relative.ends_with("/x.png"));
    let deeper = absolute_output("../shots/x.png");
    assert!(deeper.starts_with('/') && deeper.ends_with("/../shots/x.png"));
    let dotted = absolute_output("./a//b/./c.png");
    assert!(dotted.starts_with('/') && dotted.ends_with("/a/b/c.png"));
    assert_eq!(dotted, absolute_output("a/b/c.png"));
    assert!(absolute_output("shots/").ends_with("/shots/"));
    for path in ["x.png", "../y/./z.png", "/a//b/../c/", "/", "/./", "shots/"] {
        let once = absolute_output(path);
        assert_eq!(absolute_output(&once), once);
    }
    assert_eq!(absolute_output("/a//b/../c/"), "/a/b/../c/");
    assert_eq!(absolute_output("/./"), "/");
    assert_eq!(absolute_output("/tmp/./at-12:30.png"), "/tmp/at-12:30.png");
    assert!(absolute_output("./at-12:30.png").ends_with("/at-12:30.png"));
    assert_eq!(absolute_output(""), "");
    assert_eq!(settled_path("a", None), "a");
    assert_eq!(settled_path("a", Some("/a".into())), "/a");
}

fn expected_size(bytes: u64) -> String {
    if bytes >= 1024 * 1024 {
        format!("{:.1} MB", bytes as f64 / (1024.0 * 1024.0))
    } else {
        format!("{} KB", bytes.div_ceil(1024))
    }
}

#[test]
fn sizes_are_told_as_people_read_them() {
    assert_eq!(human_size(0), "0 KB");
    assert_eq!(human_size(1), "1 KB");
    assert_eq!(human_size(1024), "1 KB");
    assert_eq!(human_size(1025), "2 KB");
    assert_eq!(human_size(1048575), "1024 KB");
    assert_eq!(human_size(1048576), "1.0 MB");
    assert_eq!(human_size(1310720), "1.2 MB");
    assert_eq!(human_size(1835008), "1.8 MB");
    let mut n: u64 = 1;
    for i in 0..20_000u64 {
        n = n.wrapping_mul(6364136223846793005).wrapping_add(1442695040888963407);
        for bytes in [n >> (i % 64), 1048576 + i * 26214, 1048576 * (i / 100) + 52429 * (i % 100)] {
            assert_eq!(human_size(bytes), expected_size(bytes), "{}", bytes);
        }
    }
    for bytes in [u64::MAX, u64::MAX - 1023, u64::MAX - 1024, u64::MAX - 1025, (1 << 53) + 1] {
        assert_eq!(human_size(bytes), expected_size(bytes), "{}", bytes);
    }
}

#[test]
fn lines_tell_of_captures() {
    let shot = Shot { width: 1440, height: 900, scale: d(2.0), bytes: 2048 };
    assert_eq!(
        success_line("example.com.png", &shot, "2"),
        "\u{2713} example.com.png \u{2014} 1440\u{d7}900 @2x, 2 KB"
    );
    assert_eq!(failure_line("https://a/", "boom"), "\u{2717} https://a/ \u{2014} boom");
}

#[test]
fn finished_captures_are_announced() {
    let mode = CaptureMode::Element { selector: ".t".into(), padding: 8 };
    let shot = Shot { width: 141, height: 81, scale: d(1.0), bytes: 2048 };
    let tell = |json: bool, failed: bool| {
        let outcome = if failed { Err("selector never\nappeared".to_string()) } else { Ok(shot) };
        let absolute = "/home/x/shots/a.png".to_string();
        let line = announce_at(
            json, "https://a/", "shots/a.png", absolute, &mode, Format::Png, &outcome, "1", "1.0",
        );
        (line.channel, line.text)
    };
    assert_eq!(
        tell(true, false),
        (
            Channel::Output,
            r#"{"status":"ok","url":"https://a/","output":"/home/x/shots/a.png","mode":"element","selector":".t","padding":8,"css_width":141,"css_height":81,"scale":1.0,"format":"png","bytes":2048}"#.to_string()
        )
    );
    assert_eq!(
        tell(true, true),
        (
            Channel::Output,
            r#"{"status":"error","url":"https://a/","output":"/home/x/shots/a.png","mode":"element","selector":".t","padding":8,"error":"selector never\nappeared"}"#.to_string()
        )
    );
    assert_eq!(
        tell(false, false),
        (Channel::Output, "\u{2713} shots/a.png \u{2014} 141\u{d7}81 @1x, 2 KB".to_string())
    );
    assert_eq!(
        tell(false, true),
        (Channel::Error, "\u{2717} https://a/ \u{2014} selector never\nappeared".to_string())
    );
    for (path, output) in [("/tmp//shots/./a.png", "/tmp/shots/a.png"), ("", "")] {
        let line = announce(true, "u", path, &CaptureMode::Viewport, Format::Png, &Ok(shot), "1", "1.0");
        let report: serde_json::Value = serde_json::from_str(&line.text).unwrap();
        assert_eq!(report["output"], output);
    }
}
