//! Addresses of pages, batches and their files.

use iris::address::{collect_urls, gather, normalize_url, read_list, CollectError, HostKind, PageUrl};
use iris::image::{Format, ImageFormat};
use iris::output::{derived_name, resolve_outputs, OutputPath, Placement};

fn url(text: &str) -> PageUrl {
    normalize_url(text).unwrap()
}

fn strings(list: &[&str]) -> Vec<String> {
    list.iter().map(|s| s.to_string()).collect()
}

#[test]
fn local_urls_use_http_and_public_hosts_use_https() {
    assert_eq!(normalize_url("localhost:3000").unwrap().text, "http://localhost:3000/");
    assert_eq!(normalize_url("app.localhost:4173").unwrap().text, "http://app.localhost:4173/");
    assert_eq!(normalize_url("127.0.0.1:8080").unwrap().text, "http://127.0.0.1:8080/");
    assert_eq!(normalize_url("example.com").unwrap().text, "https://example.com/");
    assert_eq!(normalize_url("http://example.com").unwrap().text, "http://example.com/");
}

#[test]
fn loopback_addresses_are_local_in_every_form() {
    assert_eq!(url("LOCALHOST").text, "http://localhost/");
    assert_eq!(url("127.9.8.7/x").text, "http://127.9.8.7/x");
    assert_eq!(url("0.0.0.0:1").text, "https://0.0.0.0:1/");
    assert_eq!(url("[::1]:8080").text, "http://[::1]:8080/");
    assert_eq!(url("[::2]").text, "https://[::2]/");
    assert_eq!(url("128.0.0.1").text, "https://128.0.0.1/");
    assert_eq!(url("notlocalhost").text, "https://notlocalhost/");
    assert_eq!(url("localhost.com").text, "https://localhost.com/");
    assert_eq!(url("https://localhost").text, "https://localhost/");
}

#[test]
fn urls_are_read_out_in_parts() {
    let u = url("https://User@Example.COM:444/a/b?q#f");
    assert_eq!(u.text, "https://User@example.com:444/a/b?q#f");
    assert_eq!(u.host.as_deref(), Some("example.com"));
    assert_eq!(u.kind, HostKind::Name);
    assert_eq!(u.path, "/a/b");
    let v4 = url("http://1.2.3.4");
    assert_eq!(v4.kind, HostKind::V4(0x0102_0304));
    assert_eq!(v4.host.as_deref(), Some("1.2.3.4"));
    let v6 = url("http://[::ff]/");
    assert_eq!(v6.kind, HostKind::V6(0xff));
    assert_eq!(v6.host.as_deref(), Some("[::ff]"));
    let file = url("file:///tmp/a.html");
    assert_eq!(file.kind, HostKind::Missing);
    assert_eq!(file.host, None);
    assert_eq!(file.path, "/tmp/a.html");
}

#[test]
fn what_is_no_url_is_refused() {
    let bare = normalize_url("exa mple").unwrap_err();
    assert_eq!(bare.url, "exa mple");
    assert!(bare.message().starts_with("invalid URL: exa mple: "));
    let schemed = normalize_url("http://").unwrap_err();
    assert_eq!(schemed.message(), "invalid URL: http://: empty host");
}

#[test]
fn lists_skip_blanks_and_comments() {
    let list = "a.com\r\n\n  # note\n\t b.com \u{3000}\n#c.com\n   \nd.com";
    assert_eq!(read_list(list), strings(&["a.com", "b.com", "d.com"]));
    assert_eq!(read_list(""), strings(&[]));
    assert_eq!(read_list("a#b\n"), strings(&["a#b"]));
}

#[test]
fn arguments_and_lists_are_gathered_in_order() {
    let args = strings(&["x", "-", "y", "-"]);
    let lists = strings(&["1\n2", ""]);
    assert_eq!(gather(&args, &lists), strings(&["x", "1", "2", "y"]));
    assert_eq!(gather(&args, &strings(&[])), strings(&["x", "y"]));
    assert_eq!(gather(&strings(&["x", "# y"]), &lists), strings(&["x", "# y"]));
}

#[test]
fn a_batch_is_collected_or_refused() {
    let urls = collect_urls(&strings(&["example.com", "http://b.org/x", "localhost"]), &vec![]).unwrap();
    let texts: Vec<&str> = urls.iter().map(|u| u.text.as_str()).collect();
    assert_eq!(texts, ["https://example.com/", "http://b.org/x", "https://localhost/"]);

    let none = collect_urls(&strings(&["-"]), &strings(&["# nothing\n"])).unwrap_err();
    assert!(matches!(none, CollectError::NoUrls));
    assert_eq!(none.message(), "no URLs given");

    let bad = collect_urls(&strings(&["ok.com", "a b", "c d"]), &vec![]).unwrap_err();
    assert!(matches!(&bad, CollectError::Invalid(e) if e.url == "https://a b"));
    assert!(bad.message().starts_with("invalid URL: https://a b: "));
}

#[test]
fn names_are_derived_from_urls() {
    assert_eq!(derived_name(&url("https://example.com/pricing/")), "example.com-pricing");
    assert_eq!(derived_name(&url("https://example.com/")), "example.com");
    assert_eq!(derived_name(&url("https://example.com/a/b_c/d%20e?q=1")), "example.com-a-b_c-d-20e");
    assert_eq!(derived_name(&url("file:///tmp/page.html")), "page-tmp-page.html");
    assert_eq!(derived_name(&url("http://[::1]:3/x")), "---1--x");
}

fn names(urls: &[&str], out: Option<&OutputPath>, flag: Option<Format>) -> Vec<String> {
    let pages: Vec<PageUrl> = urls.iter().map(|u| url(u)).collect();
    resolve_outputs(&pages, out, flag)
        .targets
        .into_iter()
        .map(|t| match t.file {
            Placement::Given => "(given)".to_string(),
            Placement::Named(name) => name,
        })
        .collect()
}

#[test]
fn repeated_names_are_numbered() {
    let batch = ["a.com", "b.com", "a.com/", "a.com", "b.com#x"];
    assert_eq!(
        names(&batch, None, None),
        ["a.com.png", "b.com.png", "a.com-2.png", "a.com-3.png", "b.com-2.png"]
    );
    // A number that another page's own name has taken is passed over.
    assert_eq!(
        names(&["a.com", "a.com", "a.com/2"], None, Some(Format::Webp)),
        ["a.com.webp", "a.com-2.webp", "a.com-2-2.webp"]
    );
    assert_eq!(
        names(&["a.com/x", "a.com/x", "a.com/x-2"], None, None),
        ["a.com-x.png", "a.com-x-2.png", "a.com-x-2-2.png"]
    );
    assert_eq!(
        names(&["a.com/2", "a.com", "a.com", "a.com"], None, None),
        ["a.com-2.png", "a.com.png", "a.com-3.png", "a.com-4.png"]
    );
}

#[test]
fn files_of_a_batch_are_distinct() {
    let parts = ["a.com", "a.com/2", "a.com/2/2", "a.com/3", "a.com/2-2"];
    for seed in 0..400usize {
        let batch: Vec<&str> = (0..7).map(|i| parts[(seed * 31 + i * i * (seed + 3)) / 5 % 5]).collect();
        let mut files = names(&batch, None, None);
        files.sort();
        files.dedup();
        assert_eq!(files.len(), batch.len(), "{:?}", batch);
    }
}

#[test]
fn a_known_extension_gives_the_exact_file() {
    let jpg = OutputPath::new("shots/hero.JPG");
    assert_eq!(jpg.extension.as_deref(), Some("JPG"));
    let one = vec![url("a.com")];
    let given = resolve_outputs(&one, Some(&jpg), Some(Format::Webp));
    assert_eq!(given.format, Format::Jpeg);
    assert_eq!(given.targets.len(), 1);
    assert!(matches!(given.targets[0].file, Placement::Given));
    assert_eq!(given.targets[0].url, "https://a.com/");

    assert_eq!(names(&["a.com", "b.com"], Some(&jpg), None), ["a.com.png", "b.com.png"]);
    let dir = OutputPath::new("shots/v1.2/");
    assert_eq!(names(&["a.com"], Some(&dir), Some(Format::Jpeg)), ["a.com.jpg"]);
    assert_eq!(OutputPath::new("shots").extension, None);
    assert_eq!(OutputPath::new(".png").extension, None);
}

#[test]
fn files_lie_directly_in_the_output_directory() {
    let pages = vec![url("a.com/x"), url("a.com/x")];
    for (out, first, second) in [
        (None, "./a.com-x.png", "./a.com-x-2.png"),
        (Some("shots"), "shots/a.com-x.png", "shots/a.com-x-2.png"),
        (Some("/tmp/v1.png/"), "/tmp/v1.png/a.com-x.png", "/tmp/v1.png/a.com-x-2.png"),
        (Some(""), "a.com-x.png", "a.com-x-2.png"),
        (Some("at-12:30"), "at-12:30/a.com-x.png", "at-12:30/a.com-x-2.png"),
        (Some("//net/shots"), "//net/shots/a.com-x.png", "//net/shots/a.com-x-2.png"),
        (Some("back\\slash"), "back\\slash/a.com-x.png", "back\\slash/a.com-x-2.png"),
    ] {
        let dir = out.map(OutputPath::new);
        let outputs = resolve_outputs(&pages, dir.as_ref(), None);
        let paths: Vec<&str> = outputs.targets.iter().map(|t| t.path.as_str()).collect();
        assert_eq!(paths, [first, second]);
    }
    let given = OutputPath::new("x/hero.png");
    let one = vec![url("a.com")];
    assert_eq!(resolve_outputs(&one, Some(&given), None).targets[0].path, "x/hero.png");
}

#[test]
fn hosts_are_never_empty() {
    for text in ["foo:///x", "foo://", "file://localhost/x", "file:///C:/x", "data:text/plain,x"] {
        if let Ok(u) = normalize_url(text) {
            assert_ne!(u.host.as_deref(), Some(""), "{}", text);
            assert_eq!(u.host.is_none(), u.kind == HostKind::Missing, "{}", text);
            assert!(!derived_name(&u).is_empty(), "{}", text);
        }
    }
}

#[test]
fn extensions_are_read_off_the_file_name() {
    for (path, extension) in [
        ("shot.webp", Some("webp")),
        ("/tmp/a.b/shot.tar.gz", Some("gz")),
        ("a.b/shot", None),
        ("a/.png", None),
        ("a/.x.png", Some("png")),
        ("shot.", Some("")),
        ("a.png/..", None),
        ("a.b/shot.png/", Some("png")),
        ("shot.png/.", Some("png")),
        ("shot.png//././", Some("png")),
        ("shot-12:30.png", Some("png")),
        ("shot-12:30", None),
        ("v1.2/shot-12:30", None),
        ("C:\\shots\\a.webp", Some("webp")),
        ("x\\y.jpg", Some("jpg")),
        ("../.", None),
        ("./.", None),
        ("/", None),
        ("", None),
    ] {
        assert_eq!(OutputPath::new(path).extension.as_deref(), extension, "{}", path);
        assert_eq!(OutputPath::new(path).text, path);
    }
}

#[test]
fn formats_go_by_their_names() {
    for (name, format) in [
        ("png", Some(Format::Png)),
        ("PNG", Some(Format::Png)),
        ("jpg", Some(Format::Jpeg)),
        ("jPeG", Some(Format::Jpeg)),
        ("webp", Some(Format::Webp)),
        ("gif", None),
        ("", None),
        ("pngx", None),
    ] {
        assert_eq!(Format::from_ext(name), format);
    }
    for format in [Format::Png, Format::Jpeg, Format::Webp] {
        assert_eq!(Format::from_ext(format.ext()), Some(format));
    }
    assert_eq!(Format::Jpeg.ext(), "jpg");
    assert_eq!(Format::Png.mime_type(), "image/png");
    assert_eq!(Format::Jpeg.mime_type(), "image/jpeg");
    assert_eq!(Format::Webp.mime_type(), "image/webp");
    assert_eq!(ImageFormat::Png.capture_format(), Format::Png);
    assert_eq!(ImageFormat::Jpg.capture_format(), Format::Jpeg);
    assert_eq!(ImageFormat::Jpeg.capture_format(), Format::Jpeg);
    assert_eq!(ImageFormat::Webp.capture_format(), Format::Webp);
}
