//! The course of a capture and the sessions it runs in.

use iris::clip::ElementBounds;
use iris::course::{Answer, Course, Task, Verdict};
use iris::double::Double;
use iris::image::Format;
use iris::mode::CaptureMode;
use iris::plan::{selector_budget_ms, Step, IPHONE_UA};
use iris::report::CapturedImage;
use iris::request::Opts;
use iris::scripts::{
    element_bounds_js, wait_and_scroll_js, wait_for_js, DOC_HEIGHT_JS, SCROLL_JS, SETTLE_JS,
};
use iris::session::{
    candidates, drops_session, exception_message, exit_code, find_chrome, job_count,
    keeps_listening, page_timeout, profile_dir_name, reuses_session, scrub_user_agent,
    tab_timeout_message, timeout_message, Delivery, Platform,
};
use iris::viewport::Viewport;

fn d(x: f64) -> Double {
    Double { bits: x.to_bits() }
}

fn opts(mode: CaptureMode) -> Opts {
    Opts {
        viewport: Viewport { width: 320, height: 240, scale: d(1.0), mobile: false },
        mode,
        dark: false,
        wait_ms: 0,
        wait_for: None,
        timeout_secs: 3,
        format: Format::Png,
    }
}

fn label(task: &Task) -> String {
    match task {
        Task::Perform(Step::Metrics(v)) => format!("metrics {}x{}", v.width, v.height),
        Task::Perform(Step::UserAgent(agent)) => format!("agent {}", agent),
        Task::Perform(Step::Dark) => "dark".to_string(),
        Task::Perform(Step::Open(url)) => format!("open {}", url),
        Task::Perform(Step::AwaitNavigation) => "navigation".to_string(),
        Task::Perform(Step::Settle) => "settle".to_string(),
        Task::Perform(Step::Scroll) => "scroll".to_string(),
        Task::Perform(Step::AwaitSelector(s)) => format!("await {}", s),
        Task::Perform(Step::Reveal(s)) => format!("reveal {}", s),
        Task::Perform(Step::Sleep(ms)) => format!("sleep {}", ms),
        Task::MeasureHeight => "height".to_string(),
        Task::MeasureElement(_) => "element".to_string(),
        Task::Shoot(s) => format!("shoot full={} clip={}", s.full_page, s.clip.is_some()),
    }
}

/// Runs a capture to its end; `fail_at` names a task that fails.
fn run(
    opts: &Opts,
    agent: Option<String>,
    height: Option<f64>,
    fail_at: &str,
) -> (Vec<String>, Result<CapturedImage, String>) {
    let mut course = Course::begin("https://a/", &agent, opts);
    let mut log = vec![];
    loop {
        let task = course.task().expect("a task is due");
        let name = label(&task);
        log.push(name.clone());
        let answer = if name == fail_at {
            Answer::Failed(format!("{} failed", name))
        } else {
            match task {
                Task::Perform(_) => Answer::Done,
                Task::MeasureHeight => Answer::Height(height.map(d)),
                Task::MeasureElement(_) => Answer::Bounds(ElementBounds {
                    x: d(10.25),
                    y: d(20.75),
                    width: d(100.5),
                    height: d(50.5),
                    doc_width: d(200.0),
                    doc_height: d(200.0),
                }),
                Task::Shoot(_) => Answer::Image(vec![1, 2, 3]),
            }
        };
        let (next, verdict) = course.answer(answer);
        course = next;
        match verdict {
            Verdict::Continue => {}
            Verdict::Captured(image) => {
                assert!(course.task().is_none());
                return (log, Ok(image));
            }
            Verdict::Failed(error) => {
                assert!(course.task().is_none());
                return (log, Err(error));
            }
        }
    }
}

#[test]
fn a_viewport_is_captured() {
    let mut o = opts(CaptureMode::Viewport);
    o.dark = true;
    o.wait_ms = 250;
    o.wait_for = Some("h1".into());
    let (log, result) = run(&o, Some("UA".into()), None, "");
    assert_eq!(
        log,
        [
            "metrics 320x240", "agent UA", "dark", "open https://a/", "navigation", "settle",
            "await h1", "sleep 250", "settle", "shoot full=false clip=false",
        ]
    );
    let image = result.unwrap();
    assert_eq!((image.shot.width, image.shot.height, image.shot.scale), (320, 240, d(1.0)));
    assert_eq!((image.shot.bytes, image.data), (3, vec![1, 2, 3]));
}

#[test]
fn a_full_page_is_captured() {
    let o = opts(CaptureMode::FullPage);
    let (log, result) = run(&o, None, Some(1200.0), "");
    assert_eq!(
        log,
        [
            "metrics 320x240", "open https://a/", "navigation", "settle", "scroll", "height",
            "metrics 320x1200", "settle", "shoot full=false clip=false",
        ]
    );
    assert_eq!(result.unwrap().shot.height, 1200);

    let (log, result) = run(&o, None, Some(16001.0), "");
    assert_eq!(log.last().unwrap(), "shoot full=true clip=false");
    let shot = result.unwrap().shot;
    assert_eq!((shot.height, shot.scale), (16001, d(1.0)));
}

#[test]
fn a_height_that_cannot_be_measured_is_that_of_the_viewport() {
    let o = opts(CaptureMode::FullPage);
    let (_, result) = run(&o, None, None, "height");
    assert_eq!(result.unwrap().shot.height, 240);
    let (_, result) = run(&o, None, None, "");
    assert_eq!(result.unwrap().shot.height, 240);
}

#[test]
fn an_element_is_captured() {
    let o = opts(CaptureMode::Element { selector: "#x".into(), padding: 5 });
    let (log, result) = run(&o, None, None, "");
    assert_eq!(
        log,
        [
            "metrics 320x240", "open https://a/", "navigation", "settle", "reveal #x", "settle",
            "element", "shoot full=false clip=true",
        ]
    );
    let shot = result.unwrap().shot;
    assert_eq!((shot.width, shot.height), (111, 62));
}

#[test]
fn the_first_failure_ends_a_capture() {
    let o = opts(CaptureMode::Element { selector: "#x".into(), padding: 5 });
    for task in ["metrics 320x240", "navigation", "reveal #x", "element", "shoot full=false clip=true"] {
        let (log, result) = run(&o, None, None, task);
        assert_eq!(log.last().unwrap(), task);
        assert_eq!(result.unwrap_err(), format!("{} failed", task));
    }
}

#[test]
fn an_element_outside_the_document_fails_the_capture() {
    let o = opts(CaptureMode::Element { selector: "#x".into(), padding: 0 });
    let mut course = Course::begin("u", &None, &o);
    while let Some(Task::Perform(_)) = course.task() {
        course = course.answer(Answer::Done).0;
    }
    let outside = ElementBounds {
        x: d(500.0),
        y: d(0.0),
        width: d(5.0),
        height: d(5.0),
        doc_width: d(200.0),
        doc_height: d(200.0),
    };
    match course.answer(Answer::Bounds(outside)).1 {
        Verdict::Failed(error) => assert_eq!(
            error,
            "cannot capture selected element: #x: selected element is outside the document bounds"
        ),
        _ => panic!("a failure"),
    }
}

#[test]
fn phones_present_their_own_agent() {
    let mut o = opts(CaptureMode::Viewport);
    o.viewport.mobile = true;
    let (log, _) = run(&o, Some("UA".into()), None, "");
    assert_eq!(log[1], format!("agent {}", IPHONE_UA));
    assert_eq!(
        IPHONE_UA,
        "Mozilla/5.0 (iPhone; CPU iPhone OS 17_5 like Mac OS X) \
     AppleWebKit/605.1.15 (KHTML, like Gecko) Version/17.5 Mobile/15E148 Safari/604.1"
    );
}

#[test]
fn scripts_hold_their_selector_as_a_literal() {
    let wait = wait_for_js("a\"]\n", 1500);
    assert!(wait.starts_with("(async () => {\n  const deadline = Date.now() + 1500;\n  const selector = \"a\\\"]\\n\";\n"));
    assert!(wait.ends_with("await new Promise(r => setTimeout(r, 100));\n  }\n})()"));
    assert!(!wait.contains("scrollIntoView"));
    let reveal = wait_and_scroll_js("h1", 0);
    assert!(reveal.contains("const deadline = Date.now() + 0;\n  const selector = \"h1\";\n"));
    assert!(reveal.contains("element.scrollIntoView({ block: \"center\", inline: \"center\" });"));
    let measure = element_bounds_js("h1");
    assert!(measure.starts_with("(() => {\n  const selector = \"h1\";\n  let element;\n"));
    assert!(measure.contains("throw new Error(\"element has no rendered size: \" + selector);"));
    assert!(SETTLE_JS.starts_with("(async () => {\n  if (document.fonts)"));
    assert!(SCROLL_JS.contains("window.scrollTo(0, y);"));
    assert!(DOC_HEIGHT_JS.starts_with("Math.max("));
}

#[test]
fn steps_run_their_scripts() {
    assert_eq!(Step::Settle.script(1).as_deref(), Some(SETTLE_JS));
    assert_eq!(Step::Scroll.script(1).as_deref(), Some(SCROLL_JS));
    assert_eq!(Step::AwaitSelector("a".into()).script(7), Some(wait_for_js("a", 7)));
    assert_eq!(Step::Reveal("a".into()).script(7), Some(wait_and_scroll_js("a", 7)));
    assert_eq!(Step::Dark.script(1), None);
}

#[test]
fn selectors_are_waited_for_within_the_time_of_the_page() {
    assert_eq!(selector_budget_ms(3, 0), 2500);
    assert_eq!(selector_budget_ms(3, 1_200_300_400), 1299);
    assert_eq!(selector_budget_ms(3, 2_600_000_000), 0);
    assert_eq!(selector_budget_ms(3, 9_000_000_000), 0);
    assert_eq!(selector_budget_ms(0, 0), 0);
}

#[test]
fn browsers_are_chosen_in_order() {
    assert_eq!(candidates(Platform::MacOs).len(), 5);
    assert_eq!(candidates(Platform::Windows).len(), 3);
    assert_eq!(
        candidates(Platform::Other),
        ["/usr/bin/google-chrome", "/usr/bin/chromium", "/usr/bin/chromium-browser"]
    );
    assert_eq!(
        find_chrome(Platform::Other, &vec![false, true, true]).as_deref(),
        Some("/usr/bin/chromium")
    );
    assert_eq!(find_chrome(Platform::Other, &vec![false, false, false]), None);
    assert_eq!(find_chrome(Platform::Windows, &vec![]), None);
}

#[test]
fn agents_lose_the_mark_of_headless_mode() {
    assert_eq!(
        scrub_user_agent("Mozilla/5.0 HeadlessChrome/126.0 HeadlessChrome"),
        "Mozilla/5.0 Chrome/126.0 Chrome"
    );
    assert_eq!(scrub_user_agent("Chrome"), "Chrome");
    // The one kind of agent that keeps the mark.
    assert_eq!(scrub_user_agent("HeadlessHeadlessChrome"), "HeadlessChrome");
}

#[test]
fn exceptions_are_told_in_one_line() {
    assert_eq!(
        exception_message(&Some("Error: selector never appeared: h1\n    at x".into()), "Uncaught"),
        "Error: selector never appeared: h1"
    );
    assert_eq!(exception_message(&None, "Uncaught\r\nmore"), "Uncaught");
    assert_eq!(exception_message(&Some("".into()), "Uncaught"), "page script failed");
    assert_eq!(exception_message(&None, "\nx"), "");
}

#[test]
fn sessions_are_kept_while_they_are_healthy() {
    assert!(reuses_session(Some(true)));
    assert!(!reuses_session(Some(false)));
    assert!(!reuses_session(None));
    assert!(drops_session(true, false, true));
    assert!(!drops_session(false, false, true));
    assert!(!drops_session(true, true, true));
    assert!(!drops_session(true, false, false));
    assert!(keeps_listening(Delivery::Message));
    assert!(keeps_listening(Delivery::Unreadable));
    assert!(!keeps_listening(Delivery::Broken));
}

#[test]
fn batches_are_run_within_limits() {
    assert_eq!(job_count(None, 1), 1);
    assert_eq!(job_count(None, 3), 3);
    assert_eq!(job_count(None, 9), 4);
    assert_eq!(job_count(None, 0), 1);
    assert_eq!(job_count(Some(0), 9), 1);
    assert_eq!(job_count(Some(7), 2), 7);
    assert_eq!((page_timeout(0), page_timeout(30)), (1, 30));
    assert_eq!((exit_code(0), exit_code(3)), (0, 1));
    assert_eq!(timeout_message(30), "timed out after 30s");
    assert_eq!(tab_timeout_message(), "timed out opening a tab");
    assert_eq!(profile_dir_name(12, 3), "iris-chrome-12-3");
    assert_ne!(profile_dir_name(1, 23), profile_dir_name(12, 3));
}
