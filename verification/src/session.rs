//! Browser sessions: which browser to start, what it presents, when a session is kept.

use crate::text;
use crate::text::{decimal_text, lines, replace};
use vstd::prelude::*;
use vstd::string::*;

verus! {

/// The platforms that browsers are looked for on.
#[derive(Clone, Copy, Debug, PartialEq, Eq, Structural)]
pub enum Platform {
    MacOs,
    Windows,
    Other,
}

/// Where a platform installs browsers, the preferred one first.
pub open spec fn browser_paths(platform: Platform) -> Seq<Seq<char>> {
    match platform {
        Platform::MacOs => seq![
            "/Applications/Google Chrome.app/Contents/MacOS/Google Chrome"@,
            "/Applications/Chromium.app/Contents/MacOS/Chromium"@,
            "/Applications/Google Chrome Canary.app/Contents/MacOS/Google Chrome Canary"@,
            "/Applications/Microsoft Edge.app/Contents/MacOS/Microsoft Edge"@,
            "/Applications/Brave Browser.app/Contents/MacOS/Brave Browser"@,
        ],
        Platform::Windows => seq![
            r"C:\Program Files\Google\Chrome\Application\chrome.exe"@,
            r"C:\Program Files (x86)\Google\Chrome\Application\chrome.exe"@,
            r"C:\Program Files (x86)\Microsoft\Edge\Application\msedge.exe"@,
        ],
        Platform::Other => seq![
            "/usr/bin/google-chrome"@,
            "/usr/bin/chromium"@,
            "/usr/bin/chromium-browser"@,
        ],
    }
}

/// Where a platform installs browsers, the preferred one first.
pub fn candidates(platform: Platform) -> (r: Vec<String>)
    ensures
        text::texts(r@) == browser_paths(platform),
{
    let mut out: Vec<String> = Vec::new();
    match platform {
        Platform::MacOs => {
            out.push("/Applications/Google Chrome.app/Contents/MacOS/Google Chrome".to_owned());
            out.push("/Applications/Chromium.app/Contents/MacOS/Chromium".to_owned());
            out.push(
                "/Applications/Google Chrome Canary.app/Contents/MacOS/Google Chrome Canary".to_owned(),
            );
            out.push("/Applications/Microsoft Edge.app/Contents/MacOS/Microsoft Edge".to_owned());
            out.push("/Applications/Brave Browser.app/Contents/MacOS/Brave Browser".to_owned());
        },
        Platform::Windows => {
            out.push(r"C:\Program Files\Google\Chrome\Application\chrome.exe".to_owned());
            out.push(r"C:\Program Files (x86)\Google\Chrome\Application\chrome.exe".to_owned());
            out.push(r"C:\Program Files (x86)\Microsoft\Edge\Application\msedge.exe".to_owned());
        },
        Platform::Other => {
            out.push("/usr/bin/google-chrome".to_owned());
            out.push("/usr/bin/chromium".to_owned());
            out.push("/usr/bin/chromium-browser".to_owned());
        },
    }
    assert(text::texts(out@) =~= browser_paths(platform));
    out
}

/// The first place at which `flags` is set, among `n` places.
pub open spec fn first_set(flags: Seq<bool>, n: nat) -> Option<int>
    decreases n,
{
    if n == 0 {
        None
    } else {
        match first_set(flags, (n - 1) as nat) {
            Some(i) => Some(i),
            None => if n <= flags.len() && flags[n - 1] {
                Some(n - 1)
            } else {
                None
            },
        }
    }
}

/// The browser that a platform offers, given which of its candidates exist.
pub open spec fn offered(platform: Platform, existing: Seq<bool>) -> Option<Seq<char>> {
    match first_set(existing, browser_paths(platform).len()) {
        Some(i) => Some(browser_paths(platform)[i]),
        None => None,
    }
}

/// The first candidate that exists; `existing` tells of each candidate whether it does.
pub fn find_chrome(platform: Platform, existing: &Vec<bool>) -> (r: Option<String>)
    ensures
        text::text_option(r) == offered(platform, existing@),
{
    let paths = candidates(platform);
    let mut i: usize = 0;
    while i < paths.len()
        invariant
            text::texts(paths@) == browser_paths(platform),
            i <= paths@.len(),
            first_set(existing@, i as nat) is None,
        decreases paths@.len() - i,
    {
        assert(paths@[i as int]@ == browser_paths(platform)[i as int]);
        if i < existing.len() && existing[i] {
            proof {
                lemma_first_set_stays(existing@, (i + 1) as nat, paths@.len());
            }
            return Some(paths[i].clone());
        }
        i = i + 1;
    }
    None
}

proof fn lemma_first_set_stays(flags: Seq<bool>, m: nat, n: nat)
    requires
        m <= n,
        first_set(flags, m) is Some,
    ensures
        first_set(flags, n) == first_set(flags, m),
    decreases n,
{
    if m < n {
        lemma_first_set_stays(flags, m, (n - 1) as nat);
    }
}

/// The name of the profile directory of the `sequence`-th session of a process.
pub open spec fn profile_name(process: u32, sequence: u64) -> Seq<char> {
    "iris-chrome-"@ + text::decimal(process as nat) + seq!['-'] + text::decimal(sequence as nat)
}

/// The name of the profile directory of the `sequence`-th session of a process.
pub fn profile_dir_name(process: u32, sequence: u64) -> (r: String)
    ensures
        r@ == profile_name(process, sequence),
{
    let mut out = "iris-chrome-".to_owned();
    out.append(decimal_text(process as u128).as_str());
    out.push('-');
    out.append(decimal_text(sequence as u128).as_str());
    assert(out@ == profile_name(process, sequence));
    out
}

/// No two sessions share a profile directory.
pub proof fn law_profile_names_are_unique(p: u32, m: u64, q: u32, n: u64)
    requires
        profile_name(p, m) == profile_name(q, n),
    ensures
        p == q,
        m == n,
{
    let head = "iris-chrome-"@;
    text::law_decimal_reads_back(p as nat);
    text::law_decimal_reads_back(q as nat);
    text::law_decimal_reads_back(m as nat);
    text::law_decimal_reads_back(n as nat);
    let a = head + text::decimal(p as nat);
    let b = head + text::decimal(q as nat);
    text::lemma_dash_parts(a, text::decimal(m as nat), b, text::decimal(n as nat));
    assert(a.skip(head.len() as int) == text::decimal(p as nat));
    assert(b.skip(head.len() as int) == text::decimal(q as nat));
}

/// The browser's user agent without the mark of its headless mode.
pub open spec fn scrubbed(agent: Seq<char>) -> Seq<char> {
    text::replaced(agent, "HeadlessChrome"@, "Chrome"@)
}

/// The browser's user agent without the mark of its headless mode.
pub fn scrub_user_agent(agent: &str) -> (r: String)
    ensures
        r@ == scrubbed(agent@),
{
    proof {
        reveal_strlit("HeadlessChrome");
    }
    replace(agent, "HeadlessChrome", "Chrome")
}

/// What the connection to a browser delivers.
#[derive(Clone, Copy, Debug, PartialEq, Eq, Structural)]
pub enum Delivery {
    /// A message.
    Message,
    /// A message of a kind that the driver does not know.
    Unreadable,
    /// An error of the connection itself.
    Broken,
}

/// Whether to go on listening to a browser.
pub open spec fn listens(delivery: Delivery) -> bool {
    delivery != Delivery::Broken
}

/// Whether to go on listening to a browser: all but a broken connection is harmless.
pub fn keeps_listening(delivery: Delivery) -> (r: bool)
    ensures
        r == (delivery != Delivery::Broken),
        r == listens(delivery),
{
    match delivery {
        Delivery::Broken => false,
        _ => true,
    }
}

/// What an exception in a page says: the first line of its description, or of its text.
pub open spec fn exception_line(description: Option<Seq<char>>, message: Seq<char>) -> Seq<char> {
    let lines = text::lines_of(
        match description {
            Some(description) => description,
            None => message,
        },
    );
    if lines.len() > 0 {
        lines[0]
    } else {
        "page script failed"@
    }
}

/// What an exception in a page says.
pub fn exception_message(description: &Option<String>, message: &str) -> (r: String)
    ensures
        r@ == exception_line(text::text_option(*description), message@),
{
    let mut found = match description {
        Some(description) => lines(description.as_str()),
        None => lines(message),
    };
    let ghost all = text::texts(found@);
    if found.len() > 0 {
        assert(all[0] == found@[0]@);
        found.swap_remove(0)
    } else {
        "page script failed".to_owned()
    }
}

/// What the user reads of a page that took too long.
pub open spec fn timed_out(timeout_secs: u64) -> Seq<char> {
    "timed out after "@ + text::decimal(timeout_secs as nat) + "s"@
}

/// What the user reads of a page that took too long.
pub fn timeout_message(timeout_secs: u64) -> (r: String)
    ensures
        r@ == "timed out after "@ + text::decimal(timeout_secs as nat) + "s"@,
        r@ == timed_out(timeout_secs),
{
    let mut out = "timed out after ".to_owned();
    out.append(decimal_text(timeout_secs as u128).as_str());
    out.append("s");
    out
}

/// What the user reads of a tab that did not open in time.
pub fn tab_timeout_message() -> (r: &'static str)
    ensures
        r@ == "timed out opening a tab"@,
{
    "timed out opening a tab"
}

/// Whether a held session serves the next capture.
pub open spec fn serves(held: Option<bool>) -> bool {
    held == Some(true)
}

/// Whether a held session serves the next capture; `held` tells whether it is healthy.  If not,
/// it is let go and another one started.
pub fn reuses_session(held: Option<bool>) -> (r: bool)
    ensures
        r == (held == Some(true)),
        r == serves(held),
{
    match held {
        Some(healthy) => healthy,
        None => false,
    }
}

/// Whether a capture lets the held session go.
pub open spec fn lets_go(failed: bool, healthy: bool, held: bool) -> bool {
    failed && !healthy && held
}

/// Whether a capture lets the held session go: it failed, its session is no longer healthy, and
/// that session is still the one held.
pub fn drops_session(failed: bool, healthy: bool, held: bool) -> (r: bool)
    ensures
        r == (failed && !healthy && held),
        r == lets_go(failed, healthy, held),
{
    failed && !healthy && held
}

/// How many pages are captured at once.
pub open spec fn jobs_at_once(jobs: Option<nat>, pages: nat) -> nat {
    let wanted = match jobs {
        Some(n) => n,
        None => if pages < 4 {
            pages
        } else {
            4
        },
    };
    if wanted == 0 {
        1
    } else {
        wanted
    }
}

/// How many pages are captured at once: as many as asked for, else one per page up to four; never
/// none.
pub fn job_count(jobs: Option<usize>, pages: usize) -> (r: usize)
    ensures
        r == jobs_at_once(
            match jobs {
                Some(n) => Some(n as nat),
                None => None,
            },
            pages as nat,
        ),
        r >= 1,
        jobs matches Some(n) ==> n >= 1 ==> r == n,
        jobs matches Some(n) ==> n == 0 ==> r == 1,
        jobs is None && 1 <= pages <= 4 ==> r == pages,
        jobs is None && pages > 4 ==> r == 4,
        jobs is None && pages == 0 ==> r == 1,
{
    let wanted: usize = match jobs {
        Some(n) => n,
        None => if pages < 4 {
            pages
        } else {
            4
        },
    };
    if wanted == 0 {
        1
    } else {
        wanted
    }
}

/// The time that the command line gives a page.
pub open spec fn seconds_given(seconds: u64) -> u64 {
    if seconds == 0 {
        1
    } else {
        seconds
    }
}

/// The time that the command line gives a page: at least one second.
pub fn page_timeout(seconds: u64) -> (r: u64)
    ensures
        r == seconds_given(seconds),
        r == if seconds == 0 {
            1
        } else {
            seconds
        },
{
    if seconds == 0 {
        1
    } else {
        seconds
    }
}

/// The exit code of a batch.
pub open spec fn code_of(failed: nat) -> i32 {
    if failed > 0 {
        1
    } else {
        0
    }
}

/// The exit code of a batch: 1 if any capture failed.
pub fn exit_code(failed: usize) -> (r: i32)
    ensures
        r == if failed > 0 {
            1i32
        } else {
            0i32
        },
        r == code_of(failed as nat),
{
    if failed > 0 {
        1
    } else {
        0
    }
}

/// While nothing is replaced, the characters are kept in their places.
proof fn lemma_kept(s: Seq<char>, k: int)
    requires
        0 <= k <= 14,
        text::occurs_at(scrubbed(s), "HeadlessChrome"@, 0),
        !text::occurs_at(s, "HeadlessChrome"@, 0),
        !text::occurs_in(s, "HeadlessHeadlessChrome"@),
    ensures
        k <= s.len(),
        scrubbed(s).skip(k) == scrubbed(s.skip(k)),
        s.take(k) == "HeadlessChrome"@.take(k),
    decreases k,
{
    reveal_strlit("HeadlessChrome");
    reveal_strlit("HeadlessHeadlessChrome");
    reveal_strlit("Chrome");
    let mark = "HeadlessChrome"@;
    let out = scrubbed(s);
    assert(out.subrange(0, 14) == mark);
    if k == 0 {
        assert(out.skip(0) == out);
        assert(s.skip(0) == s);
    } else {
        let j = k - 1;
        lemma_kept(s, j);
        let t = s.skip(j);
        assert(out.skip(j)[0] == out[j]);
        assert(out[j] == out.subrange(0, 14)[j]);
        assert(scrubbed(t)[0] == mark[j]);
        if t.len() < 14 {
            assert(scrubbed(t) == t);
            assert(scrubbed(t).len() > 0);
            assert(t.skip(1) == s.skip(k));
            assert(scrubbed(s.skip(k)) == s.skip(k));
        } else if text::occurs_at(t, mark, 0) {
            if j == 0 {
                assert(t == s);
            }
            assert(scrubbed(t)[0] == 'C');
            assert(j == 8);
            let double = "HeadlessHeadlessChrome"@;
            assert forall|i: int| 0 <= i < 22 implies #[trigger] s.subrange(0, 22)[i] == double[i] by {
                if i < 8 {
                    assert(s[i] == s.take(8)[i]);
                    assert(mark.take(8)[i] == mark[i]);
                } else {
                    assert(s[i] == t.subrange(0, 14)[i - 8]);
                }
            }
            assert(s.subrange(0, 22) =~= double);
            assert(text::occurs_at(s, double, 0));
            assert(false);
        } else {
            assert(t.skip(1) == s.skip(k));
            assert(scrubbed(t) == seq![t[0]] + scrubbed(t.skip(1)));
            assert(scrubbed(t).skip(1) == scrubbed(t.skip(1)));
        }
        assert(out.skip(k) == out.skip(j).skip(1));
        assert(s.take(k) =~= s.take(j).push(s[j]));
        assert(mark.take(k) =~= mark.take(j).push(mark[j]));
        assert(t[0] == s[j]);
    }
}

/// A scrubbed user agent no longer names the headless browser.
pub proof fn law_scrubbed_agent_is_not_headless(agent: Seq<char>)
    requires
        !text::occurs_in(agent, "HeadlessHeadlessChrome"@),
    ensures
        !text::occurs_in(scrubbed(agent), "HeadlessChrome"@),
    decreases agent.len(),
{
    reveal_strlit("HeadlessChrome");
    reveal_strlit("Chrome");
    let mark = "HeadlessChrome"@;
    let double = "HeadlessHeadlessChrome"@;
    let out = scrubbed(agent);
    if text::occurs_in(out, mark) {
        let i = choose|i: int| text::occurs_at(out, mark, i);
        assert(out.subrange(i, i + 14)[0] == 'H');
        if agent.len() < 14 {
            assert(out == agent);
        } else if text::occurs_at(agent, mark, 0) {
            let rest = agent.skip(14);
            assert(out == "Chrome"@ + scrubbed(rest));
            if i < 6 {
                assert(out[i] == "Chrome"@[i]);
            } else {
                assert(scrubbed(rest).subrange(i - 6, i + 8) =~= out.subrange(i, i + 14));
                assert(text::occurs_at(scrubbed(rest), mark, i - 6));
                lemma_occurs_later(agent, double, 14);
                law_scrubbed_agent_is_not_headless(rest);
            }
        } else {
            let rest = agent.skip(1);
            assert(out == seq![agent[0]] + scrubbed(rest));
            if i == 0 {
                lemma_kept(agent, 14);
                assert(mark.take(14) =~= mark);
                assert(agent.take(14) =~= agent.subrange(0, 14));
            } else {
                assert(scrubbed(rest).subrange(i - 1, i + 13) =~= out.subrange(i, i + 14));
                assert(text::occurs_at(scrubbed(rest), mark, i - 1));
                lemma_occurs_later(agent, double, 1);
                law_scrubbed_agent_is_not_headless(rest);
            }
        }
    }
}

/// What stands in the rest of a text stands in the text.
proof fn lemma_occurs_later(s: Seq<char>, t: Seq<char>, n: int)
    requires
        0 <= n <= s.len(),
        !text::occurs_in(s, t),
    ensures
        !text::occurs_in(s.skip(n), t),
{
    if text::occurs_in(s.skip(n), t) {
        let i = choose|i: int| text::occurs_at(s.skip(n), t, i);
        assert(s.skip(n).subrange(i, i + t.len()) =~= s.subrange(n + i, n + i + t.len()));
        assert(text::occurs_at(s, t, n + i));
    }
}

/// A number of jobs that is asked for is taken, unless it is none; else there are as many as pages,
/// one at the least and four at the most.
pub proof fn law_jobs_are_as_many_as_asked_for(n: nat, pages: nat)
    ensures
        n > 0 ==> jobs_at_once(Some(n), pages) == n,
        jobs_at_once(Some(0), pages) == 1,
        1 <= jobs_at_once(None, pages) <= 4,
        1 <= pages <= 4 ==> jobs_at_once(None, pages) == pages,
        pages >= 4 ==> jobs_at_once(None, pages) == 4,
{
}

/// A page has the seconds asked for, and never none.
pub proof fn law_pages_have_time(seconds: u64)
    ensures
        seconds > 0 ==> seconds_given(seconds) == seconds,
        seconds_given(0) == 1,
{
}

/// A batch exits with 0 exactly where nothing failed, and else with 1.
pub proof fn law_failures_show_in_the_exit_code(failed: nat)
    ensures
        code_of(failed) == 0 <==> failed == 0,
        failed > 0 ==> code_of(failed) == 1,
{
}

/// Only a healthy session serves again.  A session is let go only where it is held, is not healthy,
/// and a capture failed in it, and always there.
pub proof fn law_only_healthy_sessions_are_kept(failed: bool, healthy: bool, held: bool)
    ensures
        serves(Some(healthy)) <==> healthy,
        !serves(None),
        lets_go(failed, healthy, held) ==> failed && held && !healthy,
        failed && held && !healthy ==> lets_go(failed, healthy, held),
{
}

/// The message of a timeout holds its seconds and their unit at its end.
pub proof fn law_timeouts_tell_their_seconds(timeout_secs: u64)
    ensures
        text::occurs_at(
            timed_out(timeout_secs),
            text::decimal(timeout_secs as nat) + seq!['s'],
            timed_out(timeout_secs).len() - text::decimal(timeout_secs as nat).len() - 1,
        ),
{
    reveal_strlit("s");
    let s = timed_out(timeout_secs);
    let tail = text::decimal(timeout_secs as nat) + seq!['s'];
    assert(s.subrange(s.len() - tail.len(), s.len() as int) =~= tail);
}

/// The browser that is offered is the first candidate that exists; none is offered exactly where
/// none exists.
pub proof fn law_the_first_browser_is_offered(platform: Platform, existing: Seq<bool>)
    requires
        existing.len() == browser_paths(platform).len(),
    ensures
        offered(platform, existing) is None <==> forall|i: int|
            0 <= i < existing.len() ==> !#[trigger] existing[i],
        offered(platform, existing) matches Some(path) ==> exists|i: int|
            0 <= i < existing.len() && #[trigger] existing[i] && path == browser_paths(platform)[i]
                && forall|j: int| 0 <= j < i ==> !#[trigger] existing[j],
{
    lemma_first_set(existing, existing.len());
}

proof fn lemma_first_set(flags: Seq<bool>, n: nat)
    requires
        n <= flags.len(),
    ensures
        first_set(flags, n) is None ==> forall|i: int| 0 <= i < n ==> !#[trigger] flags[i],
        first_set(flags, n) matches Some(i) ==> 0 <= i < n && flags[i] && forall|j: int|
            0 <= j < i ==> !#[trigger] flags[j],
    decreases n,
{
    if n > 0 {
        lemma_first_set(flags, (n - 1) as nat);
    }
}

/// An exception is told by the first line of its description, or of its text where it has none, up
/// to the line feed and a carriage return before that; an empty one is told in general words.
pub proof fn law_exceptions_are_told_by_their_first_line(
    description: Option<Seq<char>>,
    message: Seq<char>,
    line: Seq<char>,
    rest: Seq<char>,
)
    requires
        !line.contains('\n'),
        line.len() == 0 || line.last() != '\r',
    ensures
        ({
            let told = match description {
                Some(description) => description,
                None => message,
            };
            &&& told == line + seq!['\n'] + rest || told == line + seq!['\r', '\n'] + rest
                ==> exception_line(description, message) == line
            &&& told == line && line.len() > 0 ==> exception_line(description, message) == line
            &&& told.len() == 0 ==> exception_line(description, message) == "page script failed"@
        }),
{
    text::law_lines_end_at_line_feeds(line, rest);
    let told = match description {
        Some(description) => description,
        None => message,
    };
    if told.len() == 0 {
        assert(told =~= Seq::<char>::empty());
    }
}

/// An agent that does not name the headless browser is presented as it is; one that does keeps all
/// but the mark, up to where the mark stands first.
pub proof fn law_scrubbing_takes_only_the_mark(before: Seq<char>, behind: Seq<char>)
    requires
        forall|i: int|
            0 <= i < before.len() ==> !text::occurs_at(
                before + "HeadlessChrome"@ + behind,
                "HeadlessChrome"@,
                i,
            ),
    ensures
        !text::occurs_in(behind, "HeadlessChrome"@) ==> scrubbed(behind) == behind,
        scrubbed(before + "HeadlessChrome"@ + behind) == before + "Chrome"@ + scrubbed(behind),
{
    reveal_strlit("HeadlessChrome");
    if !text::occurs_in(behind, "HeadlessChrome"@) {
        text::law_nothing_to_replace(behind, "HeadlessChrome"@, "Chrome"@);
    }
    text::law_replacing_goes_from_the_left(before, "HeadlessChrome"@, behind, "Chrome"@);
}

/// Listening goes on after a message, readable or not, and ends with the connection.
pub proof fn law_only_a_broken_connection_ends_listening(delivery: Delivery)
    ensures
        listens(delivery) <==> (delivery is Message || delivery is Unreadable),
        delivery is Broken ==> !listens(delivery),
{
}

/// On macOS every candidate is the binary of an application, which bears the application's name.
/// On Windows Chrome is looked for in both places that programs are installed in, the 64-bit one
/// first.  No platform names a candidate twice.
pub proof fn law_candidates_are_where_browsers_are_installed(platform: Platform)
    ensures
        platform is MacOs ==> {
            let names = seq![
                "Google Chrome"@,
                "Chromium"@,
                "Google Chrome Canary"@,
                "Microsoft Edge"@,
                "Brave Browser"@,
            ];
            browser_paths(platform).len() == names.len() && forall|i: int|
                0 <= i < names.len() ==> browser_paths(platform)[i] == "/Applications/"@
                    + #[trigger] names[i] + ".app/Contents/MacOS/"@ + names[i]
        },
        platform is Windows ==> {
            let paths = browser_paths(platform);
            &&& paths.len() == 3
            &&& paths[0] == r"C:\Program Files"@ + r"\Google\Chrome\Application\chrome.exe"@
            &&& paths[1] == r"C:\Program Files"@ + " (x86)"@
                + r"\Google\Chrome\Application\chrome.exe"@
            &&& paths[2] == r"C:\Program Files"@ + " (x86)"@
                + r"\Microsoft\Edge\Application\msedge.exe"@
        },
        platform is Other ==> {
            let paths = browser_paths(platform);
            &&& paths.len() == 3
            &&& paths[0] == "/usr/bin/"@ + "google-chrome"@
            &&& paths[1] == "/usr/bin/"@ + "chromium"@
            &&& paths[2] == "/usr/bin/"@ + "chromium"@ + "-browser"@
        },
{
    match platform {
        Platform::MacOs => {
            reveal_strlit("/Applications/");
            reveal_strlit(".app/Contents/MacOS/");
            reveal_strlit("Google Chrome");
            reveal_strlit("Chromium");
            reveal_strlit("Google Chrome Canary");
            reveal_strlit("Microsoft Edge");
            reveal_strlit("Brave Browser");
            reveal_strlit("/Applications/Google Chrome.app/Contents/MacOS/Google Chrome");
            reveal_strlit("/Applications/Chromium.app/Contents/MacOS/Chromium");
            reveal_strlit(
                "/Applications/Google Chrome Canary.app/Contents/MacOS/Google Chrome Canary",
            );
            reveal_strlit("/Applications/Microsoft Edge.app/Contents/MacOS/Microsoft Edge");
            reveal_strlit("/Applications/Brave Browser.app/Contents/MacOS/Brave Browser");
            let names = seq![
                "Google Chrome"@,
                "Chromium"@,
                "Google Chrome Canary"@,
                "Microsoft Edge"@,
                "Brave Browser"@,
            ];
            let all = browser_paths(platform);
            let tail = ".app/Contents/MacOS/"@;
            assert(all[0] =~= "/Applications/"@ + names[0] + tail + names[0]);
            assert(all[1] =~= "/Applications/"@ + names[1] + tail + names[1]);
            assert(all[2] =~= "/Applications/"@ + names[2] + tail + names[2]);
            assert(all[3] =~= "/Applications/"@ + names[3] + tail + names[3]);
            assert(all[4] =~= "/Applications/"@ + names[4] + tail + names[4]);
        },
        Platform::Windows => {
            reveal_strlit(r"C:\Program Files");
            reveal_strlit(" (x86)");
            reveal_strlit(r"\Google\Chrome\Application\chrome.exe");
            reveal_strlit(r"\Microsoft\Edge\Application\msedge.exe");
            reveal_strlit(r"C:\Program Files\Google\Chrome\Application\chrome.exe");
            reveal_strlit(r"C:\Program Files (x86)\Google\Chrome\Application\chrome.exe");
            reveal_strlit(r"C:\Program Files (x86)\Microsoft\Edge\Application\msedge.exe");
        },
        Platform::Other => {
            reveal_strlit("/usr/bin/");
            reveal_strlit("google-chrome");
            reveal_strlit("chromium");
            reveal_strlit("-browser");
            reveal_strlit("/usr/bin/google-chrome");
            reveal_strlit("/usr/bin/chromium");
            reveal_strlit("/usr/bin/chromium-browser");
        },
    }
}

} // verus!
