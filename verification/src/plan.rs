//! The course of a capture: how a page is approached, what is measured, how it is framed.

use crate::clip;
use crate::clip::{round_clip, ClipError, ClipRect, ElementBounds};
use crate::double;
use crate::double::Double;
use crate::double_laws;
use crate::image::Format;
use crate::mode::{CaptureMode, ModeModel};
use crate::outside;
use crate::report::{CapturedImage, Shot};
use crate::request::{Opts, OptsModel};
use crate::scripts;
use crate::scripts::{
    wait_and_scroll_js, wait_for_js, DOC_HEIGHT_JS, SCROLL_JS, SETTLE_JS,
};
use crate::text;
use crate::viewport::Viewport;
use vstd::prelude::*;
use vstd::string::*;

verus! {

/// The user agent that a mobile viewport presents.
pub const IPHONE_UA: &'static str =
    "Mozilla/5.0 (iPhone; CPU iPhone OS 17_5 like Mac OS X) AppleWebKit/605.1.15 (KHTML, like Gecko) Version/17.5 Mobile/15E148 Safari/604.1";

/// A step of a capture.  The first one that fails ends the capture with its error.
#[derive(Debug)]
pub enum Step {
    /// Gives the page a viewport.
    Metrics(Viewport),
    /// Presents another user agent.
    UserAgent(String),
    /// Prefers dark colors.
    Dark,
    /// Opens a URL.
    Open(String),
    /// Waits until the page has been navigated to.
    AwaitNavigation,
    /// Waits until the page has settled.
    Settle,
    /// Scrolls to the bottom and back.
    Scroll,
    /// Waits until a selector matches.
    AwaitSelector(String),
    /// Waits until a selector matches and scrolls to the match.
    Reveal(String),
    /// Sleeps for some milliseconds.
    Sleep(u64),
}

/// What a step does.
pub enum StepModel {
    Metrics(Viewport),
    UserAgent(Seq<char>),
    Dark,
    Open(Seq<char>),
    AwaitNavigation,
    Settle,
    Scroll,
    AwaitSelector(Seq<char>),
    Reveal(Seq<char>),
    Sleep(u64),
}

impl View for Step {
    type V = StepModel;

    open spec fn view(&self) -> StepModel {
        match *self {
            Step::Metrics(viewport) => StepModel::Metrics(viewport),
            Step::UserAgent(agent) => StepModel::UserAgent(agent@),
            Step::Dark => StepModel::Dark,
            Step::Open(url) => StepModel::Open(url@),
            Step::AwaitNavigation => StepModel::AwaitNavigation,
            Step::Settle => StepModel::Settle,
            Step::Scroll => StepModel::Scroll,
            Step::AwaitSelector(selector) => StepModel::AwaitSelector(selector@),
            Step::Reveal(selector) => StepModel::Reveal(selector@),
            Step::Sleep(ms) => StepModel::Sleep(ms),
        }
    }
}

/// What the steps of a list do.
pub open spec fn steps_of(steps: Seq<Step>) -> Seq<StepModel> {
    steps.map_values(|step: Step| step@)
}

/// The user agent to present, if not the browser's own: that of a phone on a mobile viewport, else
/// the one that the session found.
pub open spec fn presented(mobile: bool, session: Option<Seq<char>>) -> Option<Seq<char>> {
    if mobile {
        Some(IPHONE_UA@)
    } else {
        session
    }
}

/// The step that presents a user agent, if one is to be presented.
pub open spec fn agent_steps(agent: Option<Seq<char>>) -> Seq<StepModel> {
    match agent {
        Some(agent) => seq![StepModel::UserAgent(agent)],
        None => seq![],
    }
}

/// The step that prefers dark colors, if they are preferred.
pub open spec fn dark_steps(dark: bool) -> Seq<StepModel> {
    if dark {
        seq![StepModel::Dark]
    } else {
        seq![]
    }
}

/// The step that waits for a selector, if one is to be waited for.
pub open spec fn wait_steps(selector: Option<Seq<char>>) -> Seq<StepModel> {
    match selector {
        Some(selector) => seq![StepModel::AwaitSelector(selector)],
        None => seq![],
    }
}

/// What a mode does to the page before it is framed.
pub open spec fn mode_steps(mode: ModeModel) -> Seq<StepModel> {
    match mode {
        ModeModel::Viewport => seq![],
        ModeModel::FullPage => seq![StepModel::Scroll],
        ModeModel::Element { selector, .. } => seq![
            StepModel::Reveal(selector),
            StepModel::Settle,
        ],
    }
}

/// The extra delay, if there is one; the page settles again after it.
pub open spec fn delay_steps(ms: u64) -> Seq<StepModel> {
    if ms > 0 {
        seq![StepModel::Sleep(ms), StepModel::Settle]
    } else {
        seq![]
    }
}

/// How a page is approached: made ready, opened, settled, waited for, brought into position.
pub open spec fn approached(
    url: Seq<char>,
    session_agent: Option<Seq<char>>,
    opts: OptsModel,
) -> Seq<StepModel> {
    seq![StepModel::Metrics(opts.viewport)] + agent_steps(
        presented(opts.viewport.mobile, session_agent),
    ) + dark_steps(opts.dark) + seq![
        StepModel::Open(url),
        StepModel::AwaitNavigation,
        StepModel::Settle,
    ] + wait_steps(opts.wait_for) + mode_steps(opts.mode) + delay_steps(opts.wait_ms)
}

/// Adds a step to a list.
fn push(steps: &mut Vec<Step>, step: Step)
    ensures
        steps_of(final(steps)@) == steps_of(old(steps)@).push(step@),
{
    let ghost before = steps@;
    steps.push(step);
    assert(steps_of(before.push(step)) =~= steps_of(before).push(step@));
}

/// The user agent to present, if not the browser's own.
pub fn user_agent(mobile: bool, session_agent: &Option<String>) -> (r: Option<String>)
    ensures
        text::text_option(r) == presented(mobile, text::text_option(*session_agent)),
{
    if mobile {
        Some(IPHONE_UA.to_owned())
    } else {
        match session_agent {
            Some(agent) => Some(agent.clone()),
            None => None,
        }
    }
}

/// Adds the step that presents a user agent, if one is to be presented.
fn push_agent(steps: &mut Vec<Step>, agent: Option<String>)
    ensures
        steps_of(final(steps)@) == steps_of(old(steps)@) + agent_steps(text::text_option(agent)),
{
    match agent {
        Some(agent) => push(steps, Step::UserAgent(agent)),
        None => {},
    }
}

/// Adds the step that waits for a selector, if one is to be waited for.
fn push_wait(steps: &mut Vec<Step>, selector: &Option<String>)
    ensures
        steps_of(final(steps)@) == steps_of(old(steps)@) + wait_steps(text::text_option(*selector)),
{
    match selector {
        Some(selector) => push(steps, Step::AwaitSelector(selector.clone())),
        None => {},
    }
}

/// Adds what a mode does to the page.
fn push_mode(steps: &mut Vec<Step>, mode: &CaptureMode)
    ensures
        steps_of(final(steps)@) == steps_of(old(steps)@) + mode_steps(mode@),
{
    match mode {
        CaptureMode::Viewport => {},
        CaptureMode::FullPage => push(steps, Step::Scroll),
        CaptureMode::Element { selector, .. } => {
            push(steps, Step::Reveal(selector.clone()));
            push(steps, Step::Settle);
        },
    }
}

/// Adds the extra delay, if there is one.
fn push_delay(steps: &mut Vec<Step>, ms: u64)
    ensures
        steps_of(final(steps)@) == steps_of(old(steps)@) + delay_steps(ms),
{
    if ms > 0 {
        push(steps, Step::Sleep(ms));
        push(steps, Step::Settle);
    }
}

/// Adds the step that prefers dark colors, if they are preferred.
fn push_dark(steps: &mut Vec<Step>, dark: bool)
    ensures
        steps_of(final(steps)@) == steps_of(old(steps)@) + dark_steps(dark),
{
    if dark {
        push(steps, Step::Dark);
    }
}

/// How a page is approached before it is framed.
pub fn approach(url: &str, session_agent: &Option<String>, opts: &Opts) -> (r: Vec<Step>)
    ensures
        steps_of(r@) == approached(url@, text::text_option(*session_agent), opts@),
{
    let mut steps: Vec<Step> = Vec::new();
    assert(steps_of(steps@) =~= seq![]);
    push(&mut steps, Step::Metrics(opts.viewport));
    assert(steps_of(steps@) =~= seq![StepModel::Metrics(opts.viewport)]);
    push_agent(&mut steps, user_agent(opts.viewport.mobile, session_agent));
    push_dark(&mut steps, opts.dark);
    let ghost ready = steps_of(steps@);
    push(&mut steps, Step::Open(url.to_owned()));
    push(&mut steps, Step::AwaitNavigation);
    push(&mut steps, Step::Settle);
    assert(steps_of(steps@) =~= ready + seq![
        StepModel::Open(url@),
        StepModel::AwaitNavigation,
        StepModel::Settle,
    ]);
    push_wait(&mut steps, &opts.wait_for);
    push_mode(&mut steps, &opts.mode);
    push_delay(&mut steps, opts.wait_ms);
    steps
}

/// What is left of `whole` after `part`, never below zero.
pub open spec fn left_of(whole: int, part: int) -> int {
    if part < whole {
        whole - part
    } else {
        0
    }
}

/// The milliseconds that a script may wait for a selector.  Half a second less than the page has
/// left, so that the script's own error comes before that of the page; counted modulo 2^64.
pub open spec fn budget(timeout_secs: u64, elapsed_nanos: u128) -> int {
    left_of(left_of(timeout_secs * 1_000_000_000, elapsed_nanos as int), 500_000_000) / 1_000_000
        % 0x1_0000_0000_0000_0000
}

/// The milliseconds that a script may wait for a selector.
pub fn selector_budget_ms(timeout_secs: u64, elapsed_nanos: u128) -> (r: u64)
    ensures
        r == budget(timeout_secs, elapsed_nanos),
{
    let whole: u128 = timeout_secs as u128 * 1_000_000_000;
    let left: u128 = if elapsed_nanos < whole {
        whole - elapsed_nanos
    } else {
        0
    };
    let undercut: u128 = if 500_000_000 < left {
        left - 500_000_000
    } else {
        0
    };
    (undercut / 1_000_000 % 0x1_0000_0000_0000_0000) as u64
}

/// The script that a step runs in the page, if it runs one; `budget_ms` is the time that it may
/// wait for a selector.
pub open spec fn script_of(step: StepModel, budget_ms: nat) -> Option<Seq<char>> {
    match step {
        StepModel::Settle => Some(SETTLE_JS@),
        StepModel::Scroll => Some(SCROLL_JS@),
        StepModel::AwaitSelector(selector) => Some(scripts::waiting(selector, budget_ms)),
        StepModel::Reveal(selector) => Some(scripts::revealing(selector, budget_ms)),
        _ => None,
    }
}

impl Step {
    /// The same step once more.
    pub fn copy(&self) -> (r: Step)
        ensures
            r@ == self@,
    {
        match self {
            Step::Metrics(viewport) => Step::Metrics(*viewport),
            Step::UserAgent(agent) => Step::UserAgent(agent.clone()),
            Step::Dark => Step::Dark,
            Step::Open(url) => Step::Open(url.clone()),
            Step::AwaitNavigation => Step::AwaitNavigation,
            Step::Settle => Step::Settle,
            Step::Scroll => Step::Scroll,
            Step::AwaitSelector(selector) => Step::AwaitSelector(selector.clone()),
            Step::Reveal(selector) => Step::Reveal(selector.clone()),
            Step::Sleep(ms) => Step::Sleep(*ms),
        }
    }

    /// The script that a step runs in the page, if it runs one.
    pub fn script(&self, budget_ms: u64) -> (r: Option<String>)
        ensures
            text::text_option(r) == script_of(self@, budget_ms as nat),
    {
        match self {
            Step::Settle => Some(SETTLE_JS.to_owned()),
            Step::Scroll => Some(SCROLL_JS.to_owned()),
            Step::AwaitSelector(selector) => Some(wait_for_js(selector.as_str(), budget_ms)),
            Step::Reveal(selector) => Some(wait_and_scroll_js(selector.as_str(), budget_ms)),
            _ => None,
        }
    }
}

/// A screenshot to ask the browser for.
#[derive(Clone, Copy, Debug, PartialEq, Eq, Structural)]
pub struct Screenshot {
    pub format: Format,
    /// The quality of formats that lose something.
    pub quality: Option<u32>,
    /// The part of the document to show, at scale 1; it may lie outside the viewport.
    pub clip: Option<ClipRect>,
    /// Whether the browser is to extend the picture to the whole page by itself.
    pub full_page: bool,
}

/// How a page is framed: what is still to be done to it, the screenshot to take, and the size and
/// scale to report.
#[derive(Debug)]
pub struct Frame {
    pub width: u32,
    pub height: u32,
    pub scale: Double,
    pub steps: Vec<Step>,
    pub screenshot: Screenshot,
}

/// What a frame says.
pub struct FrameModel {
    pub width: u32,
    pub height: u32,
    pub scale: Double,
    pub steps: Seq<StepModel>,
    pub screenshot: Screenshot,
}

impl View for Frame {
    type V = FrameModel;

    open spec fn view(&self) -> FrameModel {
        FrameModel {
            width: self.width,
            height: self.height,
            scale: self.scale,
            steps: steps_of(self.steps@),
            screenshot: self.screenshot,
        }
    }
}

/// The quality to ask for: PNG loses nothing and takes none.
pub open spec fn quality_of(format: Format) -> Option<u32> {
    if format == Format::Png {
        None
    } else {
        Some(90)
    }
}

/// A screenshot of a format.
pub open spec fn shot_of(format: Format, clip: Option<ClipRect>, full_page: bool) -> Screenshot {
    Screenshot { format, quality: quality_of(format), clip, full_page }
}

/// The frame of what the viewport shows.
pub open spec fn framed_viewport(viewport: Viewport, format: Format) -> FrameModel {
    FrameModel {
        width: viewport.width,
        height: viewport.height,
        scale: viewport.scale,
        steps: seq![],
        screenshot: shot_of(format, None, false),
    }
}

/// The frame of what the viewport shows.
pub fn viewport_frame(viewport: Viewport, format: Format) -> (r: Frame)
    ensures
        r@ == framed_viewport(viewport, format),
{
    let steps: Vec<Step> = Vec::new();
    assert(steps_of(steps@) =~= seq![]);
    Frame {
        width: viewport.width,
        height: viewport.height,
        scale: viewport.scale,
        steps,
        screenshot: Screenshot { format, quality: format.quality(), clip: None, full_page: false },
    }
}

/// The height of a page: as measured, or that of the viewport where that is greater or nothing
/// could be measured.
pub open spec fn page_height(viewport: Viewport, measured: Option<Double>) -> u32 {
    match measured {
        Some(height) => if height.truncated() > viewport.height {
            height.truncated()
        } else {
            viewport.height
        },
        None => viewport.height,
    }
}

/// Whether the browser can render a page of a height at a scale.
pub open spec fn renders(height: u32, scale: Double) -> bool {
    scale.times(height).at_most(double::whole(16000))
}

/// The frame of a whole page.  Where it renders at the scale asked for, the viewport is grown to
/// the page; else the browser extends the picture, at scale 1.
pub open spec fn framed_page(
    viewport: Viewport,
    measured: Option<Double>,
    format: Format,
) -> FrameModel {
    let height = page_height(viewport, measured);
    if renders(height, viewport.scale) {
        FrameModel {
            width: viewport.width,
            height,
            scale: viewport.scale,
            steps: seq![
                StepModel::Metrics(Viewport { height, ..viewport }),
                StepModel::Settle,
            ],
            screenshot: shot_of(format, None, false),
        }
    } else {
        FrameModel {
            width: viewport.width,
            height,
            scale: double::whole(1),
            steps: seq![],
            screenshot: shot_of(format, None, true),
        }
    }
}

/// The script that measures the height of a page.
pub fn height_script() -> (r: &'static str)
    ensures
        r@ == DOC_HEIGHT_JS@,
{
    DOC_HEIGHT_JS
}

/// The frame of a whole page; `measured` is its height, if it could be measured.
pub fn full_page_frame(viewport: Viewport, measured: Option<Double>, format: Format) -> (r: Frame)
    ensures
        r@ == framed_page(viewport, measured, format),
{
    let found: u32 = match measured {
        Some(height) => height.to_u32(),
        None => viewport.height,
    };
    let height: u32 = if found > viewport.height {
        found
    } else {
        viewport.height
    };
    let mut steps: Vec<Step> = Vec::new();
    assert(steps_of(steps@) =~= seq![]);
    if viewport.scale.multiply(height).less_or_equal(Double::from_u64(16000)) {
        let grown = Viewport {
            width: viewport.width,
            height,
            scale: viewport.scale,
            mobile: viewport.mobile,
        };
        push(&mut steps, Step::Metrics(grown));
        push(&mut steps, Step::Settle);
        assert(steps_of(steps@) =~= seq![StepModel::Metrics(grown), StepModel::Settle]);
        Frame {
            width: viewport.width,
            height,
            scale: viewport.scale,
            steps,
            screenshot: Screenshot {
                format,
                quality: format.quality(),
                clip: None,
                full_page: false,
            },
        }
    } else {
        Frame {
            width: viewport.width,
            height,
            scale: Double::from_u64(1),
            steps,
            screenshot: Screenshot {
                format,
                quality: format.quality(),
                clip: None,
                full_page: true,
            },
        }
    }
}

/// The frame of an element, or why it has none.
pub open spec fn framed_element(
    viewport: Viewport,
    bounds: ElementBounds,
    padding: u32,
    format: Format,
) -> Result<FrameModel, ClipError> {
    match clip::framed(bounds, padding) {
        Ok(clip) => Ok(
            FrameModel {
                width: clip.width.truncated(),
                height: clip.height.truncated(),
                scale: viewport.scale,
                steps: seq![],
                screenshot: shot_of(format, Some(clip), false),
            },
        ),
        Err(error) => Err(error),
    }
}

/// The frame of an element that was measured.
pub fn element_frame(
    viewport: Viewport,
    bounds: &ElementBounds,
    padding: u32,
    format: Format,
) -> (r: Result<Frame, ClipError>)
    requires
        bounds.has_document(),
    ensures
        match r {
            Ok(frame) => framed_element(viewport, *bounds, padding, format) == Ok::<
                FrameModel,
                ClipError,
            >(frame@),
            Err(error) => framed_element(viewport, *bounds, padding, format) == Err::<
                FrameModel,
                ClipError,
            >(error),
        },
{
    let clip = match round_clip(bounds, padding) {
        Ok(clip) => clip,
        Err(error) => {
            return Err(error);
        },
    };
    let steps: Vec<Step> = Vec::new();
    assert(steps_of(steps@) =~= seq![]);
    Ok(
        Frame {
            width: clip.width.to_u32(),
            height: clip.height.to_u32(),
            scale: viewport.scale,
            steps,
            screenshot: Screenshot {
                format,
                quality: format.quality(),
                clip: Some(clip),
                full_page: false,
            },
        },
    )
}

/// What the user reads of an element that cannot be framed.
pub open spec fn unframed(selector: Seq<char>, error: ClipError) -> Seq<char> {
    "cannot capture selected element: "@ + selector + ": "@ + error.text()
}

/// What the user reads of an element that cannot be framed.
pub fn unframed_message(selector: &str, error: ClipError) -> (r: String)
    ensures
        r@ == unframed(selector@, error),
{
    let mut out = "cannot capture selected element: ".to_owned();
    out.append(selector);
    out.append(": ");
    out.append(error.message());
    out
}

/// The capture that a frame and the bytes of its screenshot make.
pub fn finish(frame: &Frame, data: Vec<u8>) -> (r: CapturedImage)
    ensures
        r.data@ == data@,
        r.shot == (Shot {
            width: frame.width,
            height: frame.height,
            scale: frame.scale,
            bytes: data@.len() as u64,
        }),
        r.shot.bytes == r.data@.len(),
{
    let bytes = data.len() as u64;
    CapturedImage {
        shot: Shot { width: frame.width, height: frame.height, scale: frame.scale, bytes },
        data,
    }
}

/// Whether a step can set off loading or animation that later steps have to let settle.
pub open spec fn stirs(step: StepModel) -> bool {
    step is Open || step is Reveal || step is Sleep
}

/// Whether the page settles after place `i`.
pub open spec fn settles_after(steps: Seq<StepModel>, i: int) -> bool {
    exists|j: int| i < j < steps.len() && (#[trigger] steps[j]) is Settle
}

/// After the page was opened, an element was scrolled to, or the extra delay has passed, the page
/// settles before it is framed.
pub proof fn law_page_settles_before_it_is_framed(
    url: Seq<char>,
    session_agent: Option<Seq<char>>,
    opts: OptsModel,
    i: int,
)
    requires
        0 <= i < approached(url, session_agent, opts).len(),
        stirs(approached(url, session_agent, opts)[i]),
    ensures
        settles_after(approached(url, session_agent, opts), i),
{
    let all = approached(url, session_agent, opts);
    let head = seq![StepModel::Metrics(opts.viewport)] + agent_steps(
        presented(opts.viewport.mobile, session_agent),
    ) + dark_steps(opts.dark);
    let h = head.len() as int;
    let opening = seq![StepModel::Open(url), StepModel::AwaitNavigation, StepModel::Settle];
    let waits = wait_steps(opts.wait_for);
    let placing = mode_steps(opts.mode);
    let delay = delay_steps(opts.wait_ms);
    assert(all == head + opening + waits + placing + delay);
    assert(all[h + 2] is Settle);
    let w = h + 3 + waits.len();
    if opts.mode is Element {
        assert(all[w + 1] == placing[1]);
        assert(all[w + 1] is Settle);
    }
    let d = w + placing.len();
    if opts.wait_ms > 0 {
        assert(all[d + 1] == delay[1]);
        assert(all[d + 1] is Settle);
    }
    if i < h {
        assert(all[i] == head[i]);
    } else if i < h + 3 {
        assert(all[i] == opening[i - h]);
    } else if i < w {
        assert(all[i] == waits[i - h - 3]);
    } else if i < d {
        assert(all[i] == placing[i - w]);
    } else {
        assert(all[i] == delay[i - d]);
    }
}

/// A page is never framed lower than the viewport.
pub proof fn law_page_fills_the_viewport(
    viewport: Viewport,
    measured: Option<Double>,
    format: Format,
)
    ensures
        framed_page(viewport, measured, format).height >= viewport.height,
        framed_page(viewport, measured, format).width == viewport.width,
{
}

/// A whole page keeps the scale asked for exactly where it renders at it; else it is taken at
/// scale 1, and the frame says so.
pub proof fn law_tall_pages_fall_back(viewport: Viewport, measured: Option<Double>, format: Format)
    ensures
        ({
            let frame = framed_page(viewport, measured, format);
            &&& renders(frame.height, viewport.scale) ==> frame.scale == viewport.scale
                && !frame.screenshot.full_page
            &&& !renders(frame.height, viewport.scale) ==> frame.scale == double::whole(1)
                && frame.screenshot.full_page
        }),
{
}

/// The frame of an element is the same at every scale: its size in CSS pixels and the part of the
/// document to show do not depend on the scale, which is reported as it was asked for.
pub proof fn law_element_size_ignores_the_scale(
    viewport: Viewport,
    scale: Double,
    bounds: ElementBounds,
    padding: u32,
    format: Format,
)
    ensures
        framed_element(Viewport { scale, ..viewport }, bounds, padding, format) == match framed_element(
            viewport,
            bounds,
            padding,
            format,
        ) {
            Ok(frame) => Ok(FrameModel { scale, ..frame }),
            Err(error) => Err(error),
        },
{
}

/// A script that waits for a selector gives up at least half a second before the page's time is
/// over, unless it has no time at all.
pub proof fn law_selector_error_comes_first(timeout_secs: u64, elapsed_nanos: u128)
    ensures
        budget(timeout_secs, elapsed_nanos) == 0 || elapsed_nanos + budget(
            timeout_secs,
            elapsed_nanos,
        ) * 1_000_000 + 500_000_000 <= timeout_secs * 1_000_000_000,
{
}

/// The place at which the page is opened: behind its metrics, its user agent and its colors.
pub open spec fn opening(steps: Seq<StepModel>, at: int, url: Seq<char>) -> bool {
    &&& 0 < at && at + 2 < steps.len()
    &&& steps[at] == StepModel::Open(url)
    &&& steps[at + 1] is AwaitNavigation
    &&& steps[at + 2] is Settle
    &&& forall|i: int|
        0 <= i < steps.len() ==> ((#[trigger] steps[i]) is Open <==> i == at) && (
        steps[i] is AwaitNavigation <==> i == at + 1)
}

/// A page is opened once, as the device asked for.  Before that its course gives it exactly the
/// viewport of the options, and no later step of the approach gives it another.  It presents the
/// user agent of a phone on a mobile viewport and else that of the session, and prefers dark colors
/// where they are asked for.  All of that is done before the page is opened.
#[verifier::rlimit(40)]
pub proof fn law_a_page_is_opened_as_the_device_asked_for(
    url: Seq<char>,
    session_agent: Option<Seq<char>>,
    opts: OptsModel,
)
    ensures
        ({
            let steps = approached(url, session_agent, opts);
            exists|at: int| #[trigger]
                opening(steps, at, url) && {
                    &&& steps[0] is Metrics
                    &&& (steps[0]->Metrics_0).width == opts.viewport.width
                    &&& (steps[0]->Metrics_0).height == opts.viewport.height
                    &&& (steps[0]->Metrics_0).scale == opts.viewport.scale
                    &&& (steps[0]->Metrics_0).mobile == opts.viewport.mobile
                    &&& forall|i: int|
                        0 < i < steps.len() ==> !((#[trigger] steps[i]) is Metrics)
                    &&& forall|i: int|
                        0 <= i < steps.len() && ((#[trigger] steps[i]) is UserAgent
                            || steps[i] is Dark) ==> i < at
                    &&& opts.viewport.mobile ==> steps[1] == StepModel::UserAgent(IPHONE_UA@)
                    &&& !opts.viewport.mobile && session_agent is Some ==> steps[1]
                        == StepModel::UserAgent(session_agent->0)
                    &&& forall|i: int|
                        0 <= i < steps.len() && (#[trigger] steps[i]) is UserAgent ==> i == 1 && (
                        opts.viewport.mobile || session_agent is Some)
                    &&& opts.dark <==> steps[at - 1] is Dark
                    &&& forall|i: int|
                        0 <= i < steps.len() && (#[trigger] steps[i]) is Dark ==> i == at - 1
                    &&& at == 1 + (if opts.viewport.mobile || session_agent is Some {
                        1int
                    } else {
                        0
                    }) + (if opts.dark {
                        1int
                    } else {
                        0
                    })
                }
        }),
{
    let steps = approached(url, session_agent, opts);
    let agent = agent_steps(presented(opts.viewport.mobile, session_agent));
    let dark = dark_steps(opts.dark);
    let head = seq![StepModel::Metrics(opts.viewport)] + agent + dark;
    let at = head.len() as int;
    let opens = seq![StepModel::Open(url), StepModel::AwaitNavigation, StepModel::Settle];
    let tail = wait_steps(opts.wait_for) + mode_steps(opts.mode) + delay_steps(opts.wait_ms);
    assert(steps =~= head + opens + tail);
    assert(forall|i: int| 0 <= i < head.len() ==> steps[i] == head[i]);
    assert(forall|i: int| 0 <= i < 3 ==> steps[at + i] == opens[i]);
    assert(forall|i: int| 0 <= i < tail.len() ==> steps[at + 3 + i] == tail[i]);
    assert forall|i: int| 0 <= i < tail.len() implies !((#[trigger] tail[i]) is Metrics)
        && !(tail[i] is Open) && !(tail[i] is AwaitNavigation) && !(tail[i] is UserAgent) && !(
    tail[i] is Dark) by {
    }
    assert forall|i: int| 0 <= i < steps.len() implies ((#[trigger] steps[i]) is Open <==> i == at)
        && (steps[i] is AwaitNavigation <==> i == at + 1) by {
        if i >= at + 3 {
            assert(steps[i] == tail[i - at - 3]);
        } else if i >= at {
            assert(steps[i] == opens[i - at]);
        }
    }
    assert forall|i: int| 0 < i < steps.len() implies !((#[trigger] steps[i]) is Metrics) by {
        if i >= at + 3 {
            assert(steps[i] == tail[i - at - 3]);
        } else if i >= at {
            assert(steps[i] == opens[i - at]);
        }
    }
    assert forall|i: int| 0 <= i < steps.len() && ((#[trigger] steps[i]) is UserAgent
        || steps[i] is Dark) implies i < at by {
        if i >= at + 3 {
            assert(steps[i] == tail[i - at - 3]);
        } else if i >= at {
            assert(steps[i] == opens[i - at]);
        }
    }
    assert(opening(steps, at, url));
}

/// Behind its opening a page is waited for, brought into position and given its extra delay, in
/// this order, and nothing else is done to it: the selector to wait for is that of the options, a
/// whole page is scrolled through, an element is revealed and settles, and the delay is the one
/// asked for and ends with the page settling.
pub proof fn law_an_open_page_is_brought_into_position(
    url: Seq<char>,
    session_agent: Option<Seq<char>>,
    opts: OptsModel,
    at: int,
)
    requires
        opening(approached(url, session_agent, opts), at, url),
    ensures
        ({
            let tail = approached(url, session_agent, opts).skip(at + 3);
            let waits = if opts.wait_for is Some {
                1int
            } else {
                0
            };
            let places = match opts.mode {
                ModeModel::Viewport => 0int,
                ModeModel::FullPage => 1,
                ModeModel::Element { .. } => 2,
            };
            let delays = if opts.wait_ms > 0 {
                2int
            } else {
                0
            };
            &&& tail.len() == waits + places + delays
            &&& opts.wait_for matches Some(selector) ==> tail[0] == StepModel::AwaitSelector(selector)
            &&& opts.mode is FullPage ==> tail[waits] is Scroll
            &&& opts.mode matches ModeModel::Element { selector, .. } ==> tail[waits]
                == StepModel::Reveal(selector) && tail[waits + 1] is Settle
            &&& opts.wait_ms > 0 ==> tail[waits + places] == StepModel::Sleep(opts.wait_ms)
                && tail[waits + places + 1] is Settle
        }),
{
    let steps = approached(url, session_agent, opts);
    let head = seq![StepModel::Metrics(opts.viewport)] + agent_steps(
        presented(opts.viewport.mobile, session_agent),
    ) + dark_steps(opts.dark);
    let opens = seq![StepModel::Open(url), StepModel::AwaitNavigation, StepModel::Settle];
    let tail = wait_steps(opts.wait_for) + mode_steps(opts.mode) + delay_steps(opts.wait_ms);
    assert(steps =~= head + opens + tail);
    let open = head.len() as int;
    assert(steps[open] == opens[0]);
    assert(open == at);
    assert(steps.skip(at + 3) =~= tail);
}

/// A script that waits for a selector is given all of the page's time but the last half second, to
/// the millisecond, as long as that can be counted in 64 bits.
pub proof fn law_selectors_get_the_time_that_is_left(timeout_secs: u64, elapsed_nanos: u128)
    requires
        timeout_secs * 1000 <= u64::MAX,
    ensures
        elapsed_nanos + (budget(timeout_secs, elapsed_nanos) + 1) * 1_000_000 + 500_000_000
            > timeout_secs * 1_000_000_000,
        budget(timeout_secs, elapsed_nanos) >= 0,
{
}

/// A picture of the viewport is taken as the page stands: it reports the size and scale of the
/// viewport, and shows neither more nor less.
pub proof fn law_a_viewport_is_shot_as_it_stands(viewport: Viewport, format: Format)
    ensures
        ({
            let frame = framed_viewport(viewport, format);
            &&& frame.width == viewport.width && frame.height == viewport.height
            &&& frame.scale == viewport.scale
            &&& frame.steps.len() == 0
            &&& frame.screenshot.clip is None && !frame.screenshot.full_page
        }),
{
}

/// Every frame asks for the format given, at quality 90 unless it is PNG, which takes none.
pub proof fn law_frames_ask_for_their_format(
    viewport: Viewport,
    measured: Option<Double>,
    bounds: ElementBounds,
    padding: u32,
    format: Format,
)
    ensures
        ({
            let quality = match format {
                Format::Png => None::<u32>,
                Format::Jpeg => Some(90u32),
                Format::Webp => Some(90u32),
            };
            &&& framed_viewport(viewport, format).screenshot.format == format
            &&& framed_viewport(viewport, format).screenshot.quality == quality
            &&& framed_page(viewport, measured, format).screenshot.format == format
            &&& framed_page(viewport, measured, format).screenshot.quality == quality
            &&& framed_element(viewport, bounds, padding, format) matches Ok(frame) ==> {
                &&& frame.screenshot.format == format
                &&& frame.screenshot.quality == quality
            }
        }),
{
}

/// The metrics that the page holds after the steps of a frame: those of its last `Metrics` step,
/// or the viewport of the approach.
pub open spec fn metrics_after(viewport: Viewport, steps: Seq<StepModel>) -> Viewport
    decreases steps.len(),
{
    if steps.len() == 0 {
        viewport
    } else {
        match steps.last() {
            StepModel::Metrics(given) => given,
            _ => metrics_after(viewport, steps.drop_last()),
        }
    }
}

/// A whole page is shot as it is reported.  The page that the screenshot shows has the width and
/// the mobile flag of the viewport.  Where the scale asked for is kept, the page is grown to the
/// height reported, at the scale reported, and settles before the shot; else it keeps its viewport
/// and the browser extends the picture.  No part is cut out either way.
pub proof fn law_a_page_is_shot_as_it_is_reported(
    viewport: Viewport,
    measured: Option<Double>,
    format: Format,
)
    ensures
        ({
            let frame = framed_page(viewport, measured, format);
            let held = metrics_after(viewport, frame.steps);
            &&& held.width == frame.width && frame.width == viewport.width
            &&& held.mobile == viewport.mobile
            &&& held.scale == viewport.scale
            &&& frame.screenshot.clip is None
            &&& !frame.screenshot.full_page ==> {
                &&& held.height == frame.height
                &&& held.scale == frame.scale
                &&& frame.steps.last() is Settle
            }
            &&& frame.screenshot.full_page ==> {
                &&& held == viewport
                &&& frame.steps.len() == 0
                &&& frame.scale == double::whole(1)
            }
            &&& forall|i: int|
                0 <= i < frame.steps.len() ==> (#[trigger] frame.steps[i]) is Metrics
                    || frame.steps[i] is Settle
        }),
{
    let frame = framed_page(viewport, measured, format);
    reveal_with_fuel(metrics_after, 3);
    if frame.steps.len() > 0 {
        assert(frame.steps.drop_last().last() == frame.steps[0]);
    }
}

/// A whole page is as high as it was measured, in whole pixels, where that is more than the
/// viewport, and else as high as the viewport.
pub proof fn law_a_page_is_as_high_as_measured(
    viewport: Viewport,
    measured: Option<Double>,
    format: Format,
)
    ensures
        ({
            let height = framed_page(viewport, measured, format).height;
            let o = double::one();
            &&& measured is None ==> height == viewport.height
            &&& measured matches Some(m) ==> {
                &&& m.nan() ==> height == viewport.height
                &&& m.finite() && m.value() < (viewport.height + 1) * o ==> height
                    == viewport.height
                &&& m.finite() && (viewport.height + 1) * o <= m.value() < 0x1_0000_0000 * o
                    ==> height * o <= m.value() < (height + 1) * o
                &&& m.finite() && m.value() >= 0x1_0000_0000 * o ==> height == u32::MAX
            }
        }),
{
    let o = double::one() as int;
    vstd::arithmetic::power2::lemma_pow2_pos(1074);
    if let Some(m) = measured {
        double_laws::law_truncation_cuts_off_the_fraction(m);
        let t = m.truncated() as int;
        let h = viewport.height as int;
        if m.finite() {
            if m.value() < (h + 1) * o {
                if m.value() < 0 {
                    assert(m.value() < o);
                } else {
                    assert((h + 1) * o <= 0x1_0000_0000 * o) by (nonlinear_arith)
                        requires
                            h + 1 <= 0x1_0000_0000,
                            o > 0,
                    ;
                    assert(t <= h) by (nonlinear_arith)
                        requires
                            t * o <= m.value(),
                            m.value() < (h + 1) * o,
                            o > 0,
                    ;
                }
            } else if m.value() < 0x1_0000_0000 * o {
                assert((h + 1) * o >= 0) by (nonlinear_arith)
                    requires
                        h >= 0,
                        o > 0,
                ;
                assert(t > h) by (nonlinear_arith)
                    requires
                        m.value() < (t + 1) * o,
                        m.value() >= (h + 1) * o,
                        o > 0,
                ;
            }
        }
    }
}

/// A whole page keeps the scale asked for while its height at that scale is at most 16000 pixels,
/// and falls back to scale 1 from the first height above that a double can tell apart.
pub proof fn law_pages_fall_back_above_the_limit(
    viewport: Viewport,
    measured: Option<Double>,
    format: Format,
)
    requires
        viewport.scale.finite(),
        viewport.scale.value() >= 0,
    ensures
        ({
            let frame = framed_page(viewport, measured, format);
            let pixels = frame.height * viewport.scale.value();
            &&& pixels <= 16000 * double::one() ==> !frame.screenshot.full_page && frame.scale
                == viewport.scale
            &&& pixels >= 16000 * double::one() + vstd::arithmetic::power2::pow2(1035)
                ==> frame.screenshot.full_page && frame.scale == double::whole(1)
        }),
{
    double_laws::law_products_are_held_to_a_limit(
        viewport.scale,
        framed_page(viewport, measured, format).height,
    );
}

/// An element is shot whole, wherever it reaches.  Its clip runs from the near to the far edges of
/// the padded element, held to the document; the size reported is that of the clip in whole
/// pixels, the scale that of the viewport, and nothing is done to the page before.
pub proof fn law_an_element_is_shot_whole(
    viewport: Viewport,
    bounds: ElementBounds,
    padding: u32,
    format: Format,
)
    ensures
        framed_element(viewport, bounds, padding, format) is Ok <==> clip::framed(bounds, padding) is Ok,
        framed_element(viewport, bounds, padding, format) matches Err(error) ==> clip::framed(
            bounds,
            padding,
        ) == Err::<ClipRect, ClipError>(error),
        framed_element(viewport, bounds, padding, format) matches Ok(frame) ==> {
            &&& frame.screenshot.clip is Some && !frame.screenshot.full_page
            &&& frame.steps.len() == 0
            &&& frame.scale == viewport.scale
            &&& ({
                let shown = frame.screenshot.clip->0;
                &&& shown.x == bounds.left(padding) && shown.y == bounds.top(padding)
                &&& shown.width == bounds.right(padding).minus(bounds.left(padding))
                &&& shown.height == bounds.bottom(padding).minus(bounds.top(padding))
                &&& frame.width == shown.width.truncated()
                &&& frame.height == shown.height.truncated()
            })
        },
{
}

/// In a document of whole extents below 2^32, the size that an element is reported with is exactly
/// the distance between the edges of its frame, which cover the padded element and go no further
/// than whole pixels make them.
pub proof fn law_an_element_is_reported_at_its_size(
    viewport: Viewport,
    bounds: ElementBounds,
    padding: u32,
    format: Format,
)
    requires
        bounds.has_document(),
        double_laws::is_whole(bounds.doc_width),
        double_laws::is_whole(bounds.doc_height),
        bounds.doc_width.at_most(double::whole(0xFFFF_FFFF)),
        bounds.doc_height.at_most(double::whole(0xFFFF_FFFF)),
        framed_element(viewport, bounds, padding, format) is Ok,
    ensures
        ({
            let frame = framed_element(viewport, bounds, padding, format)->Ok_0;
            let shown = frame.screenshot.clip->0;
            &&& frame.width * double::one() == bounds.right(padding).value() - shown.x.value()
            &&& frame.height * double::one() == bounds.bottom(padding).value() - shown.y.value()
        }),
{
    clip::law_reported_size_is_exact(bounds, padding);
}

/// Nothing of an element's frame but its scale depends on the viewport.
pub proof fn law_an_element_ignores_the_viewport(
    a: Viewport,
    b: Viewport,
    bounds: ElementBounds,
    padding: u32,
    format: Format,
)
    requires
        a.scale == b.scale,
    ensures
        framed_element(a, bounds, padding, format) == framed_element(b, bounds, padding, format),
{
}

/// A step runs a script exactly where it settles, scrolls or waits.  Settling and scrolling run the
/// same script on every page.  A script that waits for a selector holds the time that it may wait
/// and the selector as its literal, and only that of a step that reveals an element scrolls to it.
pub proof fn law_steps_run_their_scripts(step: StepModel, budget_ms: nat)
    ensures
        script_of(step, budget_ms) is Some <==> (step is Settle || step is Scroll
            || step is AwaitSelector || step is Reveal),
        step is Settle ==> script_of(step, budget_ms) == Some(SETTLE_JS@),
        step is Scroll ==> script_of(step, budget_ms) == Some(SCROLL_JS@),
        step matches StepModel::AwaitSelector(selector) ==> {
            let script = script_of(step, budget_ms)->0;
            &&& text::occurs_in(script, outside::json_string(selector))
            &&& text::occurs_in(script, text::decimal(budget_ms))
            &&& text::occurs_at(
                script,
                scripts::WAIT_JS@,
                script.len() - scripts::WAIT_JS@.len(),
            )
        },
        step matches StepModel::Reveal(selector) ==> {
            let script = script_of(step, budget_ms)->0;
            &&& text::occurs_in(script, outside::json_string(selector))
            &&& text::occurs_in(script, text::decimal(budget_ms))
            &&& text::occurs_at(
                script,
                scripts::REVEAL_JS@,
                script.len() - scripts::REVEAL_JS@.len(),
            )
        },
{
    scripts::law_waiting_scripts_hold_their_arguments(
        match step {
            StepModel::AwaitSelector(selector) => selector,
            StepModel::Reveal(selector) => selector,
            _ => seq![],
        },
        budget_ms,
    );
}

/// Steps and frames are read as they are.
pub proof fn law_steps_are_read_as_they_are(step: Step, frame: Frame, i: int)
    ensures
        step matches Step::Metrics(viewport) ==> step@ == StepModel::Metrics(viewport),
        step matches Step::UserAgent(agent) ==> step@ == StepModel::UserAgent(agent@),
        step matches Step::Open(url) ==> step@ == StepModel::Open(url@),
        step matches Step::AwaitSelector(selector) ==> step@ == StepModel::AwaitSelector(selector@),
        step matches Step::Reveal(selector) ==> step@ == StepModel::Reveal(selector@),
        step matches Step::Sleep(ms) ==> step@ == StepModel::Sleep(ms),
        step is Dark <==> step@ is Dark,
        step is AwaitNavigation <==> step@ is AwaitNavigation,
        step is Settle <==> step@ is Settle,
        step is Scroll <==> step@ is Scroll,
        frame@.width == frame.width && frame@.height == frame.height,
        frame@.scale == frame.scale && frame@.screenshot == frame.screenshot,
        frame@.steps.len() == frame.steps@.len(),
        0 <= i < frame.steps@.len() ==> frame@.steps[i] == frame.steps@[i]@,
{
}

} // verus!
