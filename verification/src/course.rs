//! A capture in progress: which task comes next, given what the last one gave.

use crate::clip;
use crate::clip::{ClipError, ElementBounds};
use crate::double::Double;
use crate::image::Format;
use crate::mode::{CaptureMode, ModeModel};
use crate::paths;
use crate::plan;
use crate::plan::{
    approach, element_frame, finish, full_page_frame, unframed_message, viewport_frame, Frame,
    FrameModel, Screenshot, Step, StepModel,
};
use crate::report::{CapturedImage, Shot};
use crate::request::{Opts, OptsModel};
use crate::scripts;
use crate::scripts::element_bounds_js;
use crate::text;
use crate::viewport::Viewport;
use vstd::prelude::*;

verus! {

/// What is to be done next.
#[derive(Debug)]
pub enum Task {
    /// Perform a step.
    Perform(Step),
    /// Measure the height of the page.
    MeasureHeight,
    /// Measure the selected element with this script.
    MeasureElement(String),
    /// Take a screenshot.
    Shoot(Screenshot),
}

/// What a task asks for.
pub enum TaskModel {
    Perform(StepModel),
    MeasureHeight,
    MeasureElement(Seq<char>),
    Shoot(Screenshot),
}

impl View for Task {
    type V = TaskModel;

    open spec fn view(&self) -> TaskModel {
        match *self {
            Task::Perform(step) => TaskModel::Perform(step@),
            Task::MeasureHeight => TaskModel::MeasureHeight,
            Task::MeasureElement(script) => TaskModel::MeasureElement(script@),
            Task::Shoot(screenshot) => TaskModel::Shoot(screenshot),
        }
    }
}

/// What came of a task.
#[derive(Debug)]
pub enum Answer {
    /// The step was performed.
    Done,
    /// The page has this height, if it gave a number.
    Height(Option<Double>),
    /// The element stands here.
    Bounds(ElementBounds),
    /// The screenshot has these bytes.
    Image(Vec<u8>),
    /// The task failed.
    Failed(String),
}

/// Where a capture is, between its tasks.
enum Phase {
    Approach(Vec<Step>, usize),
    Measure,
    Arrange(Frame, usize),
    Shoot(Frame),
    Over,
}

/// What is left of a capture: the steps of the approach, the measurement, the steps of the frame,
/// the screenshot.
pub enum PhaseModel {
    Approach(Seq<StepModel>),
    Measure,
    Arrange(FrameModel, Seq<StepModel>),
    Shoot(FrameModel),
    Over,
}

/// A capture in progress.
pub struct Course {
    viewport: Viewport,
    mode: CaptureMode,
    format: Format,
    phase: Phase,
}

/// What a capture in progress amounts to.
pub struct CourseModel {
    pub viewport: Viewport,
    pub mode: ModeModel,
    pub format: Format,
    pub phase: PhaseModel,
}

impl View for Course {
    type V = CourseModel;

    closed spec fn view(&self) -> CourseModel {
        CourseModel {
            viewport: self.viewport,
            mode: self.mode@,
            format: self.format,
            phase: match self.phase {
                Phase::Approach(steps, at) => PhaseModel::Approach(
                    plan::steps_of(steps@).skip(at as int),
                ),
                Phase::Measure => PhaseModel::Measure,
                Phase::Arrange(frame, at) => PhaseModel::Arrange(
                    frame@,
                    frame@.steps.skip(at as int),
                ),
                Phase::Shoot(frame) => PhaseModel::Shoot(frame@),
                Phase::Over => PhaseModel::Over,
            },
        }
    }
}

/// What a capture comes to after an answer.
#[derive(Debug)]
pub enum Verdict {
    /// There is another task.
    Continue,
    /// The page was captured.
    Captured(CapturedImage),
    /// The capture failed.
    Failed(String),
}

/// What a verdict says.
pub enum VerdictModel {
    Continue,
    Captured(Shot, Seq<u8>),
    Failed(Seq<char>),
}

impl View for Verdict {
    type V = VerdictModel;

    open spec fn view(&self) -> VerdictModel {
        match *self {
            Verdict::Continue => VerdictModel::Continue,
            Verdict::Captured(image) => VerdictModel::Captured(image.shot, image.data@),
            Verdict::Failed(error) => VerdictModel::Failed(error@),
        }
    }
}

/// The phase that a frame opens: its steps, then its screenshot.
pub open spec fn entered(frame: FrameModel) -> PhaseModel {
    if frame.steps.len() > 0 {
        PhaseModel::Arrange(frame, frame.steps)
    } else {
        PhaseModel::Shoot(frame)
    }
}

impl CourseModel {
    /// A course with a new page, before its first task.
    pub open spec fn begun(
        url: Seq<char>,
        session_agent: Option<Seq<char>>,
        opts: OptsModel,
    ) -> CourseModel {
        CourseModel {
            viewport: opts.viewport,
            mode: opts.mode,
            format: opts.format,
            phase: PhaseModel::Approach(plan::approached(url, session_agent, opts)),
        }
    }

    /// No phase is left without something to do, and only pages and elements are measured.
    pub open spec fn wf(self) -> bool {
        match self.phase {
            PhaseModel::Approach(steps) => steps.len() > 0,
            PhaseModel::Arrange(_, steps) => steps.len() > 0,
            PhaseModel::Measure => !(self.mode is Viewport),
            _ => true,
        }
    }

    /// The task that is due.
    pub open spec fn task(self) -> Option<TaskModel> {
        match self.phase {
            PhaseModel::Approach(steps) => Some(TaskModel::Perform(steps[0])),
            PhaseModel::Measure => match self.mode {
                ModeModel::Element { selector, .. } => Some(
                    TaskModel::MeasureElement(scripts::measuring(selector)),
                ),
                _ => Some(TaskModel::MeasureHeight),
            },
            PhaseModel::Arrange(_, steps) => Some(TaskModel::Perform(steps[0])),
            PhaseModel::Shoot(frame) => Some(TaskModel::Shoot(frame.screenshot)),
            PhaseModel::Over => None,
        }
    }

    /// Whether an answer is one to the task that is due; every task may fail.
    pub open spec fn expects(self, answer: Answer) -> bool {
        match answer {
            Answer::Failed(_) => !(self.phase is Over),
            Answer::Done => self.phase is Approach || self.phase is Arrange,
            Answer::Height(_) => self.phase is Measure && self.mode is FullPage,
            Answer::Bounds(bounds) => self.phase is Measure && self.mode is Element
                && bounds.has_document(),
            Answer::Image(_) => self.phase is Shoot,
        }
    }

    pub open spec fn at(self, phase: PhaseModel) -> CourseModel {
        CourseModel { phase, ..self }
    }

    /// Where the approach leads: a viewport is framed at once, all else is measured first.
    pub open spec fn approached(self) -> PhaseModel {
        if self.mode is Viewport {
            entered(plan::framed_viewport(self.viewport, self.format))
        } else {
            PhaseModel::Measure
        }
    }

    /// The course after an answer, and what it comes to.  A step or screenshot that fails ends the
    /// capture; a height that cannot be measured does not.
    pub open spec fn after(self, answer: Answer) -> (CourseModel, VerdictModel) {
        match (self.phase, answer) {
            (PhaseModel::Measure, Answer::Failed(error)) if self.mode is FullPage => (
                self.at(entered(plan::framed_page(self.viewport, None, self.format))),
                VerdictModel::Continue,
            ),
            (_, Answer::Failed(error)) => (
                self.at(PhaseModel::Over),
                VerdictModel::Failed(error@),
            ),
            (PhaseModel::Approach(steps), _) => (
                self.at(
                    if steps.len() > 1 {
                        PhaseModel::Approach(steps.skip(1))
                    } else {
                        self.approached()
                    },
                ),
                VerdictModel::Continue,
            ),
            (PhaseModel::Arrange(frame, steps), _) => (
                self.at(
                    if steps.len() > 1 {
                        PhaseModel::Arrange(frame, steps.skip(1))
                    } else {
                        PhaseModel::Shoot(frame)
                    },
                ),
                VerdictModel::Continue,
            ),
            (PhaseModel::Measure, Answer::Height(height)) => (
                self.at(entered(plan::framed_page(self.viewport, height, self.format))),
                VerdictModel::Continue,
            ),
            (PhaseModel::Measure, Answer::Bounds(bounds)) => self.measured(bounds),
            (PhaseModel::Shoot(frame), Answer::Image(data)) => (
                self.at(PhaseModel::Over),
                VerdictModel::Captured(
                    Shot {
                        width: frame.width,
                        height: frame.height,
                        scale: frame.scale,
                        bytes: data@.len() as u64,
                    },
                    data@,
                ),
            ),
            _ => (self, VerdictModel::Continue),
        }
    }

    /// The course after an element was measured.
    pub open spec fn measured(self, bounds: ElementBounds) -> (CourseModel, VerdictModel) {
        match self.mode {
            ModeModel::Element { selector, padding } => match plan::framed_element(
                self.viewport,
                bounds,
                padding,
                self.format,
            ) {
                Ok(frame) => (self.at(entered(frame)), VerdictModel::Continue),
                Err(error) => (
                    self.at(PhaseModel::Over),
                    VerdictModel::Failed(plan::unframed(selector, error)),
                ),
            },
            _ => (self, VerdictModel::Continue),
        }
    }
}

/// The phase that a frame opens.
fn enter(frame: Frame) -> (r: Phase)
    ensures
        match r {
            Phase::Arrange(held, at) => held == frame && at == 0 && frame@.steps.len() > 0,
            Phase::Shoot(held) => held == frame && frame@.steps.len() == 0,
            _ => false,
        },
{
    if frame.steps.len() > 0 {
        Phase::Arrange(frame, 0)
    } else {
        Phase::Shoot(frame)
    }
}

/// A copy of a capture mode.
fn copy_mode(mode: &CaptureMode) -> (r: CaptureMode)
    ensures
        r@ == mode@,
{
    match mode {
        CaptureMode::Viewport => CaptureMode::Viewport,
        CaptureMode::FullPage => CaptureMode::FullPage,
        CaptureMode::Element { selector, padding } => CaptureMode::Element {
            selector: selector.clone(),
            padding: *padding,
        },
    }
}

impl Course {
    /// The phase has something to do, and the places in its lists are places.
    pub closed spec fn wf(self) -> bool {
        &&& self@.wf()
        &&& match self.phase {
            Phase::Approach(steps, at) => at < steps@.len(),
            Phase::Arrange(frame, at) => at < frame.steps@.len(),
            _ => true,
        }
    }

    /// The course of a new capture.
    pub fn begin(url: &str, session_agent: &Option<String>, opts: &Opts) -> (r: Course)
        ensures
            r@ == CourseModel::begun(url@, text::text_option(*session_agent), opts@),
            r.wf(),
            r@.wf(),
    {
        let steps = approach(url, session_agent, opts);
        let ghost all = plan::steps_of(steps@);
        assert(all.skip(0) == all);
        assert(all[0] == plan::StepModel::Metrics(opts@.viewport));
        Course {
            viewport: opts.viewport,
            mode: copy_mode(&opts.mode),
            format: opts.format,
            phase: Phase::Approach(steps, 0),
        }
    }

    /// The task that is due, or `None` when the capture is over.
    pub fn task(&self) -> (r: Option<Task>)
        requires
            self.wf(),
        ensures
            match r {
                Some(task) => self@.task() == Some(task@),
                None => self@.task() is None,
            },
    {
        match &self.phase {
            Phase::Approach(steps, at) => Some(Task::Perform(steps[*at].copy())),
            Phase::Measure => match &self.mode {
                CaptureMode::Element { selector, .. } => Some(
                    Task::MeasureElement(element_bounds_js(selector.as_str())),
                ),
                _ => Some(Task::MeasureHeight),
            },
            Phase::Arrange(frame, at) => Some(Task::Perform(frame.steps[*at].copy())),
            Phase::Shoot(frame) => Some(Task::Shoot(frame.screenshot)),
            Phase::Over => None,
        }
    }

    /// The course of a frame that was settled on.
    fn settle_on(self, frame: Frame) -> (r: Course)
        ensures
            r@ == self@.at(entered(frame@)),
            r.wf(),
            r@.wf(),
    {
        assert(frame@.steps.skip(0) == frame@.steps);
        let phase = enter(frame);
        Course { viewport: self.viewport, mode: self.mode, format: self.format, phase }
    }

    /// The course after its last task.
    fn end(self) -> (r: Course)
        ensures
            r@ == self@.at(PhaseModel::Over),
            r.wf(),
            r@.wf(),
    {
        Course {
            viewport: self.viewport,
            mode: self.mode,
            format: self.format,
            phase: Phase::Over,
        }
    }

    /// The course after a step was performed.
    fn done(self) -> (r: Course)
        requires
            self.wf(),
            self@.expects(Answer::Done),
        ensures
            (r@, VerdictModel::Continue) == self@.after(Answer::Done),
            r.wf(),
            r@.wf(),
    {
        match self.phase {
            Phase::Approach(steps, at) => {
                let ghost rest = plan::steps_of(steps@).skip(at as int);
                assert(rest.skip(1) == plan::steps_of(steps@).skip(at + 1));
                if steps.len() - at > 1 {
                    return Course {
                        viewport: self.viewport,
                        mode: self.mode,
                        format: self.format,
                        phase: Phase::Approach(steps, at + 1),
                    };
                }
                let next = Course {
                    viewport: self.viewport,
                    mode: self.mode,
                    format: self.format,
                    phase: Phase::Measure,
                };
                match next.mode {
                    CaptureMode::Viewport => {
                        let frame = viewport_frame(next.viewport, next.format);
                        next.settle_on(frame)
                    },
                    _ => next,
                }
            },
            Phase::Arrange(frame, at) => {
                let ghost rest = frame@.steps.skip(at as int);
                assert(rest.skip(1) == frame@.steps.skip(at + 1));
                let phase = if frame.steps.len() - at > 1 {
                    Phase::Arrange(frame, at + 1)
                } else {
                    Phase::Shoot(frame)
                };
                Course { viewport: self.viewport, mode: self.mode, format: self.format, phase }
            },
            phase => Course {
                viewport: self.viewport,
                mode: self.mode,
                format: self.format,
                phase,
            },
        }
    }

    /// The course after the selected element was measured.
    fn bounds(self, bounds: ElementBounds) -> (r: (Course, Verdict))
        requires
            self.wf(),
            self@.expects(Answer::Bounds(bounds)),
        ensures
            (r.0@, r.1@) == self@.after(Answer::Bounds(bounds)),
            r.0.wf(),
            r.0@.wf(),
    {
        match &self.mode {
            CaptureMode::Element { selector, padding } => match element_frame(
                self.viewport,
                &bounds,
                *padding,
                self.format,
            ) {
                Ok(frame) => (self.settle_on(frame), Verdict::Continue),
                Err(error) => {
                    let message = unframed_message(selector.as_str(), error);
                    (self.end(), Verdict::Failed(message))
                },
            },
            _ => (self, Verdict::Continue),
        }
    }

    /// The course after a task failed.
    fn failed(self, error: String) -> (r: (Course, Verdict))
        requires
            self.wf(),
            self@.expects(Answer::Failed(error)),
        ensures
            (r.0@, r.1@) == self@.after(Answer::Failed(error)),
            r.0.wf(),
            r.0@.wf(),
    {
        match (&self.phase, &self.mode) {
            (Phase::Measure, CaptureMode::FullPage) => {
                let frame = full_page_frame(self.viewport, None, self.format);
                (self.settle_on(frame), Verdict::Continue)
            },
            _ => (self.end(), Verdict::Failed(error)),
        }
    }

    /// The course after the screenshot was taken.
    fn image(self, data: Vec<u8>) -> (r: (Course, Verdict))
        requires
            self.wf(),
            self@.expects(Answer::Image(data)),
        ensures
            (r.0@, r.1@) == self@.after(Answer::Image(data)),
            r.0.wf(),
            r.0@.wf(),
    {
        let verdict = match &self.phase {
            Phase::Shoot(frame) => Verdict::Captured(finish(frame, data)),
            _ => Verdict::Continue,
        };
        (self.end(), verdict)
    }

    /// Takes the answer to the task that was due.
    pub fn answer(self, answer: Answer) -> (r: (Course, Verdict))
        requires
            self.wf(),
            self@.expects(answer),
        ensures
            (r.0@, r.1@) == self@.after(answer),
            r.0.wf(),
            r.0@.wf(),
    {
        match answer {
            Answer::Done => (self.done(), Verdict::Continue),
            Answer::Height(height) => {
                let frame = full_page_frame(self.viewport, height, self.format);
                (self.settle_on(frame), Verdict::Continue)
            },
            Answer::Bounds(bounds) => self.bounds(bounds),
            Answer::Image(data) => self.image(data),
            Answer::Failed(error) => self.failed(error),
        }
    }
}

impl CourseModel {
    /// How many answers a course can take at most.
    pub open spec fn remaining(self) -> nat {
        match self.phase {
            PhaseModel::Approach(steps) => steps.len() + 4,
            PhaseModel::Measure => 4,
            PhaseModel::Arrange(_, steps) => steps.len() + 1,
            PhaseModel::Shoot(_) => 1,
            PhaseModel::Over => 0,
        }
    }
}

impl CourseModel {
    /// The course after a run of answers.
    pub open spec fn after_all(self, answers: Seq<Answer>) -> CourseModel
        decreases answers.len(),
    {
        if answers.len() == 0 {
            self
        } else {
            self.after_all(answers.drop_last()).after(answers.last()).0
        }
    }

    /// Whether each of a run of answers is one to the task that is then due.
    pub open spec fn expects_all(self, answers: Seq<Answer>) -> bool
        decreases answers.len(),
    {
        answers.len() > 0 ==> self.expects_all(answers.drop_last()) && self.after_all(
            answers.drop_last(),
        ).expects(answers.last())
    }

    /// The verdict on the last of a run of answers.
    pub open spec fn verdict(self, answers: Seq<Answer>) -> VerdictModel {
        self.after_all(answers.drop_last()).after(answers.last()).1
    }
}

/// The height that an answer gives a page: none if it could not be measured.
pub open spec fn height_given(answer: Answer) -> Option<Double> {
    match answer {
        Answer::Height(height) => height,
        _ => None,
    }
}

/// Whether a frame is the one that options ask for, given what a run measured: that of the
/// viewport, of a page of the height that an answer gave, or of an element at the bounds that an
/// answer gave.
pub open spec fn asked_for(
    viewport: Viewport,
    mode: ModeModel,
    format: Format,
    answers: Seq<Answer>,
    frame: FrameModel,
) -> bool {
    match mode {
        ModeModel::Viewport => frame == plan::framed_viewport(viewport, format),
        ModeModel::FullPage => exists|i: int|
            0 <= i < answers.len() && ((#[trigger] answers[i]) is Height || answers[i] is Failed)
                && frame == plan::framed_page(viewport, height_given(answers[i]), format),
        ModeModel::Element { padding, .. } => exists|i: int|
            0 <= i < answers.len() && ((#[trigger] answers[i]) matches Answer::Bounds(bounds)
                && plan::framed_element(viewport, bounds, padding, format) == Ok::<
                FrameModel,
                ClipError,
            >(frame)),
    }
}

/// What was asked for stays so as answers come in.
proof fn lemma_still_asked_for(
    viewport: Viewport,
    mode: ModeModel,
    format: Format,
    answers: Seq<Answer>,
    frame: FrameModel,
)
    requires
        answers.len() > 0,
        asked_for(viewport, mode, format, answers.drop_last(), frame),
    ensures
        asked_for(viewport, mode, format, answers, frame),
{
    let before = answers.drop_last();
    if !(mode is Viewport) {
        let i = match mode {
            ModeModel::FullPage => choose|i: int|
                0 <= i < before.len() && ((#[trigger] before[i]) is Height || before[i] is Failed)
                    && frame == plan::framed_page(viewport, height_given(before[i]), format),
            ModeModel::Element { padding, .. } => choose|i: int|
                0 <= i < before.len() && ((#[trigger] before[i]) matches Answer::Bounds(bounds)
                    && plan::framed_element(viewport, bounds, padding, format) == Ok::<
                    FrameModel,
                    ClipError,
                >(frame)),
            _ => 0,
        };
        assert(answers[i] == before[i]);
    }
}

/// Along a run the options stay, and every frame is one that they ask for.
proof fn lemma_run(course: CourseModel, answers: Seq<Answer>)
    requires
        course.wf(),
        course.phase is Approach,
        course.expects_all(answers),
    ensures
        ({
            let now = course.after_all(answers);
            &&& now.wf()
            &&& now.viewport == course.viewport && now.mode == course.mode && now.format
                == course.format
            &&& now.phase matches PhaseModel::Arrange(frame, _) ==> asked_for(
                course.viewport,
                course.mode,
                course.format,
                answers,
                frame,
            )
            &&& now.phase matches PhaseModel::Shoot(frame) ==> asked_for(
                course.viewport,
                course.mode,
                course.format,
                answers,
                frame,
            )
        }),
    decreases answers.len(),
{
    if answers.len() > 0 {
        let before = answers.drop_last();
        lemma_run(course, before);
        let then = course.after_all(before);
        let answer = answers.last();
        assert(answers[answers.len() - 1] == answer);
        law_every_capture_ends(then, answer);
        match then.phase {
            PhaseModel::Arrange(frame, _) => {
                lemma_still_asked_for(course.viewport, course.mode, course.format, answers, frame);
            },
            PhaseModel::Shoot(frame) => {
                lemma_still_asked_for(course.viewport, course.mode, course.format, answers, frame);
            },
            _ => {},
        }
    }
}

/// A capture gives what its options ask for.  Whatever run of answers ends in a capture, there is a
/// frame that the options and the measurements of the run ask for: the screenshot that was taken
/// is that of the frame, in the format and at the quality of the options, the shot has the size
/// and scale of the frame, and its bytes are those that the browser gave.
pub proof fn law_capture_is_what_was_asked_for(
    url: Seq<char>,
    session_agent: Option<Seq<char>>,
    opts: OptsModel,
    answers: Seq<Answer>,
)
    requires
        answers.len() > 0,
        CourseModel::begun(url, session_agent, opts).expects_all(answers),
        CourseModel::begun(url, session_agent, opts).verdict(answers) is Captured,
    ensures
        exists|frame: FrameModel| #[trigger]
            asked_for(opts.viewport, opts.mode, opts.format, answers, frame) && ({
                let course = CourseModel::begun(url, session_agent, opts);
                let shot = course.verdict(answers)->Captured_0;
                let data = course.verdict(answers)->Captured_1;
                &&& course.after_all(answers.drop_last()).task() == Some(
                    TaskModel::Shoot(frame.screenshot),
                )
                &&& frame.screenshot.format == opts.format
                &&& frame.screenshot.quality == plan::quality_of(opts.format)
                &&& shot.width == frame.width && shot.height == frame.height
                &&& shot.scale == frame.scale
                &&& shot.bytes == data.len() as u64
                &&& answers.last() matches Answer::Image(image) && data == image@
            }),
{
    let course = CourseModel::begun(url, session_agent, opts);
    let before = answers.drop_last();
    assert(plan::approached(url, session_agent, opts)[0] == StepModel::Metrics(opts.viewport));
    lemma_run(course, before);
    let then = course.after_all(before);
    law_capture_holds_the_screenshot(then, answers.last());
    match then.phase {
        PhaseModel::Shoot(frame) => {
            lemma_still_asked_for(opts.viewport, opts.mode, opts.format, answers, frame);
        },
        _ => {},
    }
}

/// Every answer brings a capture nearer to its end.
pub proof fn law_every_capture_ends(course: CourseModel, answer: Answer)
    requires
        course.wf(),
        course.expects(answer),
    ensures
        course.after(answer).0.remaining() < course.remaining(),
        course.after(answer).0.wf(),
{
}

/// A capture is over exactly when its verdict is in.
pub proof fn law_verdict_ends_the_capture(course: CourseModel, answer: Answer)
    requires
        course.wf(),
        course.expects(answer),
    ensures
        course.after(answer).1 is Continue <==> !(course.after(answer).0.phase is Over),
{
}

/// A page is captured only by a screenshot that was asked for, and its bytes are those of the
/// image.
pub proof fn law_capture_holds_the_screenshot(course: CourseModel, answer: Answer)
    requires
        course.wf(),
        course.expects(answer),
        course.after(answer).1 is Captured,
    ensures
        course.task() is Some,
        (course.task()->0) is Shoot,
        answer is Image,
        course.after(answer).1->Captured_1 == (answer->Image_0)@,
{
}

/// A task that fails ends the capture with its own error, but for the height of a page: where that
/// cannot be measured the capture goes on.
pub proof fn law_failures_end_a_capture(course: CourseModel, error: String)
    requires
        course.wf(),
        course.expects(Answer::Failed(error)),
    ensures
        course.phase is Measure && course.mode is FullPage ==> course.after(
            Answer::Failed(error),
        ).1 is Continue,
        !(course.phase is Measure && course.mode is FullPage) ==> course.after(
            Answer::Failed(error),
        ).1 == VerdictModel::Failed(error@) && course.after(Answer::Failed(error)).0.task() is None,
{
}

/// An element that has no frame ends the capture with an error that names its selector and says
/// why; one that has a frame lets it go on.
pub proof fn law_an_element_without_a_frame_ends_a_capture(
    course: CourseModel,
    bounds: ElementBounds,
    selector: Seq<char>,
    padding: u32,
)
    requires
        course.wf(),
        course.mode == (ModeModel::Element { selector, padding }),
        course.expects(Answer::Bounds(bounds)),
    ensures
        clip::framed(bounds, padding) is Ok ==> course.after(Answer::Bounds(bounds)).1 is Continue,
        clip::framed(bounds, padding) matches Err(error) ==> {
            &&& course.after(Answer::Bounds(bounds)).1 is Failed
            &&& course.after(Answer::Bounds(bounds)).0.task() is None
            &&& text::occurs_in(course.after(Answer::Bounds(bounds)).1->Failed_0, selector)
            &&& paths::ends_in(course.after(Answer::Bounds(bounds)).1->Failed_0, error.text())
        },
{
    if let Err(error) = clip::framed(bounds, padding) {
        let message = course.after(Answer::Bounds(bounds)).1->Failed_0;
        let head = "cannot capture selected element: "@;
        assert(message == head + selector + ": "@ + error.text());
        assert(message.subrange(head.len() as int, (head.len() + selector.len()) as int) =~= selector);
        assert(text::occurs_at(message, selector, head.len() as int));
        assert(message.subrange(message.len() - error.text().len(), message.len() as int)
            =~= error.text());
    }
}

/// How many answers come before the steps of the frame: those to the steps of the approach, and
/// the measurement where there is one.
pub open spec fn lead(approach: Seq<StepModel>, mode: ModeModel) -> int {
    approach.len() + if mode is Viewport {
        0int
    } else {
        1
    }
}

/// Where a run stands after `k` answers.
spec fn stands_at(phase: PhaseModel, approach: Seq<StepModel>, mode: ModeModel, k: int) -> bool {
    let m = lead(approach, mode);
    match phase {
        PhaseModel::Approach(steps) => 0 <= k < approach.len() && steps == approach.skip(k),
        PhaseModel::Measure => k == approach.len() && !(mode is Viewport),
        PhaseModel::Arrange(frame, steps) => 0 <= k - m < frame.steps.len() && steps
            == frame.steps.skip(k - m),
        PhaseModel::Shoot(frame) => k == m + frame.steps.len(),
        PhaseModel::Over => k > 0,
    }
}

proof fn lemma_run_prefix(course: CourseModel, answers: Seq<Answer>, k: int)
    requires
        course.expects_all(answers),
        0 <= k <= answers.len(),
    ensures
        course.expects_all(answers.take(k)),
        k < answers.len() ==> course.after_all(answers.take(k)).expects(answers[k]),
        k < answers.len() ==> course.after_all(answers.take(k + 1)) == course.after_all(
            answers.take(k),
        ).after(answers[k]).0,
    decreases answers.len(),
{
    if k == answers.len() {
        assert(answers.take(k) =~= answers);
    } else {
        let before = answers.drop_last();
        lemma_run_prefix(course, before, k);
        assert(before.take(k) =~= answers.take(k));
        assert(answers.take(k + 1).drop_last() =~= answers.take(k));
        assert(answers.take(k + 1).last() == answers[k]);
        if k + 1 == answers.len() {
            assert(answers.take(k) =~= before);
        } else {
            assert(before[k] == answers[k]);
        }
    }
}

/// A frame is entered where its lead ends.
proof fn lemma_entered(frame: FrameModel, approach: Seq<StepModel>, mode: ModeModel)
    requires
        approach.len() > 0,
    ensures
        stands_at(entered(frame), approach, mode, lead(approach, mode)),
{
    assert(frame.steps.skip(0) =~= frame.steps);
}

/// What a step of the approach leads to.
proof fn lemma_after_approach(then: CourseModel, steps: Seq<StepModel>, answer: Answer)
    requires
        then.phase == PhaseModel::Approach(steps),
        then.expects(answer),
        !(answer is Failed),
    ensures
        then.after(answer).0.phase == if steps.len() > 1 {
            PhaseModel::Approach(steps.skip(1))
        } else if then.mode is Viewport {
            entered(plan::framed_viewport(then.viewport, then.format))
        } else {
            PhaseModel::Measure
        },
        then.after(answer).0.mode == then.mode,
{
}

/// What a step of a frame leads to.
proof fn lemma_after_arrange(
    then: CourseModel,
    frame: FrameModel,
    steps: Seq<StepModel>,
    answer: Answer,
)
    requires
        then.phase == PhaseModel::Arrange(frame, steps),
        then.expects(answer),
        !(answer is Failed),
    ensures
        then.after(answer).0.phase == if steps.len() > 1 {
            PhaseModel::Arrange(frame, steps.skip(1))
        } else {
            PhaseModel::Shoot(frame)
        },
        then.after(answer).0.mode == then.mode,
{
}

/// What a measurement leads to: a frame that is entered, or the end.
proof fn lemma_after_measure(then: CourseModel, answer: Answer) -> (frame: FrameModel)
    requires
        then.phase is Measure,
        then.expects(answer),
        then.wf(),
    ensures
        then.after(answer).0.phase == entered(frame) || then.after(answer).0.phase is Over,
        then.after(answer).0.mode == then.mode,
{
    match answer {
        Answer::Bounds(bounds) => match then.mode {
            ModeModel::Element { selector, padding } => match plan::framed_element(
                then.viewport,
                bounds,
                padding,
                then.format,
            ) {
                Ok(frame) => frame,
                Err(_) => arbitrary(),
            },
            _ => arbitrary(),
        },
        _ => plan::framed_page(then.viewport, height_given(answer), then.format),
    }
}

/// What the screenshot or a failure leads to.
proof fn lemma_after_the_last(then: CourseModel, answer: Answer)
    requires
        then.phase is Shoot || (answer is Failed && !(then.phase is Measure)),
        then.expects(answer),
    ensures
        then.after(answer).0.phase is Over,
        then.after(answer).0.mode == then.mode,
{
}

/// An answer brings a run to its next place.
proof fn lemma_next_stage(
    then: CourseModel,
    approach: Seq<StepModel>,
    answer: Answer,
    k: int,
)
    requires
        then.wf(),
        then.expects(answer),
        approach.len() > 0,
        k >= 0,
        stands_at(then.phase, approach, then.mode, k),
    ensures
        stands_at(then.after(answer).0.phase, approach, then.mode, k + 1),
        then.after(answer).0.mode == then.mode,
{
    let m = lead(approach, then.mode);
    if then.phase is Shoot || (answer is Failed && !(then.phase is Measure)) {
        lemma_after_the_last(then, answer);
    } else {
        match then.phase {
            PhaseModel::Approach(steps) => {
                lemma_after_approach(then, steps, answer);
                assert(steps.skip(1) =~= approach.skip(k + 1));
                lemma_entered(
                    plan::framed_viewport(then.viewport, then.format),
                    approach,
                    then.mode,
                );
            },
            PhaseModel::Measure => {
                let frame = lemma_after_measure(then, answer);
                lemma_entered(frame, approach, then.mode);
            },
            PhaseModel::Arrange(frame, steps) => {
                lemma_after_arrange(then, frame, steps, answer);
                assert(steps.skip(1) =~= frame.steps.skip(k + 1 - m));
            },
            _ => {},
        }
    }
}

proof fn lemma_stage(course: CourseModel, approach: Seq<StepModel>, answers: Seq<Answer>, k: int)
    requires
        course.wf(),
        course.phase == PhaseModel::Approach(approach),
        course.expects_all(answers),
        0 <= k <= answers.len(),
    ensures
        course.after_all(answers.take(k)).wf(),
        course.after_all(answers.take(k)).mode == course.mode,
        stands_at(course.after_all(answers.take(k)).phase, approach, course.mode, k),
    decreases k,
{
    if k == 0 {
        assert(answers.take(0).len() == 0);
        assert(approach.skip(0) =~= approach);
    } else {
        lemma_stage(course, approach, answers, k - 1);
        lemma_run_prefix(course, answers, k - 1);
        let then = course.after_all(answers.take(k - 1));
        law_every_capture_ends(then, answers[k - 1]);
        lemma_next_stage(then, approach, answers[k - 1], k - 1);
    }
}

/// What leads to a frame behind its lead is a step of that frame.
proof fn lemma_frame_before(then: CourseModel, answer: Answer, frame: FrameModel)
    requires
        then.phase is Arrange || then.phase is Shoot || then.phase is Over,
        then.expects(answer),
        then.after(answer).0.phase == PhaseModel::Shoot(frame) || (then.after(
            answer,
        ).0.phase matches PhaseModel::Arrange(f, _) && f == frame),
    ensures
        then.phase matches PhaseModel::Arrange(f, _) && f == frame,
{
    if then.phase is Shoot || answer is Failed {
        lemma_after_the_last(then, answer);
    } else {
        match then.phase {
            PhaseModel::Arrange(f, steps) => {
                lemma_after_arrange(then, f, steps, answer);
            },
            _ => {},
        }
    }
}

/// The course after the first `k` of a run of answers.
#[verifier::opaque]
spec fn at_answer(course: CourseModel, answers: Seq<Answer>, k: int) -> CourseModel {
    course.after_all(answers.take(k))
}

/// Whether a phase belongs to a frame.
spec fn belongs(phase: PhaseModel, frame: FrameModel) -> bool {
    match phase {
        PhaseModel::Arrange(f, _) => f == frame,
        PhaseModel::Shoot(f) => f == frame,
        _ => false,
    }
}

/// One answer earlier a run already had its frame.
proof fn lemma_frame_one_back(
    course: CourseModel,
    approach: Seq<StepModel>,
    answers: Seq<Answer>,
    k: int,
    frame: FrameModel,
)
    requires
        course.wf(),
        course.phase == PhaseModel::Approach(approach),
        course.expects_all(answers),
        lead(approach, course.mode) < k <= answers.len(),
        belongs(at_answer(course, answers, k).phase, frame),
    ensures
        belongs(at_answer(course, answers, k - 1).phase, frame),
{
    reveal(at_answer);
    lemma_run_prefix(course, answers, k - 1);
    lemma_stage(course, approach, answers, k - 1);
    lemma_frame_before(course.after_all(answers.take(k - 1)), answers[k - 1], frame);
}

/// From the measurement on a run keeps its frame.
proof fn lemma_frame_stays(
    course: CourseModel,
    approach: Seq<StepModel>,
    answers: Seq<Answer>,
    j: int,
    k: int,
    frame: FrameModel,
)
    requires
        course.wf(),
        course.phase == PhaseModel::Approach(approach),
        course.expects_all(answers),
        lead(approach, course.mode) <= j <= k <= answers.len(),
        belongs(at_answer(course, answers, k).phase, frame),
    ensures
        belongs(at_answer(course, answers, j).phase, frame),
    decreases k - j,
{
    if j < k {
        lemma_frame_one_back(course, approach, answers, k, frame);
        lemma_frame_stays(course, approach, answers, j, k - 1, frame);
    }
}

/// The step of the approach that is due at its place.
proof fn lemma_approach_task(
    course: CourseModel,
    approach: Seq<StepModel>,
    answers: Seq<Answer>,
    i: int,
)
    requires
        course.wf(),
        course.phase == PhaseModel::Approach(approach),
        course.expects_all(answers),
        0 <= i < approach.len(),
        i < answers.len(),
    ensures
        course.after_all(answers.take(i)).task() == Some(TaskModel::Perform(approach[i])),
{
    lemma_stage(course, approach, answers, i);
    lemma_run_prefix(course, answers, i);
    let then = course.after_all(answers.take(i));
    lemma_due_in_approach(then, approach, answers[i], i);
}

proof fn lemma_due_in_approach(
    then: CourseModel,
    approach: Seq<StepModel>,
    answer: Answer,
    i: int,
)
    requires
        0 <= i < approach.len(),
        stands_at(then.phase, approach, then.mode, i),
        then.expects(answer),
    ensures
        then.task() == Some(TaskModel::Perform(approach[i])),
{
    assert(approach.skip(i)[0] == approach[i]);
}

/// The measurement that is due behind the approach.
proof fn lemma_measure_task(then: CourseModel, approach: Seq<StepModel>, answer: Answer)
    requires
        approach.len() > 0,
        stands_at(then.phase, approach, then.mode, approach.len() as int),
        then.expects(answer),
        !(then.mode is Viewport),
    ensures
        then.mode is FullPage ==> then.task() == Some(TaskModel::MeasureHeight),
        then.mode matches ModeModel::Element { selector, .. } ==> then.task() == Some(
            TaskModel::MeasureElement(scripts::measuring(selector)),
        ),
{
}

/// The step of a frame that is due at its place.
proof fn lemma_frame_task(
    course: CourseModel,
    approach: Seq<StepModel>,
    answers: Seq<Answer>,
    j: int,
    last: int,
    frame: FrameModel,
)
    requires
        course.wf(),
        course.phase == PhaseModel::Approach(approach),
        course.expects_all(answers),
        0 <= j < frame.steps.len(),
        last == lead(approach, course.mode) + frame.steps.len(),
        last <= answers.len(),
        course.after_all(answers.take(last)).phase == PhaseModel::Shoot(frame),
    ensures
        course.after_all(answers.take(lead(approach, course.mode) + j)).task() == Some(
            TaskModel::Perform(frame.steps[j]),
        ),
{
    let m = lead(approach, course.mode);
    assert(belongs(at_answer(course, answers, last).phase, frame)) by {
        reveal(at_answer);
    }
    lemma_frame_stays(course, approach, answers, m + j, last, frame);
    lemma_stage(course, approach, answers, m + j);
    assert(belongs(course.after_all(answers.take(m + j)).phase, frame)) by {
        reveal(at_answer);
    }
    lemma_due_in_frame(course.after_all(answers.take(m + j)), approach, j, frame);
}

proof fn lemma_due_in_frame(
    then: CourseModel,
    approach: Seq<StepModel>,
    j: int,
    frame: FrameModel,
)
    requires
        0 <= j < frame.steps.len(),
        belongs(then.phase, frame),
        stands_at(then.phase, approach, then.mode, lead(approach, then.mode) + j),
    ensures
        then.task() == Some(TaskModel::Perform(frame.steps[j])),
{
    assert(frame.steps.skip(j)[0] == frame.steps[j]);
}

/// The frame that a captured run has at its last answer.
proof fn lemma_captured_frame(then: CourseModel, answer: Answer) -> (frame: FrameModel)
    requires
        then.wf(),
        then.expects(answer),
        then.after(answer).1 is Captured,
    ensures
        then.phase == PhaseModel::Shoot(frame),
        then.task() == Some(TaskModel::Shoot(frame.screenshot)),
{
    law_capture_holds_the_screenshot(then, answer);
    match then.phase {
        PhaseModel::Shoot(frame) => frame,
        _ => arbitrary(),
    }
}

/// Every place of the approach comes before the end of a run that stands at a frame.
proof fn lemma_shoots_behind_its_lead(
    then: CourseModel,
    approach: Seq<StepModel>,
    frame: FrameModel,
    k: int,
)
    requires
        then.phase == PhaseModel::Shoot(frame),
        stands_at(then.phase, approach, then.mode, k),
    ensures
        k == lead(approach, then.mode) + frame.steps.len(),
{
}

/// A capture does all that it sets out to do, once and in order.  In every run that ends in a
/// capture the tasks are the steps of the approach, then the measurement where the mode takes one,
/// then the steps of the frame, and last the screenshot.
pub proof fn law_a_capture_performs_every_step(
    url: Seq<char>,
    session_agent: Option<Seq<char>>,
    opts: OptsModel,
    answers: Seq<Answer>,
)
    requires
        answers.len() > 0,
        CourseModel::begun(url, session_agent, opts).expects_all(answers),
        CourseModel::begun(url, session_agent, opts).verdict(answers) is Captured,
    ensures
        ({
            let course = CourseModel::begun(url, session_agent, opts);
            let approach = plan::approached(url, session_agent, opts);
            let m = lead(approach, opts.mode);
            let last = answers.len() - 1;
            &&& forall|i: int|
                0 <= i < approach.len() ==> course.after_all(#[trigger] answers.take(i)).task() == Some(
                    TaskModel::Perform(approach[i]),
                )
            &&& opts.mode is FullPage ==> course.after_all(
                answers.take(approach.len() as int),
            ).task() == Some(TaskModel::MeasureHeight)
            &&& opts.mode matches ModeModel::Element { selector, .. } ==> course.after_all(
                answers.take(approach.len() as int),
            ).task() == Some(TaskModel::MeasureElement(scripts::measuring(selector)))
            &&& exists|frame: FrameModel|
                {
                    &&& #[trigger] asked_for(opts.viewport, opts.mode, opts.format, answers, frame)
                    &&& last == m + frame.steps.len()
                    &&& forall|j: int|
                        0 <= j < frame.steps.len() ==> course.after_all(
                            #[trigger] answers.take(m + j),
                        ).task() == Some(TaskModel::Perform(frame.steps[j]))
                    &&& course.after_all(answers.take(last)).task() == Some(
                        TaskModel::Shoot(frame.screenshot),
                    )
                }
        }),
{
    let course = CourseModel::begun(url, session_agent, opts);
    let approach = plan::approached(url, session_agent, opts);
    let m = lead(approach, opts.mode);
    let last = answers.len() - 1;
    assert(approach[0] == StepModel::Metrics(opts.viewport));
    assert(course.wf());
    lemma_run_prefix(course, answers, last);
    lemma_stage(course, approach, answers, last);
    assert(answers.take(last) =~= answers.drop_last());
    let then = course.after_all(answers.take(last));
    let frame = lemma_captured_frame(then, answers.last());
    lemma_shoots_behind_its_lead(then, approach, frame, last);
    lemma_run(course, answers.drop_last());
    lemma_still_asked_for(opts.viewport, opts.mode, opts.format, answers, frame);
    assert forall|i: int| 0 <= i < approach.len() implies course.after_all(
        #[trigger] answers.take(i),
    ).task() == Some(TaskModel::Perform(approach[i])) by {
        lemma_approach_task(course, approach, answers, i);
    }
    let n = approach.len() as int;
    if !(opts.mode is Viewport) {
        lemma_stage(course, approach, answers, n);
        lemma_run_prefix(course, answers, n);
        lemma_measure_task(course.after_all(answers.take(n)), approach, answers[n]);
    }
    assert forall|j: int| 0 <= j < frame.steps.len() implies course.after_all(
        #[trigger] answers.take(m + j),
    ).task() == Some(TaskModel::Perform(frame.steps[j])) by {
        lemma_frame_task(course, approach, answers, j, last, frame);
    }
}

/// Every task can be answered: a step by being done, a height with any number or none, an element
/// with any bounds in a document that has a size, a screenshot with any bytes; and every task may
/// fail.
pub proof fn law_every_task_can_be_answered(
    course: CourseModel,
    height: Option<Double>,
    bounds: ElementBounds,
    data: Vec<u8>,
    error: String,
)
    requires
        course.wf(),
    ensures
        course.task() is Some ==> course.expects(Answer::Failed(error)),
        course.task() matches Some(TaskModel::Perform(_)) ==> course.expects(Answer::Done),
        course.task() matches Some(TaskModel::MeasureHeight) ==> course.expects(
            Answer::Height(height),
        ),
        course.task() matches Some(TaskModel::MeasureElement(_)) ==> (course.expects(
            Answer::Bounds(bounds),
        ) <==> bounds.has_document()),
        course.task() matches Some(TaskModel::Shoot(_)) ==> course.expects(Answer::Image(data)),
{
}

/// Tasks and verdicts are read as they are.
pub proof fn law_tasks_are_read_as_they_are(task: Task, verdict: Verdict)
    ensures
        task matches Task::Perform(step) ==> task@ == TaskModel::Perform(step@),
        task is MeasureHeight <==> task@ is MeasureHeight,
        task matches Task::MeasureElement(script) ==> task@ == TaskModel::MeasureElement(script@),
        task matches Task::Shoot(screenshot) ==> task@ == TaskModel::Shoot(screenshot),
        verdict is Continue <==> verdict@ is Continue,
        verdict matches Verdict::Captured(image) ==> verdict@ == VerdictModel::Captured(
            image.shot,
            image.data@,
        ),
        verdict matches Verdict::Failed(error) ==> verdict@ == VerdictModel::Failed(error@),
{
}

} // verus!
