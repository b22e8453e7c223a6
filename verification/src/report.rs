//! What a capture reports: JSON objects, lines for people, sizes of files.

use crate::double;
use crate::double::{Double, BINADE, WIDE};
use crate::double_laws;
use crate::image::Format;
use crate::json;
use crate::json::Object;
use crate::mode;
use crate::mode::CaptureMode;
use crate::outside;
use crate::outside::absolute_path;
use crate::paths;
use crate::text;
use crate::text::decimal_text;
use vstd::arithmetic::div_mod::*;
use vstd::arithmetic::power2::*;
use vstd::prelude::*;
use vstd::string::*;

verus! {

/// What was captured.
#[derive(Clone, Copy, Debug)]
pub struct Shot {
    /// Captured width and height in CSS pixels.
    pub width: u32,
    pub height: u32,
    /// The device scale factor that was used.
    pub scale: Double,
    /// The size of the image file.
    pub bytes: u64,
}

/// A capture with the bytes of its image file.
#[derive(Debug)]
pub struct CapturedImage {
    pub shot: Shot,
    pub data: Vec<u8>,
}

/// The report of a capture that succeeded.
#[derive(Clone, Debug)]
pub struct SuccessReport {
    pub status: &'static str,
    pub url: String,
    pub output: Option<String>,
    pub mode: &'static str,
    pub selector: Option<String>,
    pub padding: Option<u32>,
    pub css_width: u32,
    pub css_height: u32,
    pub scale: Double,
    pub format: &'static str,
    pub bytes: u64,
}

/// The report of a capture that failed.
#[derive(Clone, Debug)]
pub struct ErrorReport {
    pub status: &'static str,
    pub url: String,
    pub output: Option<String>,
    pub mode: &'static str,
    pub selector: Option<String>,
    pub padding: Option<u32>,
    pub error: String,
}

/// A path made absolute, or as it was given where that failed.
pub open spec fn settled(path: Seq<char>, absolute: Option<Seq<char>>) -> Seq<char> {
    match absolute {
        Some(absolute) => absolute,
        None => path,
    }
}

/// A path made absolute, or as it was given where that failed.
pub fn settled_path(path: &str, absolute: Option<String>) -> (r: String)
    ensures
        r@ == match absolute {
            Some(absolute) => absolute@,
            None => path@,
        },
        r@ == settled(path@, text::text_option(absolute)),
{
    match absolute {
        Some(absolute) => absolute,
        None => path.to_owned(),
    }
}

/// Whether a path may be reported as `settled`: in its absolute form, or as it was given where it
/// has none.
pub open spec fn may_settle_as(path: Seq<char>, settled: Seq<char>) -> bool {
    &&& settled == path || paths::may_become(path, settled)
    &&& path.len() == 0 ==> settled == path
}

/// The absolute form of an output path, or the path as it was given where it has none.  Which
/// directory a relative path stands in depends on the process.
pub fn absolute_output(path: &str) -> (r: String)
    ensures
        may_settle_as(path@, r@),
{
    settled_path(path, absolute_path(path))
}

fn owned(text: Option<&str>) -> (r: Option<String>)
    ensures
        text::text_option(r) == mode::str_option(text),
{
    match text {
        Some(text) => Some(text.to_owned()),
        None => None,
    }
}

impl SuccessReport {
    /// What a success report says.
    pub open spec fn says(
        self,
        url: Seq<char>,
        output: Option<Seq<char>>,
        mode: mode::ModeModel,
        format: Format,
        shot: Shot,
    ) -> bool {
        &&& self.status@ == "ok"@
        &&& self.url@ == url
        &&& text::text_option(self.output) == output
        &&& self.mode@ == mode.name()
        &&& text::text_option(self.selector) == mode.selector()
        &&& self.padding == mode.padding()
        &&& self.css_width == shot.width
        &&& self.css_height == shot.height
        &&& self.scale == shot.scale
        &&& self.format@ == format.extension()
        &&& self.bytes == shot.bytes
    }
}

/// The report of a capture that is saved at an absolute path, or not saved.
pub fn success_report_at(
    url: &str,
    absolute: Option<String>,
    mode: &CaptureMode,
    format: Format,
    shot: &Shot,
) -> (r: SuccessReport)
    ensures
        r.says(url@, text::text_option(absolute), mode@, format, *shot),
{
    SuccessReport {
        status: "ok",
        url: url.to_owned(),
        output: absolute,
        mode: mode.name(),
        selector: owned(mode.selector()),
        padding: mode.padding(),
        css_width: shot.width,
        css_height: shot.height,
        scale: shot.scale,
        format: format.ext(),
        bytes: shot.bytes,
    }
}

/// The report of a capture; the path it was saved at is made absolute.
pub fn success_report(
    url: &str,
    output: Option<&str>,
    mode: &CaptureMode,
    format: Format,
    shot: &Shot,
) -> (r: SuccessReport)
    ensures
        r.says(url@, text::text_option(r.output), mode@, format, *shot),
        r.output is Some == output is Some,
        output matches Some(path) ==> may_settle_as(path@, (r.output->0)@),
{
    let absolute = match output {
        Some(path) => Some(absolute_output(path)),
        None => None,
    };
    success_report_at(url, absolute, mode, format, shot)
}

impl ErrorReport {
    /// What an error report says.
    pub open spec fn says(
        self,
        url: Seq<char>,
        output: Option<Seq<char>>,
        mode: mode::ModeModel,
        error: Seq<char>,
    ) -> bool {
        &&& self.status@ == "error"@
        &&& self.url@ == url
        &&& text::text_option(self.output) == output
        &&& self.mode@ == mode.name()
        &&& text::text_option(self.selector) == mode.selector()
        &&& self.padding == mode.padding()
        &&& self.error@ == error
    }
}

/// The report of a failed capture that was meant for an absolute path, or for none.
pub fn error_report_at(
    url: &str,
    absolute: Option<String>,
    mode: &CaptureMode,
    error: String,
) -> (r: ErrorReport)
    ensures
        r.says(url@, text::text_option(absolute), mode@, error@),
{
    ErrorReport {
        status: "error",
        url: url.to_owned(),
        output: absolute,
        mode: mode.name(),
        selector: owned(mode.selector()),
        padding: mode.padding(),
        error,
    }
}

/// The report of a failed capture; the path it was meant for is made absolute.
pub fn error_report(url: &str, output: Option<&str>, mode: &CaptureMode, error: String) -> (r:
    ErrorReport)
    ensures
        r.says(url@, text::text_option(r.output), mode@, error@),
        r.output is Some == output is Some,
        output matches Some(path) ==> may_settle_as(path@, (r.output->0)@),
{
    let absolute = match output {
        Some(path) => Some(absolute_output(path)),
        None => None,
    };
    error_report_at(url, absolute, mode, error)
}

/// A string member, if there is a string.
pub open spec fn text_member(name: Seq<char>, value: Option<Seq<char>>) -> Seq<
    (Seq<char>, Seq<char>),
> {
    match value {
        Some(value) => seq![(name, outside::json_string(value))],
        None => seq![],
    }
}

/// A number member, if there is a number.
pub open spec fn number_member(name: Seq<char>, value: Option<u32>) -> Seq<
    (Seq<char>, Seq<char>),
> {
    match value {
        Some(value) => seq![(name, text::decimal(value as nat))],
        None => seq![],
    }
}

/// The members that both reports start with; what is missing is left out.
pub open spec fn common_members(
    status: Seq<char>,
    url: Seq<char>,
    output: Option<Seq<char>>,
    mode: Seq<char>,
    selector: Option<Seq<char>>,
    padding: Option<u32>,
) -> Seq<(Seq<char>, Seq<char>)> {
    seq![("status"@, outside::json_string(status)), ("url"@, outside::json_string(url))]
        + text_member("output"@, output) + seq![("mode"@, outside::json_string(mode))]
        + text_member("selector"@, selector) + number_member("padding"@, padding)
}

/// The members of the report on a capture, in order; `scale` is its scale in JSON text.
pub open spec fn success_members(
    url: Seq<char>,
    absolute: Option<Seq<char>>,
    mode: mode::ModeModel,
    format: Format,
    shot: Shot,
    scale: Seq<char>,
) -> Seq<(Seq<char>, Seq<char>)> {
    common_members("ok"@, url, absolute, mode.name(), mode.selector(), mode.padding()) + seq![
        ("css_width"@, text::decimal(shot.width as nat)),
        ("css_height"@, text::decimal(shot.height as nat)),
        ("scale"@, scale),
        ("format"@, outside::json_string(format.extension())),
        ("bytes"@, text::decimal(shot.bytes as nat)),
    ]
}

/// The members of the report on a failed capture, in order.
pub open spec fn failure_members(
    url: Seq<char>,
    absolute: Option<Seq<char>>,
    mode: mode::ModeModel,
    error: Seq<char>,
) -> Seq<(Seq<char>, Seq<char>)> {
    common_members("error"@, url, absolute, mode.name(), mode.selector(), mode.padding()).push(
        ("error"@, outside::json_string(error)),
    )
}

fn common_object(
    status: &str,
    url: &str,
    output: &Option<String>,
    mode: &str,
    selector: &Option<String>,
    padding: Option<u32>,
) -> (r: Object)
    ensures
        r.wf(),
        r@ == common_members(
            status@,
            url@,
            text::text_option(*output),
            mode@,
            text::text_option(*selector),
            padding,
        ),
{
    let mut out = Object::new();
    out.put_text("status", status);
    out.put_text("url", url);
    match output {
        Some(output) => out.put_text("output", output.as_str()),
        None => {},
    }
    out.put_text("mode", mode);
    match selector {
        Some(selector) => out.put_text("selector", selector.as_str()),
        None => {},
    }
    match padding {
        Some(padding) => out.put_number("padding", padding as u64),
        None => {},
    }
    out
}

impl SuccessReport {
    /// The members of a success report, in order; `scale` is its scale in JSON text.
    pub open spec fn members(self, scale: Seq<char>) -> Seq<(Seq<char>, Seq<char>)> {
        common_members(
            self.status@,
            self.url@,
            text::text_option(self.output),
            self.mode@,
            text::text_option(self.selector),
            self.padding,
        ) + seq![
            ("css_width"@, text::decimal(self.css_width as nat)),
            ("css_height"@, text::decimal(self.css_height as nat)),
            ("scale"@, scale),
            ("format"@, outside::json_string(self.format@)),
            ("bytes"@, text::decimal(self.bytes as nat)),
        ]
    }

    /// The report as a JSON object; `scale` is its scale in JSON text.
    pub fn to_json(&self, scale: &str) -> (r: String)
        ensures
            r@ == json::object(self.members(scale@)),
    {
        let mut out = common_object(
            self.status,
            self.url.as_str(),
            &self.output,
            self.mode,
            &self.selector,
            self.padding,
        );
        out.put_number("css_width", self.css_width as u64);
        out.put_number("css_height", self.css_height as u64);
        out.put("scale", scale);
        out.put_text("format", self.format);
        out.put_number("bytes", self.bytes);
        assert(out@ == self.members(scale@));
        out.finish()
    }
}

impl ErrorReport {
    /// The members of an error report, in order.
    pub open spec fn members(self) -> Seq<(Seq<char>, Seq<char>)> {
        common_members(
            self.status@,
            self.url@,
            text::text_option(self.output),
            self.mode@,
            text::text_option(self.selector),
            self.padding,
        ).push(("error"@, outside::json_string(self.error@)))
    }

    /// The report as a JSON object.
    pub fn to_json(&self) -> (r: String)
        ensures
            r@ == json::object(self.members()),
    {
        let mut out = common_object(
            self.status,
            self.url.as_str(),
            &self.output,
            self.mode,
            &self.selector,
            self.padding,
        );
        out.put_text("error", self.error.as_str());
        out.finish()
    }
}

/// The integer nearest to `n` that a double holds.
pub open spec fn held(n: nat) -> nat {
    double::nearest(n, double::excess(n)) * pow2(double::excess(n))
}

/// A file size for people: megabytes with one decimal, ties to even, from one megabyte on, and
/// whole kilobytes, rounded up, below.
pub open spec fn human(bytes: nat) -> Seq<char> {
    if bytes >= 1048576 {
        let tenths = double::nearest(held(bytes) * 10, 20);
        text::decimal(tenths / 10) + "."@ + text::decimal(tenths % 10) + " MB"@
    } else {
        text::decimal((bytes + 1023) / 1024) + " KB"@
    }
}

/// The integer nearest to `n` that a double holds.
fn hold(n: u64) -> (r: u128)
    ensures
        r == held(n as nat),
        r <= 0x2_0000_0000_0000_0000,
{
    let mut quotient: u64 = n;
    let mut power: u64 = 1;
    let ghost mut k: nat = 0;
    proof {
        lemma2_to64();
    }
    while quotient >= WIDE
        invariant
            power == pow2(k),
            quotient == n as nat / pow2(k),
            k > 0 ==> quotient >= BINADE,
            power * quotient <= n,
            power >= 1,
        decreases quotient,
    {
        proof {
            lemma_pow2_unfold(k + 1);
            lemma_div_denominator(n as int, pow2(k) as int, 2);
            assert(power * 2 <= power * quotient) by (nonlinear_arith)
                requires
                    quotient >= 2,
            ;
            assert(power * 2 * (quotient as int / 2) <= power * quotient) by (nonlinear_arith);
        }
        quotient = quotient / 2;
        power = power * 2;
        proof {
            k = k + 1;
        }
    }
    let rest: u64 = n % power;
    proof {
        let p = power as int;
        let q = quotient as int;
        lemma_fundamental_div_mod(n as int, p);
        assert(BINADE * p <= n < WIDE * p || k == 0) by (nonlinear_arith)
            requires
                n == p * q + rest,
                0 <= rest < p,
                q < WIDE,
                k == 0 || q >= BINADE,
        ;
        double::lemma_excess(n as nat, k);
        if k > 0 {
            lemma_pow2_unfold(k);
            assert(p <= 4096) by (nonlinear_arith)
                requires
                    BINADE * p <= n,
                    n <= u64::MAX,
            ;
            assert((q + 1) * p <= 0x2_0000_0000_0000_0000) by (nonlinear_arith)
                requires
                    q + 1 <= WIDE,
                    p <= 4096,
                    p >= 0,
            ;
        } else {
            assert(p == 1 && rest == 0);
        }
        assert(q * p <= (q + 1) * p) by (nonlinear_arith)
            requires
                p >= 0,
        ;
    }
    let half: u64 = power / 2;
    let up = power > 1 && (rest > half || (rest == half && quotient % 2 == 1));
    if up {
        (quotient as u128 + 1) * power as u128
    } else {
        quotient as u128 * power as u128
    }
}

/// A file size for people.
pub fn human_size(bytes: u64) -> (r: String)
    ensures
        r@ == human(bytes as nat),
{
    if bytes >= 1048576 {
        let scaled: u128 = hold(bytes) * 10;
        let whole: u128 = scaled / 1048576;
        let rest: u128 = scaled % 1048576;
        proof {
            lemma2_to64();
        }
        let tenths: u128 = if rest > 524288 || (rest == 524288 && whole % 2 == 1) {
            whole + 1
        } else {
            whole
        };
        assert(tenths == double::nearest(held(bytes as nat) * 10, 20));
        let mut out = decimal_text(tenths / 10);
        out.append(".");
        out.append(decimal_text(tenths % 10).as_str());
        out.append(" MB");
        out
    } else {
        let mut out = decimal_text((bytes as u128 + 1023) / 1024);
        out.append(" KB");
        out
    }
}

/// The line that tells of a saved capture; `scale` is how its scale prints.
pub open spec fn saved_line(path: Seq<char>, shot: Shot, scale: Seq<char>) -> Seq<char> {
    "\u{2713} "@ + path + " \u{2014} "@ + text::decimal(shot.width as nat) + "\u{d7}"@
        + text::decimal(shot.height as nat) + " @"@ + scale + "x, "@ + human(shot.bytes as nat)
}

/// The line that tells of a saved capture; `scale` is how its scale prints.
pub fn success_line(path: &str, shot: &Shot, scale: &str) -> (r: String)
    ensures
        r@ == saved_line(path@, *shot, scale@),
{
    let mut out = "\u{2713} ".to_owned();
    out.append(path);
    out.append(" \u{2014} ");
    out.append(decimal_text(shot.width as u128).as_str());
    out.append("\u{d7}");
    out.append(decimal_text(shot.height as u128).as_str());
    out.append(" @");
    out.append(scale);
    out.append("x, ");
    out.append(human_size(shot.bytes).as_str());
    out
}

/// The line that tells of a failed capture.
pub open spec fn failed_line(url: Seq<char>, error: Seq<char>) -> Seq<char> {
    "\u{2717} "@ + url + " \u{2014} "@ + error
}

/// The line that tells of a failed capture.
pub fn failure_line(url: &str, error: &str) -> (r: String)
    ensures
        r@ == failed_line(url@, error@),
{
    let mut out = "\u{2717} ".to_owned();
    out.append(url);
    out.append(" \u{2014} ");
    out.append(error);
    out
}

/// Where a line is written.
#[derive(Clone, Copy, Debug, PartialEq, Eq, Structural)]
pub enum Channel {
    Output,
    Error,
}

/// What the command line writes of a finished capture.
#[derive(Debug)]
pub struct Line {
    pub channel: Channel,
    pub text: String,
}

/// What a line says, and where.
pub struct LineModel {
    pub channel: Channel,
    pub text: Seq<char>,
}

impl View for Line {
    type V = LineModel;

    open spec fn view(&self) -> LineModel {
        LineModel { channel: self.channel, text: self.text@ }
    }
}

/// What is written of a finished capture.  As JSON, successes and failures alike are objects on
/// the output; for people, failures go to the error channel.
pub open spec fn announced(
    json: bool,
    url: Seq<char>,
    path: Seq<char>,
    absolute: Seq<char>,
    mode: mode::ModeModel,
    format: Format,
    outcome: Result<Shot, String>,
    scale: Seq<char>,
    scale_json: Seq<char>,
) -> LineModel {
    match outcome {
        Ok(shot) => LineModel {
            channel: Channel::Output,
            text: if json {
                json::object(
                    success_members(
                        url,
                        Some(absolute),
                        mode,
                        format,
                        shot,
                        scale_json,
                    ),
                )
            } else {
                saved_line(path, shot, scale)
            },
        },
        Err(error) => if json {
            LineModel {
                channel: Channel::Output,
                text: json::object(
                    failure_members(url, Some(absolute), mode, error@),
                ),
            }
        } else {
            LineModel { channel: Channel::Error, text: failed_line(url, error@) }
        },
    }
}

/// What is written of a finished capture whose file has this absolute path.  `scale` is how its
/// scale prints, and `scale_json` how JSON writes it.
pub fn announce_at(
    json: bool,
    url: &str,
    path: &str,
    absolute: String,
    mode: &CaptureMode,
    format: Format,
    outcome: &Result<Shot, String>,
    scale: &str,
    scale_json: &str,
) -> (r: Line)
    ensures
        r@ == announced(json, url@, path@, absolute@, mode@, format, *outcome, scale@, scale_json@),
{
    match outcome {
        Ok(shot) => {
            let text = if json {
                let report = success_report_at(url, Some(absolute), mode, format, shot);
                report.to_json(scale_json)
            } else {
                success_line(path, shot, scale)
            };
            Line { channel: Channel::Output, text }
        },
        Err(error) => if json {
            let report = error_report_at(url, Some(absolute), mode, error.clone());
            Line { channel: Channel::Output, text: report.to_json() }
        } else {
            Line { channel: Channel::Error, text: failure_line(url, error.as_str()) }
        },
    }
}

/// What is written of a finished capture; its path is reported in its absolute form.
pub fn announce(
    json: bool,
    url: &str,
    path: &str,
    mode: &CaptureMode,
    format: Format,
    outcome: &Result<Shot, String>,
    scale: &str,
    scale_json: &str,
) -> (r: Line)
    ensures
        exists|absolute: Seq<char>| #[trigger]
            may_settle_as(path@, absolute) && r@ == announced(
                json,
                url@,
                path@,
                absolute,
                mode@,
                format,
                *outcome,
                scale@,
                scale_json@,
            ),
{
    let absolute = absolute_output(path);
    assert(may_settle_as(path@, absolute@));
    announce_at(json, url, path, absolute, mode, format, outcome, scale, scale_json)
}

/// Sizes of files are counted in doubles: what is held of a size is the value of its double.
pub proof fn law_held_size_is_its_double(bytes: u64)
    ensures
        double::whole(bytes as nat).value() == held(bytes as nat) * double::one(),
{
    double_laws::law_whole_rounds_to_53_bits(bytes as nat);
}

proof fn lemma_decimal_is_one_line(n: nat)
    ensures
        json::one_line(text::decimal(n)),
{
    text::law_decimal_reads_back(n);
    assert forall|i: int| 0 <= i < text::decimal(n).len() implies (#[trigger] text::decimal(
        n,
    )[i]) as nat >= 32 by {
        assert(text::is_digit(text::decimal(n)[i]));
    }
}

proof fn lemma_common_members_are_one_line(
    status: Seq<char>,
    url: Seq<char>,
    output: Option<Seq<char>>,
    mode: Seq<char>,
    selector: Option<Seq<char>>,
    padding: Option<u32>,
)
    ensures
        ({
            let members = common_members(status, url, output, mode, selector, padding);
            forall|i: int| 0 <= i < members.len() ==> json::one_line((#[trigger] members[i]).1)
        }),
{
    json::law_json_string_is_one_line(status);
    json::law_json_string_is_one_line(url);
    json::law_json_string_is_one_line(mode);
    if let Some(output) = output {
        json::law_json_string_is_one_line(output);
    }
    if let Some(selector) = selector {
        json::law_json_string_is_one_line(selector);
    }
    if let Some(padding) = padding {
        lemma_decimal_is_one_line(padding as nat);
    }
}

/// A success report is one line, so that a stream of reports holds one object per line.
pub proof fn law_success_is_one_line(report: SuccessReport, scale: Seq<char>)
    requires
        json::one_line(scale),
    ensures
        json::one_line(json::object(report.members(scale))),
{
    lemma_common_members_are_one_line(
        report.status@,
        report.url@,
        text::text_option(report.output),
        report.mode@,
        text::text_option(report.selector),
        report.padding,
    );
    lemma_decimal_is_one_line(report.css_width as nat);
    lemma_decimal_is_one_line(report.css_height as nat);
    lemma_decimal_is_one_line(report.bytes as nat);
    json::law_json_string_is_one_line(report.format@);
    json::law_object_is_one_line(report.members(scale));
}

/// An error report is one line, whatever the error says.
pub proof fn law_error_is_one_line(report: ErrorReport)
    ensures
        json::one_line(json::object(report.members())),
{
    lemma_common_members_are_one_line(
        report.status@,
        report.url@,
        text::text_option(report.output),
        report.mode@,
        text::text_option(report.selector),
        report.padding,
    );
    json::law_json_string_is_one_line(report.error@);
    json::law_object_is_one_line(report.members());
}

/// As JSON, every finished capture is one line on the output, whether it failed or not.
pub proof fn law_json_is_one_line_on_the_output(
    url: Seq<char>,
    path: Seq<char>,
    absolute: Seq<char>,
    mode: mode::ModeModel,
    format: Format,
    outcome: Result<Shot, String>,
    scale: Seq<char>,
    scale_json: Seq<char>,
)
    requires
        json::one_line(scale_json),
    ensures
        ({
            let line = announced(
                true,
                url,
                path,
                absolute,
                mode,
                format,
                outcome,
                scale,
                scale_json,
            );
            line.channel == Channel::Output && json::one_line(line.text)
        }),
{
    let status = if outcome is Ok {
        "ok"@
    } else {
        "error"@
    };
    let output = Some(absolute);
    lemma_common_members_are_one_line(
        status,
        url,
        output,
        mode.name(),
        mode.selector(),
        mode.padding(),
    );
    match outcome {
        Ok(shot) => {
            lemma_decimal_is_one_line(shot.width as nat);
            lemma_decimal_is_one_line(shot.height as nat);
            lemma_decimal_is_one_line(shot.bytes as nat);
            json::law_json_string_is_one_line(format.extension());
            json::law_object_is_one_line(
                success_members(url, output, mode, format, shot, scale_json),
            );
        },
        Err(error) => {
            json::law_json_string_is_one_line(error@);
            json::law_object_is_one_line(failure_members(url, output, mode, error@));
        },
    }
}

/// How many of two optional values are there.
pub open spec fn present(a: bool, b: bool) -> nat {
    (if a {
        1nat
    } else {
        0
    }) + (if b {
        1nat
    } else {
        0
    })
}

/// A report of success tells the page, its file, its mode, and of the capture its size in CSS
/// pixels, its scale, its format and its bytes, each under its own name, and nothing else; what is
/// missing is left out.
pub proof fn law_a_success_tells_what_was_captured(
    url: Seq<char>,
    absolute: Option<Seq<char>>,
    mode: mode::ModeModel,
    format: Format,
    shot: Shot,
    scale: Seq<char>,
)
    ensures
        ({
            let m = success_members(url, absolute, mode, format, shot, scale);
            &&& m.contains(("status"@, outside::json_string("ok"@)))
            &&& m.contains(("url"@, outside::json_string(url)))
            &&& absolute matches Some(path) ==> m.contains(("output"@, outside::json_string(path)))
            &&& m.contains(("mode"@, outside::json_string(mode.name())))
            &&& mode matches mode::ModeModel::Element { selector, padding } ==> m.contains(
                ("selector"@, outside::json_string(selector)),
            ) && m.contains(("padding"@, text::decimal(padding as nat)))
            &&& m.contains(("css_width"@, text::decimal(shot.width as nat)))
            &&& m.contains(("css_height"@, text::decimal(shot.height as nat)))
            &&& m.contains(("scale"@, scale))
            &&& m.contains(("format"@, outside::json_string(format.extension())))
            &&& m.contains(("bytes"@, text::decimal(shot.bytes as nat)))
            &&& m.len() == 8 + present(absolute is Some, mode is Element) + present(
                mode is Element,
                false,
            )
        }),
{
    let m = success_members(url, absolute, mode, format, shot, scale);
    let o = present(absolute is Some, false) as int;
    let e = 2 * present(mode is Element, false) as int;
    assert(m[0] == ("status"@, outside::json_string("ok"@)));
    assert(m[1] == ("url"@, outside::json_string(url)));
    if let Some(path) = absolute {
        assert(m[2] == ("output"@, outside::json_string(path)));
    }
    assert(m[2 + o] == ("mode"@, outside::json_string(mode.name())));
    if let mode::ModeModel::Element { selector, padding } = mode {
        assert(m[3 + o] == ("selector"@, outside::json_string(selector)));
        assert(m[4 + o] == ("padding"@, text::decimal(padding as nat)));
    }
    assert(m[3 + o + e] == ("css_width"@, text::decimal(shot.width as nat)));
    assert(m[4 + o + e] == ("css_height"@, text::decimal(shot.height as nat)));
    assert(m[5 + o + e] == ("scale"@, scale));
    assert(m[6 + o + e] == ("format"@, outside::json_string(format.extension())));
    assert(m[7 + o + e] == ("bytes"@, text::decimal(shot.bytes as nat)));
}

/// A report of failure tells the page, the file that was meant, the mode and the error, each under
/// its own name, and nothing else.
pub proof fn law_a_failure_tells_its_error(
    url: Seq<char>,
    absolute: Option<Seq<char>>,
    mode: mode::ModeModel,
    error: Seq<char>,
)
    ensures
        ({
            let m = failure_members(url, absolute, mode, error);
            &&& m.contains(("status"@, outside::json_string("error"@)))
            &&& m.contains(("url"@, outside::json_string(url)))
            &&& absolute matches Some(path) ==> m.contains(("output"@, outside::json_string(path)))
            &&& m.contains(("mode"@, outside::json_string(mode.name())))
            &&& mode matches mode::ModeModel::Element { selector, padding } ==> m.contains(
                ("selector"@, outside::json_string(selector)),
            ) && m.contains(("padding"@, text::decimal(padding as nat)))
            &&& m.contains(("error"@, outside::json_string(error)))
            &&& m.len() == 4 + present(absolute is Some, mode is Element) + present(
                mode is Element,
                false,
            )
        }),
{
    let m = failure_members(url, absolute, mode, error);
    let o = present(absolute is Some, false) as int;
    assert(m[0] == ("status"@, outside::json_string("error"@)));
    assert(m[1] == ("url"@, outside::json_string(url)));
    if let Some(path) = absolute {
        assert(m[2] == ("output"@, outside::json_string(path)));
    }
    assert(m[2 + o] == ("mode"@, outside::json_string(mode.name())));
    if let mode::ModeModel::Element { selector, padding } = mode {
        assert(m[3 + o] == ("selector"@, outside::json_string(selector)));
        assert(m[4 + o] == ("padding"@, text::decimal(padding as nat)));
    }
    assert(m[m.len() - 1] == ("error"@, outside::json_string(error)));
}

/// What a report says is what it writes.
pub proof fn law_reports_write_what_they_say(
    success: SuccessReport,
    failure: ErrorReport,
    url: Seq<char>,
    absolute: Option<Seq<char>>,
    mode: mode::ModeModel,
    format: Format,
    shot: Shot,
    error: Seq<char>,
    scale: Seq<char>,
)
    ensures
        success.says(url, absolute, mode, format, shot) ==> success.members(scale)
            == success_members(url, absolute, mode, format, shot, scale) && success.scale
            == shot.scale,
        failure.says(url, absolute, mode, error) ==> failure.members() == failure_members(
            url,
            absolute,
            mode,
            error,
        ),
{
}

/// A size below a megabyte is told in the fewest kilobytes that hold it.  From a megabyte on it is
/// told in tenths of a megabyte, nearest to what a double holds of it, and up to 2^53 bytes that is
/// the size itself.
pub proof fn law_sizes_are_told_to_their_unit(bytes: u64)
    ensures
        bytes < 1048576 ==> exists|k: nat|
            bytes <= k * 1024 && k * 1024 < bytes + 1024 && human(bytes as nat) == #[trigger] text::decimal(
                k,
            ) + " KB"@,
        bytes >= 1048576 ==> exists|t: nat|
            2 * t * 1048576 <= 20 * held(bytes as nat) + 1048576 && 2 * t * 1048576 + 1048576 >= 20
                * held(bytes as nat) && human(bytes as nat) == #[trigger] text::decimal(t / 10)
                + "."@ + text::decimal(t % 10) + " MB"@,
        bytes < WIDE ==> held(bytes as nat) == bytes,
{
    lemma2_to64();
    let n = bytes as nat;
    if bytes < 1048576 {
        let k = (n + 1023) / 1024;
        assert(human(n) == text::decimal(k) + " KB"@);
    } else {
        let x = held(n) * 10;
        let t = double::nearest(x, 20);
        assert(pow2(20) == 1048576);
        assert(human(n) == text::decimal(t / 10) + "."@ + text::decimal(t % 10) + " MB"@);
    }
    if bytes < WIDE {
        assert(double::excess(n) == 0);
        assert(double::nearest(n, 0) == n);
        let p = pow2(0);
        assert(n * p == n) by (nonlinear_arith)
            requires
                p == 1,
        ;
    }
}

/// What people read of a finished capture: a success goes to the output, with a check mark, the
/// file, the size in CSS pixels, the scale and the size of the file; a failure goes to the error
/// channel, with a cross, the page and the error.
pub proof fn law_people_read_how_a_capture_went(
    url: Seq<char>,
    path: Seq<char>,
    absolute: Seq<char>,
    mode: mode::ModeModel,
    format: Format,
    outcome: Result<Shot, String>,
    scale: Seq<char>,
    scale_json: Seq<char>,
)
    ensures
        ({
            let line = announced(
                false,
                url,
                path,
                absolute,
                mode,
                format,
                outcome,
                scale,
                scale_json,
            );
            &&& outcome is Ok <==> line.channel == Channel::Output
            &&& outcome matches Ok(shot) ==> {
                let size = text::decimal(shot.width as nat) + seq!['\u{d7}'] + text::decimal(
                    shot.height as nat,
                ) + seq![' ', '@'] + scale + seq!['x', ',', ' '] + human(shot.bytes as nat);
                &&& line.text[0] == '\u{2713}'
                &&& text::occurs_at(line.text, path, 2)
                &&& text::occurs_at(line.text, size, line.text.len() - size.len())
            }
            &&& outcome matches Err(error) ==> {
                &&& line.text[0] == '\u{2717}'
                &&& text::occurs_at(line.text, url, 2)
                &&& text::occurs_at(line.text, error@, line.text.len() - error@.len())
            }
        }),
{
    reveal_strlit("\u{2713} ");
    reveal_strlit("\u{2717} ");
    reveal_strlit(" \u{2014} ");
    reveal_strlit("\u{d7}");
    reveal_strlit(" @");
    reveal_strlit("x, ");
    let line = announced(false, url, path, absolute, mode, format, outcome, scale, scale_json);
    match outcome {
        Ok(shot) => {
            let size = text::decimal(shot.width as nat) + seq!['\u{d7}'] + text::decimal(
                shot.height as nat,
            ) + seq![' ', '@'] + scale + seq!['x', ',', ' '] + human(shot.bytes as nat);
            assert("\u{d7}"@ =~= seq!['\u{d7}']);
            assert(" @"@ =~= seq![' ', '@']);
            assert("x, "@ =~= seq!['x', ',', ' ']);
            let head = "\u{2713} "@ + path + " \u{2014} "@;
            assert(line.text =~= head + size);
            assert(line.text.subrange(2, 2int + path.len()) =~= path);
            assert(line.text.subrange(line.text.len() - size.len(), line.text.len() as int)
                =~= size);
        },
        Err(error) => {
            assert(line.text.subrange(2, 2int + url.len()) =~= url);
            assert(line.text.subrange(line.text.len() - error@.len(), line.text.len() as int)
                =~= error@);
        },
    }
}

/// As JSON, a finished capture is written as its report.
pub proof fn law_json_writes_the_report(
    url: Seq<char>,
    path: Seq<char>,
    absolute: Seq<char>,
    mode: mode::ModeModel,
    format: Format,
    outcome: Result<Shot, String>,
    scale: Seq<char>,
    scale_json: Seq<char>,
)
    ensures
        ({
            let line = announced(
                true,
                url,
                path,
                absolute,
                mode,
                format,
                outcome,
                scale,
                scale_json,
            );
            line.text == json::object(
                match outcome {
                    Ok(shot) => success_members(
                        url,
                        Some(absolute),
                        mode,
                        format,
                        shot,
                        scale_json,
                    ),
                    Err(error) => failure_members(url, Some(absolute), mode, error@),
                },
            )
        }),
{
}

/// A path is reported in its absolute form wherever it has one, and else unchanged.
pub proof fn law_absolute_forms_are_reported(path: Seq<char>, absolute: Seq<char>)
    ensures
        settled(path, Some(absolute)) == absolute,
        settled(path, None) == path,
        path.len() > 0 && paths::may_become(path, absolute) ==> may_settle_as(path, absolute),
        may_settle_as(path, path),
{
}

/// Lines are read as they are.
pub proof fn law_lines_are_read_as_they_are(line: Line)
    ensures
        line@.channel == line.channel,
        line@.text == line.text@,
{
}

} // verus!
