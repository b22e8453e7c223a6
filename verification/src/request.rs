//! Capture requests: every field checked, every default filled in.

use crate::address;
use crate::address::{normalize_url, PageUrl, UrlError, UrlModel};
use crate::double::Double;
use crate::image;
use crate::image::{Format, ImageFormat};
use crate::mode;
use crate::mode::{CaptureMode, ModeModel};
use crate::outside::path_extension;
use crate::paths;
use crate::text;
use crate::text::{trim, Trim};
use crate::viewport;
use crate::viewport::{parse_viewport, Viewport, ViewportError, ViewportFault};
use vstd::prelude::*;
use vstd::string::*;

verus! {

/// How a page is captured.
#[derive(Debug)]
pub struct Opts {
    pub viewport: Viewport,
    pub mode: CaptureMode,
    pub dark: bool,
    /// Extra settle delay in milliseconds.
    pub wait_ms: u64,
    /// A CSS selector that has to match before the capture.
    pub wait_for: Option<String>,
    /// The time that a page may take, in seconds.
    pub timeout_secs: u64,
    pub format: Format,
}

/// What the options of a capture say.
pub struct OptsModel {
    pub viewport: Viewport,
    pub mode: ModeModel,
    pub dark: bool,
    pub wait_ms: u64,
    pub wait_for: Option<Seq<char>>,
    pub timeout_secs: u64,
    pub format: Format,
}

impl View for Opts {
    type V = OptsModel;

    open spec fn view(&self) -> OptsModel {
        OptsModel {
            viewport: self.viewport,
            mode: self.mode@,
            dark: self.dark,
            wait_ms: self.wait_ms,
            wait_for: text::text_option(self.wait_for),
            timeout_secs: self.timeout_secs,
            format: self.format,
        }
    }
}

/// A request to capture one page.
#[derive(Debug)]
pub struct CaptureRequest {
    /// URL to capture.  Bare localhost and loopback addresses use HTTP; other bare hosts HTTPS.
    pub url: String,
    /// Capture the first element matching this CSS selector.
    pub selector: Option<String>,
    /// Uniform CSS-pixel padding around a selected element.
    pub padding: Option<u32>,
    /// Capture the full page height.  Conflicts with the selector.
    pub full_page: bool,
    /// Viewport as `WxH`, or desktop, iphone or ipad.  Defaults to desktop.
    pub size: Option<String>,
    /// Emulate a preference for dark colors.
    pub dark: bool,
    /// Image format.  Defaults to PNG; a recognized output extension wins.
    pub format: Option<ImageFormat>,
    /// Extra settle delay in milliseconds after smart waiting.
    pub wait_ms: u64,
    /// Wait until this CSS selector matches before capturing.
    pub wait_for: Option<String>,
    /// Device scale factor overriding that of the viewport preset.
    pub scale: Option<Double>,
    /// Time for the page in seconds.  Defaults to 30.
    pub timeout_seconds: Option<u64>,
    /// Optional path to save the image at.
    pub output: Option<String>,
}

/// A request that passed every check.
#[derive(Debug)]
pub struct PreparedCapture {
    pub url: PageUrl,
    pub output: Option<String>,
    pub opts: Opts,
}

/// What a prepared request says.
pub struct PreparedModel {
    pub url: UrlModel,
    pub output: Option<Seq<char>>,
    pub opts: OptsModel,
}

impl View for PreparedCapture {
    type V = PreparedModel;

    open spec fn view(&self) -> PreparedModel {
        PreparedModel {
            url: self.url@,
            output: text::text_option(self.output),
            opts: self.opts@,
        }
    }
}

/// Why a request was refused.
#[derive(Debug)]
pub enum RequestError {
    Url(UrlError),
    EmptySelector,
    SelectorWithFullPage,
    PaddingWithoutSelector,
    Viewport(ViewportError),
    ZeroTimeout,
    EmptyWaitFor,
    NoExtension,
    UnknownExtension(String),
}

/// What a refused request says.
pub enum RequestFault {
    Url(Seq<char>, Seq<char>),
    EmptySelector,
    SelectorWithFullPage,
    PaddingWithoutSelector,
    Viewport(ViewportFault),
    ZeroTimeout,
    EmptyWaitFor,
    NoExtension,
    UnknownExtension(Seq<char>),
}

impl View for RequestError {
    type V = RequestFault;

    open spec fn view(&self) -> RequestFault {
        match *self {
            RequestError::Url(error) => RequestFault::Url(error.url@, error.reason@),
            RequestError::EmptySelector => RequestFault::EmptySelector,
            RequestError::SelectorWithFullPage => RequestFault::SelectorWithFullPage,
            RequestError::PaddingWithoutSelector => RequestFault::PaddingWithoutSelector,
            RequestError::Viewport(error) => RequestFault::Viewport(error@),
            RequestError::ZeroTimeout => RequestFault::ZeroTimeout,
            RequestError::EmptyWaitFor => RequestFault::EmptyWaitFor,
            RequestError::NoExtension => RequestFault::NoExtension,
            RequestError::UnknownExtension(extension) => RequestFault::UnknownExtension(extension@),
        }
    }
}

/// The outcome of looking up a URL.
pub open spec fn url_outcome(r: Result<PageUrl, UrlError>) -> Result<
    UrlModel,
    (Seq<char>, Seq<char>),
> {
    match r {
        Ok(url) => Ok(url@),
        Err(error) => Err((error.url@, error.reason@)),
    }
}

/// The outcome of preparing a request.
pub open spec fn outcome(r: Result<PreparedCapture, RequestError>) -> Result<
    PreparedModel,
    RequestFault,
> {
    match r {
        Ok(prepared) => Ok(prepared@),
        Err(error) => Err(error@),
    }
}

/// An optional selector without white space around it.
pub open spec fn trimmed_option(selector: Option<String>) -> Option<Seq<char>> {
    match selector {
        Some(selector) => Some(text::trimmed(selector@, Trim::WhiteSpace)),
        None => None,
    }
}

/// Whether a selector was given that says nothing.
pub open spec fn says_nothing(selector: Option<Seq<char>>) -> bool {
    selector matches Some(selector) && selector.len() == 0
}

impl CaptureRequest {
    pub open spec fn wanted_size(self) -> Seq<char> {
        match self.size {
            Some(size) => size@,
            None => "desktop"@,
        }
    }

    pub open spec fn wanted_timeout(self) -> u64 {
        match self.timeout_seconds {
            Some(seconds) => seconds,
            None => 30,
        }
    }

    pub open spec fn wanted_format(self) -> Format {
        match self.format {
            Some(format) => format.meant(),
            None => Format::Png,
        }
    }

    /// The format of the image, given the extension of the output path: a known extension wins,
    /// and a path without one is refused.
    pub open spec fn settled_format(self, extension: Option<Seq<char>>) -> Result<
        Format,
        RequestFault,
    > {
        if self.output is None {
            Ok(self.wanted_format())
        } else {
            match extension {
                None => Err(RequestFault::NoExtension),
                Some(extension) => match image::format_of(extension) {
                    Some(format) => Ok(format),
                    None => Err(RequestFault::UnknownExtension(extension)),
                },
            }
        }
    }

    /// What a request comes to, given its parsed URL and the extension of its output path: the
    /// first check that fails decides.
    pub open spec fn prepared(
        self,
        url: Result<UrlModel, (Seq<char>, Seq<char>)>,
        extension: Option<Seq<char>>,
    ) -> Result<PreparedModel, RequestFault> {
        let selector = trimmed_option(self.selector);
        let wait_for = trimmed_option(self.wait_for);
        let view = viewport::checked(self.wanted_size(), self.scale);
        let format = self.settled_format(extension);
        if let Err((text, reason)) = url {
            Err(RequestFault::Url(text, reason))
        } else if says_nothing(selector) {
            Err(RequestFault::EmptySelector)
        } else if self.full_page && selector is Some {
            Err(RequestFault::SelectorWithFullPage)
        } else if self.padding is Some && selector is None {
            Err(RequestFault::PaddingWithoutSelector)
        } else if let Err(fault) = view {
            Err(RequestFault::Viewport(fault))
        } else if self.wanted_timeout() == 0 {
            Err(RequestFault::ZeroTimeout)
        } else if says_nothing(wait_for) {
            Err(RequestFault::EmptyWaitFor)
        } else if let Err(fault) = format {
            Err(fault)
        } else {
            Ok(
                PreparedModel {
                    url: url->Ok_0,
                    output: text::text_option(self.output),
                    opts: OptsModel {
                        viewport: view->Ok_0,
                        mode: mode::mode_of(selector, self.padding, self.full_page),
                        dark: self.dark,
                        wait_ms: self.wait_ms,
                        wait_for,
                        timeout_secs: self.wanted_timeout(),
                        format: format->Ok_0,
                    },
                },
            )
        }
    }

    /// What the platform may read as the extension of the output path.
    pub open spec fn may_end_in(self, extension: Option<Seq<char>>) -> bool {
        match self.output {
            Some(path) => paths::may_end_in(path@, extension),
            None => extension is None,
        }
    }

    /// Checks the request, given its parsed URL and the extension of its output path.
    pub fn prepare_with(self, url: Result<PageUrl, UrlError>, extension: Option<String>) -> (r:
        Result<PreparedCapture, RequestError>)
        ensures
            outcome(r) == self.prepared(url_outcome(url), text::text_option(extension)),
    {
        let url = match url {
            Ok(url) => url,
            Err(error) => {
                return Err(RequestError::Url(error));
            },
        };
        let selector = trim_option(&self.selector);
        if is_empty(&selector) {
            return Err(RequestError::EmptySelector);
        }
        if self.full_page && selector.is_some() {
            return Err(RequestError::SelectorWithFullPage);
        }
        if self.padding.is_some() && selector.is_none() {
            return Err(RequestError::PaddingWithoutSelector);
        }
        let mode = match selector {
            Some(selector) => CaptureMode::Element {
                selector,
                padding: match self.padding {
                    Some(padding) => padding,
                    None => 0,
                },
            },
            None => if self.full_page {
                CaptureMode::FullPage
            } else {
                CaptureMode::Viewport
            },
        };
        let viewport = match parse_viewport(
            match &self.size {
                Some(size) => size.as_str(),
                None => "desktop",
            },
            self.scale,
        ) {
            Ok(viewport) => viewport,
            Err(error) => {
                return Err(RequestError::Viewport(error));
            },
        };
        let timeout_secs: u64 = match self.timeout_seconds {
            Some(seconds) => seconds,
            None => 30,
        };
        if timeout_secs == 0 {
            return Err(RequestError::ZeroTimeout);
        }
        let wait_for = trim_option(&self.wait_for);
        if is_empty(&wait_for) {
            return Err(RequestError::EmptyWaitFor);
        }
        let mut format = match self.format {
            Some(format) => format.capture_format(),
            None => Format::Png,
        };
        if self.output.is_some() {
            match extension {
                None => {
                    return Err(RequestError::NoExtension);
                },
                Some(extension) => match Format::from_ext(extension.as_str()) {
                    Some(known) => {
                        format = known;
                    },
                    None => {
                        return Err(RequestError::UnknownExtension(extension));
                    },
                },
            }
        }
        Ok(
            PreparedCapture {
                url,
                output: self.output,
                opts: Opts {
                    viewport,
                    mode,
                    dark: self.dark,
                    wait_ms: self.wait_ms,
                    wait_for,
                    timeout_secs,
                    format,
                },
            },
        )
    }

    /// Checks the request and fills in its defaults.
    pub fn prepare(self) -> (r: Result<PreparedCapture, RequestError>)
        ensures
            exists|extension: Option<Seq<char>>| #[trigger]
                self.may_end_in(extension) && outcome(r) == self.prepared(
                    self.looked_up(),
                    extension,
                ),
    {
        let bare = trim(self.url.as_str(), Trim::WhiteSpace);
        let url = normalize_url(bare.as_str());
        let extension = match &self.output {
            Some(path) => path_extension(path.as_str()),
            None => None,
        };
        assert(self.may_end_in(text::text_option(extension)));
        self.prepare_with(url, extension)
    }

    /// What the URL of the request stands for, or the text that stands for none and why.
    pub open spec fn looked_up(self) -> Result<UrlModel, (Seq<char>, Seq<char>)> {
        let bare = text::trimmed(self.url@, Trim::WhiteSpace);
        match address::normalized(bare) {
            Ok(url) => Ok(url),
            Err(reason) => Err((bare, reason)),
        }
    }
}

fn trim_option(selector: &Option<String>) -> (r: Option<String>)
    ensures
        text::text_option(r) == trimmed_option(*selector),
{
    match selector {
        Some(selector) => Some(trim(selector.as_str(), Trim::WhiteSpace)),
        None => None,
    }
}

fn is_empty(selector: &Option<String>) -> (r: bool)
    ensures
        r == says_nothing(text::text_option(*selector)),
{
    match selector {
        Some(selector) => selector.as_str().is_empty(),
        None => false,
    }
}

/// What the user reads of a refused request; `number` is how a refused scale prints.
pub open spec fn request_message(fault: RequestFault, number: Seq<char>) -> Seq<char> {
    match fault {
        RequestFault::Url(url, reason) => address::url_message(url, reason),
        RequestFault::EmptySelector => "selector must not be empty"@,
        RequestFault::SelectorWithFullPage => "selector conflicts with full_page"@,
        RequestFault::PaddingWithoutSelector => "padding requires selector"@,
        RequestFault::Viewport(fault) => viewport::viewport_message(fault, number),
        RequestFault::ZeroTimeout => "timeout_seconds must be greater than zero"@,
        RequestFault::EmptyWaitFor => "wait_for must not be empty"@,
        RequestFault::NoExtension => "output must end in .png, .jpg, .jpeg, or .webp"@,
        RequestFault::UnknownExtension(extension) => "unsupported output extension: ."@ + extension,
    }
}

impl RequestError {
    /// What the user reads of a refused request; `number` is how a refused scale prints.
    pub fn message(&self, number: &str) -> (r: String)
        ensures
            r@ == request_message(self@, number@),
    {
        match self {
            RequestError::Url(error) => error.message(),
            RequestError::EmptySelector => "selector must not be empty".to_owned(),
            RequestError::SelectorWithFullPage => "selector conflicts with full_page".to_owned(),
            RequestError::PaddingWithoutSelector => "padding requires selector".to_owned(),
            RequestError::Viewport(error) => error.message(number),
            RequestError::ZeroTimeout => "timeout_seconds must be greater than zero".to_owned(),
            RequestError::EmptyWaitFor => "wait_for must not be empty".to_owned(),
            RequestError::NoExtension =>
                "output must end in .png, .jpg, .jpeg, or .webp".to_owned(),
            RequestError::UnknownExtension(extension) => {
                let mut out = "unsupported output extension: .".to_owned();
                out.append(extension.as_str());
                out
            },
        }
    }
}

/// A prepared request is consistent: its viewport has an area and a usable scale, its time is not
/// zero, its selectors say something, and padding came with a selector.
pub proof fn law_prepared_request_is_consistent(
    request: CaptureRequest,
    url: Result<UrlModel, (Seq<char>, Seq<char>)>,
    extension: Option<Seq<char>>,
)
    requires
        request.prepared(url, extension) is Ok,
    ensures
        ({
            let opts = (request.prepared(url, extension)->Ok_0).opts;
            &&& opts.viewport.width > 0 && opts.viewport.height > 0
            &&& opts.viewport.scale.finite() && opts.viewport.scale.value() > 0
            &&& opts.timeout_secs > 0
            &&& opts.mode.selector() matches Some(selector) ==> selector.len() > 0
            &&& opts.wait_for matches Some(selector) ==> selector.len() > 0
            &&& request.padding is Some ==> opts.mode is Element
            &&& request.full_page == (opts.mode is FullPage)
            &&& request.selector is Some == (opts.mode is Element)
        }),
{
    viewport::law_checked_viewport_is_usable(request.wanted_size(), request.scale);
}

/// A known output extension wins over the format asked for.
pub proof fn law_output_extension_wins(
    request: CaptureRequest,
    url: Result<UrlModel, (Seq<char>, Seq<char>)>,
    extension: Seq<char>,
)
    requires
        request.output is Some,
        image::format_of(extension) is Some,
        request.prepared(url, Some(extension)) is Ok,
    ensures
        (request.prepared(url, Some(extension))->Ok_0).opts.format == image::format_of(
            extension,
        )->0,
{
}

/// Whether a text was given that is white space through and through.
pub open spec fn blank(given: Option<String>) -> bool {
    given matches Some(given) && forall|i: int|
        0 <= i < given@.len() ==> text::white_space(#[trigger] given@[i])
}

proof fn lemma_blank(given: Option<String>)
    ensures
        says_nothing(trimmed_option(given)) <==> blank(given),
{
    if let Some(given) = given {
        text::law_trimming_takes_only_the_ends(given@, Trim::WhiteSpace);
        let (from, to) = choose|from: int, to: int|
            #![trigger given@.subrange(from, to)]
            0 <= from <= to <= given@.len() && text::trimmed(given@, Trim::WhiteSpace)
                == given@.subrange(from, to) && (forall|k: int|
                (0 <= k < from || to <= k < given@.len()) ==> Trim::WhiteSpace.takes(
                    #[trigger] given@[k],
                )) && (from < to ==> !Trim::WhiteSpace.takes(given@[from])
                && !Trim::WhiteSpace.takes(given@[to - 1]));
        if from < to {
            assert(!text::white_space(given@[from]));
        } else {
            assert forall|i: int| 0 <= i < given@.len() implies text::white_space(
                #[trigger] given@[i],
            ) by {
                assert(Trim::WhiteSpace.takes(given@[i]));
            }
        }
    }
}

/// A request is refused for the first of its faults: a URL that is none, a blank selector, a
/// selector beside a whole page, padding without a selector, a viewport that is refused, a timeout
/// of zero, a blank selector to wait for, an output without an extension, or with one that asks for
/// no format.  A request without any is taken.
pub proof fn law_a_request_is_refused_for_its_first_fault(
    request: CaptureRequest,
    url: Result<UrlModel, (Seq<char>, Seq<char>)>,
    extension: Option<Seq<char>>,
)
    ensures
        ({
            let r = request.prepared(url, extension);
            let size = match request.size {
                Some(size) => size@,
                None => "desktop"@,
            };
            let view = viewport::checked(size, request.scale);
            let unread = request.output is Some && extension is None;
            let unknown = request.output is Some && (extension matches Some(e) && image::format_of(
                e,
            ) is None);
            if url is Err {
                r == Err::<PreparedModel, RequestFault>(
                    RequestFault::Url((url->Err_0).0, (url->Err_0).1),
                )
            } else if blank(request.selector) {
                r == Err::<PreparedModel, RequestFault>(RequestFault::EmptySelector)
            } else if request.selector is Some && request.full_page {
                r == Err::<PreparedModel, RequestFault>(RequestFault::SelectorWithFullPage)
            } else if request.selector is None && request.padding is Some {
                r == Err::<PreparedModel, RequestFault>(RequestFault::PaddingWithoutSelector)
            } else if view is Err {
                r == Err::<PreparedModel, RequestFault>(RequestFault::Viewport(view->Err_0))
            } else if request.timeout_seconds == Some(0u64) {
                r == Err::<PreparedModel, RequestFault>(RequestFault::ZeroTimeout)
            } else if blank(request.wait_for) {
                r == Err::<PreparedModel, RequestFault>(RequestFault::EmptyWaitFor)
            } else if unread {
                r == Err::<PreparedModel, RequestFault>(RequestFault::NoExtension)
            } else if unknown {
                r == Err::<PreparedModel, RequestFault>(
                    RequestFault::UnknownExtension(extension->0),
                )
            } else {
                r is Ok
            }
        }),
{
    lemma_blank(request.selector);
    lemma_blank(request.wait_for);
}

/// A request that is taken is taken as it was made: every field of it stands in the prepared
/// capture, and what it left out has its default, 30 seconds for the timeout, no padding, the
/// desktop for the size.  Selectors lose the white space around them.
pub proof fn law_a_request_is_taken_as_it_was_made(
    request: CaptureRequest,
    url: Result<UrlModel, (Seq<char>, Seq<char>)>,
    extension: Option<Seq<char>>,
)
    requires
        request.prepared(url, extension) is Ok,
    ensures
        ({
            let p = request.prepared(url, extension)->Ok_0;
            &&& url == Ok::<UrlModel, (Seq<char>, Seq<char>)>(p.url)
            &&& request.output matches Some(path) ==> p.output == Some(path@)
            &&& request.output is None ==> p.output is None
            &&& p.opts.dark == request.dark
            &&& p.opts.wait_ms == request.wait_ms
            &&& request.timeout_seconds matches Some(seconds) ==> p.opts.timeout_secs == seconds
            &&& request.timeout_seconds is None ==> p.opts.timeout_secs == 30
            &&& request.wait_for matches Some(selector) ==> p.opts.wait_for == Some(
                text::trimmed(selector@, Trim::WhiteSpace),
            )
            &&& request.wait_for is None ==> p.opts.wait_for is None
            &&& request.selector matches Some(selector) ==> p.opts.mode == ModeModel::Element {
                selector: text::trimmed(selector@, Trim::WhiteSpace),
                padding: match request.padding {
                    Some(padding) => padding,
                    None => 0,
                },
            }
            &&& request.selector is None ==> (p.opts.mode is FullPage <==> request.full_page) && (
            p.opts.mode is Viewport <==> !request.full_page)
            &&& request.scale matches Some(scale) ==> p.opts.viewport.scale == scale
            &&& viewport::sized(
                match request.size {
                    Some(size) => size@,
                    None => "desktop"@,
                },
            ) matches Some(asked) && p.opts.viewport.width == asked.width && p.opts.viewport.height
                == asked.height && p.opts.viewport.mobile == asked.mobile && (request.scale is None
                ==> p.opts.viewport.scale == asked.scale)
        }),
{
}

/// A request that names no output has the format that its format field names: PNG for `png` or
/// nothing, JPEG for `jpg` and `jpeg`, WebP for `webp`.  One that names an output has the format
/// of the output's extension.
pub proof fn law_a_request_has_the_format_it_names(
    request: CaptureRequest,
    url: Result<UrlModel, (Seq<char>, Seq<char>)>,
    extension: Option<Seq<char>>,
)
    requires
        request.prepared(url, extension) is Ok,
    ensures
        ({
            let format = (request.prepared(url, extension)->Ok_0).opts.format;
            &&& request.output is None ==> {
                &&& format is Png <==> (request.format is None || request.format == Some(
                    ImageFormat::Png,
                ))
                &&& format is Jpeg <==> (request.format == Some(ImageFormat::Jpg) || request.format
                    == Some(ImageFormat::Jpeg))
                &&& format is Webp <==> request.format == Some(ImageFormat::Webp)
            }
            &&& request.output is Some ==> extension is Some && image::format_of(extension->0) == Some(
                format,
            )
        }),
{
}

/// What a request's URL stands for does not depend on the white space around it, and is what the
/// URL without that stands for.
pub proof fn law_white_space_around_a_url_does_not_matter(a: CaptureRequest, b: CaptureRequest)
    requires
        text::trimmed(a.url@, Trim::WhiteSpace) == text::trimmed(b.url@, Trim::WhiteSpace),
    ensures
        a.looked_up() == b.looked_up(),
        ({
            let bare = text::trimmed(a.url@, Trim::WhiteSpace);
            &&& address::normalized(bare) matches Ok(url) ==> a.looked_up() == Ok::<
                UrlModel,
                (Seq<char>, Seq<char>),
            >(url)
            &&& address::normalized(bare) matches Err(reason) ==> a.looked_up() == Err::<
                UrlModel,
                (Seq<char>, Seq<char>),
            >((bare, reason))
        }),
{
}

/// A refused request is told with what is wrong with it: a URL with its text and the reason, an
/// extension as it was written, a viewport with its own message, and all others in words of their
/// own.
pub proof fn law_refusals_name_what_is_wrong(fault: RequestFault, number: Seq<char>)
    ensures
        ({
            let message = request_message(fault, number);
            &&& fault matches RequestFault::Url(url, reason) ==> message == address::url_message(
                url,
                reason,
            )
            &&& fault matches RequestFault::Viewport(fault) ==> message
                == viewport::viewport_message(fault, number)
            &&& fault matches RequestFault::UnknownExtension(extension) ==> text::occurs_at(
                message,
                seq!['.'] + extension,
                message.len() - extension.len() - 1,
            )
            &&& message.len() > 0
        }),
{
    reveal_strlit("unsupported output extension: .");
    reveal_strlit("selector must not be empty");
    reveal_strlit("selector conflicts with full_page");
    reveal_strlit("padding requires selector");
    reveal_strlit("timeout_seconds must be greater than zero");
    reveal_strlit("wait_for must not be empty");
    reveal_strlit("output must end in .png, .jpg, .jpeg, or .webp");
    reveal_strlit("invalid URL: ");
    reveal_strlit("invalid size ");
    reveal_strlit("invalid scale ");
    if let RequestFault::UnknownExtension(extension) = fault {
        let message = request_message(fault, number);
        assert(message.subrange(message.len() - extension.len() - 1, message.len() as int)
            =~= seq!['.'] + extension);
    }
}

/// Options and prepared captures are read as they are, field by field.
pub proof fn law_options_are_read_as_they_are(prepared: PreparedCapture)
    ensures
        ({
            let opts = prepared.opts;
            &&& opts@.viewport == opts.viewport
            &&& opts@.mode == opts.mode@
            &&& opts@.dark == opts.dark
            &&& opts@.wait_ms == opts.wait_ms
            &&& opts@.timeout_secs == opts.timeout_secs
            &&& opts@.format == opts.format
            &&& opts.wait_for matches Some(selector) ==> opts@.wait_for == Some(selector@)
            &&& opts.wait_for is None ==> opts@.wait_for is None
            &&& prepared@.opts == opts@
            &&& prepared@.url == prepared.url@
            &&& prepared.output matches Some(path) ==> prepared@.output == Some(path@)
            &&& prepared.output is None ==> prepared@.output is None
        }),
{
}

} // verus!
