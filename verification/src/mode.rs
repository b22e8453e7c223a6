//! What part of a page a capture shows.

use vstd::prelude::*;

verus! {

/// What part of a page a capture shows.
#[derive(Clone, Debug, PartialEq, Eq)]
pub enum CaptureMode {
    /// What the viewport shows.
    Viewport,
    /// The whole height of the page.
    FullPage,
    /// The first element that matches a CSS selector, with padding in CSS pixels.
    Element { selector: String, padding: u32 },
}

/// What a capture mode says.
pub enum ModeModel {
    Viewport,
    FullPage,
    Element { selector: Seq<char>, padding: u32 },
}

impl View for CaptureMode {
    type V = ModeModel;

    open spec fn view(&self) -> ModeModel {
        match *self {
            CaptureMode::Viewport => ModeModel::Viewport,
            CaptureMode::FullPage => ModeModel::FullPage,
            CaptureMode::Element { selector, padding } => ModeModel::Element {
                selector: selector@,
                padding,
            },
        }
    }
}

impl ModeModel {
    /// The name that reports give a mode.
    pub open spec fn name(self) -> Seq<char> {
        match self {
            ModeModel::Viewport => "viewport"@,
            ModeModel::FullPage => "full_page"@,
            ModeModel::Element { .. } => "element"@,
        }
    }

    pub open spec fn selector(self) -> Option<Seq<char>> {
        match self {
            ModeModel::Element { selector, .. } => Some(selector),
            _ => None,
        }
    }

    pub open spec fn padding(self) -> Option<u32> {
        match self {
            ModeModel::Element { padding, .. } => Some(padding),
            _ => None,
        }
    }
}

impl CaptureMode {
    pub fn name(&self) -> (r: &'static str)
        ensures
            r@ == self@.name(),
    {
        match self {
            CaptureMode::Viewport => "viewport",
            CaptureMode::FullPage => "full_page",
            CaptureMode::Element { .. } => "element",
        }
    }

    pub fn selector(&self) -> (r: Option<&str>)
        ensures
            match r {
                Some(selector) => self@.selector() == Some(selector@),
                None => self@.selector() is None,
            },
    {
        match self {
            CaptureMode::Element { selector, .. } => Some(selector.as_str()),
            _ => None,
        }
    }

    pub fn padding(&self) -> (r: Option<u32>)
        ensures
            r == self@.padding(),
    {
        match self {
            CaptureMode::Element { padding, .. } => Some(*padding),
            _ => None,
        }
    }
}

/// The mode that the flags of a capture ask for: a selector asks for its element, else `full` for
/// the whole page.
pub open spec fn mode_of(selector: Option<Seq<char>>, padding: Option<u32>, full: bool) -> ModeModel {
    match selector {
        Some(selector) => ModeModel::Element {
            selector,
            padding: match padding {
                Some(padding) => padding,
                None => 0,
            },
        },
        None => if full {
            ModeModel::FullPage
        } else {
            ModeModel::Viewport
        },
    }
}

/// The text of an optional borrowed string.
pub open spec fn str_option(text: Option<&str>) -> Option<Seq<char>> {
    match text {
        Some(text) => Some(text@),
        None => None,
    }
}

/// The mode that the flags of a capture ask for.
pub fn capture_mode(selector: Option<&str>, padding: Option<u32>, full: bool) -> (r: CaptureMode)
    ensures
        r@ == mode_of(str_option(selector), padding, full),
{
    match selector {
        Some(selector) => CaptureMode::Element {
            selector: selector.to_owned(),
            padding: match padding {
                Some(padding) => padding,
                None => 0,
            },
        },
        None => if full {
            CaptureMode::FullPage
        } else {
            CaptureMode::Viewport
        },
    }
}

/// A selector asks for its element, whatever else is asked for, with the padding given or none;
/// without one the whole page is shown exactly where it is asked for.
pub proof fn law_a_selector_asks_for_its_element(
    selector: Option<Seq<char>>,
    padding: Option<u32>,
    full: bool,
)
    ensures
        mode_of(selector, padding, full).selector() == selector,
        selector is Some && padding is Some ==> mode_of(selector, padding, full).padding()
            == padding,
        selector is Some && padding is None ==> mode_of(selector, padding, full).padding() == Some(
            0u32,
        ),
        selector is None ==> (mode_of(selector, padding, full) is FullPage <==> full) && (mode_of(
            selector,
            padding,
            full,
        ) is Viewport <==> !full),
{
}

/// A mode tells its selector and its padding exactly where it is that of an element, and no two
/// kinds of mode share a name.
pub proof fn law_modes_tell_what_they_show(a: ModeModel, b: ModeModel)
    ensures
        a matches ModeModel::Element { selector, padding } ==> a.selector() == Some(selector)
            && a.padding() == Some(padding),
        !(a is Element) ==> a.selector() is None && a.padding() is None,
        a.name() == b.name() <==> (a is Viewport == b is Viewport && a is FullPage == b is FullPage),
{
    reveal_strlit("viewport");
    reveal_strlit("full_page");
    reveal_strlit("element");
    assert("viewport"@.len() == 8 && "full_page"@.len() == 9 && "element"@.len() == 7);
}

/// A mode is read as it is, with the selector and the padding that it holds.
pub proof fn law_modes_are_read_as_they_are(mode: CaptureMode)
    ensures
        mode is Viewport <==> mode@ is Viewport,
        mode is FullPage <==> mode@ is FullPage,
        mode matches CaptureMode::Element { selector, padding } ==> mode@.selector() == Some(
            selector@,
        ) && mode@.padding() == Some(padding),
{
}

} // verus!
