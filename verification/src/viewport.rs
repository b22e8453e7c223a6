//! Viewports: presets, custom sizes and device scale factors.

use crate::double;
use crate::double::Double;
use crate::double_laws;
use crate::outside;
use crate::outside::debug_text;
use crate::text;
use crate::text::{chars_of, find_mark, parse_u32, same_text};
use vstd::prelude::*;
use vstd::string::*;

verus! {

/// A browser viewport in CSS pixels, with its device scale factor.
#[derive(Clone, Copy, Debug)]
pub struct Viewport {
    pub width: u32,
    pub height: u32,
    pub scale: Double,
    pub mobile: bool,
}

/// Why a viewport was refused.
#[derive(Debug)]
pub enum ViewportError {
    /// The size is neither a preset nor `WxH`.
    Malformed(String),
    /// The width or the height is zero.
    Empty(String),
    /// The scale factor is not a finite number above zero.
    Scale(Double),
}

/// What a refused viewport says.
pub enum ViewportFault {
    Malformed(Seq<char>),
    Empty(Seq<char>),
    Scale(Double),
}

impl View for ViewportError {
    type V = ViewportFault;

    open spec fn view(&self) -> ViewportFault {
        match *self {
            ViewportError::Malformed(size) => ViewportFault::Malformed(size@),
            ViewportError::Empty(size) => ViewportFault::Empty(size@),
            ViewportError::Scale(scale) => ViewportFault::Scale(scale),
        }
    }
}

/// A named viewport.
pub open spec fn preset(size: Seq<char>) -> Option<Viewport> {
    if size == "desktop"@ {
        Some(Viewport { width: 1440, height: 900, scale: double::whole(2), mobile: false })
    } else if size == "iphone"@ {
        Some(Viewport { width: 390, height: 844, scale: double::whole(3), mobile: true })
    } else if size == "ipad"@ {
        Some(Viewport { width: 1024, height: 1366, scale: double::whole(2), mobile: false })
    } else {
        None
    }
}

/// The place of the first `x`, in either case, or the end.
pub open spec fn cross(size: Seq<char>) -> nat {
    let small = text::length_before(size, 'x');
    let large = text::length_before(size, 'X');
    if small < large {
        small
    } else {
        large
    }
}

/// The width and height that a size of the form `WxH` writes.
pub open spec fn dimensions(size: Seq<char>) -> Option<(u32, u32)> {
    let at = cross(size) as int;
    if at < size.len() {
        match (text::parsed_u32(size.take(at)), text::parsed_u32(size.skip(at + 1))) {
            (Some(width), Some(height)) => Some((width, height)),
            _ => None,
        }
    } else {
        None
    }
}

/// The viewport of a size, at the scale that comes with it, whatever its dimensions.
pub open spec fn sized(size: Seq<char>) -> Option<Viewport> {
    match preset(size) {
        Some(viewport) => Some(viewport),
        None => match dimensions(size) {
            Some((width, height)) => Some(
                Viewport { width, height, scale: double::whole(2), mobile: false },
            ),
            None => None,
        },
    }
}

/// A viewport at another scale, where one is asked for.
pub open spec fn rescaled(viewport: Viewport, scale: Option<Double>) -> Viewport {
    match scale {
        Some(scale) => Viewport { scale, ..viewport },
        None => viewport,
    }
}

/// Whether a scale factor is a finite number above zero.
pub open spec fn usable(scale: Double) -> bool {
    scale.finite() && !scale.negative() && scale.magnitude() > 0
}

/// The viewport of a size and scale that have been checked, or why they are refused.
pub open spec fn checked(size: Seq<char>, scale: Option<Double>) -> Result<
    Viewport,
    ViewportFault,
> {
    match sized(size) {
        None => Err(ViewportFault::Malformed(size)),
        Some(viewport) => {
            let viewport = rescaled(viewport, scale);
            if viewport.width == 0 || viewport.height == 0 {
                Err(ViewportFault::Empty(size))
            } else if !usable(viewport.scale) {
                Err(ViewportFault::Scale(viewport.scale))
            } else {
                Ok(viewport)
            }
        },
    }
}

impl Viewport {
    pub fn desktop() -> (r: Viewport)
        ensures
            r == (Viewport { width: 1440, height: 900, scale: double::whole(2), mobile: false }),
    {
        Viewport { width: 1440, height: 900, scale: Double::from_u64(2), mobile: false }
    }
}

/// The viewport of a size, at the scale that comes with it.
fn size_of(size: &str) -> (r: Option<Viewport>)
    ensures
        r == sized(size@),
{
    if same_text(size, "desktop") {
        return Some(Viewport::desktop());
    }
    if same_text(size, "iphone") {
        return Some(
            Viewport { width: 390, height: 844, scale: Double::from_u64(3), mobile: true },
        );
    }
    if same_text(size, "ipad") {
        return Some(
            Viewport { width: 1024, height: 1366, scale: Double::from_u64(2), mobile: false },
        );
    }
    let chars = chars_of(size);
    let small = find_mark(&chars, 0, 'x');
    let large = find_mark(&chars, 0, 'X');
    assert(size@.skip(0) == size@);
    let at: usize = if small < large {
        small
    } else {
        large
    };
    if at == chars.len() {
        return None;
    }
    assert(chars@.subrange(0, at as int) == size@.take(at as int));
    assert(chars@.subrange(at + 1, chars@.len() as int) == size@.skip(at + 1));
    match (parse_u32(&chars, 0, at), parse_u32(&chars, at + 1, chars.len())) {
        (Some(width), Some(height)) => Some(
            Viewport { width, height, scale: Double::from_u64(2), mobile: false },
        ),
        _ => None,
    }
}

/// The viewport of a size and scale, both checked.
pub fn parse_viewport(size: &str, scale: Option<Double>) -> (r: Result<Viewport, ViewportError>)
    ensures
        match r {
            Ok(viewport) => checked(size@, scale) == Ok::<Viewport, ViewportFault>(viewport),
            Err(error) => checked(size@, scale) == Err::<Viewport, ViewportFault>(error@),
        },
{
    let mut viewport = match size_of(size) {
        Some(viewport) => viewport,
        None => {
            return Err(ViewportError::Malformed(size.to_owned()));
        },
    };
    if viewport.width == 0 || viewport.height == 0 {
        return Err(ViewportError::Empty(size.to_owned()));
    }
    match scale {
        Some(scale) => {
            viewport.scale = scale;
        },
        None => {},
    }
    let zero = Double { bits: 0 };
    if !viewport.scale.is_finite() || viewport.scale.less_or_equal(zero) {
        return Err(ViewportError::Scale(viewport.scale));
    }
    Ok(viewport)
}

/// The viewport of the command line's size and scale, or why it is refused.
pub open spec fn taken(size: Seq<char>, scale: Option<Double>) -> Result<Viewport, ViewportFault> {
    match sized(size) {
        Some(viewport) => Ok(rescaled(viewport, scale)),
        None => Err(ViewportFault::Malformed(size)),
    }
}

/// The viewport of the command line's size and scale: the form of the size is checked, the
/// numbers are taken as they are.
pub fn parse_size(size: &str, scale: Option<Double>) -> (r: Result<Viewport, ViewportError>)
    ensures
        match r {
            Ok(viewport) => sized(size@) is Some && viewport == rescaled(sized(size@)->0, scale),
            Err(error) => sized(size@) is None && error@ == ViewportFault::Malformed(size@),
        },
        match r {
            Ok(viewport) => taken(size@, scale) == Ok::<Viewport, ViewportFault>(viewport),
            Err(error) => taken(size@, scale) == Err::<Viewport, ViewportFault>(error@),
        },
{
    match size_of(size) {
        Some(viewport) => match scale {
            Some(scale) => Ok(
                Viewport {
                    width: viewport.width,
                    height: viewport.height,
                    scale,
                    mobile: viewport.mobile,
                },
            ),
            None => Ok(viewport),
        },
        None => Err(ViewportError::Malformed(size.to_owned())),
    }
}

/// What a refused viewport tells the user; `number` is how the refused scale prints.
pub open spec fn viewport_message(fault: ViewportFault, number: Seq<char>) -> Seq<char> {
    match fault {
        ViewportFault::Malformed(size) => "invalid size "@ + outside::debug_of(size)
            + ": use WxH (e.g. 1440x900) or desktop|iphone|ipad"@,
        ViewportFault::Empty(size) => "invalid size "@ + outside::debug_of(size)
            + ": width and height must be greater than zero"@,
        ViewportFault::Scale(_) => "invalid scale "@ + number
            + ": use a finite number greater than zero"@,
    }
}

impl ViewportError {
    /// What a refused viewport tells the user; `number` is how the refused scale prints.
    pub fn message(&self, number: &str) -> (r: String)
        ensures
            r@ == viewport_message(self@, number@),
    {
        match self {
            ViewportError::Malformed(size) => {
                let mut out = "invalid size ".to_owned();
                out.append(debug_text(size.as_str()).as_str());
                out.append(": use WxH (e.g. 1440x900) or desktop|iphone|ipad");
                out
            },
            ViewportError::Empty(size) => {
                let mut out = "invalid size ".to_owned();
                out.append(debug_text(size.as_str()).as_str());
                out.append(": width and height must be greater than zero");
                out
            },
            ViewportError::Scale(_) => {
                let mut out = "invalid scale ".to_owned();
                out.append(number);
                out.append(": use a finite number greater than zero");
                out
            },
        }
    }
}

/// What the command line says of a size that it refuses.
pub open spec fn refused_flag(size: Seq<char>) -> Seq<char> {
    "invalid --size "@ + outside::debug_of(size)
        + ": use WxH (e.g. 1440x900) or desktop|iphone|ipad"@
}

/// What the command line says of a size that it refuses.
pub fn size_flag_message(size: &str) -> (r: String)
    ensures
        r@ == "invalid --size "@ + outside::debug_of(size@)
            + ": use WxH (e.g. 1440x900) or desktop|iphone|ipad"@,
        r@ == refused_flag(size@),
{
    let mut out = "invalid --size ".to_owned();
    out.append(debug_text(size).as_str());
    out.append(": use WxH (e.g. 1440x900) or desktop|iphone|ipad");
    out
}

/// A viewport that passed the checks has an area and a finite scale above zero.
pub proof fn law_checked_viewport_is_usable(size: Seq<char>, scale: Option<Double>)
    requires
        checked(size, scale) is Ok,
    ensures
        (checked(size, scale)->Ok_0).width > 0,
        (checked(size, scale)->Ok_0).height > 0,
        (checked(size, scale)->Ok_0).scale.finite(),
        (checked(size, scale)->Ok_0).scale.value() > 0,
{
    double_laws::lemma_units_increase(0, (checked(size, scale)->Ok_0).scale.magnitude());
}

/// A size written as `WxH` is read as that width and that height.
pub proof fn law_size_reads_back(width: u32, height: u32)
    ensures
        dimensions(text::decimal(width as nat) + seq!['x'] + text::decimal(height as nat)) == Some(
            (width, height),
        ),
        preset(text::decimal(width as nat) + seq!['x'] + text::decimal(height as nat)) is None,
{
    let w = text::decimal(width as nat);
    let h = text::decimal(height as nat);
    let size = w + seq!['x'] + h;
    text::law_decimal_reads_back(width as nat);
    text::law_decimal_reads_back(height as nat);
    assert(forall|i: int| 0 <= i < w.len() ==> size[i] == w[i]);
    assert(forall|i: int| 0 <= i < h.len() ==> size[w.len() + 1 + i] == h[i]);
    assert forall|i: int| 0 <= i < size.len() implies size[i] != 'X' by {
        if i > w.len() {
            assert(size[i] == h[i - w.len() - 1]);
        }
    }
    text::lemma_length_before(size, 'x', w.len());
    text::lemma_length_before(size, 'X', size.len());
    assert(size.take(w.len() as int) == w);
    assert(size.skip(w.len() as int + 1) == h);
    reveal_strlit("desktop");
    reveal_strlit("iphone");
    reveal_strlit("ipad");
    assert(text::is_digit(size[0]));
    assert("desktop"@[0] == 'd' && "iphone"@[0] == 'i' && "ipad"@[0] == 'i');
}

/// A scale that is asked for is the one that is used, and nothing else of a viewport depends on it.
pub proof fn law_the_scale_asked_for_is_used(size: Seq<char>, scale: Double)
    ensures
        sized(size) matches Some(viewport) ==> {
            let asked = rescaled(viewport, Some(scale));
            &&& asked.scale == scale
            &&& asked.width == viewport.width && asked.height == viewport.height
            &&& asked.mobile == viewport.mobile
            &&& rescaled(viewport, None) == viewport
        },
        checked(size, Some(scale)) matches Ok(viewport) ==> {
            &&& viewport.scale == scale
            &&& checked(size, None) matches Ok(preset) && preset.width == viewport.width
                && preset.height == viewport.height && preset.mobile == viewport.mobile
        },
{
    double_laws::lemma_whole_is_whole(2);
    double_laws::lemma_whole_is_whole(3);
    lemma_small_wholes_are_usable();
}

proof fn lemma_small_wholes_are_usable()
    ensures
        usable(double::whole(2)),
        usable(double::whole(3)),
{
    double_laws::lemma_whole_is_whole(2);
    double_laws::lemma_whole_is_whole(3);
    lemma_one_is_positive();
    assert(2 * double::one() > 0 && 3 * double::one() > 0);
    assert(double::units(0) == 0);
}

proof fn lemma_one_is_positive()
    ensures
        double::one() > 0,
{
    vstd::arithmetic::power2::lemma_pow2_pos(1074);
}

/// Every custom size, in whichever case its cross is written, gives a desktop viewport of that
/// width and height, at twice the scale unless another is asked for; it is refused exactly where a
/// dimension is zero or the scale is not a finite number above zero.
pub proof fn law_custom_sizes_are_taken(
    width: u32,
    height: u32,
    capital: bool,
    scale: Option<Double>,
)
    ensures
        ({
            let mark = if capital {
                'X'
            } else {
                'x'
            };
            let size = text::decimal(width as nat) + seq![mark] + text::decimal(height as nat);
            let wanted = match scale {
                Some(scale) => scale,
                None => double::whole(2),
            };
            let good = match scale {
                Some(scale) => scale.finite() && double::whole(0).below(scale),
                None => true,
            };
            &&& sized(size) == Some(
                Viewport { width, height, scale: double::whole(2), mobile: false },
            )
            &&& width > 0 && height > 0 && good ==> checked(size, scale) == Ok::<
                Viewport,
                ViewportFault,
            >(Viewport { width, height, scale: wanted, mobile: false })
            &&& width == 0 || height == 0 ==> checked(size, scale) == Err::<Viewport, ViewportFault>(
                ViewportFault::Empty(size),
            )
            &&& width > 0 && height > 0 && !good ==> checked(size, scale) == Err::<
                Viewport,
                ViewportFault,
            >(ViewportFault::Scale(wanted))
        }),
{
    let mark = if capital {
        'X'
    } else {
        'x'
    };
    let other = if capital {
        'x'
    } else {
        'X'
    };
    let w = text::decimal(width as nat);
    let h = text::decimal(height as nat);
    let size = w + seq![mark] + h;
    text::law_decimal_reads_back(width as nat);
    text::law_decimal_reads_back(height as nat);
    assert(forall|i: int| 0 <= i < w.len() ==> size[i] == w[i]);
    assert(forall|i: int| 0 <= i < h.len() ==> size[w.len() + 1 + i] == h[i]);
    assert forall|i: int| 0 <= i < size.len() implies size[i] != other by {
        if i > w.len() {
            assert(size[i] == h[i - w.len() - 1]);
        }
    }
    text::lemma_length_before(size, mark, w.len());
    text::lemma_length_before(size, other, size.len());
    assert(size.take(w.len() as int) == w);
    assert(size.skip(w.len() as int + 1) == h);
    reveal_strlit("desktop");
    reveal_strlit("iphone");
    reveal_strlit("ipad");
    assert(text::is_digit(size[0]));
    assert("desktop"@[0] == 'd' && "iphone"@[0] == 'i' && "ipad"@[0] == 'i');
    lemma_small_wholes_are_usable();
    double_laws::lemma_whole_is_whole(0);
    lemma_zero_has_no_magnitude();
}

proof fn lemma_zero_has_no_magnitude()
    ensures
        double::whole(0).place() == 0,
        !double::whole(0).nan(),
{
    double_laws::lemma_whole_is_whole(0);
    if double::whole(0).magnitude() > 0 {
        double_laws::lemma_units_increase(0, double::whole(0).magnitude());
    }
}

/// A size that is no preset is taken exactly where it is two numbers with a cross between them, and
/// gives those numbers.
pub proof fn law_a_size_is_two_numbers(size: Seq<char>)
    ensures
        dimensions(size) matches Some((width, height)) ==> exists|at: int|
            0 <= at < size.len() && (#[trigger] size[at] == 'x' || size[at] == 'X')
                && text::parsed_u32(size.take(at)) == Some(width) && text::parsed_u32(
                size.skip(at + 1),
            ) == Some(height),
        sized(size) is Some && preset(size) is None ==> dimensions(size) == Some(
            ((sized(size)->0).width, (sized(size)->0).height),
        ) && !(sized(size)->0).mobile,
        sized(size) is None ==> checked(size, None) == Err::<Viewport, ViewportFault>(
            ViewportFault::Malformed(size),
        ),
{
    let at = cross(size) as int;
    text::lemma_length_before_place(size, 'x');
    text::lemma_length_before_place(size, 'X');
    if dimensions(size) is Some {
        assert(size[at] == 'x' || size[at] == 'X');
    }
}

/// The command line takes every size that has the right form, with whatever numbers and scale were
/// asked for, and agrees with the checks wherever they are passed.
pub proof fn law_the_command_line_takes_every_size(size: Seq<char>, scale: Option<Double>)
    ensures
        taken(size, scale) is Err <==> checked(size, scale) == Err::<Viewport, ViewportFault>(
            ViewportFault::Malformed(size),
        ),
        taken(size, scale) is Err ==> taken(size, scale) == Err::<Viewport, ViewportFault>(
            ViewportFault::Malformed(size),
        ),
        checked(size, scale) is Ok ==> taken(size, scale) == checked(size, scale),
        taken(size, scale) matches Ok(viewport) ==> {
            &&& scale matches Some(scale) ==> viewport.scale == scale
            &&& taken(size, None) matches Ok(plain) && plain.width == viewport.width && plain.height
                == viewport.height && plain.mobile == viewport.mobile && (scale is None
                ==> plain.scale == viewport.scale)
        },
{
}

/// A refused viewport is told with what is wrong with it: the size as it was written, or how the
/// scale prints.
pub proof fn law_refused_viewports_name_their_fault(fault: ViewportFault, number: Seq<char>)
    ensures
        ({
            let message = viewport_message(fault, number);
            &&& fault matches ViewportFault::Malformed(size) ==> text::occurs_in(
                message,
                outside::debug_of(size),
            )
            &&& fault matches ViewportFault::Empty(size) ==> text::occurs_in(
                message,
                outside::debug_of(size),
            )
            &&& fault is Scale ==> text::occurs_in(message, number)
        }),
        fault matches ViewportFault::Malformed(size) ==> text::occurs_in(
            refused_flag(size),
            outside::debug_of(size),
        ),
{
    let message = viewport_message(fault, number);
    match fault {
        ViewportFault::Malformed(size) => {
            let part = outside::debug_of(size);
            let n = "invalid size "@.len() as int;
            assert(message.subrange(n, n + part.len()) =~= part);
            assert(text::occurs_at(message, part, n));
            let m = "invalid --size "@.len() as int;
            assert(refused_flag(size).subrange(m, m + part.len()) =~= part);
            assert(text::occurs_at(refused_flag(size), part, m));
        },
        ViewportFault::Empty(size) => {
            let part = outside::debug_of(size);
            let n = "invalid size "@.len() as int;
            assert(message.subrange(n, n + part.len()) =~= part);
            assert(text::occurs_at(message, part, n));
        },
        ViewportFault::Scale(_) => {
            let n = "invalid scale "@.len() as int;
            assert(message.subrange(n, n + number.len()) =~= number);
            assert(text::occurs_at(message, number, n));
        },
    }
}

} // verus!
