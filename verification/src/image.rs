//! Image formats and the names they go by.

use crate::text;
use crate::text::{lower_case, same_text};
use vstd::prelude::*;

verus! {

/// An image format that a page can be captured in.
#[derive(Clone, Copy, Debug, PartialEq, Eq, Structural)]
pub enum Format {
    Png,
    Jpeg,
    Webp,
}

/// The format that a file extension asks for, in either case.
pub open spec fn format_of(extension: Seq<char>) -> Option<Format> {
    let name = text::lowered(extension);
    if name == "png"@ {
        Some(Format::Png)
    } else if name == "jpg"@ || name == "jpeg"@ {
        Some(Format::Jpeg)
    } else if name == "webp"@ {
        Some(Format::Webp)
    } else {
        None
    }
}

impl Format {
    /// The file extension that a format is saved under.
    pub open spec fn extension(self) -> Seq<char> {
        match self {
            Format::Png => "png"@,
            Format::Jpeg => "jpg"@,
            Format::Webp => "webp"@,
        }
    }

    /// The media type of a format.
    pub open spec fn media_type(self) -> Seq<char> {
        match self {
            Format::Png => "image/png"@,
            Format::Jpeg => "image/jpeg"@,
            Format::Webp => "image/webp"@,
        }
    }

    /// The format that a file extension asks for, if it asks for one.
    pub fn from_ext(ext: &str) -> (r: Option<Format>)
        ensures
            r == format_of(ext@),
    {
        let name = lower_case(ext);
        if same_text(name.as_str(), "png") {
            Some(Format::Png)
        } else if same_text(name.as_str(), "jpg") || same_text(name.as_str(), "jpeg") {
            Some(Format::Jpeg)
        } else if same_text(name.as_str(), "webp") {
            Some(Format::Webp)
        } else {
            None
        }
    }

    pub fn ext(self) -> (r: &'static str)
        ensures
            r@ == self.extension(),
    {
        match self {
            Format::Png => "png",
            Format::Jpeg => "jpg",
            Format::Webp => "webp",
        }
    }

    pub fn mime_type(self) -> (r: &'static str)
        ensures
            r@ == self.media_type(),
    {
        match self {
            Format::Png => "image/png",
            Format::Jpeg => "image/jpeg",
            Format::Webp => "image/webp",
        }
    }

    /// The encoder quality to ask for: only PNG, which loses nothing, takes none.
    pub fn quality(self) -> (r: Option<u32>)
        ensures
            r == if self == Format::Png {
                None::<u32>
            } else {
                Some(90u32)
            },
    {
        match self {
            Format::Png => None,
            _ => Some(90),
        }
    }
}

/// The format names that a capture request may use.
#[derive(Clone, Copy, Debug, PartialEq, Eq, Structural)]
pub enum ImageFormat {
    Png,
    Jpg,
    Jpeg,
    Webp,
}

impl ImageFormat {
    /// The format that a name stands for.
    pub open spec fn meant(self) -> Format {
        match self {
            ImageFormat::Png => Format::Png,
            ImageFormat::Jpg | ImageFormat::Jpeg => Format::Jpeg,
            ImageFormat::Webp => Format::Webp,
        }
    }

    pub fn capture_format(self) -> (r: Format)
        ensures
            r == self.meant(),
    {
        match self {
            ImageFormat::Png => Format::Png,
            ImageFormat::Jpg | ImageFormat::Jpeg => Format::Jpeg,
            ImageFormat::Webp => Format::Webp,
        }
    }
}

/// A file saved under a format's extension is read back as that format.
pub proof fn law_extension_names_its_format(format: Format)
    ensures
        format_of(format.extension()) == Some(format),
{
    reveal_strlit("png");
    reveal_strlit("jpg");
    reveal_strlit("jpeg");
    reveal_strlit("webp");
    let name = format.extension();
    assert(text::lowered(name) =~= name);
    assert("png"@[0] != "jpg"@[0] && "webp"@[0] != "jpg"@[0] && "webp"@[0] != "png"@[0]);
    assert("jpeg"@[0] == 'j');
}

/// The case of an extension does not matter.
pub proof fn law_extension_case_is_ignored(a: Seq<char>, b: Seq<char>)
    requires
        text::lowered(a) == text::lowered(b),
    ensures
        format_of(a) == format_of(b),
{
}

/// Whether a text is the three or four letters given, each in either case.
spec fn spells(s: Seq<char>, small: Seq<char>, capital: Seq<char>) -> bool {
    s.len() == small.len() && forall|i: int|
        0 <= i < s.len() ==> #[trigger] s[i] == small[i] || s[i] == capital[i]
}

/// An extension asks for a format exactly where it is `png`, `jpg`, `jpeg` or `webp`, its letters
/// in either case.
pub proof fn law_four_extensions_are_known(e: Seq<char>)
    ensures
        format_of(e) == Some(Format::Png) <==> e.len() == 3 && (e[0] == 'p' || e[0] == 'P') && (e[1]
            == 'n' || e[1] == 'N') && (e[2] == 'g' || e[2] == 'G'),
        format_of(e) == Some(Format::Jpeg) <==> {
            ||| e.len() == 3 && (e[0] == 'j' || e[0] == 'J') && (e[1] == 'p' || e[1] == 'P') && (e[2]
                == 'g' || e[2] == 'G')
            ||| e.len() == 4 && (e[0] == 'j' || e[0] == 'J') && (e[1] == 'p' || e[1] == 'P') && (e[2]
                == 'e' || e[2] == 'E') && (e[3] == 'g' || e[3] == 'G')
        },
        format_of(e) == Some(Format::Webp) <==> e.len() == 4 && (e[0] == 'w' || e[0] == 'W') && (e[1]
            == 'e' || e[1] == 'E') && (e[2] == 'b' || e[2] == 'B') && (e[3] == 'p' || e[3] == 'P'),
{
    reveal_strlit("png");
    reveal_strlit("jpg");
    reveal_strlit("jpeg");
    reveal_strlit("webp");
    let name = text::lowered(e);
    lemma_spelled(e, "png"@, seq!['P', 'N', 'G']);
    lemma_spelled(e, "jpg"@, seq!['J', 'P', 'G']);
    lemma_spelled(e, "jpeg"@, seq!['J', 'P', 'E', 'G']);
    lemma_spelled(e, "webp"@, seq!['W', 'E', 'B', 'P']);
    if name == "png"@ || name == "jpg"@ || name == "webp"@ || name == "jpeg"@ {
        assert(name[0] == "png"@[0] || name[0] == "jpg"@[0] || name[0] == "webp"@[0]);
    }
}

proof fn lemma_letter(c: char, small: char, capital: char)
    requires
        97 <= small as nat <= 122,
        capital as nat == small as nat - 32,
    ensures
        text::lower(c) == small <==> c == small || c == capital,
{
}

proof fn lemma_spelled(s: Seq<char>, small: Seq<char>, capital: Seq<char>)
    requires
        small.len() == capital.len(),
        forall|i: int|
            0 <= i < small.len() ==> 97 <= (#[trigger] small[i]) as nat <= 122 && capital[i] as nat
                == small[i] as nat - 32,
    ensures
        text::lowered(s) == small <==> spells(s, small, capital),
{
    let name = text::lowered(s);
    assert forall|i: int| 0 <= i < s.len() && s.len() == small.len() implies (#[trigger] name[i]
        == small[i]) == (s[i] == small[i] || s[i] == capital[i]) by {
        assert(97 <= small[i] as nat <= 122);
        lemma_letter(s[i], small[i], capital[i]);
    }
    if name == small {
        assert forall|i: int| 0 <= i < s.len() implies #[trigger] s[i] == small[i] || s[i]
            == capital[i] by {
            assert(name[i] == small[i]);
        }
    }
    if spells(s, small, capital) {
        assert forall|i: int| 0 <= i < s.len() implies #[trigger] name[i] == small[i] by {
            assert(s[i] == small[i] || s[i] == capital[i]);
        }
        assert(name =~= small);
    }
}

/// A media type is that of an image and names the format itself.
pub proof fn law_media_type_names_its_format(format: Format)
    ensures
        format.media_type().take(6) == "image/"@,
        format_of(format.media_type().skip(6)) == Some(format),
{
    reveal_strlit("image/");
    reveal_strlit("image/png");
    reveal_strlit("image/jpeg");
    reveal_strlit("image/webp");
    assert(format.media_type().take(6) =~= "image/"@);
    law_four_extensions_are_known(format.media_type().skip(6));
}

/// A name that a request may use stands for the format that the name as an extension asks for.
pub proof fn law_request_names_are_extensions(name: ImageFormat)
    ensures
        Some(name.meant()) == format_of(
            match name {
                ImageFormat::Png => seq!['p', 'n', 'g'],
                ImageFormat::Jpg => seq!['j', 'p', 'g'],
                ImageFormat::Jpeg => seq!['j', 'p', 'e', 'g'],
                ImageFormat::Webp => seq!['w', 'e', 'b', 'p'],
            },
        ),
{
    law_four_extensions_are_known(seq!['p', 'n', 'g']);
    law_four_extensions_are_known(seq!['j', 'p', 'g']);
    law_four_extensions_are_known(seq!['j', 'p', 'e', 'g']);
    law_four_extensions_are_known(seq!['w', 'e', 'b', 'p']);
}

} // verus!
