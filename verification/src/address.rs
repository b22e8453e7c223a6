//! Addresses of pages: which scheme a bare host gets, and which URLs a batch holds.

use crate::outside;
use crate::outside::parse_url;
use crate::text;
use crate::text::{chars_of, contains, ends_with, lines, lower_case, same_text, trim, Trim};
use vstd::prelude::*;
use vstd::string::*;

verus! {

/// What kind of host a URL names.
#[derive(Clone, Copy, Debug, PartialEq, Eq, Structural)]
pub enum HostKind {
    /// No host at all.
    Missing,
    /// A name.
    Name,
    /// An IPv4 address, as its 32 bits.
    V4(u32),
    /// An IPv6 address, as its 128 bits.
    V6(u128),
}

/// What the library reads of a parsed URL.
#[derive(Debug)]
pub struct PageUrl {
    /// The whole URL in its normal form.
    pub text: String,
    /// The host as the URL writes it.
    pub host: Option<String>,
    pub kind: HostKind,
    /// The path of the URL.
    pub path: String,
}

/// What a parsed URL says.
pub struct UrlModel {
    pub text: Seq<char>,
    pub host: Option<Seq<char>>,
    pub kind: HostKind,
    pub path: Seq<char>,
}

impl View for PageUrl {
    type V = UrlModel;

    open spec fn view(&self) -> UrlModel {
        UrlModel {
            text: self.text@,
            host: text::text_option(self.host),
            kind: self.kind,
            path: self.path@,
        }
    }
}

impl UrlModel {
    /// A host of some kind is written out, and says something.
    pub open spec fn wf(self) -> bool {
        &&& self.host is None <==> self.kind is Missing
        &&& self.host matches Some(host) ==> host.len() > 0
    }

    /// Whether a URL leads to the machine it is opened on: `localhost` or a name under it, or a
    /// loopback address.
    pub open spec fn local(self) -> bool {
        match self.kind {
            HostKind::Missing => false,
            HostKind::Name => self.host matches Some(host) && {
                let name = text::lowered(host);
                ||| name == "localhost"@
                ||| text::occurs_at(name, ".localhost"@, name.len() - ".localhost"@.len())
            },
            HostKind::V4(bits) => bits / 0x100_0000 == 127,
            HostKind::V6(bits) => bits == 1,
        }
    }
}

impl PageUrl {
    /// Whether a URL leads to the machine it is opened on.
    pub fn is_local(&self) -> (r: bool)
        ensures
            r == self@.local(),
    {
        match self.kind {
            HostKind::Missing => false,
            HostKind::Name => match &self.host {
                Some(host) => {
                    let name = lower_case(host.as_str());
                    same_text(name.as_str(), "localhost") || ends_with(name.as_str(), ".localhost")
                },
                None => false,
            },
            HostKind::V4(bits) => bits / 0x100_0000 == 127,
            HostKind::V6(bits) => bits == 1,
        }
    }
}

/// A text that is no URL, and why.
#[derive(Debug)]
pub struct UrlError {
    pub url: String,
    pub reason: String,
}

/// What the user reads of a text that is no URL.
pub open spec fn url_message(url: Seq<char>, reason: Seq<char>) -> Seq<char> {
    "invalid URL: "@ + url + ": "@ + reason
}

impl UrlError {
    pub fn message(&self) -> (r: String)
        ensures
            r@ == url_message(self.url@, self.reason@),
    {
        let mut out = "invalid URL: ".to_owned();
        out.append(self.url.as_str());
        out.append(": ");
        out.append(self.reason.as_str());
        out
    }
}

/// Whether a text names its scheme.
pub open spec fn has_scheme(raw: Seq<char>) -> bool {
    text::occurs_in(raw, "://"@)
}

/// The URL that a text stands for.  One that names its scheme is taken as it is; a bare host is
/// reached over HTTP where it is local and over HTTPS elsewhere.
pub open spec fn normalized(raw: Seq<char>) -> Result<UrlModel, Seq<char>> {
    if has_scheme(raw) {
        outside::parsed_url(raw)
    } else {
        match outside::parsed_url("http://"@ + raw) {
            Ok(url) => if url.local() {
                Ok(url)
            } else {
                outside::parsed_url("https://"@ + raw)
            },
            Err(reason) => Err(reason),
        }
    }
}

/// The URL that a text stands for.
pub fn normalize_url(raw: &str) -> (r: Result<PageUrl, UrlError>)
    ensures
        match r {
            Ok(url) => normalized(raw@) == Ok::<UrlModel, Seq<char>>(url@) && url@.wf(),
            Err(error) => error.url@ == raw@ && normalized(raw@) == Err::<UrlModel, Seq<char>>(
                error.reason@,
            ),
        },
{
    if contains(raw, "://") {
        return match parse_url(raw) {
            Ok(url) => Ok(url),
            Err(reason) => Err(UrlError { url: raw.to_owned(), reason }),
        };
    }
    let mut http = "http://".to_owned();
    http.append(raw);
    match parse_url(http.as_str()) {
        Err(reason) => Err(UrlError { url: raw.to_owned(), reason }),
        Ok(url) => {
            if url.is_local() {
                return Ok(url);
            }
            let mut https = "https://".to_owned();
            https.append(raw);
            match parse_url(https.as_str()) {
                Ok(url) => Ok(url),
                Err(reason) => Err(UrlError { url: raw.to_owned(), reason }),
            }
        },
    }
}

/// Whether a trimmed line of a list names a URL: it is neither blank nor a comment.
pub open spec fn names_url(line: Seq<char>) -> bool {
    line.len() > 0 && line[0] != '#'
}

/// The URLs that the lines of a list name.
pub open spec fn named(lines: Seq<Seq<char>>) -> Seq<Seq<char>>
    decreases lines.len(),
{
    if lines.len() == 0 {
        seq![]
    } else {
        let line = text::trimmed(lines.last(), Trim::WhiteSpace);
        if names_url(line) {
            named(lines.drop_last()).push(line)
        } else {
            named(lines.drop_last())
        }
    }
}

/// The URLs that a list names, one per line.
pub fn read_list(list: &str) -> (r: Vec<String>)
    ensures
        text::texts(r@) == named(text::lines_of(list@)),
{
    let lines = lines(list);
    let ghost all = text::lines_of(list@);
    let mut out: Vec<String> = Vec::new();
    let mut i: usize = 0;
    assert(text::texts(out@) == named(all.take(0)));
    while i < lines.len()
        invariant
            text::texts(lines@) == all,
            i <= lines@.len(),
            text::texts(out@) == named(all.take(i as int)),
        decreases lines@.len() - i,
    {
        let line = trim(lines[i].as_str(), Trim::WhiteSpace);
        assert(all[i as int] == lines@[i as int]@);
        assert(all.take(i + 1).drop_last() == all.take(i as int));
        let ghost before = text::texts(out@);
        let chars = chars_of(line.as_str());
        if chars.len() > 0 && chars[0] != '#' {
            out.push(line);
            assert(text::texts(out@) == before.push(line@));
        }
        i = i + 1;
    }
    assert(all.take(i as int) == all);
    out
}

/// The URLs that arguments ask for.  An argument `-` stands for the next list in `lists`; with no
/// list left it stands for nothing.
pub open spec fn requested(args: Seq<Seq<char>>, lists: Seq<Seq<char>>) -> Seq<Seq<char>>
    decreases args.len(),
{
    if args.len() == 0 {
        seq![]
    } else if args[0] == "-"@ {
        if lists.len() > 0 {
            named(text::lines_of(lists[0])) + requested(args.skip(1), lists.skip(1))
        } else {
            requested(args.skip(1), lists)
        }
    } else {
        seq![args[0]] + requested(args.skip(1), lists)
    }
}

/// Whether an argument stands for a list.
pub open spec fn stands_for_list(arg: Seq<char>) -> bool {
    arg == "-"@
}

/// Whether an argument stands for a list.
pub fn is_list(arg: &str) -> (r: bool)
    ensures
        r == (arg@ == "-"@),
        r == stands_for_list(arg@),
{
    same_text(arg, "-")
}

/// The URLs that arguments ask for, as they were written.
pub fn gather(args: &Vec<String>, lists: &Vec<String>) -> (r: Vec<String>)
    ensures
        text::texts(r@) == requested(text::texts(args@), text::texts(lists@)),
{
    let ghost asked = text::texts(args@);
    let ghost given = text::texts(lists@);
    let mut out: Vec<String> = Vec::new();
    let mut i: usize = 0;
    let mut next: usize = 0;
    assert(asked.skip(0) == asked && given.skip(0) == given);
    assert(text::texts(out@) + requested(asked, given) == requested(asked, given));
    while i < args.len()
        invariant
            asked == text::texts(args@),
            given == text::texts(lists@),
            i <= args@.len(),
            next <= lists@.len(),
            text::texts(out@) + requested(asked.skip(i as int), given.skip(next as int))
                == requested(asked, given),
        decreases args@.len() - i,
    {
        let ghost before = text::texts(out@);
        let ghost rest = asked.skip(i as int);
        let ghost left = given.skip(next as int);
        assert(rest[0] == args@[i as int]@);
        assert(rest.skip(1) == asked.skip(i + 1));
        if is_list(args[i].as_str()) {
            if next < lists.len() {
                assert(left[0] == lists@[next as int]@);
                assert(left.skip(1) == given.skip(next + 1));
                let mut more = read_list(lists[next].as_str());
                let ghost found = text::texts(more@);
                let ghost old_out = out@;
                let ghost old_more = more@;
                out.append(&mut more);
                assert(text::texts(old_out + old_more) == text::texts(old_out) + text::texts(
                    old_more,
                ));
                let ghost later = requested(rest.skip(1), left.skip(1));
                assert((before + found) + later == before + (found + later));
                next = next + 1;
            }
        } else {
            out.push(args[i].clone());
            assert(text::texts(out@) == before.push(rest[0]));
            let ghost later = requested(rest.skip(1), left);
            assert(before.push(rest[0]) + later == before + (seq![rest[0]] + later));
        }
        i = i + 1;
    }
    assert(text::texts(out@) + Seq::<Seq<char>>::empty() == text::texts(out@));
    out
}

/// A URL of a batch as it is parsed: without a scheme it is reached over HTTPS.
pub open spec fn addressed(raw: Seq<char>) -> Seq<char> {
    if has_scheme(raw) {
        raw
    } else {
        "https://"@ + raw
    }
}

/// Why a batch holds no URLs.
#[derive(Debug)]
pub enum CollectError {
    NoUrls,
    Invalid(UrlError),
}

/// The first of a batch's URLs that is none, if there is one.
pub open spec fn first_invalid(raw: Seq<Seq<char>>, i: int) -> bool {
    &&& 0 <= i < raw.len()
    &&& outside::parsed_url(addressed(raw[i])) is Err
    &&& forall|j: int| 0 <= j < i ==> outside::parsed_url(addressed(#[trigger] raw[j])) is Ok
}

/// The outcome of parsing a batch: every URL in its order, or the first that is none.
pub open spec fn collected(raw: Seq<Seq<char>>, outcome: Result<Vec<PageUrl>, CollectError>) -> bool {
    match outcome {
        Ok(urls) => {
            &&& raw.len() > 0
            &&& urls@.len() == raw.len()
            &&& forall|i: int|
                0 <= i < raw.len() ==> outside::parsed_url(addressed(#[trigger] raw[i])) == Ok::<
                    UrlModel,
                    Seq<char>,
                >(urls@[i]@)
        },
        Err(CollectError::NoUrls) => raw.len() == 0,
        Err(CollectError::Invalid(error)) => exists|i: int| #[trigger]
            first_invalid(raw, i) && error.url@ == addressed(raw[i]) && outside::parsed_url(
                addressed(raw[i]),
            ) == Err::<UrlModel, Seq<char>>(error.reason@),
    }
}

/// The pages that arguments ask for; `lists` holds what was read for each argument `-`.
pub fn collect_urls(args: &Vec<String>, lists: &Vec<String>) -> (r: Result<
    Vec<PageUrl>,
    CollectError,
>)
    ensures
        collected(requested(text::texts(args@), text::texts(lists@)), r),
        r matches Ok(urls) ==> forall|i: int| 0 <= i < urls@.len() ==> (#[trigger] urls@[i])@.wf(),
{
    let raw = gather(args, lists);
    let ghost asked = text::texts(raw@);
    if raw.len() == 0 {
        return Err(CollectError::NoUrls);
    }
    let mut urls: Vec<PageUrl> = Vec::new();
    let mut i: usize = 0;
    while i < raw.len()
        invariant
            asked == text::texts(raw@),
            asked == requested(text::texts(args@), text::texts(lists@)),
            i <= raw@.len(),
            urls@.len() == i,
            forall|j: int| 0 <= j < i ==> (#[trigger] urls@[j])@.wf(),
            forall|j: int|
                0 <= j < i ==> outside::parsed_url(addressed(#[trigger] asked[j])) == Ok::<
                    UrlModel,
                    Seq<char>,
                >(urls@[j]@),
        decreases raw@.len() - i,
    {
        assert(asked[i as int] == raw@[i as int]@);
        let full = if contains(raw[i].as_str(), "://") {
            raw[i].clone()
        } else {
            let mut full = "https://".to_owned();
            full.append(raw[i].as_str());
            full
        };
        match parse_url(full.as_str()) {
            Ok(url) => {
                urls.push(url);
            },
            Err(reason) => {
                assert(first_invalid(asked, i as int));
                return Err(CollectError::Invalid(UrlError { url: full, reason }));
            },
        }
        i = i + 1;
    }
    Ok(urls)
}

impl CollectError {
    /// What the user reads of a batch that holds no URLs.
    pub open spec fn text(self) -> Seq<char> {
        match self {
            CollectError::NoUrls => "no URLs given"@,
            CollectError::Invalid(error) => url_message(error.url@, error.reason@),
        }
    }

    pub fn message(&self) -> (r: String)
        ensures
            r@ == self.text(),
    {
        match self {
            CollectError::NoUrls => "no URLs given".to_owned(),
            CollectError::Invalid(error) => error.message(),
        }
    }
}

/// A blank line or a comment, wherever it stands in a list, names nothing.
pub proof fn law_comments_and_blanks_are_skipped(lines: Seq<Seq<char>>, at: int, line: Seq<char>)
    requires
        0 <= at <= lines.len(),
        ({
            let bare = text::trimmed(line, Trim::WhiteSpace);
            bare.len() == 0 || bare[0] == '#'
        }),
    ensures
        named(lines.insert(at, line)) == named(lines),
    decreases lines.len(),
{
    let longer = lines.insert(at, line);
    if at == lines.len() {
        assert(longer.drop_last() == lines);
    } else {
        assert(longer.drop_last() == lines.drop_last().insert(at, line));
        law_comments_and_blanks_are_skipped(lines.drop_last(), at, line);
    }
}

/// With no `-` among the arguments, what they ask for is the arguments themselves.
pub proof fn law_plain_arguments_are_kept(args: Seq<Seq<char>>, lists: Seq<Seq<char>>)
    requires
        forall|i: int| 0 <= i < args.len() ==> args[i] != "-"@,
    ensures
        requested(args, lists) == args,
    decreases args.len(),
{
    if args.len() > 0 {
        assert forall|i: int| 0 <= i < args.skip(1).len() implies args.skip(1)[i] != "-"@ by {
            assert(args.skip(1)[i] == args[i + 1]);
        }
        law_plain_arguments_are_kept(args.skip(1), lists);
        assert(seq![args[0]] + args.skip(1) == args);
    }
}

/// An IPv4 address is local exactly where its first byte is 127, an IPv6 address exactly where it
/// is the loopback address; a URL without a host is not.
pub proof fn law_loopback_addresses_are_local(url: UrlModel, a: u8, b: u8, c: u8, d: u8)
    ensures
        url.kind == HostKind::V4(
            (a * 0x100_0000 + b * 0x1_0000 + c * 0x100 + d) as u32,
        ) ==> (url.local() <==> a == 127),
        url.kind matches HostKind::V6(bits) ==> (url.local() <==> bits == 1),
        url.kind is Missing ==> !url.local(),
{
    let n = a * 0x100_0000 + b * 0x1_0000 + c * 0x100 + d;
    assert(n / 0x100_0000 == a);
}

/// A name is local exactly where it is `localhost` or ends in it behind a dot, in either case.
pub proof fn law_names_under_localhost_are_local(url: UrlModel, host: Seq<char>)
    requires
        url.kind is Name,
        url.host == Some(host),
    ensures
        ({
            let name = text::lowered(host);
            let n = name.len();
            url.local() <==> n >= 9 && name.skip(n - 9) == seq![
                'l',
                'o',
                'c',
                'a',
                'l',
                'h',
                'o',
                's',
                't',
            ] && (n == 9 || name[n - 10] == '.')
        }),
{
    reveal_strlit("localhost");
    reveal_strlit(".localhost");
    let name = text::lowered(host);
    let n = name.len() as int;
    let word = seq!['l', 'o', 'c', 'a', 'l', 'h', 'o', 's', 't'];
    assert("localhost"@ =~= word);
    assert(".localhost"@ =~= seq!['.'] + word);
    if n >= 9 {
        if n == 9 {
            assert(name.skip(0) =~= name);
        } else {
            let tail = name.subrange(n - 10, n);
            assert(tail =~= seq![name[n - 10]] + name.skip(n - 9));
            if tail == ".localhost"@ {
                assert(tail[0] == '.');
                assert(tail.skip(1) =~= name.skip(n - 9));
                assert((seq!['.'] + word).skip(1) =~= word);
            }
        }
    }
}

/// A text that names its scheme is parsed as it stands.  One that does not is reached over HTTPS,
/// unless over HTTP it is local, or no URL at all.
pub proof fn law_bare_hosts_get_their_scheme(raw: Seq<char>)
    ensures
        (exists|i: int|
            0 <= i && i + 2 < raw.len() && #[trigger] raw[i] == ':' && raw[i + 1] == '/' && raw[i + 2]
                == '/') ==> normalized(raw) == outside::parsed_url(raw) && addressed(raw) == raw,
        !(exists|i: int|
            0 <= i && i + 2 < raw.len() && #[trigger] raw[i] == ':' && raw[i + 1] == '/' && raw[i + 2]
                == '/') ==> {
            let http = outside::parsed_url(seq!['h', 't', 't', 'p', ':', '/', '/'] + raw);
            let https = outside::parsed_url(seq!['h', 't', 't', 'p', 's', ':', '/', '/'] + raw);
            &&& http matches Ok(url) ==> normalized(raw) == if url.local() {
                http
            } else {
                https
            }
            &&& http is Err ==> normalized(raw) == http
            &&& addressed(raw) == seq!['h', 't', 't', 'p', 's', ':', '/', '/'] + raw
        },
{
    reveal_strlit("://");
    reveal_strlit("http://");
    reveal_strlit("https://");
    let mark = "://"@;
    assert("http://"@ =~= seq!['h', 't', 't', 'p', ':', '/', '/']);
    assert("https://"@ =~= seq!['h', 't', 't', 'p', 's', ':', '/', '/']);
    assert(mark =~= seq![':', '/', '/']);
    if has_scheme(raw) {
        let i = choose|i: int| text::occurs_at(raw, mark, i);
        let piece = raw.subrange(i, i + 3);
        assert(piece[0] == ':' && piece[1] == '/' && piece[2] == '/');
        assert(raw[i] == ':' && raw[i + 1] == '/' && raw[i + 2] == '/');
    }
    if exists|i: int|
        0 <= i && i + 2 < raw.len() && #[trigger] raw[i] == ':' && raw[i + 1] == '/' && raw[i + 2]
            == '/' {
        let i = choose|i: int|
            0 <= i && i + 2 < raw.len() && #[trigger] raw[i] == ':' && raw[i + 1] == '/' && raw[i
                + 2] == '/';
        assert(raw.subrange(i, i + 3) =~= mark);
        assert(text::occurs_at(raw, mark, i));
    }
}

/// A line that is neither blank nor a comment names its URL, without the white space around it,
/// behind those of the lines before it.
pub proof fn law_lines_name_their_urls_in_order(lines: Seq<Seq<char>>, line: Seq<char>)
    ensures
        named(Seq::<Seq<char>>::empty()).len() == 0,
        ({
            let bare = text::trimmed(line, Trim::WhiteSpace);
            bare.len() > 0 && bare[0] != '#' ==> named(lines.push(line)) == named(lines).push(bare)
        }),
{
    assert(lines.push(line).drop_last() =~= lines);
}

/// An argument asks for itself and a `-` for the URLs of the next list, each in its place.
pub proof fn law_arguments_ask_in_order(
    arg: Seq<char>,
    args: Seq<Seq<char>>,
    list: Seq<char>,
    lists: Seq<Seq<char>>,
)
    ensures
        arg != seq!['-'] ==> requested(seq![arg] + args, lists) == seq![arg] + requested(args, lists),
        requested(seq![seq!['-']] + args, seq![list] + lists) == named(text::lines_of(list))
            + requested(args, lists),
        requested(Seq::empty(), lists).len() == 0,
{
    reveal_strlit("-");
    assert("-"@ =~= seq!['-']);
    assert((seq![arg] + args).skip(1) =~= args);
    assert((seq![seq!['-']] + args).skip(1) =~= args);
    assert((seq![list] + lists).skip(1) =~= lists);
}

/// A batch that is taken holds every URL asked for, once and in order; it is refused only where
/// none is asked for or one of them is no URL, and then for the first such.
pub proof fn law_a_batch_keeps_every_url(
    raw: Seq<Seq<char>>,
    outcome: Result<Vec<PageUrl>, CollectError>,
)
    requires
        collected(raw, outcome),
    ensures
        outcome is Ok <==> raw.len() > 0 && forall|i: int|
            0 <= i < raw.len() ==> outside::parsed_url(addressed(#[trigger] raw[i])) is Ok,
        outcome matches Ok(urls) ==> urls@.len() == raw.len() && forall|i: int|
            0 <= i < raw.len() ==> outside::parsed_url(addressed(#[trigger] raw[i])) == Ok::<
                UrlModel,
                Seq<char>,
            >(urls@[i]@),
        outcome matches Err(CollectError::NoUrls) ==> raw.len() == 0,
        outcome matches Err(CollectError::Invalid(error)) ==> exists|i: int|
            0 <= i < raw.len() && error.url@ == addressed(#[trigger] raw[i]) && outside::parsed_url(
                addressed(raw[i]),
            ) is Err && forall|j: int|
                0 <= j < i ==> outside::parsed_url(addressed(#[trigger] raw[j])) is Ok,
{
    if let Err(CollectError::Invalid(error)) = outcome {
        let i = choose|i: int| #[trigger]
            first_invalid(raw, i) && error.url@ == addressed(raw[i]) && outside::parsed_url(
                addressed(raw[i]),
            ) == Err::<UrlModel, Seq<char>>(error.reason@);
        assert(outside::parsed_url(addressed(raw[i])) is Err);
    }
}

/// An argument stands for a list exactly where it is a single dash.
pub proof fn law_a_dash_stands_for_a_list(arg: Seq<char>)
    ensures
        stands_for_list(arg) <==> arg.len() == 1 && arg[0] == '-',
{
    reveal_strlit("-");
    if arg.len() == 1 && arg[0] == '-' {
        assert(arg =~= "-"@);
    }
}

/// A text that is no URL is told as it was written, and the reason behind it.
pub proof fn law_invalid_urls_are_told_with_their_reason(url: Seq<char>, reason: Seq<char>)
    ensures
        text::occurs_in(url_message(url, reason), url),
        text::occurs_at(
            url_message(url, reason),
            reason,
            url_message(url, reason).len() - reason.len(),
        ),
{
    let message = url_message(url, reason);
    let n = "invalid URL: "@.len() as int;
    assert(message.subrange(n, n + url.len()) =~= url);
    assert(text::occurs_at(message, url, n));
    assert(message.subrange(message.len() - reason.len(), message.len() as int) =~= reason);
}

/// A URL is read as it is, field by field.
pub proof fn law_urls_are_read_as_they_are(url: PageUrl)
    ensures
        url@.text == url.text@,
        url@.path == url.path@,
        url@.kind == url.kind,
        url.host matches Some(host) ==> url@.host == Some(host@),
        url.host is None ==> url@.host is None,
{
}

} // verus!
