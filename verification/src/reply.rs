//! Replies to capture requests: an inline image with its report, or an error.

use crate::image::Format;
use crate::json;
use crate::json::Object;
use crate::outside;
use crate::outside::base64_text;
use crate::report::{absolute_output, error_report_at, success_report_at, CapturedImage, Shot};
use crate::report;
use crate::request;
use crate::request::{PreparedCapture, PreparedModel, RequestError};
use crate::text;
use crate::text::decimal_text;
use vstd::prelude::*;
use vstd::string::*;

verus! {

/// A piece of a reply.
#[derive(Debug)]
pub enum Block {
    /// An image: its bytes in base64 and its media type.
    Image { data: String, mime_type: &'static str },
    Text(String),
}

/// What a piece of a reply says.
pub enum BlockModel {
    Image { data: Seq<char>, mime_type: Seq<char> },
    Text(Seq<char>),
}

impl View for Block {
    type V = BlockModel;

    open spec fn view(&self) -> BlockModel {
        match *self {
            Block::Image { data, mime_type } => BlockModel::Image {
                data: data@,
                mime_type: mime_type@,
            },
            Block::Text(text) => BlockModel::Text(text@),
        }
    }
}

/// A reply to a capture request.
#[derive(Debug)]
pub struct ToolReply {
    pub is_error: bool,
    pub blocks: Vec<Block>,
    /// The report as a JSON object.
    pub structured: String,
}

/// What a reply says.
pub struct ReplyModel {
    pub is_error: bool,
    pub blocks: Seq<BlockModel>,
    pub structured: Seq<char>,
}

impl View for ToolReply {
    type V = ReplyModel;

    open spec fn view(&self) -> ReplyModel {
        ReplyModel {
            is_error: self.is_error,
            blocks: self.blocks@.map_values(|block: Block| block@),
            structured: self.structured@,
        }
    }
}

/// The reply to a request that was refused.
pub open spec fn refused(message: Seq<char>) -> ReplyModel {
    ReplyModel {
        is_error: true,
        blocks: seq![BlockModel::Text(message)],
        structured: json::object(
            seq![
                ("status"@, outside::json_string("error"@)),
                ("error"@, outside::json_string(message)),
            ],
        ),
    }
}

fn text_block(message: String) -> (r: Vec<Block>)
    ensures
        r@.map_values(|block: Block| block@) == seq![BlockModel::Text(message@)],
{
    let mut blocks: Vec<Block> = Vec::new();
    blocks.push(Block::Text(message));
    assert(blocks@.map_values(|block: Block| block@) =~= seq![BlockModel::Text(message@)]);
    blocks
}

/// The reply to a request that was refused.
pub fn simple_error(message: String) -> (r: ToolReply)
    ensures
        r@ == refused(message@),
{
    let mut object = Object::new();
    object.put_text("status", "error");
    object.put_text("error", message.as_str());
    assert(object@ =~= seq![
        ("status"@, outside::json_string("error"@)),
        ("error"@, outside::json_string(message@)),
    ]);
    let structured = object.finish();
    ToolReply { is_error: true, blocks: text_block(message), structured }
}

/// The reply to a request that was refused; `number` is how a refused scale prints.
pub fn refuse(error: &RequestError, number: &str) -> (r: ToolReply)
    ensures
        r@ == refused(request::request_message(error@, number@)),
{
    simple_error(error.message(number))
}

/// The reply to a request whose capture failed.
pub open spec fn failed(
    prepared: PreparedModel,
    absolute: Option<Seq<char>>,
    message: Seq<char>,
) -> ReplyModel {
    ReplyModel {
        is_error: true,
        blocks: seq![BlockModel::Text(message)],
        structured: json::object(
            report::failure_members(prepared.url.text, absolute, prepared.opts.mode, message),
        ),
    }
}

impl PreparedCapture {
    /// The absolute form of the path to save the image at, if there is one.
    pub fn absolute(&self) -> (r: Option<String>)
        ensures
            r is Some == self.output is Some,
            self.output matches Some(path) ==> report::may_settle_as(path@, (r->0)@),
    {
        match &self.output {
            Some(path) => Some(absolute_output(path.as_str())),
            None => None,
        }
    }
}

/// The reply to a request whose capture failed; `absolute` is where the image was to be saved.
pub fn report_error(prepared: &PreparedCapture, absolute: Option<String>, message: String) -> (r:
    ToolReply)
    ensures
        r@ == failed(prepared@, text::text_option(absolute), message@),
{
    let report = error_report_at(
        prepared.url.text.as_str(),
        absolute,
        &prepared.opts.mode,
        message.clone(),
    );
    ToolReply { is_error: true, blocks: text_block(message), structured: report.to_json() }
}

/// What a capture tells its reader in words; `scale` is how its scale prints.
pub open spec fn summarized(
    shot: Shot,
    scale: Seq<char>,
    format: Format,
    absolute: Option<Seq<char>>,
) -> Seq<char> {
    "Captured "@ + text::decimal(shot.width as nat) + "\u{d7}"@ + text::decimal(shot.height as nat)
        + " CSS px @"@ + scale + "x as "@ + format.extension() + match absolute {
        Some(path) => " \u{2192} "@ + path,
        None => seq![],
    }
}

/// What a capture tells its reader in words; `scale` is how its scale prints.
pub fn summary(shot: &Shot, scale: &str, format: Format, absolute: &Option<String>) -> (r: String)
    ensures
        r@ == summarized(*shot, scale@, format, text::text_option(*absolute)),
{
    let mut out = "Captured ".to_owned();
    out.append(decimal_text(shot.width as u128).as_str());
    out.append("\u{d7}");
    out.append(decimal_text(shot.height as u128).as_str());
    out.append(" CSS px @");
    out.append(scale);
    out.append("x as ");
    out.append(format.ext());
    match absolute {
        Some(path) => {
            out.append(" \u{2192} ");
            out.append(path.as_str());
        },
        None => {
            assert(out@ + Seq::<char>::empty() == out@);
        },
    }
    assert(out@ =~= summarized(*shot, scale@, format, text::text_option(*absolute)));
    out
}

/// The reply to a request whose capture succeeded: the image itself, a summary and the report.
pub open spec fn succeeded(
    prepared: PreparedModel,
    absolute: Option<Seq<char>>,
    shot: Shot,
    data: Seq<u8>,
    scale: Seq<char>,
    scale_json: Seq<char>,
) -> ReplyModel {
    ReplyModel {
        is_error: false,
        blocks: seq![
            BlockModel::Image {
                data: outside::base64_of(data),
                mime_type: prepared.opts.format.media_type(),
            },
            BlockModel::Text(summarized(shot, scale, prepared.opts.format, absolute)),
        ],
        structured: json::object(
            report::success_members(
                prepared.url.text,
                absolute,
                prepared.opts.mode,
                prepared.opts.format,
                shot,
                scale_json,
            ),
        ),
    }
}

/// The reply to a request whose capture succeeded.  `scale` is how its scale prints, `scale_json`
/// how JSON writes it, and `absolute` where the image was saved.
pub fn success_reply(
    prepared: &PreparedCapture,
    absolute: Option<String>,
    image: &CapturedImage,
    scale: &str,
    scale_json: &str,
) -> (r: ToolReply)
    ensures
        r@ == succeeded(
            prepared@,
            text::text_option(absolute),
            image.shot,
            image.data@,
            scale@,
            scale_json@,
        ),
{
    let format = prepared.opts.format;
    let summary = summary(&image.shot, scale, format, &absolute);
    let report = success_report_at(
        prepared.url.text.as_str(),
        absolute,
        &prepared.opts.mode,
        format,
        &image.shot,
    );
    let mut blocks: Vec<Block> = Vec::new();
    blocks.push(
        Block::Image { data: base64_text(&image.data), mime_type: format.mime_type() },
    );
    blocks.push(Block::Text(summary));
    assert(blocks@.map_values(|block: Block| block@) =~= seq![
        BlockModel::Image {
            data: outside::base64_of(image.data@),
            mime_type: format.media_type(),
        },
        BlockModel::Text(summary@),
    ]);
    ToolReply { is_error: false, blocks, structured: report.to_json(scale_json) }
}

/// A file to write: its path and its bytes.
#[derive(Debug)]
pub struct Write<'a> {
    pub path: &'a str,
    pub data: &'a Vec<u8>,
}

/// The path and the bytes of the file that a capture is to be written to: those of the request and
/// of the image, once there is one.
pub open spec fn ordered(prepared: PreparedModel, captured: Result<CapturedImage, String>) -> Option<
    (Seq<char>, Seq<u8>),
> {
    match (captured, prepared.output) {
        (Ok(image), Some(path)) => Some((path, image.data@)),
        _ => None,
    }
}

/// The file that a capture is to be written to, if there is one to write.
pub fn file_to_write<'a>(
    prepared: &'a PreparedCapture,
    captured: &'a Result<CapturedImage, String>,
) -> (r: Option<Write<'a>>)
    ensures
        match r {
            Some(write) => ordered(prepared@, *captured) == Some((write.path@, write.data@)),
            None => ordered(prepared@, *captured) is None,
        },
{
    match (captured, &prepared.output) {
        (Ok(image), Some(path)) => Some(Write { path: path.as_str(), data: &image.data }),
        _ => None,
    }
}

/// What the reply to a prepared request says: the error of its capture, else the error of writing
/// its file, else the image.
pub open spec fn replied(
    prepared: PreparedModel,
    captured: Result<CapturedImage, String>,
    write_error: Option<Seq<char>>,
    absolute: Option<Seq<char>>,
    scale: Seq<char>,
    scale_json: Seq<char>,
) -> ReplyModel {
    match captured {
        Err(error) => failed(prepared, absolute, error@),
        Ok(image) => match write_error {
            Some(error) => failed(prepared, absolute, error),
            None => succeeded(prepared, absolute, image.shot, image.data@, scale, scale_json),
        },
    }
}

/// The reply to a prepared request, given what came of its capture and of writing its file.
pub fn capture_reply(
    prepared: &PreparedCapture,
    captured: Result<CapturedImage, String>,
    write_error: Option<String>,
    absolute: Option<String>,
    scale: &str,
    scale_json: &str,
) -> (r: ToolReply)
    ensures
        r@ == replied(
            prepared@,
            captured,
            text::text_option(write_error),
            text::text_option(absolute),
            scale@,
            scale_json@,
        ),
{
    match captured {
        Err(error) => report_error(prepared, absolute, error),
        Ok(image) => match write_error {
            Some(error) => report_error(prepared, absolute, error),
            None => success_reply(prepared, absolute, &image, scale, scale_json),
        },
    }
}

impl PreparedModel {
    /// Whether the output path may be reported as `absolute`: in its absolute form, or as it was
    /// given where it has none.
    pub open spec fn may_report(self, absolute: Option<Seq<char>>) -> bool {
        match (self.output, absolute) {
            (Some(path), Some(absolute)) => report::may_settle_as(path, absolute),
            (None, None) => true,
            _ => false,
        }
    }
}

impl PreparedCapture {
    /// The reply to this request, given what came of its capture and of writing its file.  The
    /// output path is reported in its absolute form.
    pub fn reply(
        &self,
        captured: Result<CapturedImage, String>,
        write_error: Option<String>,
        scale: &str,
        scale_json: &str,
    ) -> (r: ToolReply)
        ensures
            exists|absolute: Option<Seq<char>>| #[trigger]
                self@.may_report(absolute) && r@ == replied(
                    self@,
                    captured,
                    text::text_option(write_error),
                    absolute,
                    scale@,
                    scale_json@,
                ),
    {
        let absolute = self.absolute();
        assert(self@.may_report(text::text_option(absolute)));
        capture_reply(self, captured, write_error, absolute, scale, scale_json)
    }
}

/// What a successful reply shows is what was saved: where a request names a file, the bytes to be
/// written to it are those of the inline image; where it names none, nothing is written.
pub proof fn law_saved_file_is_the_inline_image(
    prepared: PreparedModel,
    captured: Result<CapturedImage, String>,
    write_error: Option<Seq<char>>,
    absolute: Option<Seq<char>>,
    scale: Seq<char>,
    scale_json: Seq<char>,
)
    requires
        !replied(prepared, captured, write_error, absolute, scale, scale_json).is_error,
    ensures
        ({
            let reply = replied(prepared, captured, write_error, absolute, scale, scale_json);
            &&& captured is Ok && write_error is None
            &&& reply.blocks.len() == 2 && reply.blocks[1] is Text
            &&& reply.blocks[0] == BlockModel::Image {
                data: outside::base64_of((captured->Ok_0).data@),
                mime_type: prepared.opts.format.media_type(),
            }
            &&& ordered(prepared, captured) == match prepared.output {
                Some(path) => Some((path, (captured->Ok_0).data@)),
                None => None,
            }
        }),
{
}

/// A reply shows an image exactly where it is no error.
pub proof fn law_only_success_shows_an_image(
    prepared: PreparedModel,
    captured: Result<CapturedImage, String>,
    write_error: Option<Seq<char>>,
    absolute: Option<Seq<char>>,
    scale: Seq<char>,
    scale_json: Seq<char>,
)
    ensures
        ({
            let reply = replied(prepared, captured, write_error, absolute, scale, scale_json);
            &&& reply.is_error == (captured is Err || write_error is Some)
            &&& reply.is_error ==> forall|i: int|
                0 <= i < reply.blocks.len() ==> !((#[trigger] reply.blocks[i]) is Image)
            &&& !reply.is_error ==> reply.blocks[0] is Image
        }),
{
}

/// A refused request is answered with its error alone, as text and as a report.
pub proof fn law_refusal_carries_only_its_error(message: Seq<char>)
    ensures
        refused(message).is_error,
        refused(message).blocks == seq![BlockModel::Text(message)],
{
}

proof fn lemma_sextets_differ(m: nat, n: nat)
    requires
        m < 64,
        n < 64,
        outside::sextet(m) == outside::sextet(n),
    ensures
        m == n,
        outside::sextet(m) != '=',
{
}

/// Only no bytes at all encode to nothing.
proof fn lemma_empty_encoding(data: Seq<u8>)
    ensures
        data.len() == 0 ==> outside::base64_of(data).len() == 0,
        data.len() > 0 ==> outside::base64_of(data).len() >= 4,
{
}

/// An inline image determines the bytes of its file.
pub proof fn law_inline_image_keeps_every_byte(a: Seq<u8>, b: Seq<u8>)
    requires
        outside::base64_of(a) == outside::base64_of(b),
    ensures
        a == b,
    decreases a.len(),
{
    let s = outside::base64_of(a);
    let t = outside::base64_of(b);
    lemma_empty_encoding(a);
    lemma_empty_encoding(b);
    if a.len() == 0 || b.len() == 0 {
        assert(a.len() == 0 && b.len() == 0);
        assert(a =~= b);
    } else {
        lemma_first_bytes(a, b);
        if a.len() >= 3 {
            assert(s.skip(4) =~= outside::base64_of(a.skip(3)));
            assert(t.skip(4) =~= outside::base64_of(b.skip(3)));
            law_inline_image_keeps_every_byte(a.skip(3), b.skip(3));
            assert(a =~= a.take(3) + a.skip(3));
            assert(b =~= b.take(3) + b.skip(3));
            assert(a.take(3) =~= b.take(3));
        } else {
            assert(a =~= b);
        }
    }
}

/// The first four characters determine up to three bytes, and how many there are.
proof fn lemma_first_bytes(a: Seq<u8>, b: Seq<u8>)
    requires
        a.len() > 0,
        b.len() > 0,
        outside::base64_of(a) == outside::base64_of(b),
    ensures
        a[0] == b[0],
        a.len() >= 2 <==> b.len() >= 2,
        a.len() >= 3 <==> b.len() >= 3,
        a.len() >= 2 ==> a[1] == b[1],
        a.len() >= 3 ==> a[2] == b[2],
{
    let s = outside::base64_of(a);
    let t = outside::base64_of(b);
    assert(s[0] == outside::sextet(a[0] as nat / 4));
    assert(t[0] == outside::sextet(b[0] as nat / 4));
    lemma_sextets_differ(a[0] as nat / 4, b[0] as nat / 4);
    let ma: nat = if a.len() >= 2 {
        a[0] as nat % 4 * 16 + a[1] as nat / 16
    } else {
        a[0] as nat % 4 * 16
    };
    let mb: nat = if b.len() >= 2 {
        b[0] as nat % 4 * 16 + b[1] as nat / 16
    } else {
        b[0] as nat % 4 * 16
    };
    assert(s[1] == outside::sextet(ma));
    assert(t[1] == outside::sextet(mb));
    lemma_sextets_differ(ma, mb);
    let na: nat = if a.len() >= 3 {
        a[1] as nat % 16 * 4 + a[2] as nat / 64
    } else {
        a[1] as nat % 16 * 4
    };
    let nb: nat = if b.len() >= 3 {
        b[1] as nat % 16 * 4 + b[2] as nat / 64
    } else {
        b[1] as nat % 16 * 4
    };
    lemma_sextets_differ(na, na);
    lemma_sextets_differ(nb, nb);
    assert(s[2] == if a.len() >= 2 {
        outside::sextet(na)
    } else {
        '='
    });
    assert(t[2] == if b.len() >= 2 {
        outside::sextet(nb)
    } else {
        '='
    });
    if a.len() >= 2 {
        lemma_sextets_differ(na, nb);
    }
    let oa = a[2] as nat % 64;
    let ob = b[2] as nat % 64;
    lemma_sextets_differ(oa, oa);
    lemma_sextets_differ(ob, ob);
    assert(s[3] == if a.len() >= 3 {
        outside::sextet(oa)
    } else {
        '='
    });
    assert(t[3] == if b.len() >= 3 {
        outside::sextet(ob)
    } else {
        '='
    });
    if a.len() >= 3 {
        lemma_sextets_differ(oa, ob);
    }
}

/// A reply tells what happened.  A refused request is answered with its error, as text and as a
/// report of two members.  A capture or a write that failed is answered with its error and the
/// report on the failed capture, the capture's before the write's.  A success carries the report on
/// the capture and a summary.
pub proof fn law_replies_tell_what_happened(
    prepared: PreparedModel,
    captured: Result<CapturedImage, String>,
    write_error: Option<Seq<char>>,
    absolute: Option<Seq<char>>,
    scale: Seq<char>,
    scale_json: Seq<char>,
    message: Seq<char>,
)
    ensures
        refused(message).structured == json::object(
            seq![
                ("status"@, outside::json_string("error"@)),
                ("error"@, outside::json_string(message)),
            ],
        ),
        ({
            let reply = replied(prepared, captured, write_error, absolute, scale, scale_json);
            let wrong = match captured {
                Err(error) => Some(error@),
                Ok(_) => write_error,
            };
            &&& wrong matches Some(error) ==> {
                &&& reply.is_error
                &&& reply.blocks == seq![BlockModel::Text(error)]
                &&& reply.structured == json::object(
                    report::failure_members(prepared.url.text, absolute, prepared.opts.mode, error),
                )
            }
            &&& wrong is None ==> {
                &&& !reply.is_error
                &&& reply.structured == json::object(
                    report::success_members(
                        prepared.url.text,
                        absolute,
                        prepared.opts.mode,
                        prepared.opts.format,
                        (captured->Ok_0).shot,
                        scale_json,
                    ),
                )
                &&& reply.blocks[1] == BlockModel::Text(
                    summarized((captured->Ok_0).shot, scale, prepared.opts.format, absolute),
                )
            }
        }),
{
}

/// A summary holds the size in CSS pixels, the scale, the format and, where there is one, the path
/// of the file at its end.
pub proof fn law_summaries_hold_what_was_captured(
    shot: Shot,
    scale: Seq<char>,
    format: Format,
    absolute: Option<Seq<char>>,
)
    ensures
        ({
            let s = summarized(shot, scale, format, absolute);
            let size = text::decimal(shot.width as nat) + seq!['\u{d7}'] + text::decimal(
                shot.height as nat,
            );
            &&& text::occurs_in(s, size)
            &&& text::occurs_in(s, seq!['@'] + scale + seq!['x'])
            &&& absolute matches Some(path) ==> text::occurs_at(s, path, s.len() - path.len())
            &&& absolute is None ==> text::occurs_at(
                s,
                format.extension(),
                s.len() - format.extension().len(),
            )
            &&& text::occurs_in(s, format.extension())
        }),
{
    reveal_strlit("Captured ");
    reveal_strlit("\u{d7}");
    reveal_strlit(" CSS px @");
    reveal_strlit("x as ");
    reveal_strlit(" \u{2192} ");
    let s = summarized(shot, scale, format, absolute);
    let w = text::decimal(shot.width as nat);
    let h = text::decimal(shot.height as nat);
    let size = w + seq!['\u{d7}'] + h;
    assert("\u{d7}"@ =~= seq!['\u{d7}']);
    assert(s.subrange(9, 9int + size.len()) =~= size);
    assert(text::occurs_at(s, size, 9));
    let a = 9int + size.len() + 8;
    let scaled = seq!['@'] + scale + seq!['x'];
    assert(s.subrange(a, a + scaled.len()) =~= scaled);
    assert(text::occurs_at(s, scaled, a));
    let b = a + 1 + scale.len() + 5;
    let e = format.extension();
    assert(s.subrange(b, b + e.len()) =~= e);
    assert(text::occurs_at(s, e, b));
    if let Some(path) = absolute {
        assert(s.subrange(s.len() - path.len(), s.len() as int) =~= path);
    }
}

/// Replies are read as they are, block by block.
pub proof fn law_replies_are_read_as_they_are(reply: ToolReply, i: int)
    ensures
        reply@.is_error == reply.is_error,
        reply@.structured == reply.structured@,
        reply@.blocks.len() == reply.blocks@.len(),
        0 <= i < reply.blocks@.len() ==> match reply.blocks@[i] {
            Block::Image { data, mime_type } => reply@.blocks[i] == BlockModel::Image {
                data: data@,
                mime_type: mime_type@,
            },
            Block::Text(text) => reply@.blocks[i] == BlockModel::Text(text@),
        },
{
}

} // verus!
