//! Commands to a server and its replies, over RESP3.
//!
//! The wire format is `skeg_resp3`'s. Of a reply frame, [`Reply`] holds what
//! a client of this library reads.

use self::Reply::{Pairs, Single};
use crate::encoding;
use crate::number::{self, write_int};
use bytes::BytesMut;
use skeg_resp3::Frame::{self, Boolean, Bulk, Double, Error, Integer, Simple, Verbatim};
use skeg_resp3::{encode_frame, parse_frame, ProtoVersion};
use vstd::prelude::*;
use vstd::string::*;
use vstd::utf8;

verus! {

/// A frame that is not read any further into.
#[derive(Debug)]
pub enum Scalar {
    /// A status string.
    Simple(String),
    /// A binary-safe string.
    Bulk(Vec<u8>),
    /// The payload of a verbatim string.
    Verbatim(Vec<u8>),
    Integer(i64),
    /// A double, as it is displayed.
    Double(String),
    Boolean(bool),
    /// A frame that has no text.
    Other,
}

/// A reply of the server.
#[derive(Debug)]
pub enum Reply {
    /// A map, in the order of the wire.
    Pairs(Vec<(Scalar, Scalar)>),
    /// An error line.
    Error(String),
    /// A frame of any other type.
    Single(Scalar),
}

/// What a [`Scalar`] holds.
#[verifier::ext_equal]
pub enum ScalarView {
    Simple(Seq<char>),
    Bulk(Seq<u8>),
    Verbatim(Seq<u8>),
    Integer(int),
    Double(Seq<char>),
    Boolean(bool),
    Other,
}

/// What a [`Reply`] holds.
#[verifier::ext_equal]
pub enum ReplyView {
    Pairs(Seq<(ScalarView, ScalarView)>),
    Error(Seq<char>),
    Single(ScalarView),
}

impl View for Scalar {
    type V = ScalarView;

    open spec fn view(&self) -> ScalarView {
        match *self {
            Scalar::Simple(s) => ScalarView::Simple(s@),
            Scalar::Bulk(b) => ScalarView::Bulk(b@),
            Scalar::Verbatim(b) => ScalarView::Verbatim(b@),
            Scalar::Integer(i) => ScalarView::Integer(i as int),
            Scalar::Double(s) => ScalarView::Double(s@),
            Scalar::Boolean(b) => ScalarView::Boolean(b),
            Scalar::Other => ScalarView::Other,
        }
    }
}

impl View for Reply {
    type V = ReplyView;

    open spec fn view(&self) -> ReplyView {
        match *self {
            Reply::Pairs(pairs) => ReplyView::Pairs(
                pairs@.map_values(|p: (Scalar, Scalar)| (p.0@, p.1@)),
            ),
            Reply::Error(s) => ReplyView::Error(s@),
            Reply::Single(s) => ReplyView::Single(s@),
        }
    }
}

/// What is found at the start of received bytes: a reply, or not yet a whole
/// one, or what is wrong with them in words.
pub open spec fn parsed_view(r: Result<Option<Reply>, String>) -> Result<
    Option<ReplyView>,
    Seq<char>,
> {
    match r {
        Ok(Some(reply)) => Ok(Some(reply@)),
        Ok(None) => Ok(None),
        Err(e) => Err(e@),
    }
}

/// A status (`+`) or error (`-`) line on the wire.
pub open spec fn line_bytes(marker: u8, line: Seq<char>) -> Seq<u8> {
    seq![marker] + utf8::encode_utf8(line) + seq![0x0du8, 0x0a]
}

/// Whether a text can stand on a line: no line end stands in it.
pub open spec fn is_one_line(line: Seq<char>) -> bool {
    forall|i: int| 0 <= i < line.len() - 1 ==> !(#[trigger] line[i] == '\r' && line[i + 1] == '\n')
}

/// Whether `b` is a status or error line of which the end has not come yet.
pub open spec fn is_open_line(b: Seq<u8>) -> bool {
    &&& b.len() > 0
    &&& b[0] == 0x2b || b[0] == 0x2d
    &&& forall|i: int| 0 < i < b.len() - 1 ==> !(#[trigger] b[i] == 0x0d && b[i + 1] == 0x0a)
}

/// Whether `found` is what the bytes `b` give, if they begin with a status or
/// error line: that line, whatever follows it, and nothing yet if its end has
/// not come.
pub open spec fn lines_are_read(b: Seq<u8>, found: Result<Option<ReplyView>, Seq<char>>) -> bool {
    &&& forall|line: Seq<char>, rest: Seq<u8>|
        is_one_line(line) && b == #[trigger] (line_bytes(0x2b, line) + rest) ==> found == Ok::<
            Option<ReplyView>,
            Seq<char>,
        >(Some(ReplyView::Single(ScalarView::Simple(line))))
    &&& forall|line: Seq<char>, rest: Seq<u8>|
        is_one_line(line) && b == #[trigger] (line_bytes(0x2d, line) + rest) ==> found == Ok::<
            Option<ReplyView>,
            Seq<char>,
        >(Some(ReplyView::Error(line)))
    &&& is_open_line(b) ==> found == Ok::<Option<ReplyView>, Seq<char>>(None)
}

/// Whether bytes after `b` change nothing, once something is found in `b`.
pub open spec fn is_settled(b: Seq<u8>, found: Result<Option<ReplyView>, Seq<char>>) -> bool {
    found != Ok::<Option<ReplyView>, Seq<char>>(None) ==> forall|rest: Seq<u8>| #[trigger]
        parsed(b + rest) == found
}

/// What `skeg_resp3::parse_frame` finds at the start of the bytes `b`.
pub uninterp spec fn parsed(b: Seq<u8>) -> Result<Option<ReplyView>, Seq<char>>;

/// `skeg_resp3::parse_frame`. The same bytes give the same result. A frame or
/// an error that is found stays the result whatever bytes follow. Bytes that
/// begin with a status or error line give that line, and one without its end
/// gives nothing yet. Of other bytes it is not said what is found in them.
///
/// The number of bytes that the frame takes is left out, of a map the keys
/// and values are taken as scalars, and a double is taken as it is displayed,
/// which is how it is read. Nulls, arrays, sets, pushes, blob errors and big
/// numbers, and errors and maps inside a map, are all [`Scalar::Other`].
#[verifier::external_body]
pub(crate) fn parse_reply(b: &[u8]) -> (r: Result<Option<Reply>, String>)
    ensures
        parsed_view(r) == parsed(b@),
        is_settled(b@, parsed_view(r)),
        lines_are_read(b@, parsed_view(r)),
{
    let scalar = |frame| match frame {
        Simple(s) => Scalar::Simple(s),
        Bulk(b) => Scalar::Bulk(b.to_vec()),
        Verbatim { data, .. } => Scalar::Verbatim(data.to_vec()),
        Integer(i) => Scalar::Integer(i),
        Double(d) => Scalar::Double(d.to_string()),
        Boolean(b) => Scalar::Boolean(b),
        _ => Scalar::Other
    };
    Ok(parse_frame(b).map_err(|e| e.to_string())?.map(|(frame, _)| match frame {
        Error(e) => Reply::Error(e),
        Frame::Map(m) => Pairs(m.into_iter().map(|(k, v)| (scalar(k), scalar(v))).collect()),
        other => Single(scalar(other))
    }))
}

/// The digits of `n`, as bytes.
pub open spec fn decimal_bytes(n: nat) -> Seq<u8> {
    number::decimal(n).map_values(|c: char| c as u8)
}

/// A bulk string on the wire.
pub open spec fn bulk_bytes(data: Seq<u8>) -> Seq<u8> {
    seq![0x24u8] + decimal_bytes(data.len()) + seq![0x0du8, 0x0a] + data + seq![0x0du8, 0x0a]
}

/// Bulk strings on the wire, one after the other.
pub open spec fn all_bulk_bytes(args: Seq<Seq<char>>) -> Seq<u8>
    decreases args.len(),
{
    if args.len() == 0 {
        seq![]
    } else {
        all_bulk_bytes(args.drop_last()) + bulk_bytes(utf8::encode_utf8(args.last()))
    }
}

/// A command on the wire: an array of bulk strings.
pub open spec fn command_bytes(args: Seq<Seq<char>>) -> Seq<u8> {
    seq![0x2au8] + decimal_bytes(args.len()) + seq![0x0du8, 0x0a] + all_bulk_bytes(args)
}

/// `skeg_resp3::encode_frame` of an array of bulk strings: `*<n>` and a line
/// end, then for each string `$<len>`, a line end, its bytes and a line end.
#[verifier::external_body]
pub(crate) fn encode_command(args: &[&str]) -> (out: Vec<u8>)
    ensures
        out@ == command_bytes(args@.map_values(|a: &str| a@)),
{
    let parts = args.iter().map(|a| Frame::Bulk(a.as_bytes().to_vec().into())).collect();
    let mut out = BytesMut::new();
    encode_frame(&Frame::Array(parts), ProtoVersion::Resp3, &mut out);
    out.to_vec()
}

/// The text of a scalar, as a client prints it; the empty text for what is
/// not naturally a string.
pub open spec fn scalar_text(s: ScalarView) -> Seq<char> {
    match s {
        ScalarView::Simple(t) => t,
        ScalarView::Bulk(b) => encoding::text_of(b),
        ScalarView::Verbatim(b) => encoding::text_of(b),
        ScalarView::Integer(i) => number::decimal_int(i),
        ScalarView::Double(t) => t,
        ScalarView::Boolean(b) => if b {
            "true"@
        } else {
            "false"@
        },
        ScalarView::Other => ""@,
    }
}

/// The text of a reply; the empty text for one that is not a scalar.
pub open spec fn reply_text(r: ReplyView) -> Seq<char> {
    match r {
        ReplyView::Single(s) => scalar_text(s),
        _ => ""@,
    }
}

/// The text of a scalar.
pub fn scalar_as_string(s: &Scalar) -> (t: String)
    ensures
        t@ == scalar_text(s@),
{
    match s {
        Scalar::Simple(t) => t.clone(),
        Scalar::Bulk(b) => encoding::text_lossy(b.as_slice()),
        Scalar::Verbatim(b) => encoding::text_lossy(b.as_slice()),
        Scalar::Integer(i) => write_int(*i),
        Scalar::Double(t) => t.clone(),
        Scalar::Boolean(b) => if *b {
            "true".to_owned()
        } else {
            "false".to_owned()
        },
        Scalar::Other => "".to_owned(),
    }
}

/// The text of a reply.
pub fn frame_as_string(r: &Reply) -> (t: String)
    ensures
        t@ == reply_text(r@),
{
    match r {
        Reply::Single(s) => scalar_as_string(s),
        _ => "".to_owned(),
    }
}

} // verus!
