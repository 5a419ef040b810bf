//! What can go wrong, and how it is told.
use crate::number::{decimal, decimal_text};
use crate::text::{trim, trimmed};
use vstd::prelude::*;
use vstd::string::*;
use vstd::utf8::{decode_utf8, encode_utf8, encode_utf8_decode_utf8, is_char_boundary};

verus! {

/// A request to AWS that failed; status 0 stands for a request that got no answer.
#[derive(Debug)]
pub struct AwsError {
    pub service: String,
    pub method: String,
    pub status: u16,
    pub body: String,
}

/// [`AwsError`] with the texts of its fields.
pub struct AwsErrorView {
    pub service: Seq<char>,
    pub method: Seq<char>,
    pub status: u16,
    pub body: Seq<char>,
}

impl View for AwsError {
    type V = AwsErrorView;

    open spec fn view(&self) -> AwsErrorView {
        AwsErrorView {
            service: self.service@,
            method: self.method@,
            status: self.status,
            body: self.body@,
        }
    }
}

/// Any failure of the program.
#[derive(Debug)]
pub enum AnyError {
    /// A failure that is told by this text.
    Message(String),
    /// A request to AWS failed.
    Aws(AwsError),
    /// A reply lacks what the text tells of; `body` is the reply.
    Incomplete { what: String, body: String },
}

/// [`AnyError`] with the texts of its fields.
pub enum AnyErrorView {
    Message(Seq<char>),
    Aws(AwsErrorView),
    Incomplete { what: Seq<char>, body: Seq<char> },
}

impl View for AnyError {
    type V = AnyErrorView;

    open spec fn view(&self) -> AnyErrorView {
        match self {
            AnyError::Message(m) => AnyErrorView::Message(m@),
            AnyError::Aws(e) => AnyErrorView::Aws(e@),
            AnyError::Incomplete { what, body } => AnyErrorView::Incomplete {
                what: what@,
                body: body@,
            },
        }
    }
}

/// The number of bytes that a summary keeps.
pub const SUMMARY_BYTES: usize = 2000;

/// `s`, trimmed, can be cut after [`SUMMARY_BYTES`] bytes without cutting a character apart.
pub open spec fn summarizable(s: Seq<char>) -> bool {
    let bytes = encode_utf8(trimmed(s));
    bytes.len() > SUMMARY_BYTES ==> is_char_boundary(bytes, SUMMARY_BYTES as int)
}

/// `s`, trimmed; a text of more than [`SUMMARY_BYTES`] bytes is cut there and ends in three dots.
pub open spec fn summary(s: Seq<char>) -> Seq<char> {
    let bytes = encode_utf8(trimmed(s));
    if bytes.len() > SUMMARY_BYTES {
        decode_utf8(bytes.take(SUMMARY_BYTES as int)) + "..."@
    } else {
        trimmed(s)
    }
}

/// Whether [`summarize`] can take `s`.
pub fn can_summarize(s: &str) -> (r: bool)
    ensures
        r == summarizable(s@),
{
    let t = trim(s);
    let bytes = t.as_str().as_bytes();
    bytes.len() <= SUMMARY_BYTES || t.as_str().is_char_boundary(SUMMARY_BYTES)
}

/// Trims `s`, and cuts it where it is long.
pub fn summarize(s: &str) -> (r: String)
    requires
        summarizable(s@),
    ensures
        r@ == summary(s@),
{
    let t = trim(s);
    let bytes = t.as_str().as_bytes();
    if bytes.len() > SUMMARY_BYTES {
        let (head, _) = t.as_str().split_at(SUMMARY_BYTES);
        assert(encode_utf8(t@).take(SUMMARY_BYTES as int) == encode_utf8(head@));
        proof {
            encode_utf8_decode_utf8(head@);
        }
        let mut out = head.to_owned();
        out.append("...");
        out
    } else {
        t
    }
}

/// `s`, or `d` where `s` is empty.
pub open spec fn or_default(s: Seq<char>, d: Seq<char>) -> Seq<char> {
    if s.len() == 0 {
        d
    } else {
        s
    }
}

/// `s`, or `d` where `s` is empty.
pub fn empty_default<'a>(s: &'a str, d: &'a str) -> (r: &'a str)
    ensures
        r@ == or_default(s@, d@),
{
    if s.is_empty() {
        d
    } else {
        s
    }
}

/// How a failed request is told.
pub open spec fn aws_message(e: AwsErrorView) -> Seq<char> {
    "AWS "@ + e.service + " "@ + e.method + " failed: HTTP "@ + decimal(e.status as nat) + ": "@
        + summary(e.body)
}

impl AwsError {
    /// How the failure is told.
    pub fn message(&self) -> (r: String)
        requires
            summarizable(self.body@),
        ensures
            r@ == aws_message(self@),
    {
        let mut out = "AWS ".to_owned();
        out.append(self.service.as_str());
        out.append(" ");
        out.append(self.method.as_str());
        out.append(" failed: HTTP ");
        out.append(decimal_text(self.status as u64).as_str());
        out.append(": ");
        out.append(summarize(self.body.as_str()).as_str());
        out
    }
}

/// How a failure is told.
pub open spec fn any_message(e: AnyErrorView) -> Seq<char> {
    match e {
        AnyErrorView::Message(m) => m,
        AnyErrorView::Aws(e) => aws_message(e),
        AnyErrorView::Incomplete { what, body } => what + ": "@ + summary(body),
    }
}

/// The body that telling `e` summarizes can be summarized.
pub open spec fn tellable(e: AnyErrorView) -> bool {
    match e {
        AnyErrorView::Message(_) => true,
        AnyErrorView::Aws(e) => summarizable(e.body),
        AnyErrorView::Incomplete { what, body } => summarizable(body),
    }
}

impl AnyError {
    /// Whether [`AnyError::message`] can tell the failure.
    pub fn can_tell(&self) -> (r: bool)
        ensures
            r == tellable(self@),
    {
        match self {
            AnyError::Message(_) => true,
            AnyError::Aws(e) => can_summarize(e.body.as_str()),
            AnyError::Incomplete { what: _, body } => can_summarize(body.as_str()),
        }
    }

    /// How the failure is told.
    pub fn message(&self) -> (r: String)
        requires
            tellable(self@),
        ensures
            r@ == any_message(self@),
    {
        match self {
            AnyError::Message(m) => m.clone(),
            AnyError::Aws(e) => e.message(),
            AnyError::Incomplete { what, body } => {
                let mut out = what.clone();
                out.append(": ");
                out.append(summarize(body.as_str()).as_str());
                out
            },
        }
    }

    /// A failure that is told by `text`.
    pub fn text(text: &str) -> (r: AnyError)
        ensures
            r@ == AnyErrorView::Message(text@),
    {
        AnyError::Message(text.to_owned())
    }
}

/// A summary is the trimmed text itself, or a beginning of it and three dots.
pub proof fn law_summary_begins_the_text(s: Seq<char>)
    requires
        summarizable(s),
    ensures
        summary(s) == trimmed(s) || (exists|head: Seq<char>|
            head.is_prefix_of(trimmed(s)) && encode_utf8(head).len() == SUMMARY_BYTES && summary(s)
                == #[trigger] (head + "..."@)),
{
    let t = trimmed(s);
    let bytes = encode_utf8(t);
    if bytes.len() > SUMMARY_BYTES {
        let head = decode_utf8(bytes.take(SUMMARY_BYTES as int));
        vstd::utf8::encode_utf8_valid_utf8(t);
        vstd::utf8::valid_utf8_split(bytes, SUMMARY_BYTES as int);
        vstd::utf8::decode_utf8_split(bytes, SUMMARY_BYTES as int);
        encode_utf8_decode_utf8(t);
        vstd::utf8::decode_utf8_encode_utf8(bytes.take(SUMMARY_BYTES as int));
        assert(bytes.take(SUMMARY_BYTES as int) == bytes.subrange(0, SUMMARY_BYTES as int));
        assert(head.is_prefix_of(t));
        assert(summary(s) == head + "..."@);
    }
}

/// A text of no more than 2000 bytes is told as it is, but for the white space around it; of a
/// longer one its first 2000 bytes are told, and three dots.
pub proof fn law_long_texts_are_cut(s: Seq<char>, head: Seq<char>, tail: Seq<char>)
    requires
        trimmed(s) == head + tail,
    ensures
        encode_utf8(trimmed(s)).len() <= 2000 ==> summary(s) == trimmed(s),
        encode_utf8(head).len() == 2000 && tail.len() > 0 ==> summary(s) == head + seq!['.', '.', '.'],
{
    reveal_strlit("...");
    assert("..."@ == seq!['.', '.', '.']);
    if encode_utf8(head).len() == 2000 && tail.len() > 0 {
        lemma_encoding_of_two(head, tail);
        assert(encode_utf8(tail).len() > 0);
        let bytes = encode_utf8(head + tail);
        assert(bytes.take(2000) == encode_utf8(head));
        encode_utf8_decode_utf8(head);
    }
}

/// The bytes of two texts follow each other.
pub proof fn lemma_encoding_of_two(a: Seq<char>, b: Seq<char>)
    ensures
        encode_utf8(a + b) == encode_utf8(a) + encode_utf8(b),
    decreases a.len(),
{
    if a.len() == 0 {
        assert(a + b == b);
        assert(encode_utf8(a) + encode_utf8(b) == encode_utf8(b));
    } else {
        assert((a + b).drop_first() == a.drop_first() + b);
        lemma_encoding_of_two(a.drop_first(), b);
        let first = vstd::utf8::encode_scalar(a[0] as u32);
        assert(first + (encode_utf8(a.drop_first()) + encode_utf8(b)) == first + encode_utf8(
            a.drop_first(),
        ) + encode_utf8(b));
    }
}

/// An empty text is replaced, and no other.
pub proof fn law_only_empty_texts_are_replaced(s: Seq<char>, d: Seq<char>)
    ensures
        s.len() > 0 ==> or_default(s, d) == s,
        or_default(Seq::empty(), d) == d,
{
}

/// A failed request is told by its service, its method, its status and the summary of its body; a
/// reply that lacks something by what it lacks and its summary; and any other failure by its text.
pub proof fn law_failures_are_told(
    service: Seq<char>,
    method: Seq<char>,
    status: u16,
    body: Seq<char>,
    text: Seq<char>,
)
    ensures
        any_message(AnyErrorView::Aws(AwsErrorView { service, method, status, body })) == "AWS "@
            + service + " "@ + method + " failed: HTTP "@ + decimal(status as nat) + ": "@
            + summary(body),
        any_message(AnyErrorView::Incomplete { what: text, body }) == text + ": "@ + summary(body),
        any_message(AnyErrorView::Message(text)) == text,
        tellable(AnyErrorView::Message(text)),
        tellable(AnyErrorView::Aws(AwsErrorView { service, method, status, body }))
            == summarizable(body),
        tellable(AnyErrorView::Incomplete { what: text, body }) == summarizable(body),
{
}

/// A text can be summarized where it is short, and where its first 2000 bytes are whole characters.
pub proof fn law_whole_characters_can_be_summarized(s: Seq<char>, head: Seq<char>, tail: Seq<char>)
    requires
        trimmed(s) == head + tail,
    ensures
        encode_utf8(trimmed(s)).len() <= 2000 ==> summarizable(s),
        encode_utf8(head).len() == 2000 ==> summarizable(s),
{
    if encode_utf8(head).len() == 2000 && encode_utf8(trimmed(s)).len() > 2000 {
        lemma_encoding_of_two(head, tail);
        lemma_boundary(head, tail);
    }
}

/// A character ends where a beginning of the text ends.
proof fn lemma_boundary(head: Seq<char>, tail: Seq<char>)
    ensures
        is_char_boundary(encode_utf8(head + tail), encode_utf8(head).len() as int),
    decreases head.len(),
{
    let bytes = encode_utf8(head + tail);
    vstd::utf8::encode_utf8_valid_utf8(head + tail);
    if head.len() == 0 {
        assert(is_char_boundary(bytes, 0));
    } else {
        let rest = head.drop_first();
        assert((head + tail).drop_first() == rest + tail);
        vstd::utf8::encode_utf8_first_scalar(head + tail);
        vstd::utf8::encode_utf8_first_scalar(head);
        lemma_boundary(rest, tail);
        assert(vstd::utf8::pop_first_scalar(bytes) == encode_utf8(rest + tail));
    }
}

}
