//! The combinators that read a document's token list: text, skipped
//! subtrees, time spans, times, attributes and images. Each reads from a
//! position and hands back the position after what it read.

use vstd::prelude::*;
use vstd::utf8::{valid_utf8, decode_utf8, encode_utf8};
use vstd::string::{StrSliceExecFns, StringSliceAdditionalSpecFns};
use crate::model::{ParseError, Time, TimeSpan};
use crate::text::{chars_of, span_in, span_value};
use crate::xml::{Attribute, Token, well_ended};

verus! {

/// Relies on String::from_utf8: the text that valid UTF-8 bytes encode, and
/// nothing for other bytes.
#[verifier::external_body]
fn utf8_text(b: Vec<u8>) -> (r: Option<String>)
    ensures
        r is Some <==> valid_utf8(b@),
        r matches Some(s) ==> s@ == decode_utf8(b@),
{
    String::from_utf8(b).ok()
}

/// The bytes that markup text `raw` stands for once its escapes (`&lt;`,
/// `&#38;`, ...) are resolved, or nothing where one cannot be.
pub uninterp spec fn unescaped_of(raw: Seq<u8>) -> Option<Seq<u8>>;

/// Relies on quick_xml::escape::unescape (which BytesText::unescaped and
/// Attribute::unescaped_value also use): `raw` with its escapes resolved.
#[verifier::external_body]
fn unescape_bytes(raw: &[u8]) -> (r: Option<Vec<u8>>)
    ensures
        r is Some <==> unescaped_of(raw@) is Some,
        r matches Some(v) ==> unescaped_of(raw@) == Some(v@),
{
    quick_xml::escape::unescape(raw).ok().map(|v| v.into_owned())
}

/// The text that raw markup text stands for: escapes resolved, then read as
/// UTF-8.
pub open spec fn decoded_spec(raw: Seq<u8>) -> Result<Seq<char>, ParseError> {
    match unescaped_of(raw) {
        None => Err(ParseError::Xml),
        Some(u) => if valid_utf8(u) {
            Ok(decode_utf8(u))
        } else {
            Err(ParseError::TextEncoding)
        },
    }
}

/// Reads raw markup text.
pub(crate) fn decode_raw(raw: &Vec<u8>) -> (r: Result<String, ParseError>)
    ensures
        r matches Ok(s) ==> decoded_spec(raw@) == Ok::<Seq<char>, ParseError>(s@),
        r matches Err(e) ==> decoded_spec(raw@) == Err::<Seq<char>, ParseError>(e),
{
    match unescape_bytes(raw.as_slice()) {
        None => Err(ParseError::Xml),
        Some(u) => match utf8_text(u) {
            Some(s) => Ok(s),
            None => Err(ParseError::TextEncoding),
        },
    }
}

/// Whether `name` is the UTF-8 encoding of `lit`.
pub open spec fn named(name: Seq<u8>, lit: &str) -> bool {
    name == lit.spec_bytes()
}

pub(crate) fn name_is(name: &Vec<u8>, lit: &str) -> (r: bool)
    ensures
        r == named(name@, lit),
{
    let b = lit.as_bytes_vec();
    if name.len() != b.len() {
        return false;
    }
    let mut i: usize = 0;
    while i < b.len()
        invariant
            name@.len() == b@.len(),
            b@ == lit.spec_bytes(),
            i <= b@.len(),
            forall|j: int| 0 <= j < i ==> name@[j] == b@[j],
        decreases b.len() - i,
    {
        if name[i] != b[i] {
            return false;
        }
        i = i + 1;
    }
    assert(name@ =~= b@);
    true
}

/// Where skipping the rest of an element, `depth` levels inside it, ends:
/// just past its close.
pub open spec fn skip_spec(toks: Seq<Token>, pos: int, depth: nat) -> Result<int, ParseError>
    decreases toks.len() - pos,
{
    if pos < 0 || pos >= toks.len() {
        Err(ParseError::UnexpectedEndOfInput)
    } else {
        match toks[pos] {
            Token::Open { .. } => skip_spec(toks, pos + 1, depth + 1),
            Token::Close => if depth == 0 {
                Ok(pos + 1)
            } else {
                skip_spec(toks, pos + 1, (depth - 1) as nat)
            },
            Token::Text(_) => skip_spec(toks, pos + 1, depth),
            Token::Eof => Err(ParseError::UnexpectedEndOfInput),
            Token::Fault => Err(ParseError::Xml),
        }
    }
}

/// Skips the rest of the element whose open was just read, whatever it holds.
pub(crate) fn skip_element(toks: &Vec<Token>, pos: usize) -> (r: Result<usize, ParseError>)
    requires
        well_ended(toks@),
        pos < toks@.len(),
    ensures
        r matches Ok(p) ==> skip_spec(toks@, pos as int, 0) == Ok::<int, ParseError>(p as int)
            && pos < p < toks@.len(),
        r matches Err(e) ==> skip_spec(toks@, pos as int, 0) == Err::<int, ParseError>(e),
{
    let mut depth: usize = 0;
    let mut i: usize = pos;
    while i < toks.len()
        invariant
            well_ended(toks@),
            pos <= i <= toks@.len(),
            depth <= i - pos,
            skip_spec(toks@, pos as int, 0) == skip_spec(toks@, i as int, depth as nat),
        decreases toks.len() - i,
    {
        match &toks[i] {
            Token::Open { .. } => {
                depth = depth + 1;
            },
            Token::Close => {
                if depth == 0 {
                    if i + 1 >= toks.len() {
                        assert(toks@[i as int] is Close);
                    }
                    return Ok(i + 1);
                }
                depth = depth - 1;
            },
            Token::Text(_) => {},
            Token::Eof => {
                return Err(ParseError::UnexpectedEndOfInput);
            },
            Token::Fault => {
                return Err(ParseError::Xml);
            },
        }
        i = i + 1;
    }
    Err(ParseError::UnexpectedEndOfInput)
}

/// Where an element whose text was just read ends: text may follow, an
/// element may not.
pub open spec fn close_spec(toks: Seq<Token>, pos: int) -> Result<int, ParseError>
    decreases toks.len() - pos,
{
    if pos < 0 || pos >= toks.len() {
        Err(ParseError::UnexpectedEndOfInput)
    } else {
        match toks[pos] {
            Token::Open { .. } => Err(ParseError::UnexpectedNestedElement),
            Token::Close => Ok(pos + 1),
            Token::Text(_) => close_spec(toks, pos + 1),
            Token::Eof => Err(ParseError::UnexpectedEndOfInput),
            Token::Fault => Err(ParseError::Xml),
        }
    }
}

fn close_now(toks: &Vec<Token>, pos: usize) -> (r: Result<usize, ParseError>)
    requires
        well_ended(toks@),
        pos <= toks@.len(),
    ensures
        r matches Ok(p) ==> close_spec(toks@, pos as int) == Ok::<int, ParseError>(p as int) && pos
            < p < toks@.len(),
        r matches Err(e) ==> close_spec(toks@, pos as int) == Err::<int, ParseError>(e),
{
    let mut i: usize = pos;
    while i < toks.len()
        invariant
            well_ended(toks@),
            pos <= i <= toks@.len(),
            close_spec(toks@, pos as int) == close_spec(toks@, i as int),
        decreases toks.len() - i,
    {
        match &toks[i] {
            Token::Open { .. } => {
                return Err(ParseError::UnexpectedNestedElement);
            },
            Token::Close => {
                if i + 1 >= toks.len() {
                    assert(toks@[i as int] is Close);
                }
                return Ok(i + 1);
            },
            Token::Text(_) => {},
            Token::Eof => {
                return Err(ParseError::UnexpectedEndOfInput);
            },
            Token::Fault => {
                return Err(ParseError::Xml);
            },
        }
        i = i + 1;
    }
    Err(ParseError::UnexpectedEndOfInput)
}

/// The text of the element whose open was just read, and where the element
/// ends. An immediate close is empty text.
pub open spec fn text_spec(toks: Seq<Token>, pos: int) -> Result<(Seq<char>, int), ParseError> {
    if pos < 0 || pos >= toks.len() {
        Err(ParseError::UnexpectedEndOfInput)
    } else {
        match toks[pos] {
            Token::Open { .. } => Err(ParseError::UnexpectedNestedElement),
            Token::Close => Ok((Seq::<char>::empty(), pos + 1)),
            Token::Text(b) => match decoded_spec(b@) {
                Ok(t) => match close_spec(toks, pos + 1) {
                    Ok(p) => Ok((t, p)),
                    Err(e) => Err(e),
                },
                Err(e) => Err(e),
            },
            Token::Eof => Err(ParseError::UnexpectedEndOfInput),
            Token::Fault => Err(ParseError::Xml),
        }
    }
}

/// Reads the text of the element whose open was just read.
pub(crate) fn read_text(toks: &Vec<Token>, pos: usize) -> (r: Result<(String, usize), ParseError>)
    requires
        well_ended(toks@),
        pos < toks@.len(),
    ensures
        r matches Ok((s, p)) ==> text_spec(toks@, pos as int) == Ok::<(Seq<char>, int), ParseError>(
            (s@, p as int),
        ) && pos < p < toks@.len(),
        r matches Err(e) ==> text_spec(toks@, pos as int) == Err::<(Seq<char>, int), ParseError>(
            e,
        ),
{
    let n = toks.len();
    match &toks[pos] {
        Token::Open { .. } => Err(ParseError::UnexpectedNestedElement),
        Token::Close => {
            if pos + 1 >= toks.len() {
                assert(toks@[pos as int] is Close);
            }
            Ok((String::new(), pos + 1))
        },
        Token::Text(b) => {
            match decode_raw(b) {
                Err(e) => Err(e),
                Ok(s) => match close_now(toks, pos + 1) {
                    Ok(p) => Ok((s, p)),
                    Err(e) => Err(e),
                },
            }
        },
        Token::Eof => Err(ParseError::UnexpectedEndOfInput),
        Token::Fault => Err(ParseError::Xml),
    }
}

/// The optional time span that the text of an element holds: empty text is
/// no span.
pub open spec fn span_opt_spec(toks: Seq<Token>, pos: int) -> Result<
    (Option<TimeSpan>, int),
    ParseError,
> {
    match text_spec(toks, pos) {
        Err(e) => Err(e),
        Ok((s, p)) => if s.len() == 0 {
            Ok((None, p))
        } else {
            match span_value(s) {
                Some(v) => Ok((Some(TimeSpan { nanos: v as i64 }), p)),
                None => Err(ParseError::TimeSpanFormat),
            }
        },
    }
}

/// Reads the optional time span of the element whose open was just read.
pub(crate) fn read_span_opt(toks: &Vec<Token>, pos: usize) -> (r: Result<
    (Option<TimeSpan>, usize),
    ParseError,
>)
    requires
        well_ended(toks@),
        pos < toks@.len(),
    ensures
        r matches Ok((t, p)) ==> span_opt_spec(toks@, pos as int) == Ok::<
            (Option<TimeSpan>, int),
            ParseError,
        >((t, p as int)) && pos < p < toks@.len(),
        r matches Err(e) ==> span_opt_spec(toks@, pos as int) == Err::<
            (Option<TimeSpan>, int),
            ParseError,
        >(e),
{
    let (s, p) = read_text(toks, pos)?;
    let cs = chars_of(s.as_str());
    if cs.len() == 0 {
        return Ok((None, p));
    }
    assert(cs@.subrange(0, cs@.len() as int) =~= cs@);
    match span_in(&cs, 0, cs.len()) {
        Ok(t) => Ok((Some(t), p)),
        Err(e) => Err(e),
    }
}

/// The time span that the text of an element holds: empty text is zero.
pub open spec fn span_spec(toks: Seq<Token>, pos: int) -> Result<(TimeSpan, int), ParseError> {
    match span_opt_spec(toks, pos) {
        Err(e) => Err(e),
        Ok((Some(t), p)) => Ok((t, p)),
        Ok((None, p)) => Ok((TimeSpan { nanos: 0 }, p)),
    }
}

/// Reads the time span of the element whose open was just read.
pub(crate) fn read_span(toks: &Vec<Token>, pos: usize) -> (r: Result<(TimeSpan, usize), ParseError>)
    requires
        well_ended(toks@),
        pos < toks@.len(),
    ensures
        r matches Ok((t, p)) ==> span_spec(toks@, pos as int) == Ok::<(TimeSpan, int), ParseError>(
            (t, p as int),
        ) && pos < p < toks@.len(),
        r matches Err(e) ==> span_spec(toks@, pos as int) == Err::<(TimeSpan, int), ParseError>(e),
{
    match read_span_opt(toks, pos) {
        Ok((Some(t), p)) => Ok((t, p)),
        Ok((None, p)) => Ok((TimeSpan { nanos: 0 }, p)),
        Err(e) => Err(e),
    }
}

/// Replaces the real time of `t`.
pub open spec fn with_real(t: Time, r: Option<TimeSpan>) -> Time {
    Time { real_time: r, game_time: t.game_time }
}

/// Replaces the game time of `t`.
pub open spec fn with_game(t: Time, g: Option<TimeSpan>) -> Time {
    Time { real_time: t.real_time, game_time: g }
}

/// A time read from `RealTime` and `GameTime` children, starting from `acc`
/// at `pos`; other children are skipped.
pub open spec fn time_spec(toks: Seq<Token>, pos: int, acc: Time) -> Result<(Time, int), ParseError>
    decreases toks.len() - pos,
{
    if pos < 0 || pos >= toks.len() {
        Err(ParseError::UnexpectedEndOfInput)
    } else {
        match toks[pos] {
            Token::Open { name, .. } => {
                let step: Result<(Time, int), ParseError> = if named(name@, "RealTime") {
                    match span_opt_spec(toks, pos + 1) {
                        Ok((t, p)) => Ok((with_real(acc, t), p)),
                        Err(e) => Err(e),
                    }
                } else if named(name@, "GameTime") {
                    match span_opt_spec(toks, pos + 1) {
                        Ok((t, p)) => Ok((with_game(acc, t), p)),
                        Err(e) => Err(e),
                    }
                } else {
                    match skip_spec(toks, pos + 1, 0) {
                        Ok(p) => Ok((acc, p)),
                        Err(e) => Err(e),
                    }
                };
                match step {
                    Err(e) => Err(e),
                    Ok((a, p)) => if pos < p <= toks.len() {
                        time_spec(toks, p, a)
                    } else {
                        Err(ParseError::Xml)
                    },
                }
            },
            Token::Close => Ok((acc, pos + 1)),
            Token::Text(_) => time_spec(toks, pos + 1, acc),
            Token::Eof => Err(ParseError::UnexpectedEndOfInput),
            Token::Fault => Err(ParseError::Xml),
        }
    }
}

/// Reads the time held by the children of the element whose open was just
/// read.
pub(crate) fn read_time(toks: &Vec<Token>, pos: usize) -> (r: Result<(Time, usize), ParseError>)
    requires
        well_ended(toks@),
        pos < toks@.len(),
    ensures
        r matches Ok((t, p)) ==> time_spec(toks@, pos as int, Time::empty_spec()) == Ok::<
            (Time, int),
            ParseError,
        >((t, p as int)) && pos < p < toks@.len(),
        r matches Err(e) ==> time_spec(toks@, pos as int, Time::empty_spec()) == Err::<
            (Time, int),
            ParseError,
        >(e),
{
    let mut acc = Time::new();
    let mut i: usize = pos;
    while i < toks.len()
        invariant
            well_ended(toks@),
            pos <= i <= toks@.len(),
            time_spec(toks@, pos as int, Time::empty_spec()) == time_spec(toks@, i as int, acc),
        decreases toks.len() - i,
    {
        match &toks[i] {
            Token::Open { name, .. } => {
                if name_is(name, "RealTime") {
                    let (t, p) = read_span_opt(toks, i + 1)?;
                    acc = Time { real_time: t, game_time: acc.game_time };
                    i = p;
                } else if name_is(name, "GameTime") {
                    let (t, p) = read_span_opt(toks, i + 1)?;
                    acc = Time { real_time: acc.real_time, game_time: t };
                    i = p;
                } else {
                    i = skip_element(toks, i + 1)?;
                }
            },
            Token::Close => {
                if i + 1 >= toks.len() {
                    assert(toks@[i as int] is Close);
                }
                return Ok((acc, i + 1));
            },
            Token::Text(_) => {
                i = i + 1;
            },
            Token::Eof => {
                return Err(ParseError::UnexpectedEndOfInput);
            },
            Token::Fault => {
                return Err(ParseError::Xml);
            },
        }
    }
    Err(ParseError::UnexpectedEndOfInput)
}

/// A time whose real time is the optional span of an element's text, as
/// documents before 1.4.1 write it.
pub open spec fn legacy_time_spec(toks: Seq<Token>, pos: int) -> Result<(Time, int), ParseError> {
    match span_opt_spec(toks, pos) {
        Ok((t, p)) => Ok((Time { real_time: t, game_time: None }, p)),
        Err(e) => Err(e),
    }
}

/// Reads a time in the form of documents before 1.4.1.
pub(crate) fn read_legacy_time(toks: &Vec<Token>, pos: usize) -> (r: Result<(Time, usize), ParseError>)
    requires
        well_ended(toks@),
        pos < toks@.len(),
    ensures
        r matches Ok((t, p)) ==> legacy_time_spec(toks@, pos as int) == Ok::<(Time, int), ParseError>(
            (t, p as int),
        ) && pos < p < toks@.len(),
        r matches Err(e) ==> legacy_time_spec(toks@, pos as int) == Err::<(Time, int), ParseError>(
            e,
        ),
{
    let (t, p) = read_span_opt(toks, pos)?;
    Ok((Time { real_time: t, game_time: None }, p))
}

/// The value of the first attribute named `key` among `attrs[i..]`: an
/// attribute list that breaks off, or a value that cannot be decoded, fails
/// once the scan reaches it.
pub open spec fn attr_spec(attrs: Seq<Attribute>, malformed: bool, key: &str, i: int) -> Result<
    Option<Seq<char>>,
    ParseError,
>
    decreases attrs.len() - i,
{
    if i < 0 || i >= attrs.len() {
        if malformed {
            Err(ParseError::Xml)
        } else {
            Ok(None)
        }
    } else if named(attrs[i].key@, key) {
        match decoded_spec(attrs[i].value@) {
            Ok(s) => Ok(Some(s)),
            Err(e) => Err(e),
        }
    } else {
        attr_spec(attrs, malformed, key, i + 1)
    }
}

/// Looks up the attribute `key` of an element.
pub(crate) fn attribute(attrs: &Vec<Attribute>, malformed: bool, key: &str) -> (r: Result<
    Option<String>,
    ParseError,
>)
    ensures
        r matches Ok(Some(s)) ==> attr_spec(attrs@, malformed, key, 0) == Ok::<
            Option<Seq<char>>,
            ParseError,
        >(Some(s@)),
        r matches Ok(None) ==> attr_spec(attrs@, malformed, key, 0) == Ok::<
            Option<Seq<char>>,
            ParseError,
        >(None),
        r matches Err(e) ==> attr_spec(attrs@, malformed, key, 0) == Err::<
            Option<Seq<char>>,
            ParseError,
        >(e),
{
    let mut i: usize = 0;
    while i < attrs.len()
        invariant
            i <= attrs@.len(),
            attr_spec(attrs@, malformed, key, 0) == attr_spec(attrs@, malformed, key, i as int),
        decreases attrs.len() - i,
    {
        if name_is(&attrs[i].key, key) {
            return match decode_raw(&attrs[i].value) {
                Ok(s) => Ok(Some(s)),
                Err(e) => Err(e),
            };
        }
        i = i + 1;
    }
    if malformed {
        Err(ParseError::Xml)
    } else {
        Ok(None)
    }
}

/// The decoded value of an attribute.
pub open spec fn attr_value_spec(a: Attribute) -> Result<Seq<char>, ParseError> {
    decoded_spec(a.value@)
}

/// The decoded value of one attribute.
pub(crate) fn attribute_value(a: &Attribute) -> (r: Result<String, ParseError>)
    ensures
        r matches Ok(s) ==> attr_value_spec(*a) == Ok::<Seq<char>, ParseError>(s@),
        r matches Err(e) ==> attr_value_spec(*a) == Err::<Seq<char>, ParseError>(e),
{
    decode_raw(&a.value)
}

/// What a required attribute reads as: its absence is an error.
pub open spec fn required_attr_spec(attrs: Seq<Attribute>, malformed: bool, key: &str) -> Result<
    Seq<char>,
    ParseError,
> {
    match attr_spec(attrs, malformed, key, 0) {
        Ok(Some(s)) => Ok(s),
        Ok(None) => Err(ParseError::AttributeNotFound),
        Err(e) => Err(e),
    }
}

/// Looks up the attribute `key` of an element, which must be there.
pub(crate) fn required_attribute(attrs: &Vec<Attribute>, malformed: bool, key: &str) -> (r:
    Result<String, ParseError>)
    ensures
        r matches Ok(s) ==> required_attr_spec(attrs@, malformed, key) == Ok::<
            Seq<char>,
            ParseError,
        >(s@),
        r matches Err(e) ==> required_attr_spec(attrs@, malformed, key) == Err::<
            Seq<char>,
            ParseError,
        >(e),
{
    match attribute(attrs, malformed, key)? {
        Some(s) => Ok(s),
        None => Err(ParseError::AttributeNotFound),
    }
}

/// The bytes that the base64 text `b` encodes, or nothing where `b` is not
/// valid base64.
pub uninterp spec fn base64_decoded(b: Seq<u8>) -> Option<Seq<u8>>;

/// Relies on base64::decode (standard alphabet, padded): the bytes that `b`
/// encodes, or nothing where it is not valid base64.
#[verifier::external_body]
fn decode_base64(b: &[u8]) -> (r: Option<Vec<u8>>)
    ensures
        r is Some <==> base64_decoded(b@) is Some,
        r matches Some(v) ==> base64_decoded(b@) == Some(v@),
{
    base64::decode(b).ok()
}

/// The image inside a decoded icon payload: the payload without its first
/// two bytes and its last one. A payload too short for that, or none at all,
/// is no image.
pub open spec fn image_of_payload(d: Option<Seq<u8>>) -> Seq<u8> {
    match d {
        Some(d) => if d.len() >= 3 {
            d.subrange(2, d.len() - 1)
        } else {
            Seq::<u8>::empty()
        },
        None => Seq::<u8>::empty(),
    }
}

/// The image that icon text holds: under 216 characters of text is no image;
/// otherwise the text from character 212 on is decoded as base64.
pub open spec fn image_spec(text: Seq<char>) -> Seq<u8> {
    if text.len() >= 216 {
        image_of_payload(base64_decoded(encode_utf8(text.subrange(212, text.len() as int))))
    } else {
        Seq::<u8>::empty()
    }
}

/// Takes the image out of a decoded icon payload.
pub fn unwrap_image(payload: Option<Vec<u8>>) -> (r: Vec<u8>)
    ensures
        r@ == image_of_payload(
            match payload {
                Some(v) => Some(v@),
                None => None,
            },
        ),
{
    let mut out: Vec<u8> = Vec::new();
    if let Some(d) = payload {
        if d.len() >= 3 {
            let mut i: usize = 2;
            while i < d.len() - 1
                invariant
                    d@.len() >= 3,
                    2 <= i <= d@.len() - 1,
                    out@ == d@.subrange(2, i as int),
                decreases d.len() - 1 - i,
            {
                out.push(d[i]);
                i = i + 1;
                assert(out@ =~= d@.subrange(2, i as int));
            }
        }
    }
    out
}

/// Decodes the image that icon text holds; text that holds none gives an
/// empty image, never an error.
pub fn decode_image(text: &str) -> (r: Vec<u8>)
    ensures
        r@ == image_spec(text@),
{
    let n = text.unicode_len();
    if n >= 216 {
        let tail = text.substring_char(212, n).as_bytes_vec();
        unwrap_image(decode_base64(tail.as_slice()))
    } else {
        Vec::new()
    }
}

/// The image of the element whose open was just read.
pub open spec fn image_read_spec(toks: Seq<Token>, pos: int) -> Result<(Seq<u8>, int), ParseError> {
    match text_spec(toks, pos) {
        Ok((s, p)) => Ok((image_spec(s), p)),
        Err(e) => Err(e),
    }
}

/// Reads the image of the element whose open was just read.
pub(crate) fn read_image(toks: &Vec<Token>, pos: usize) -> (r: Result<(Vec<u8>, usize), ParseError>)
    requires
        well_ended(toks@),
        pos < toks@.len(),
    ensures
        r matches Ok((b, p)) ==> image_read_spec(toks@, pos as int) == Ok::<
            (Seq<u8>, int),
            ParseError,
        >((b@, p as int)) && pos < p < toks@.len(),
        r matches Err(e) ==> image_read_spec(toks@, pos as int) == Err::<(Seq<u8>, int), ParseError>(
            e,
        ),
{
    let (s, p) = read_text(toks, pos)?;
    Ok((decode_image(s.as_str()), p))
}

/// An element whose text is empty holds no time span: absent, not zero.
pub proof fn law_empty_text_is_absent(toks: Seq<Token>, pos: int)
    requires
        text_spec(toks, pos) matches Ok((s, _)) && s.len() == 0,
    ensures
        span_opt_spec(toks, pos) == Ok::<(Option<TimeSpan>, int), ParseError>(
            (None, text_spec(toks, pos).unwrap().1),
        ),
{
}

/// Reading an icon never fails on its payload: text under 216 characters, and
/// text whose tail is not base64, give an empty image.
pub proof fn law_image_is_best_effort(text: Seq<char>)
    ensures
        text.len() < 216 ==> image_spec(text) == Seq::<u8>::empty(),
        text.len() >= 216 && base64_decoded(encode_utf8(text.subrange(212, text.len() as int)))
            is None ==> image_spec(text) == Seq::<u8>::empty(),
        forall|toks: Seq<Token>, pos: int|
            #![trigger image_read_spec(toks, pos)]
            (text_spec(toks, pos) is Ok) == (image_read_spec(toks, pos) is Ok),
{
}

/// A required attribute that is absent fails with `AttributeNotFound`.
pub proof fn law_missing_attribute(attrs: Seq<Attribute>, malformed: bool, key: &str)
    requires
        attr_spec(attrs, malformed, key, 0) == Ok::<Option<Seq<char>>, ParseError>(None),
    ensures
        required_attr_spec(attrs, malformed, key) == Err::<Seq<char>, ParseError>(
            ParseError::AttributeNotFound,
        ),
{
}

} // verus!
