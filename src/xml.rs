//! The markup events of a document, read with quick-xml. Self-closing
//! elements come out as an open followed by a close, text is trimmed, and
//! events that no reader of the format looks at (comments, declarations,
//! processing instructions) are left out.

use vstd::prelude::*;
use quick_xml::events::Event;
use quick_xml::Reader;

verus! {

/// One attribute of an element.
#[derive(Debug, Clone)]
pub struct Attribute {
    pub key: Vec<u8>,
    /// The value as written, escapes unresolved.
    pub value: Vec<u8>,
}

/// One markup event.
#[derive(Debug, Clone)]
pub enum Token {
    /// An element opens. `malformed` tells that the attribute list breaks off
    /// after `attributes` at a malformed attribute.
    Open { name: Vec<u8>, attributes: Vec<Attribute>, malformed: bool },
    /// An element closes.
    Close,
    /// Text or character data as written, escapes unresolved.
    Text(Vec<u8>),
    /// The document ends.
    Eof,
    /// The markup is malformed here; nothing is read past it.
    Fault,
}

/// A quick-xml reader over bytes in memory. It is held opaque; `events_left` names what it will still yield.
#[verifier::external_body]
pub struct Source<'a> {
    reader: Reader<&'a [u8]>,
}

/// The events that quick-xml reads from `source` (self-closing elements
/// split, text trimmed), up to and including the first end of input or
/// error, each as the token it gives; `None` for an event that no reader of
/// the format looks at (comments, declarations, processing instructions).
pub uninterp spec fn xml_events(source: Seq<u8>) -> Seq<Option<Token>>;

/// The events that a reader will still yield, in the form of `xml_events`.
pub uninterp spec fn events_left(s: Source) -> Seq<Option<Token>>;

/// Whether an event or token ends the sequence.
pub open spec fn is_terminal(t: Option<Token>) -> bool {
    t matches Some(tok) && (tok is Eof || tok is Fault)
}

/// Exactly the last event ends the sequence.
pub open spec fn events_terminated(e: Seq<Option<Token>>) -> bool {
    &&& e.len() > 0
    &&& is_terminal(e.last())
    &&& forall|i: int| 0 <= i < e.len() - 1 ==> !is_terminal(#[trigger] e[i])
}

/// The tokens among `e`, in order.
pub open spec fn keep_tokens(e: Seq<Option<Token>>) -> Seq<Token>
    decreases e.len(),
{
    if e.len() == 0 {
        Seq::<Token>::empty()
    } else {
        match e[0] {
            Some(t) => seq![t] + keep_tokens(e.drop_first()),
            None => keep_tokens(e.drop_first()),
        }
    }
}

/// The tokens of a document.
pub open spec fn tokens_of(source: Seq<u8>) -> Seq<Token> {
    keep_tokens(xml_events(source))
}

/// Relies on quick_xml's Reader::from_reader, expand_empty_elements and
/// trim_text: a reader over `source` that splits self-closing elements and
/// trims text. Reading a finite slice ends in an end of input or an error.
#[verifier::external_body]
fn open_source<'a>(source: &'a [u8]) -> (r: Source<'a>)
    ensures
        events_left(r) == xml_events(source@),
        events_terminated(events_left(r)),
{
    let mut reader = Reader::from_reader(source);
    reader.expand_empty_elements(true);
    reader.trim_text(true);
    Source { reader }
}

/// Relies on quick_xml's Reader::read_event, BytesStart::name and
/// attributes, and BytesText's content: the next event as a token, text and
/// attribute values as written; the attribute list stops at its first
/// malformed entry.
#[verifier::external_body]
fn next_event(src: &mut Source) -> (r: Option<Token>)
    requires
        events_left(*old(src)).len() > 0,
    ensures
        r == events_left(*old(src))[0],
        events_left(*final(src)) == events_left(*old(src)).drop_first(),
{
    match src.reader.read_event(&mut vec![]) {
        Ok(Event::Start(e)) => {
            let mut malformed = false;
            let attributes = e.attributes().map_while(|a| a.map_err(|_| malformed = true).ok())
                .map(|a| Attribute { key: a.key.to_vec(), value: a.value.into_owned() }).collect();
            Some(Token::Open { name: e.name().to_vec(), attributes, malformed })
        },
        Ok(Event::End(_)) => Some(Token::Close),
        Ok(Event::Text(t) | Event::CData(t)) => Some(Token::Text(t.to_vec())),
        Ok(Event::Eof) => Some(Token::Eof),
        Err(_) => Some(Token::Fault),
        _ => None,
    }
}

/// Whether a token list is finished: exactly its last token is `Eof` or
/// `Fault`.
pub open spec fn well_ended(toks: Seq<Token>) -> bool {
    &&& toks.len() > 0
    &&& (toks.last() is Eof || toks.last() is Fault)
    &&& forall|i: int| 0 <= i < toks.len() - 1 ==> !(#[trigger] toks[i] is Eof) && !(
        toks[i] is Fault)
}

/// The markup events of `source` as tokens, ending in `Eof` or, where the
/// markup is malformed, in `Fault`.
pub fn tokenize(source: &[u8]) -> (r: Vec<Token>)
    ensures
        r@ == tokens_of(source@),
        well_ended(r@),
{
    let mut src = open_source(source);
    let mut out: Vec<Token> = Vec::new();
    let ghost all = xml_events(source@);
    assert(keep_tokens(all) =~= out@ + keep_tokens(events_left(src)));
    loop
        invariant
            all == xml_events(source@),
            events_terminated(events_left(src)),
            keep_tokens(all) == out@ + keep_tokens(events_left(src)),
            forall|i: int| 0 <= i < out@.len() ==> !(#[trigger] out@[i] is Eof) && !(
                out@[i] is Fault),
        decreases events_left(src).len(),
    {
        let ghost left = events_left(src);
        assert(left.drop_first().len() < left.len());
        let ev = next_event(&mut src);
        match ev {
            Some(t) => {
                let terminal = match &t {
                    Token::Eof => true,
                    Token::Fault => true,
                    _ => false,
                };
                proof {
                    assert(keep_tokens(left) =~= seq![t] + keep_tokens(left.drop_first()));
                }
                let ghost before = out@;
                out.push(t);
                assert(before + (seq![t] + keep_tokens(left.drop_first())) =~= out@
                    + keep_tokens(left.drop_first()));
                if terminal {
                    assert(left.len() == 1) by {
                        if left.len() > 1 {
                            assert(!is_terminal(left[0]));
                        }
                    }
                    assert(keep_tokens(left.drop_first()) =~= Seq::<Token>::empty());
                    assert(out@ + Seq::<Token>::empty() =~= out@);
                    return out;
                }
                assert(!is_terminal(left[0]));
                assert(events_terminated(left.drop_first()));
            },
            None => {
                proof {
                    assert(keep_tokens(left) == keep_tokens(left.drop_first()));
                    assert(!is_terminal(left[0]));
                    assert(left.len() > 1);
                    assert(events_terminated(left.drop_first()));
                }
            },
        }
    }
}

} // verus!
