//! Reading a document as a sequence of XML events.

use crate::error::Error;
use crate::text::chars_of;
use quick_xml::events::Event;
use quick_xml::Reader;
use vstd::prelude::*;

verus! {

/// The kinds of event that an XML document is made of.
#[derive(Clone, Copy, Debug, PartialEq, Eq, Structural)]
pub enum EventKind {
    Start,
    End,
    Empty,
    Text,
    Comment,
    CData,
    Decl,
    PI,
    DocType,
    Eof,
}

/// One event of a document: its kind and the text between its delimiters.
#[derive(Clone, Debug)]
pub struct XmlEvent {
    pub kind: EventKind,
    pub content: String,
}

/// An event as contracts see it.
pub ghost struct XmlToken {
    pub kind: EventKind,
    pub content: Seq<char>,
}

impl View for XmlEvent {
    type V = XmlToken;

    open spec fn view(&self) -> XmlToken {
        XmlToken { kind: self.kind, content: self.content@ }
    }
}

/// `quick_xml::Reader`, the pull parser that the events come from. Nothing
/// inside it is visible here.
#[verifier::external_type_specification]
#[verifier::external_body]
#[verifier::reject_recursive_types(R)]
pub struct ExReader<R>(Reader<R>);

/// The events that a reader still holds: those that its next reads return,
/// in order, before the first read that returns the end of the document or
/// fails.
pub uninterp spec fn pending_tokens(reader: Reader<&[u8]>) -> Seq<XmlToken>;

/// Whether the read after the pending events returns the end of the
/// document, rather than fails.
pub uninterp spec fn reads_to_end(reader: Reader<&[u8]>) -> bool;

/// Whether every read of the reader returns: none of them meets what
/// `can_be_read` leaves out, at which a build of `quick_xml` with debug
/// assertions stops the program.
pub uninterp spec fn reads_safely(reader: Reader<&[u8]>) -> bool;

/// The events of a document as `quick_xml` reads them, the end of the
/// document not among them, or `None` where it fails on the document.
/// `trim` says whether the reader drops white space at both ends of every
/// text, and with it every text that is white space only.
pub uninterp spec fn document_tokens(xml: Seq<char>, trim: bool) -> Option<Seq<XmlToken>>;

/// Makes a reader of `xml` with `quick_xml::Reader::from_str` and sets its
/// trimming with `trim_text`. The contract claims that the reader holds
/// the events of the document, by the names above, and that its reads
/// return. Built with debug assertions, the reader stops the program in
/// two places, both in a document type declaration: where the declaration
/// names nothing, which it finds only where `<!DOCTYPE`, in any case, is
/// followed by nothing but white space up to the next `>`; and where its
/// count of the brackets inside the declaration leaves 32 bits. `requires`
/// leaves such texts out.
#[verifier::external_body]
fn open_reader<'a>(xml: &'a str, trim: bool) -> (reader: Reader<&'a [u8]>)
    requires
        can_be_read(xml@),
    ensures
        reads_safely(reader),
        document_tokens(xml@, trim) == (if reads_to_end(reader) {
            Some(pending_tokens(reader))
        } else {
            None
        }),
{
    let mut reader = Reader::from_str(xml);
    reader.trim_text(trim);
    reader
}

/// Reads the next event with `quick_xml::Reader::read_event` and copies
/// its kind and its text. The contract claims that the event is the first
/// of the pending ones, which then is no longer pending; that the end of
/// the document comes when none is pending and the reader reads to the
/// end; and that a failure comes when none is pending and it does not.
/// A reader whose reads return stays one.
#[verifier::external_body]
fn read_event(reader: &mut Reader<&[u8]>) -> (read: Option<XmlEvent>)
    requires
        reads_safely(*old(reader)),
    ensures
        reads_safely(*final(reader)),
        match read {
            Some(event) => if event.kind == EventKind::Eof {
                pending_tokens(*old(reader)).len() == 0 && reads_to_end(*old(reader))
            } else {
                &&& pending_tokens(*old(reader)).len() > 0
                &&& event@ == pending_tokens(*old(reader))[0]
                &&& pending_tokens(*final(reader)) == pending_tokens(*old(reader)).drop_first()
                &&& reads_to_end(*final(reader)) == reads_to_end(*old(reader))
            },
            None => pending_tokens(*old(reader)).len() == 0 && !reads_to_end(*old(reader)),
        },
{
    let event = reader.read_event().ok()?;
    let content = String::from_utf8_lossy(&event).into_owned();
    let kind = match event {
        Event::Start(_) => EventKind::Start,
        Event::End(_) => EventKind::End,
        Event::Empty(_) => EventKind::Empty,
        Event::Text(_) => EventKind::Text,
        Event::Comment(_) => EventKind::Comment,
        Event::CData(_) => EventKind::CData,
        Event::Decl(_) => EventKind::Decl,
        Event::PI(_) => EventKind::PI,
        Event::DocType(_) => EventKind::DocType,
        Event::Eof => EventKind::Eof,
    };
    Some(XmlEvent { kind, content })
}

/// The tokens of a list of events.
pub open spec fn tokens_of(events: Seq<XmlEvent>) -> Seq<XmlToken> {
    events.map_values(|event: XmlEvent| event@)
}

/// Whether a character is white space inside markup.
pub open spec fn is_xml_space(c: char) -> bool {
    c == ' ' || c == '\t' || c == '\n' || c == '\r'
}

/// Whether `text` has `<!DOCTYPE` at index `at`, in capitals or not.
pub open spec fn opens_doctype(text: Seq<char>, at: int) -> bool {
    &&& 0 <= at
    &&& at + 9 <= text.len()
    &&& text[at] == '<'
    &&& text[at + 1] == '!'
    &&& (text[at + 2] == 'D' || text[at + 2] == 'd')
    &&& (text[at + 3] == 'O' || text[at + 3] == 'o')
    &&& (text[at + 4] == 'C' || text[at + 4] == 'c')
    &&& (text[at + 5] == 'T' || text[at + 5] == 't')
    &&& (text[at + 6] == 'Y' || text[at + 6] == 'y')
    &&& (text[at + 7] == 'P' || text[at + 7] == 'p')
    &&& (text[at + 8] == 'E' || text[at + 8] == 'e')
}

/// Whether nothing but white space stands in `text` from index `from` to
/// the next `>`.
pub open spec fn closes_after_space(text: Seq<char>, from: int) -> bool
    decreases text.len() - from,
{
    if from < 0 || from >= text.len() {
        false
    } else if text[from] == '>' {
        true
    } else if is_xml_space(text[from]) {
        closes_after_space(text, from + 1)
    } else {
        false
    }
}

/// Whether a document type declaration that names nothing stands in
/// `text`, wherever: `<!DOCTYPE` and then only white space up to `>`.
pub open spec fn has_nameless_doctype(text: Seq<char>) -> bool {
    exists|at: int| #[trigger] opens_doctype(text, at) && closes_after_space(text, at + 9)
}

/// The longest document that is read, in characters.
pub const MAX_DOCUMENT_LEN: usize = 0x7fff_ffff;

/// Whether the reader is given a document at all: it is not given one
/// with a document type declaration that names nothing, nor one of more
/// than `MAX_DOCUMENT_LEN` characters.
pub open spec fn can_be_read(xml: Seq<char>) -> bool {
    xml.len() <= MAX_DOCUMENT_LEN && !has_nameless_doctype(xml)
}

/// Whether a text is white space only. A text without characters is.
pub open spec fn is_blank(text: Seq<char>) -> bool {
    forall|i: int| 0 <= i < text.len() ==> is_xml_space(#[trigger] text[i])
}

/// Whether an event is insignificant: a text that is white space only, as
/// it stands between the tags of a document that was laid out in lines.
pub open spec fn insignificant(token: XmlToken) -> bool {
    token.kind == EventKind::Text && is_blank(token.content)
}

/// The events without the insignificant ones, in their order.
pub open spec fn significant(tokens: Seq<XmlToken>) -> Seq<XmlToken>
    decreases tokens.len(),
{
    if tokens.len() == 0 {
        Seq::empty()
    } else if insignificant(tokens.last()) {
        significant(tokens.drop_last())
    } else {
        significant(tokens.drop_last()).push(tokens.last())
    }
}

/// The significant events of a document, every text as it stands in the
/// document: `None` where the reader is not given the document, or where
/// reading it fails.
pub open spec fn read_tokens(xml: Seq<char>) -> Option<Seq<XmlToken>> {
    if can_be_read(xml) {
        match document_tokens(xml, false) {
            Some(tokens) => Some(significant(tokens)),
            None => None,
        }
    } else {
        None
    }
}

/// Tells whether a text is white space only.
pub fn is_blank_text(text: &str) -> (blank: bool)
    ensures
        blank == is_blank(text@),
{
    broadcast use vstd::string::group_string_axioms;

    for c in it: text.chars()
        invariant
            it.seq() == text@,
            forall|i: int| 0 <= i < it.index() ==> is_xml_space(#[trigger] text@[i]),
    {
        if !(c == ' ' || c == '\t' || c == '\n' || c == '\r') {
            assert(!is_xml_space(text@[it.index() as int]));
            return false;
        }
    }
    true
}

/// Tells whether an event is insignificant.
pub fn is_insignificant(event: &XmlEvent) -> (r: bool)
    ensures
        r == insignificant(event@),
{
    match event.kind {
        EventKind::Text => is_blank_text(event.content.as_str()),
        _ => false,
    }
}

/// Tells whether `text` has `<!DOCTYPE` at index `at`.
fn doctype_opens_at(text: &Vec<char>, at: usize) -> (r: bool)
    requires
        at < text.len(),
    ensures
        r == opens_doctype(text@, at as int),
{
    text.len() - at >= 9 && text[at] == '<' && text[at + 1] == '!' && (text[at + 2] == 'D'
        || text[at + 2] == 'd') && (text[at + 3] == 'O' || text[at + 3] == 'o') && (text[at + 4]
        == 'C' || text[at + 4] == 'c') && (text[at + 5] == 'T' || text[at + 5] == 't') && (text[at
        + 6] == 'Y' || text[at + 6] == 'y') && (text[at + 7] == 'P' || text[at + 7] == 'p') && (
    text[at + 8] == 'E' || text[at + 8] == 'e')
}

/// Tells whether only white space stands from `from` to the next `>`.
fn space_closes_at(text: &Vec<char>, from: usize) -> (r: bool)
    requires
        from <= text.len(),
    ensures
        r == closes_after_space(text@, from as int),
{
    let mut i: usize = from;
    while i < text.len()
        invariant
            from <= i <= text.len(),
            closes_after_space(text@, from as int) == closes_after_space(text@, i as int),
        decreases text.len() - i,
    {
        let c = text[i];
        if c == '>' {
            return true;
        }
        if !(c == ' ' || c == '\t' || c == '\n' || c == '\r') {
            return false;
        }
        i += 1;
    }
    false
}

/// Tells whether the reader is given the document.
pub fn check_readable(xml: &str) -> (ok: bool)
    ensures
        ok == can_be_read(xml@),
{
    let text = chars_of(xml);
    if text.len() > MAX_DOCUMENT_LEN {
        return false;
    }
    let mut at: usize = 0;
    while at < text.len()
        invariant
            at <= text.len(),
            text@ == xml@,
            forall|k: int|
                0 <= k < at ==> !(#[trigger] opens_doctype(text@, k) && closes_after_space(
                    text@,
                    k + 9,
                )),
        decreases text.len() - at,
    {
        if doctype_opens_at(&text, at) && space_closes_at(&text, at + 9) {
            return false;
        }
        at += 1;
    }
    true
}

/// Reads a document as a list of events. Every text is read as it stands,
/// white space at its ends included; a text that is white space only is
/// left out. The end of the document is not among the events. A document
/// that the reader is not given counts as one that it fails on.
pub fn tokenize(xml: &str) -> (r: Result<Vec<XmlEvent>, Error>)
    ensures
        match read_tokens(xml@) {
            Some(tokens) => r matches Ok(events) && tokens_of(events@) == tokens,
            None => r == Err::<Vec<XmlEvent>, Error>(Error::Format),
        },
{
    if !check_readable(xml) {
        return Err(Error::Format);
    }
    let mut reader = open_reader(xml, false);
    let mut events: Vec<XmlEvent> = Vec::new();
    let ghost all = pending_tokens(reader);
    let ghost mut seen: Seq<XmlToken> = Seq::empty();
    assert(tokens_of(events@) =~= significant(seen));
    loop
        invariant
            reads_safely(reader),
            can_be_read(xml@),
            tokens_of(events@) == significant(seen),
            seen + pending_tokens(reader) == all,
            document_tokens(xml@, false) == (if reads_to_end(reader) {
                Some(all)
            } else {
                None
            }),
        decreases pending_tokens(reader).len(),
    {
        match read_event(&mut reader) {
            Some(event) => {
                if event.kind == EventKind::Eof {
                    assert(seen =~= all);
                    return Ok(events);
                }
                proof {
                    let next = seen.push(event@);
                    assert(next.drop_last() =~= seen);
                    assert(next.last() == event@);
                    assert(next + pending_tokens(reader) =~= all);
                    seen = next;
                }
                if !is_insignificant(&event) {
                    proof {
                        assert(tokens_of(events@.push(event)) =~= tokens_of(events@).push(
                            event@,
                        ));
                    }
                    events.push(event);
                }
            },
            None => {
                return Err(Error::Format);
            },
        }
    }
}

} // verus!
