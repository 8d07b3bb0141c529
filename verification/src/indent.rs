//! The indent pass: a document's events written out again, one markup
//! event per line, four spaces deeper for each open element.

use crate::error::Error;
use crate::line_ending::LineEnding;
use crate::xml_reader::{
    is_blank, read_tokens, tokenize, tokens_of, EventKind, XmlEvent, XmlToken,
};
use vstd::prelude::*;
use vstd::string::StringExecFns;

verus! {

/// An event as it stands in a document, delimiters included.
pub open spec fn markup(token: XmlToken) -> Seq<char> {
    match token.kind {
        EventKind::Start => "<"@ + token.content + ">"@,
        EventKind::End => "</"@ + token.content + ">"@,
        EventKind::Empty => "<"@ + token.content + "/>"@,
        EventKind::Text => token.content,
        EventKind::Comment => "<!--"@ + token.content + "-->"@,
        EventKind::CData => "<![CDATA["@ + token.content + "]]>"@,
        EventKind::Decl => "<?"@ + token.content + "?>"@,
        EventKind::PI => "<?"@ + token.content + "?>"@,
        EventKind::DocType => "<!DOCTYPE "@ + token.content + ">"@,
        EventKind::Eof => Seq::empty(),
    }
}

/// Whether an event of this kind goes on a line of its own. Text and
/// character data stay on the line of the tag before them.
pub open spec fn starts_line(kind: EventKind) -> bool {
    kind != EventKind::Text && kind != EventKind::CData && kind != EventKind::Eof
}

/// Whether the event after one of this kind may start a new line. The tag
/// that closes a text stays on the text's line.
pub open spec fn ends_line(kind: EventKind) -> bool {
    kind != EventKind::Text && kind != EventKind::CData
}

/// The nesting depth at which an event of this kind is written, given the
/// depth before it. A closing tag stands one level up, and never above the
/// top level.
pub open spec fn depth_at(kind: EventKind, depth: nat) -> nat {
    if kind == EventKind::End && depth > 0 {
        (depth - 1) as nat
    } else {
        depth
    }
}

/// The nesting depth after an event of this kind.
pub open spec fn depth_after(kind: EventKind, depth: nat) -> nat {
    if kind == EventKind::Start {
        depth + 1
    } else {
        depth_at(kind, depth)
    }
}

/// The spaces in front of a line at the given depth.
pub open spec fn indentation(depth: nat) -> Seq<char>
    decreases depth,
{
    if depth == 0 {
        Seq::empty()
    } else {
        indentation((depth - 1) as nat) + "    "@
    }
}

/// What separates an event from the one before it: a line separator and
/// the indentation, or nothing.
pub open spec fn line_start(kind: EventKind, eol: LineEnding, depth: nat, broken: bool) -> Seq<
    char,
> {
    if broken && starts_line(kind) {
        eol.text() + indentation(depth_at(kind, depth))
    } else {
        Seq::empty()
    }
}

/// Indenting adds white space only: what separates an event from the one
/// before it is a line separator and spaces, or nothing. The events
/// themselves are written as they are, in their order.
pub proof fn lemma_line_start_is_blank(kind: EventKind, eol: LineEnding, depth: nat, broken: bool)
    ensures
        is_blank(line_start(kind, eol, depth, broken)),
{
    lemma_indentation_is_blank(depth_at(kind, depth));
}

/// The indentation is spaces.
proof fn lemma_indentation_is_blank(depth: nat)
    ensures
        is_blank(indentation(depth)),
    decreases depth,
{
    reveal_strlit("    ");
    if depth > 0 {
        lemma_indentation_is_blank((depth - 1) as nat);
    }
}

/// The events written out from the given state: `depth` elements are open,
/// and `broken` says whether the event before allows a new line.
pub open spec fn indented_from(
    tokens: Seq<XmlToken>,
    eol: LineEnding,
    depth: nat,
    broken: bool,
) -> Seq<char>
    decreases tokens.len(),
{
    if tokens.len() == 0 {
        Seq::empty()
    } else {
        let kind = tokens[0].kind;
        line_start(kind, eol, depth, broken) + markup(tokens[0]) + indented_from(
            tokens.drop_first(),
            eol,
            depth_after(kind, depth),
            ends_line(kind),
        )
    }
}

/// The indented form of a whole document.
pub open spec fn indented(tokens: Seq<XmlToken>, eol: LineEnding) -> Seq<char> {
    indented_from(tokens, eol, 0, false)
}

/// Appends the indentation of `depth` levels to `out`.
fn push_indentation(out: &mut String, depth: usize)
    ensures
        final(out)@ == old(out)@ + indentation(depth as nat),
{
    let mut level: usize = 0;
    while level < depth
        invariant
            level <= depth,
            out@ == old(out)@ + indentation(level as nat),
        decreases depth - level,
    {
        out.append("    ");
        level += 1;
    }
}

/// Appends one event, delimiters included, to `out`.
fn push_markup(out: &mut String, event: &XmlEvent)
    ensures
        final(out)@ == old(out)@ + markup(event@),
{
    let content = event.content.as_str();
    match event.kind {
        EventKind::Start => {
            out.append("<");
            out.append(content);
            out.append(">");
        },
        EventKind::End => {
            out.append("</");
            out.append(content);
            out.append(">");
        },
        EventKind::Empty => {
            out.append("<");
            out.append(content);
            out.append("/>");
        },
        EventKind::Text => {
            out.append(content);
        },
        EventKind::Comment => {
            out.append("<!--");
            out.append(content);
            out.append("-->");
        },
        EventKind::CData => {
            out.append("<![CDATA[");
            out.append(content);
            out.append("]]>");
        },
        EventKind::Decl => {
            out.append("<?");
            out.append(content);
            out.append("?>");
        },
        EventKind::PI => {
            out.append("<?");
            out.append(content);
            out.append("?>");
        },
        EventKind::DocType => {
            out.append("<!DOCTYPE ");
            out.append(content);
            out.append(">");
        },
        EventKind::Eof => {},
    }
}

/// Whether an event of this kind goes on a line of its own.
fn kind_starts_line(kind: EventKind) -> (r: bool)
    ensures
        r == starts_line(kind),
{
    match kind {
        EventKind::Text | EventKind::CData | EventKind::Eof => false,
        _ => true,
    }
}

/// Whether the event after one of this kind may start a new line.
fn kind_ends_line(kind: EventKind) -> (r: bool)
    ensures
        r == ends_line(kind),
{
    match kind {
        EventKind::Text | EventKind::CData => false,
        _ => true,
    }
}

/// The nesting depth at which an event of this kind is written.
fn kind_depth_at(kind: EventKind, depth: usize) -> (r: usize)
    ensures
        r == depth_at(kind, depth as nat),
{
    match kind {
        EventKind::End => if depth > 0 {
            depth - 1
        } else {
            0
        },
        _ => depth,
    }
}

/// Appends one event to `out`, on a new line where it goes on one.
fn push_event(out: &mut String, event: &XmlEvent, eol: LineEnding, depth: usize, broken: bool)
    ensures
        final(out)@ == old(out)@ + (line_start(event.kind, eol, depth as nat, broken) + markup(
            event@,
        )),
{
    if broken && kind_starts_line(event.kind) {
        out.append(eol.as_str());
        push_indentation(out, kind_depth_at(event.kind, depth));
    }
    push_markup(out, event);
    assert(out@ =~= old(out)@ + (line_start(event.kind, eol, depth as nat, broken) + markup(
        event@,
    )));
}

/// What is written from the event with index `i` on is that event and then
/// what is written from the next one on.
proof fn lemma_indented_step(
    tokens: Seq<XmlToken>,
    eol: LineEnding,
    depth: nat,
    broken: bool,
    i: int,
)
    requires
        0 <= i < tokens.len(),
    ensures
        indented_from(tokens.skip(i), eol, depth, broken) == (line_start(
            tokens[i].kind,
            eol,
            depth,
            broken,
        ) + markup(tokens[i])) + indented_from(
            tokens.skip(i + 1),
            eol,
            depth_after(tokens[i].kind, depth),
            ends_line(tokens[i].kind),
        ),
{
    assert(tokens.skip(i)[0] == tokens[i]);
    assert(tokens.skip(i).drop_first() =~= tokens.skip(i + 1));
}

/// Writes the events out with one markup event per line, each line indented
/// by four spaces for every element that is open around it.
pub fn render_indented(events: &Vec<XmlEvent>, eol: LineEnding) -> (out: String)
    ensures
        out@ == indented(tokens_of(events@), eol),
{
    let ghost tokens = tokens_of(events@);
    let mut out = String::new();
    let mut depth: usize = 0;
    let mut broken = false;
    let mut i: usize = 0;
    assert(tokens.skip(0) =~= tokens);
    assert(out@ + indented(tokens, eol) =~= indented(tokens, eol));
    while i < events.len()
        invariant
            i <= events.len(),
            depth <= i,
            tokens == tokens_of(events@),
            out@ + indented_from(tokens.skip(i as int), eol, depth as nat, broken) == indented(
                tokens,
                eol,
            ),
        decreases events.len() - i,
    {
        let event = &events[i];
        let ghost before = out@;
        let ghost piece = line_start(event.kind, eol, depth as nat, broken) + markup(event@);
        let ghost rest = indented_from(
            tokens.skip(i + 1),
            eol,
            depth_after(event.kind, depth as nat),
            ends_line(event.kind),
        );
        proof {
            assert(tokens[i as int] == event@);
            lemma_indented_step(tokens, eol, depth as nat, broken, i as int);
            assert((before + piece) + rest =~= before + (piece + rest));
        }
        push_event(&mut out, event, eol, depth, broken);
        depth = match event.kind {
            EventKind::Start => depth + 1,
            _ => kind_depth_at(event.kind, depth),
        };
        broken = kind_ends_line(event.kind);
        i += 1;
    }
    assert(tokens.skip(i as int) =~= Seq::empty());
    out
}

/// Pretty-prints the given XML: reads it as events, dropping the white
/// space between them, and writes them out indented.
pub fn prettify_xml(xml: &str, eol: LineEnding) -> (r: Result<String, Error>)
    ensures
        match read_tokens(xml@) {
            Some(tokens) => r matches Ok(out) && out@ == indented(tokens, eol),
            None => r == Err::<String, Error>(Error::Format),
        },
{
    match tokenize(xml) {
        Ok(events) => Ok(render_indented(&events, eol)),
        Err(e) => Err(e),
    }
}

} // verus!
