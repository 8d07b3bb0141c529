//! Escaping of text for an XML element.

use vstd::prelude::*;

verus! {

/// The entity `&lt;`.
pub open spec fn lt_entity() -> Seq<char> {
    seq!['&', 'l', 't', ';']
}

/// The entity `&gt;`.
pub open spec fn gt_entity() -> Seq<char> {
    seq!['&', 'g', 't', ';']
}

/// The entity `&amp;`.
pub open spec fn amp_entity() -> Seq<char> {
    seq!['&', 'a', 'm', 'p', ';']
}

/// The entity `&apos;`.
pub open spec fn apos_entity() -> Seq<char> {
    seq!['&', 'a', 'p', 'o', 's', ';']
}

/// The entity `&quot;`.
pub open spec fn quot_entity() -> Seq<char> {
    seq!['&', 'q', 'u', 'o', 't', ';']
}

/// What stands for one character in the text of an element.
pub open spec fn escaped_char(c: char) -> Seq<char> {
    if c == '<' {
        lt_entity()
    } else if c == '>' {
        gt_entity()
    } else if c == '&' {
        amp_entity()
    } else if c == '\'' {
        apos_entity()
    } else if c == '"' {
        quot_entity()
    } else {
        seq![c]
    }
}

/// The text with each of `<`, `>`, `&`, `'` and `"` replaced by its entity.
pub open spec fn xml_escape(text: Seq<char>) -> Seq<char>
    decreases text.len(),
{
    if text.len() == 0 {
        Seq::empty()
    } else {
        escaped_char(text[0]) + xml_escape(text.drop_first())
    }
}

/// Escapes text with `quick_xml::escape::escape`, which copies the text and
/// writes `&lt;`, `&gt;`, `&amp;`, `&apos;` and `&quot;` in place of the
/// five special characters.
#[verifier::external_body]
pub(crate) fn escape_text(raw: &str) -> (escaped: String)
    ensures
        escaped@ == xml_escape(raw@),
{
    quick_xml::escape::escape(raw).into_owned()
}

/// Escaping goes character by character: two texts escaped one after the
/// other are their concatenation escaped.
pub proof fn lemma_escape_concat(first: Seq<char>, second: Seq<char>)
    ensures
        xml_escape(first + second) == xml_escape(first) + xml_escape(second),
    decreases first.len(),
{
    if first.len() == 0 {
        assert(first + second =~= second);
        assert(xml_escape(first) + xml_escape(second) =~= xml_escape(second));
    } else {
        lemma_escape_concat(first.drop_first(), second);
        assert((first + second).drop_first() =~= first.drop_first() + second);
        assert(escaped_char(first[0]) + (xml_escape(first.drop_first()) + xml_escape(second))
            =~= (escaped_char(first[0]) + xml_escape(first.drop_first())) + xml_escape(second));
    }
}

/// An escaped text starts with a character other than `&` only where the
/// text starts with that character, which then stands for itself.
pub proof fn lemma_escape_head(text: Seq<char>, c: char)
    requires
        xml_escape(text).len() > 0,
        xml_escape(text)[0] == c,
        c != '&',
    ensures
        text.len() > 0,
        text[0] == c,
        xml_escape(text) == seq![c] + xml_escape(text.drop_first()),
{
    assert(xml_escape(text)[0] == escaped_char(text[0])[0]);
}

/// The text with each of the five entities replaced by its character.
/// Nothing else is changed: an `&` that starts no such entity stays.
pub open spec fn xml_unescape(text: Seq<char>) -> Seq<char>
    decreases text.len(),
{
    if text.len() == 0 {
        Seq::empty()
    } else if lt_entity().is_prefix_of(text) {
        seq!['<'] + xml_unescape(text.skip(4))
    } else if gt_entity().is_prefix_of(text) {
        seq!['>'] + xml_unescape(text.skip(4))
    } else if amp_entity().is_prefix_of(text) {
        seq!['&'] + xml_unescape(text.skip(5))
    } else if apos_entity().is_prefix_of(text) {
        seq!['\''] + xml_unescape(text.skip(6))
    } else if quot_entity().is_prefix_of(text) {
        seq!['"'] + xml_unescape(text.skip(6))
    } else {
        seq![text[0]] + xml_unescape(text.drop_first())
    }
}

/// Escaping loses nothing: replacing the entities of an escaped text by
/// their characters gives the text back.
pub proof fn lemma_escape_round_trip(text: Seq<char>)
    ensures
        xml_unescape(xml_escape(text)) == text,
    decreases text.len(),
{
    if text.len() > 0 {
        let c = text[0];
        let rest = xml_escape(text.drop_first());
        let whole = xml_escape(text);
        lemma_escape_round_trip(text.drop_first());
        assert(whole == escaped_char(c) + rest);
        assert(escaped_char(c).is_prefix_of(whole));
        assert(whole.skip(escaped_char(c).len() as int) =~= rest);
        assert(whole[0] == escaped_char(c)[0]);
        if c == '>' {
            assert(whole[1] == 'g');
        } else if c == '&' {
            assert(whole[1] == 'a' && whole[2] == 'm');
        } else if c == '\'' {
            assert(whole[1] == 'a' && whole[2] == 'p');
        } else if c == '"' {
            assert(whole[1] == 'q');
        } else if c != '<' {
            assert(whole.drop_first() =~= rest);
        }
        assert(seq![c] + text.drop_first() =~= text);
    }
}

} // verus!
