//! Character data sections: how the search text is wrapped, and how the
//! wrapping survives the escaping of the serializer.

use crate::escape::{escaped_char, lemma_escape_concat, lemma_escape_head, xml_escape};
use crate::replace::{
    free_of, lemma_nothing_to_replace, lemma_replaced_skips, occurs_at, replace_text, replaced,
};
use vstd::prelude::*;
use vstd::string::StringExecFns;

verus! {

/// The text as a character data section.
pub open spec fn cdata_section(text: Seq<char>) -> Seq<char> {
    "<![CDATA["@ + text + "]]>"@
}

/// The document with the escaped delimiters of character data sections
/// turned back into delimiters, wherever they stand.
pub open spec fn cdata_restored(xml: Seq<char>) -> Seq<char> {
    replaced(replaced(xml, "&lt;![CDATA["@, "<![CDATA["@), "]]&gt;"@, "]]>"@)
}

/// Wraps a text as a character data section. The text is taken as it is.
pub fn wrap_cdata(text: &str) -> (section: String)
    ensures
        section@ == cdata_section(text@),
{
    let mut section = String::from_str("<![CDATA[");
    section.append(text);
    section.append("]]>");
    section
}

/// Turns the escaped delimiters of character data sections back into
/// delimiters: `&lt;![CDATA[` into `<![CDATA[` and `]]&gt;` into `]]>`.
/// Nothing else is unescaped.
pub fn restore_cdata_markers(xml: &str) -> (out: String)
    ensures
        out@ == cdata_restored(xml@),
{
    let opened = replace_text(xml, "&lt;![CDATA[", "<![CDATA[");
    replace_text(opened.as_str(), "]]&gt;", "]]>")
}

/// The restoring is narrow: a document that holds neither escaped
/// delimiter is left as it is.
pub proof fn lemma_restoring_is_narrow(xml: Seq<char>)
    requires
        free_of(xml, "&lt;![CDATA["@),
        free_of(xml, "]]&gt;"@),
    ensures
        cdata_restored(xml) == xml,
{
    lemma_nothing_to_replace(xml, "&lt;![CDATA["@, "<![CDATA["@);
    lemma_nothing_to_replace(xml, "]]&gt;"@, "]]>"@);
}

/// Whether a text holds neither delimiter of a character data section.
pub open spec fn holds_no_delimiter(text: Seq<char>) -> bool {
    free_of(text, "<![CDATA["@) && free_of(text, "]]>"@)
}

/// An escaped opening delimiter in an escaped text comes from an opening
/// delimiter in the text.
proof fn lemma_opener_comes_from_text(text: Seq<char>, at: int)
    requires
        occurs_at(xml_escape(text), "&lt;![CDATA["@, at),
    ensures
        !free_of(text, "<![CDATA["@),
    decreases text.len(),
{
    reveal_strlit("&lt;![CDATA[");
    reveal_strlit("<![CDATA[");
    let wanted = "&lt;![CDATA["@;
    let escaped = xml_escape(text);
    if text.len() > 0 {
        let head = escaped_char(text[0]);
        let rest = text.drop_first();
        let found = escaped.subrange(at, at + 12);
        assert(escaped == head + xml_escape(rest));
        if at >= head.len() {
            let shifted = at - head.len();
            assert(xml_escape(rest).subrange(shifted, shifted + 12) =~= found);
            lemma_opener_comes_from_text(rest, shifted);
            let inner = choose|inner: int| occurs_at(rest, "<![CDATA["@, inner);
            assert(text.subrange(inner + 1, inner + 1 + 9) =~= rest.subrange(inner, inner + 9));
            assert(occurs_at(text, "<![CDATA["@, inner + 1));
        } else {
            assert(found[0] == escaped[at]);
            assert(escaped[at] == head[at]);
            assert(at == 0);
            assert(found[1] == escaped[1]);
            assert(escaped[1] == head[1]);
            assert(text[0] == '<');
            let r0 = rest;
            let r1 = r0.drop_first();
            let r2 = r1.drop_first();
            let r3 = r2.drop_first();
            let r4 = r3.drop_first();
            let r5 = r4.drop_first();
            let r6 = r5.drop_first();
            let r7 = r6.drop_first();
            assert(found[4] == escaped[4] && escaped[4] == xml_escape(r0)[0]);
            lemma_escape_head(r0, '!');
            assert(found[5] == escaped[5] && escaped[5] == xml_escape(r1)[0]);
            lemma_escape_head(r1, '[');
            assert(found[6] == escaped[6] && escaped[6] == xml_escape(r2)[0]);
            lemma_escape_head(r2, 'C');
            assert(found[7] == escaped[7] && escaped[7] == xml_escape(r3)[0]);
            lemma_escape_head(r3, 'D');
            assert(found[8] == escaped[8] && escaped[8] == xml_escape(r4)[0]);
            lemma_escape_head(r4, 'A');
            assert(found[9] == escaped[9] && escaped[9] == xml_escape(r5)[0]);
            lemma_escape_head(r5, 'T');
            assert(found[10] == escaped[10] && escaped[10] == xml_escape(r6)[0]);
            lemma_escape_head(r6, 'A');
            assert(found[11] == escaped[11] && escaped[11] == xml_escape(r7)[0]);
            lemma_escape_head(r7, '[');
            assert(text.subrange(0, 9) =~= "<![CDATA["@);
            assert(occurs_at(text, "<![CDATA["@, 0));
        }
    }
}

/// An escaped closing delimiter in an escaped text comes from a closing
/// delimiter in the text.
proof fn lemma_closer_comes_from_text(text: Seq<char>, at: int)
    requires
        occurs_at(xml_escape(text), "]]&gt;"@, at),
    ensures
        !free_of(text, "]]>"@),
    decreases text.len(),
{
    reveal_strlit("]]&gt;");
    reveal_strlit("]]>");
    let escaped = xml_escape(text);
    if text.len() > 0 {
        let head = escaped_char(text[0]);
        let rest = text.drop_first();
        let found = escaped.subrange(at, at + 6);
        assert(escaped == head + xml_escape(rest));
        if at >= head.len() {
            let shifted = at - head.len();
            assert(xml_escape(rest).subrange(shifted, shifted + 6) =~= found);
            lemma_closer_comes_from_text(rest, shifted);
            let inner = choose|inner: int| occurs_at(rest, "]]>"@, inner);
            assert(text.subrange(inner + 1, inner + 1 + 3) =~= rest.subrange(inner, inner + 3));
            assert(occurs_at(text, "]]>"@, inner + 1));
        } else {
            assert(found[0] == escaped[at]);
            assert(escaped[at] == head[at]);
            assert(at == 0);
            assert(text[0] == ']');
            let r1 = rest.drop_first();
            assert(found[1] == escaped[1] && escaped[1] == xml_escape(rest)[0]);
            lemma_escape_head(rest, ']');
            assert(found[2] == escaped[2] && escaped[2] == xml_escape(r1)[0]);
            assert(found[3] == escaped[3] && escaped[3] == xml_escape(r1)[1]);
            assert(xml_escape(r1)[0] == escaped_char(r1[0])[0]);
            assert(xml_escape(r1)[1] == escaped_char(r1[0])[1]);
            assert(r1[0] == '>');
            assert(text.subrange(0, 3) =~= "]]>"@);
            assert(occurs_at(text, "]]>"@, 0));
        }
    }
}

/// Escaping makes no delimiter: the escaped form of a text that holds no
/// delimiter holds no escaped delimiter.
pub proof fn lemma_escaping_makes_no_delimiter(text: Seq<char>)
    requires
        holds_no_delimiter(text),
    ensures
        free_of(xml_escape(text), "&lt;![CDATA["@),
        free_of(xml_escape(text), "]]&gt;"@),
{
    assert forall|at: int| !occurs_at(xml_escape(text), "&lt;![CDATA["@, at) by {
        if occurs_at(xml_escape(text), "&lt;![CDATA["@, at) {
            lemma_opener_comes_from_text(text, at);
        }
    }
    assert forall|at: int| !occurs_at(xml_escape(text), "]]&gt;"@, at) by {
        if occurs_at(xml_escape(text), "]]&gt;"@, at) {
            lemma_closer_comes_from_text(text, at);
        }
    }
}

/// A section survives the serializer: a wrapped text, escaped like any
/// other text and then restored, is a character data section that holds
/// the escaped text. This is so for every text that holds no delimiter.
pub proof fn lemma_section_survives(text: Seq<char>)
    requires
        holds_no_delimiter(text),
    ensures
        cdata_restored(xml_escape(cdata_section(text))) == cdata_section(xml_escape(text)),
{
    lemma_escaping_makes_no_delimiter(text);
    reveal_strlit("&lt;![CDATA[");
    reveal_strlit("<![CDATA[");
    reveal_strlit("]]&gt;");
    reveal_strlit("]]>");
    let opener = "<![CDATA["@;
    let closer = "]]>"@;
    let escaped_opener = "&lt;![CDATA["@;
    let escaped_closer = "]]&gt;"@;
    let inner = xml_escape(text);

    // The escaped section is the escaped opener, the escaped text and the
    // escaped closer.
    assert(xml_escape(opener) =~= escaped_opener) by {
        reveal_with_fuel(xml_escape, 10);
        let o1 = opener.drop_first();
        let o2 = o1.drop_first();
        let o3 = o2.drop_first();
        let o4 = o3.drop_first();
        let o5 = o4.drop_first();
        let o6 = o5.drop_first();
        let o7 = o6.drop_first();
        let o8 = o7.drop_first();
        let o9 = o8.drop_first();
        assert(o9.len() == 0);
    }
    assert(xml_escape(closer) =~= escaped_closer) by {
        reveal_with_fuel(xml_escape, 4);
        let c1 = closer.drop_first();
        let c2 = c1.drop_first();
        let c3 = c2.drop_first();
        assert(c3.len() == 0);
    }
    lemma_escape_concat(opener + text, closer);
    lemma_escape_concat(opener, text);
    let escaped = xml_escape(cdata_section(text));
    assert(escaped == escaped_opener + inner + escaped_closer);

    // First pass: the escaped opener stands in front and nowhere else.
    let tail = inner + escaped_closer;
    assert(escaped =~= escaped_opener + tail);
    assert(escaped.subrange(0, 12) =~= escaped_opener);
    assert(escaped.skip(12) =~= tail);
    assert forall|at: int| !occurs_at(tail, escaped_opener, at) by {
        if occurs_at(tail, escaped_opener, at) {
            let found = tail.subrange(at, at + 12);
            if at + 12 <= inner.len() {
                assert(inner.subrange(at, at + 12) =~= found);
                assert(occurs_at(inner, escaped_opener, at));
            } else {
                let k = inner.len() - at;
                assert(found[k] == tail[inner.len() as int]);
                assert(tail[inner.len() as int] == escaped_closer[0]);
                assert(escaped_opener[k] != ']');
            }
        }
    }
    lemma_nothing_to_replace(tail, escaped_opener, opener);
    let opened = opener + tail;
    assert(replaced(escaped, escaped_opener, opener) == opened);

    // Second pass: the escaped closer stands at the end and nowhere before.
    let n: int = (opener.len() + inner.len()) as int;
    assert(opened =~= (opener + inner) + escaped_closer);
    assert forall|at: int| 0 <= at < n implies !occurs_at(opened, escaped_closer, at) by {
        if occurs_at(opened, escaped_closer, at) {
            let found = opened.subrange(at, at + 6);
            assert(found[0] == opened[at]);
            if at < 9 {
                assert(opened[at] == opener[at]);
                assert(opener[at] != ']');
            } else if at + 6 <= n {
                assert(inner.subrange(at - 9, at - 9 + 6) =~= found);
                assert(occurs_at(inner, escaped_closer, at - 9));
            } else {
                let k = n - at;
                assert(found[k] == opened[n]);
                assert(opened[n] == escaped_closer[0]);
                assert(found[k + 1] == opened[n + 1]);
                assert(opened[n + 1] == escaped_closer[1]);
                assert(escaped_closer[k] != ']' || escaped_closer[k + 1] != ']');
            }
        }
    }
    lemma_replaced_skips(opened, escaped_closer, closer, n);
    assert(opened.take(n) =~= opener + inner);
    assert(opened.skip(n) =~= escaped_closer);
    assert(replaced(escaped_closer, escaped_closer, closer) =~= closer) by {
        assert(escaped_closer.subrange(0, 6) =~= escaped_closer);
        assert(escaped_closer.skip(6) =~= Seq::<char>::empty());
        assert(replaced(Seq::<char>::empty(), escaped_closer, closer) =~= Seq::<char>::empty());
        assert(closer + Seq::<char>::empty() =~= closer);
    }
}

} // verus!
