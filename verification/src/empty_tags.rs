//! The collapse pass: an element with nothing but white space between its
//! tags becomes one self-closing tag.

use crate::error::Error;
use crate::pair::{check_pair, is_pair};
use crate::text::chars_of;
use vstd::prelude::*;
use vstd::string::StringExecFns;
use vstd::string::StringSliceAdditionalSpecFns;
use vstd::utf8::{decode_utf8, encode_utf8, is_char_boundary};

verus! {

/// The pattern by which elements to collapse are searched for: an opening
/// tag, white space, a closing tag. The group is what stands between `<`
/// and `>` of the opening tag. The pattern does not compare the names of
/// the two tags; what it finds is collapsed only where it is a pair.
pub const EMPTY_PAIR: &'static str = "<([^/]+?)>\\s+</[^/]+?>";

/// One match of a pattern and of its first group, in byte offsets into the
/// UTF-8 form of the text that was searched.
#[derive(Clone, Copy, Debug, PartialEq, Eq, Structural)]
pub struct Capture {
    pub start: usize,
    pub end: usize,
    pub group_start: usize,
    pub group_end: usize,
}

/// The matches of a pattern in a text as `fancy_regex` finds them, one
/// after the other, each with its first group; `None` where the pattern
/// is refused, the search fails, or a match has no first group.
pub uninterp spec fn regex_captures(pattern: Seq<char>, text: Seq<char>) -> Option<Seq<Capture>>;

/// Searches `text` with `fancy_regex::Regex::new` and `captures_iter` and
/// copies the offsets of each match and of its first group. The contract
/// claims only that the result is what the name above stands for: the
/// same pattern and text give the same matches.
#[verifier::external_body]
fn find_captures(pattern: &str, text: &str) -> (found: Option<Vec<Capture>>)
    ensures
        match found {
            Some(captures) => regex_captures(pattern@, text@) == Some(captures@),
            None => regex_captures(pattern@, text@) is None,
        },
{
    let regex = fancy_regex::Regex::new(pattern).ok()?;
    let mut found = Vec::new();
    for captures in regex.captures_iter(text) {
        let captures = captures.ok()?;
        let (all, group) = (captures.get(0)?, captures.get(1)?);
        found.push(Capture {
            start: all.start(),
            end: all.end(),
            group_start: group.start(),
            group_end: group.end(),
        });
    }
    Some(found)
}

/// The part of `text` between two byte offsets into its UTF-8 form.
pub open spec fn slice_of(text: Seq<char>, from: int, to: int) -> Seq<char> {
    decode_utf8(encode_utf8(text).subrange(from, to))
}

/// Whether the captures lie in `text` one after the other, none before
/// `from`, each group inside its match, every offset between two
/// characters.
pub open spec fn well_placed(text: Seq<char>, captures: Seq<Capture>, from: int) -> bool
    decreases captures.len(),
{
    if captures.len() == 0 {
        true
    } else {
        let first = captures[0];
        &&& from <= first.start <= first.group_start <= first.group_end <= first.end
            <= encode_utf8(text).len()
        &&& is_char_boundary(encode_utf8(text), first.start as int)
        &&& is_char_boundary(encode_utf8(text), first.group_start as int)
        &&& is_char_boundary(encode_utf8(text), first.group_end as int)
        &&& is_char_boundary(encode_utf8(text), first.end as int)
        &&& well_placed(text, captures.drop_first(), first.end as int)
    }
}

/// A self-closing tag with the given name and attributes.
pub open spec fn self_closing(name: Seq<char>) -> Seq<char> {
    "<"@ + name + " />"@
}

/// Whether a capture is an empty element: an opening tag, white space,
/// and the closing tag of the same name.
pub open spec fn pairs(text: Seq<char>, capture: Capture) -> bool {
    is_pair(
        slice_of(text, capture.start as int, capture.end as int),
        slice_of(text, capture.group_start as int, capture.group_end as int),
    )
}

/// What stands for a capture in the result: the self-closing tag of its
/// group where the capture is an empty element, the capture itself where
/// it is not.
pub open spec fn replacement(text: Seq<char>, capture: Capture) -> Seq<char> {
    if pairs(text, capture) {
        self_closing(slice_of(text, capture.group_start as int, capture.group_end as int))
    } else {
        slice_of(text, capture.start as int, capture.end as int)
    }
}

/// Whether one of the captures is an empty element.
pub open spec fn any_pairs(text: Seq<char>, captures: Seq<Capture>) -> bool {
    exists|k: int| 0 <= k < captures.len() && pairs(text, #[trigger] captures[k])
}

/// The text from byte offset `from` on, with each capture that is an empty
/// element replaced by the self-closing tag of its group.
pub open spec fn collapsed_from(text: Seq<char>, captures: Seq<Capture>, from: int) -> Seq<char>
    decreases captures.len(),
{
    if captures.len() == 0 {
        slice_of(text, from, encode_utf8(text).len() as int)
    } else {
        let first = captures[0];
        slice_of(text, from, first.start as int) + replacement(text, first) + collapsed_from(
            text,
            captures.drop_first(),
            first.end as int,
        )
    }
}

/// Where nothing is found, nothing changes.
pub proof fn lemma_nothing_found_nothing_changed(text: Seq<char>)
    ensures
        well_placed(text, Seq::empty(), 0),
        collapsed_from(text, Seq::empty(), 0) == text,
{
    let bytes = encode_utf8(text);
    assert(bytes.subrange(0, bytes.len() as int) =~= bytes);
    vstd::utf8::encode_utf8_decode_utf8(text);
}

/// Two stretches of a text that meet are one stretch.
pub proof fn lemma_slices_join(text: Seq<char>, from: int, mid: int, to: int)
    requires
        0 <= from <= mid <= to <= encode_utf8(text).len(),
        is_char_boundary(encode_utf8(text), from),
        is_char_boundary(encode_utf8(text), mid),
        is_char_boundary(encode_utf8(text), to),
    ensures
        slice_of(text, from, mid) + slice_of(text, mid, to) == slice_of(text, from, to),
{
    broadcast use vstd::utf8::group_utf8_lib;

    let bytes = encode_utf8(text);
    let front = bytes.subrange(0, to);
    vstd::utf8::valid_utf8_split(bytes, to);
    if from < to {
        vstd::utf8::is_char_boundary_iff_not_is_continuation_byte(bytes, from);
        vstd::utf8::is_char_boundary_iff_not_is_continuation_byte(front, from);
    } else {
        vstd::utf8::is_char_boundary_start_end_of_seq(front);
    }
    vstd::utf8::valid_utf8_split(front, from);
    let part = front.subrange(from, to);
    assert(part =~= bytes.subrange(from, to));
    if mid - from < part.len() {
        vstd::utf8::is_char_boundary_iff_not_is_continuation_byte(bytes, mid);
        if 0 < mid - from {
            vstd::utf8::is_char_boundary_iff_not_is_continuation_byte(part, mid - from);
        }
    } else {
        vstd::utf8::is_char_boundary_start_end_of_seq(part);
    }
    vstd::utf8::decode_utf8_split(part, mid - from);
    assert(part.subrange(0, mid - from) =~= bytes.subrange(from, mid));
    assert(part.subrange(mid - from, part.len() as int) =~= bytes.subrange(mid, to));
}

/// Collapsing never lengthens: from any place on, the collapsed text is no
/// longer than the text; it is the text where no capture is an empty
/// element, and shorter where one is.
pub proof fn lemma_collapsing_shortens(text: Seq<char>, captures: Seq<Capture>, from: int)
    requires
        0 <= from <= encode_utf8(text).len(),
        is_char_boundary(encode_utf8(text), from),
        well_placed(text, captures, from),
    ensures
        collapsed_from(text, captures, from).len() <= slice_of(
            text,
            from,
            encode_utf8(text).len() as int,
        ).len(),
        !any_pairs(text, captures) ==> collapsed_from(text, captures, from) == slice_of(
            text,
            from,
            encode_utf8(text).len() as int,
        ),
        any_pairs(text, captures) ==> collapsed_from(text, captures, from).len() < slice_of(
            text,
            from,
            encode_utf8(text).len() as int,
        ).len(),
    decreases captures.len(),
{
    broadcast use vstd::utf8::group_utf8_lib;

    let end = encode_utf8(text).len() as int;
    if captures.len() > 0 {
        reveal_strlit("<");
        reveal_strlit(" />");
        let first = captures[0];
        let rest = captures.drop_first();
        vstd::utf8::is_char_boundary_start_end_of_seq(encode_utf8(text));
        lemma_collapsing_shortens(text, rest, first.end as int);
        lemma_slices_join(text, from, first.start as int, first.end as int);
        lemma_slices_join(text, from, first.end as int, end);
        let before = slice_of(text, from, first.start as int);
        let whole = slice_of(text, first.start as int, first.end as int);
        let after = slice_of(text, first.end as int, end);
        assert(slice_of(text, from, end) == (before + whole) + after);
        assert(any_pairs(text, captures) <==> pairs(text, first) || any_pairs(text, rest)) by {
            if any_pairs(text, rest) {
                let k = choose|k: int| 0 <= k < rest.len() && pairs(text, #[trigger] rest[k]);
                assert(captures[k + 1] == rest[k]);
            }
            if any_pairs(text, captures) && !pairs(text, first) {
                let k = choose|k: int|
                    0 <= k < captures.len() && pairs(text, #[trigger] captures[k]);
                assert(rest[k - 1] == captures[k]);
            }
        }
        assert(collapsed_from(text, captures, from) == (before + replacement(text, first))
            + collapsed_from(text, rest, first.end as int));
    } else {
        assert(!any_pairs(text, captures));
    }
}

/// The part of `text` between two byte offsets that lie between characters.
fn slice<'a>(text: &'a str, from: usize, to: usize) -> (piece: &'a str)
    requires
        from <= to <= encode_utf8(text@).len(),
        is_char_boundary(encode_utf8(text@), from as int),
        is_char_boundary(encode_utf8(text@), to as int),
    ensures
        piece@ == slice_of(text@, from as int, to as int),
{
    broadcast use vstd::utf8::group_utf8_lib;

    let ghost bytes = encode_utf8(text@);
    let (head, _) = text.split_at(to);
    proof {
        let front = bytes.subrange(0, to as int);
        assert(head.spec_bytes() == front);
        vstd::utf8::valid_utf8_split(bytes, to as int);
        if from < to {
            vstd::utf8::is_char_boundary_iff_not_is_continuation_byte(bytes, from as int);
            vstd::utf8::is_char_boundary_iff_not_is_continuation_byte(front, from as int);
        } else {
            vstd::utf8::is_char_boundary_start_end_of_seq(front);
        }
    }
    let (_, piece) = head.split_at(from);
    proof {
        assert(piece.spec_bytes() =~= bytes.subrange(from as int, to as int));
        vstd::utf8::encode_utf8_decode_utf8(piece@);
    }
    piece
}

/// Tells whether the captures are well placed in `text`.
pub fn check_placement(text: &str, captures: &Vec<Capture>) -> (ok: bool)
    ensures
        ok == well_placed(text@, captures@, 0),
{
    let len = text.as_bytes().len();
    let mut from: usize = 0;
    let mut i: usize = 0;
    assert(captures@.skip(0) =~= captures@);
    while i < captures.len()
        invariant
            i <= captures.len(),
            len == encode_utf8(text@).len(),
            well_placed(text@, captures@, 0) == well_placed(
                text@,
                captures@.skip(i as int),
                from as int,
            ),
        decreases captures.len() - i,
    {
        let c = captures[i];
        proof {
            assert(captures@.skip(i as int)[0] == c);
            assert(captures@.skip(i as int).drop_first() =~= captures@.skip(i + 1));
        }
        let in_order = from <= c.start && c.start <= c.group_start && c.group_start <= c.group_end
            && c.group_end <= c.end && c.end <= len;
        if !in_order || !text.is_char_boundary(c.start) || !text.is_char_boundary(c.group_start)
            || !text.is_char_boundary(c.group_end) || !text.is_char_boundary(c.end) {
            return false;
        }
        from = c.end;
        i += 1;
    }
    true
}

/// Replaces each capture in `text` that is an empty element by the
/// self-closing tag of its group and leaves the rest as it is.
pub fn collapse_captures(text: &str, captures: &Vec<Capture>) -> (out: String)
    requires
        well_placed(text@, captures@, 0),
    ensures
        out@ == collapsed_from(text@, captures@, 0),
{
    broadcast use vstd::utf8::group_utf8_lib;

    let len = text.as_bytes().len();
    let mut out = String::new();
    let mut from: usize = 0;
    let mut i: usize = 0;
    assert(captures@.skip(0) =~= captures@);
    assert(out@ + collapsed_from(text@, captures@, 0) =~= collapsed_from(text@, captures@, 0));
    while i < captures.len()
        invariant
            i <= captures.len(),
            len == encode_utf8(text@).len(),
            from <= len,
            is_char_boundary(encode_utf8(text@), from as int),
            well_placed(text@, captures@.skip(i as int), from as int),
            out@ + collapsed_from(text@, captures@.skip(i as int), from as int) == collapsed_from(
                text@,
                captures@,
                0,
            ),
        decreases captures.len() - i,
    {
        let c = captures[i];
        proof {
            assert(captures@.skip(i as int)[0] == c);
            assert(captures@.skip(i as int).drop_first() =~= captures@.skip(i + 1));
        }
        out.append(slice(text, from, c.start));
        let whole = slice(text, c.start, c.end);
        let group = slice(text, c.group_start, c.group_end);
        if check_pair(&chars_of(whole), &chars_of(group)) {
            out.append("<");
            out.append(group);
            out.append(" />");
        } else {
            out.append(whole);
        }
        from = c.end;
        i += 1;
    }
    proof {
        assert(captures@.skip(i as int) =~= Seq::empty());
        vstd::utf8::is_char_boundary_start_end_of_seq(encode_utf8(text@));
    }
    out.append(slice(text, from, len));
    out
}

/// What `replace_empty_tags` makes of `xml` when the search for empty
/// elements gives `found`.
pub open spec fn empty_tags_replaced(xml: Seq<char>, found: Option<Seq<Capture>>) -> Result<
    Seq<char>,
    Error,
> {
    match found {
        Some(captures) => if well_placed(xml, captures, 0) {
            Ok(collapsed_from(xml, captures, 0))
        } else {
            Err(Error::Format)
        },
        None => Err(Error::Format),
    }
}

/// Replaces every element that holds only white space by a self-closing
/// tag: `<a b="c">  </a>` becomes `<a b="c" />`. An opening tag that is
/// followed by the closing tag of another name is left as it is. The
/// result is never longer than the text, and it is the text where nothing
/// that was found is an empty element.
pub fn replace_empty_tags(xml: &str) -> (r: Result<String, Error>)
    ensures
        match empty_tags_replaced(xml@, regex_captures(EMPTY_PAIR@, xml@)) {
            Ok(text) => r matches Ok(out) && out@ == text,
            Err(e) => r == Err::<String, Error>(e),
        },
        r matches Ok(out) ==> {
            &&& out@.len() <= xml@.len()
            &&& out@ == xml@ <==> !any_pairs(xml@, regex_captures(EMPTY_PAIR@, xml@)->0)
        },
{
    match find_captures(EMPTY_PAIR, xml) {
        Some(captures) => {
            if check_placement(xml, &captures) {
                proof {
                    vstd::utf8::encode_utf8_valid_utf8(xml@);
                    vstd::utf8::is_char_boundary_start_end_of_seq(encode_utf8(xml@));
                    lemma_collapsing_shortens(xml@, captures@, 0);
                    lemma_nothing_found_nothing_changed(xml@);
                }
                Ok(collapse_captures(xml, &captures))
            } else {
                Err(Error::Format)
            }
        },
        None => Err(Error::Format),
    }
}

} // verus!
