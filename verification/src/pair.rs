//! The shape of an element to collapse: an opening tag, white space, and
//! the closing tag of the same name.

use vstd::prelude::*;

verus! {

/// Whether a character is white space: the characters that Unicode gives
/// the property `White_Space`.
pub open spec fn is_space(c: char) -> bool {
    ||| '\u{9}' <= c <= '\u{d}'
    ||| c == ' '
    ||| c == '\u{85}'
    ||| c == '\u{a0}'
    ||| c == '\u{1680}'
    ||| '\u{2000}' <= c <= '\u{200a}'
    ||| c == '\u{2028}'
    ||| c == '\u{2029}'
    ||| c == '\u{202f}'
    ||| c == '\u{205f}'
    ||| c == '\u{3000}'
}

/// The index behind the white space that stands in `text` from `from` on,
/// and before `end`.
pub open spec fn space_end(text: Seq<char>, from: int, end: int) -> int
    decreases end - from,
{
    if from < 0 || from >= end || end > text.len() || !is_space(text[from]) {
        from
    } else {
        space_end(text, from + 1, end)
    }
}

/// The index behind the name that stands in `text` from `from` on, and
/// before `end`: a name goes up to the next white space.
pub open spec fn name_end(text: Seq<char>, from: int, end: int) -> int
    decreases end - from,
{
    if from < 0 || from >= end || end > text.len() || is_space(text[from]) {
        from
    } else {
        name_end(text, from + 1, end)
    }
}

/// The index behind the last `<` of a text, or 0 where it has none: where
/// the last tag starts that the text opens.
pub open spec fn last_open(text: Seq<char>) -> int
    decreases text.len(),
{
    if text.len() == 0 {
        0
    } else if text.last() == '<' {
        text.len() as int
    } else {
        last_open(text.drop_last())
    }
}

/// Whether a tag that starts in `text` at `from` ends before the text
/// does: whether a `>` stands there outside the quotes of an attribute.
/// `quote` is the quote that is open at `from`, if one is.
pub open spec fn ends_early(text: Seq<char>, from: int, quote: Option<char>) -> bool
    decreases text.len() - from,
{
    if from < 0 || from >= text.len() {
        false
    } else {
        match quote {
            None => if text[from] == '>' {
                true
            } else if text[from] == '"' || text[from] == '\'' {
                ends_early(text, from + 1, Some(text[from]))
            } else {
                ends_early(text, from + 1, None)
            },
            Some(open) => if text[from] == open {
                ends_early(text, from + 1, None)
            } else {
                ends_early(text, from + 1, quote)
            },
        }
    }
}

/// Whether `whole` is an empty element whose opening tag is the end of
/// `group`: `<`, the group, `>`, white space, and a closing tag, `</`, a
/// name, possibly white space, `>`. The name is that of the last tag that
/// the group opens, and that tag ends where the group ends.
pub open spec fn is_pair(whole: Seq<char>, group: Seq<char>) -> bool {
    let g = group.len() as int;
    let len = whole.len() as int;
    let close = space_end(whole, g + 2, len);
    let open = last_open(group);
    let open_end = name_end(group, open, g);
    let close_end = name_end(whole, close + 2, len - 1);
    &&& len >= g + 7
    &&& whole[0] == '<'
    &&& whole.subrange(1, 1 + g) == group
    &&& whole[1 + g] == '>'
    &&& g + 2 < close
    &&& close + 3 < len
    &&& whole[close] == '<'
    &&& whole[close + 1] == '/'
    &&& whole[len - 1] == '>'
    &&& open < open_end
    &&& !ends_early(group, open, None)
    &&& group.subrange(open, open_end) == whole.subrange(close + 2, close_end)
    &&& space_end(whole, close_end, len - 1) == len - 1
}

/// Tells whether a character is white space.
pub fn is_space_char(c: char) -> (r: bool)
    ensures
        r == is_space(c),
{
    ('\u{9}' <= c && c <= '\u{d}') || c == ' ' || c == '\u{85}' || c == '\u{a0}' || c
        == '\u{1680}' || ('\u{2000}' <= c && c <= '\u{200a}') || c == '\u{2028}' || c
        == '\u{2029}' || c == '\u{202f}' || c == '\u{205f}' || c == '\u{3000}'
}

/// Finds the index behind the white space from `from` on.
fn find_space_end(text: &Vec<char>, from: usize, end: usize) -> (r: usize)
    requires
        from <= end <= text.len(),
    ensures
        r == space_end(text@, from as int, end as int),
        from <= r <= end,
{
    let mut i: usize = from;
    while i < end && is_space_char(text[i])
        invariant
            from <= i <= end <= text.len(),
            space_end(text@, from as int, end as int) == space_end(text@, i as int, end as int),
        decreases end - i,
    {
        i += 1;
    }
    i
}

/// Finds the index behind the name from `from` on.
fn find_name_end(text: &Vec<char>, from: usize, end: usize) -> (r: usize)
    requires
        from <= end <= text.len(),
    ensures
        r == name_end(text@, from as int, end as int),
        from <= r <= end,
{
    let mut i: usize = from;
    while i < end && !is_space_char(text[i])
        invariant
            from <= i <= end <= text.len(),
            name_end(text@, from as int, end as int) == name_end(text@, i as int, end as int),
        decreases end - i,
    {
        i += 1;
    }
    i
}

/// Finds the index behind the last `<`.
fn find_last_open(text: &Vec<char>) -> (r: usize)
    ensures
        r == last_open(text@),
        r <= text.len(),
{
    let mut open: usize = 0;
    let mut i: usize = 0;
    assert(text@.take(0) =~= Seq::empty());
    while i < text.len()
        invariant
            i <= text.len(),
            open <= i,
            open == last_open(text@.take(i as int)),
        decreases text.len() - i,
    {
        proof {
            let next = text@.take(i + 1);
            assert(next.drop_last() =~= text@.take(i as int));
            assert(next.last() == text@[i as int]);
        }
        if text[i] == '<' {
            open = i + 1;
        }
        i += 1;
    }
    assert(text@.take(i as int) =~= text@);
    open
}

/// Tells whether two stretches of the same length hold the same
/// characters.
fn same_stretch(first: &Vec<char>, at: usize, second: &Vec<char>, from: usize, len: usize) -> (r:
    bool)
    requires
        at + len <= first.len(),
        from + len <= second.len(),
    ensures
        r == (first@.subrange(at as int, at + len) == second@.subrange(from as int, from + len)),
{
    let mut k: usize = 0;
    while k < len
        invariant
            k <= len,
            at + len <= first.len(),
            from + len <= second.len(),
            first@.subrange(at as int, at + k) == second@.subrange(from as int, from + k),
        decreases len - k,
    {
        if first[at + k] != second[from + k] {
            assert(first@.subrange(at as int, at + len)[k as int] != second@.subrange(
                from as int,
                from + len,
            )[k as int]);
            return false;
        }
        assert(first@.subrange(at as int, at + k + 1) =~= first@.subrange(at as int, at + k).push(
            first@[at + k],
        ));
        assert(second@.subrange(from as int, from + k + 1) =~= second@.subrange(
            from as int,
            from + k,
        ).push(second@[from + k]));
        k += 1;
    }
    true
}

/// Tells whether a tag that starts at `from` ends before the text does.
fn tag_ends_early(text: &Vec<char>, from: usize) -> (r: bool)
    requires
        from <= text.len(),
    ensures
        r == ends_early(text@, from as int, None),
{
    let mut quote: Option<char> = None;
    let mut i: usize = from;
    while i < text.len()
        invariant
            from <= i <= text.len(),
            ends_early(text@, from as int, None) == ends_early(text@, i as int, quote),
        decreases text.len() - i,
    {
        let c = text[i];
        match quote {
            None => {
                if c == '>' {
                    return true;
                }
                if c == '"' || c == '\'' {
                    quote = Some(c);
                }
            },
            Some(open) => {
                if c == open {
                    quote = None;
                }
            },
        }
        i += 1;
    }
    false
}

/// Tells whether `whole` is an empty element whose opening tag is the end
/// of `group`.
pub fn check_pair(whole: &Vec<char>, group: &Vec<char>) -> (r: bool)
    ensures
        r == is_pair(whole@, group@),
{
    let g = group.len();
    let len = whole.len();
    if len < 7 || g > len - 7 {
        return false;
    }
    if whole[0] != '<' || whole[1 + g] != '>' || whole[len - 1] != '>' {
        return false;
    }
    if !same_stretch(whole, 1, group, 0, g) {
        assert(group@.subrange(0, g as int) =~= group@);
        return false;
    }
    assert(group@.subrange(0, g as int) =~= group@);
    let close = find_space_end(whole, g + 2, len);
    if close <= g + 2 || len - close <= 3 {
        return false;
    }
    if whole[close] != '<' || whole[close + 1] != '/' {
        return false;
    }
    let open = find_last_open(group);
    let open_end = find_name_end(group, open, g);
    let close_end = find_name_end(whole, close + 2, len - 1);
    if open_end <= open || tag_ends_early(group, open) {
        return false;
    }
    if open_end - open != close_end - (close + 2) {
        assert(group@.subrange(open as int, open_end as int).len() != whole@.subrange(
            close + 2,
            close_end as int,
        ).len());
        return false;
    }
    if !same_stretch(group, open, whole, close + 2, open_end - open) {
        return false;
    }
    find_space_end(whole, close_end, len - 1) == len - 1
}

} // verus!
