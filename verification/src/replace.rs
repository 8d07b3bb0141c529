//! Replacing every occurrence of one text by another.

use crate::text::{chars_of, push_char};
use vstd::prelude::*;
use vstd::string::StringExecFns;

verus! {

/// The text with every occurrence of `from` replaced by `to`. Occurrences
/// are taken from left to right and do not overlap; an empty `from` occurs
/// nowhere.
pub open spec fn replaced(text: Seq<char>, from: Seq<char>, to: Seq<char>) -> Seq<char>
    decreases text.len(),
{
    if from.len() == 0 || text.len() < from.len() {
        text
    } else if text.subrange(0, from.len() as int) == from {
        to + replaced(text.skip(from.len() as int), from, to)
    } else {
        seq![text[0]] + replaced(text.drop_first(), from, to)
    }
}

/// Whether `part` stands in `text` at index `at`.
pub open spec fn occurs_at(text: Seq<char>, part: Seq<char>, at: int) -> bool {
    0 <= at && at + part.len() <= text.len() && text.subrange(at, at + part.len()) == part
}

/// Whether `part` stands nowhere in `text`.
pub open spec fn free_of(text: Seq<char>, part: Seq<char>) -> bool {
    forall|at: int| !occurs_at(text, part, at)
}

/// One step of the replacing: an occurrence at the start is replaced and
/// passed over, any other first character is kept.
pub proof fn lemma_replaced_step(text: Seq<char>, from: Seq<char>, to: Seq<char>)
    requires
        from.len() > 0,
        text.len() > 0,
    ensures
        occurs_at(text, from, 0) ==> replaced(text, from, to) == to + replaced(
            text.skip(from.len() as int),
            from,
            to,
        ),
        !occurs_at(text, from, 0) ==> replaced(text, from, to) == seq![text[0]] + replaced(
            text.drop_first(),
            from,
            to,
        ),
{
    if text.len() < from.len() {
        assert(replaced(text.drop_first(), from, to) == text.drop_first());
        assert(seq![text[0]] + text.drop_first() =~= text);
    }
}

/// Replacing goes piece by piece: where no occurrence of `from` lies
/// across the end of `first`, two texts can be replaced in one after the
/// other.
pub proof fn lemma_replaced_concat(
    first: Seq<char>,
    second: Seq<char>,
    from: Seq<char>,
    to: Seq<char>,
)
    requires
        from.len() > 0,
        forall|at: int|
            0 <= at < first.len() && first.len() < at + from.len() ==> !occurs_at(
                first + second,
                from,
                at,
            ),
    ensures
        replaced(first + second, from, to) == replaced(first, from, to) + replaced(
            second,
            from,
            to,
        ),
    decreases first.len(),
{
    let whole = first + second;
    let len = from.len() as int;
    if first.len() == 0 {
        assert(whole =~= second);
        assert(replaced(first, from, to) + replaced(second, from, to) =~= replaced(
            second,
            from,
            to,
        ));
    } else {
        lemma_replaced_step(whole, from, to);
        lemma_replaced_step(first, from, to);
        if occurs_at(whole, from, 0) {
            assert(len <= first.len());
            assert(first.subrange(0, len) =~= whole.subrange(0, len));
            let rest = first.skip(len);
            assert(whole.skip(len) =~= rest + second);
            assert forall|at: int|
                0 <= at < rest.len() && rest.len() < at + from.len() implies !occurs_at(
                rest + second,
                from,
                at,
            ) by {
                assert(!occurs_at(whole, from, at + len));
                if at + len + len <= whole.len() {
                    assert((rest + second).subrange(at, at + len) =~= whole.subrange(
                        at + len,
                        at + len + len,
                    ));
                }
            }
            lemma_replaced_concat(rest, second, from, to);
            assert(to + (replaced(rest, from, to) + replaced(second, from, to)) =~= (to
                + replaced(rest, from, to)) + replaced(second, from, to));
        } else {
            if len <= first.len() {
                assert(first.subrange(0, len) =~= whole.subrange(0, len));
            }
            let rest = first.drop_first();
            assert(whole.drop_first() =~= rest + second);
            assert forall|at: int|
                0 <= at < rest.len() && rest.len() < at + from.len() implies !occurs_at(
                rest + second,
                from,
                at,
            ) by {
                assert(!occurs_at(whole, from, at + 1));
                if at + 1 + len <= whole.len() {
                    assert((rest + second).subrange(at, at + len) =~= whole.subrange(
                        at + 1,
                        at + 1 + len,
                    ));
                }
            }
            lemma_replaced_concat(rest, second, from, to);
            assert(seq![first[0]] + (replaced(rest, from, to) + replaced(second, from, to))
                =~= (seq![first[0]] + replaced(rest, from, to)) + replaced(second, from, to));
        }
    }
}

/// A first character with which `from` does not start is kept.
pub proof fn lemma_replaced_keeps_first(text: Seq<char>, from: Seq<char>, to: Seq<char>)
    requires
        from.len() > 0,
        text.len() > 0,
        text[0] != from[0],
    ensures
        replaced(text, from, to).len() > 0,
        replaced(text, from, to)[0] == text[0],
{
    lemma_replaced_step(text, from, to);
    if occurs_at(text, from, 0) {
        assert(text.subrange(0, from.len() as int)[0] == from[0]);
    }
}

/// What stands before the first occurrence stays: where `from` occurs at
/// none of the first `n` indices, the first `n` characters are kept and
/// the replacing goes on behind them.
pub proof fn lemma_replaced_skips(text: Seq<char>, from: Seq<char>, to: Seq<char>, n: int)
    requires
        from.len() > 0,
        0 <= n <= text.len(),
        forall|at: int| 0 <= at < n ==> !occurs_at(text, from, at),
    ensures
        replaced(text, from, to) == text.take(n) + replaced(text.skip(n), from, to),
    decreases n,
{
    if n == 0 {
        assert(text.skip(0) =~= text);
        assert(text.take(0) + text =~= text);
    } else {
        assert(!occurs_at(text, from, 0));
        let rest = text.drop_first();
        assert forall|at: int| 0 <= at < n - 1 implies !occurs_at(rest, from, at) by {
            assert(!occurs_at(text, from, at + 1));
            if at + from.len() <= rest.len() {
                assert(rest.subrange(at, at + from.len()) =~= text.subrange(
                    at + 1,
                    at + 1 + from.len(),
                ));
            }
        }
        lemma_replaced_skips(rest, from, to, n - 1);
        assert(rest.skip(n - 1) =~= text.skip(n));
        assert(seq![text[0]] + rest.take(n - 1) =~= text.take(n));
        if text.len() < from.len() {
            assert(replaced(rest, from, to) == rest);
            assert(seq![text[0]] + rest =~= text);
        }
        assert(replaced(text, from, to) == seq![text[0]] + replaced(rest, from, to));
        assert(seq![text[0]] + (rest.take(n - 1) + replaced(rest.skip(n - 1), from, to)) =~= (
        seq![text[0]] + rest.take(n - 1)) + replaced(rest.skip(n - 1), from, to));
    }
}

/// A text in which `from` stands nowhere is left as it is.
pub proof fn lemma_nothing_to_replace(text: Seq<char>, from: Seq<char>, to: Seq<char>)
    requires
        free_of(text, from),
    ensures
        replaced(text, from, to) == text,
{
    if from.len() > 0 {
        lemma_replaced_skips(text, from, to, text.len() as int);
        assert(text.take(text.len() as int) =~= text);
        assert(text.skip(text.len() as int) =~= Seq::<char>::empty());
        assert(text + Seq::<char>::empty() =~= text);
    }
}

/// Tells whether `pattern` stands in `text` at index `at`.
fn stands_at(text: &Vec<char>, at: usize, pattern: &Vec<char>) -> (found: bool)
    requires
        at + pattern.len() <= text.len(),
    ensures
        found == occurs_at(text@, pattern@, at as int),
{
    let mut k: usize = 0;
    while k < pattern.len()
        invariant
            k <= pattern.len(),
            at + pattern.len() <= text.len(),
            text@.subrange(at as int, at + k) == pattern@.take(k as int),
        decreases pattern.len() - k,
    {
        if text[at + k] != pattern[k] {
            assert(text@.subrange(at as int, at + pattern.len())[k as int] != pattern@[k as int]);
            return false;
        }
        assert(text@.subrange(at as int, at + k + 1) =~= text@.subrange(at as int, at + k).push(
            text@[at + k],
        ));
        assert(pattern@.take(k + 1) =~= pattern@.take(k as int).push(pattern@[k as int]));
        k += 1;
    }
    assert(pattern@.take(k as int) =~= pattern@);
    true
}

/// Replaces every occurrence of `from` in `text` by `to`.
pub fn replace_text(text: &str, from: &str, to: &str) -> (out: String)
    ensures
        out@ == replaced(text@, from@, to@),
{
    let source = chars_of(text);
    let pattern = chars_of(from);
    if pattern.len() == 0 {
        return String::from_str(text);
    }
    let mut out = String::new();
    let mut i: usize = 0;
    assert(source@.skip(0) =~= source@);
    assert(out@ + replaced(source@, pattern@, to@) =~= replaced(source@, pattern@, to@));
    while i < source.len()
        invariant
            i <= source.len(),
            pattern.len() > 0,
            out@ + replaced(source@.skip(i as int), pattern@, to@) == replaced(
                source@,
                pattern@,
                to@,
            ),
        decreases source.len() - i,
    {
        let ghost rest = source@.skip(i as int);
        if pattern.len() <= source.len() - i && stands_at(&source, i, &pattern) {
            proof {
                assert(rest.subrange(0, pattern.len() as int) =~= source@.subrange(
                    i as int,
                    i + pattern.len(),
                ));
                assert(rest.skip(pattern.len() as int) =~= source@.skip(i + pattern.len()));
            }
            out.append(to);
            i += pattern.len();
        } else {
            proof {
                if pattern.len() <= source.len() - i {
                    assert(rest.subrange(0, pattern.len() as int) =~= source@.subrange(
                        i as int,
                        i + pattern.len(),
                    ));
                }
                assert(rest.drop_first() =~= source@.skip(i + 1));
                lemma_replaced_step(rest, pattern@, to@);
            }
            push_char(&mut out, source[i]);
            i += 1;
        }
    }
    assert(source@.skip(i as int) =~= Seq::empty());
    out
}

} // verus!
