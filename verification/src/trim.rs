//! Cutting white space off both ends of a text.
use vstd::prelude::*;
use vstd::string::*;

verus! {

/// The character has the Unicode property `White_Space`.
pub open spec fn is_white(c: char) -> bool {
    ||| '\u{9}' <= c <= '\u{d}'
    ||| c == ' '
    ||| c == '\u{85}'
    ||| c == '\u{a0}'
    ||| c == '\u{1680}'
    ||| '\u{2000}' <= c <= '\u{200a}'
    ||| c == '\u{2028}'
    ||| c == '\u{2029}'
    ||| c == '\u{202f}'
    ||| c == '\u{205f}'
    ||| c == '\u{3000}'
}

/// The text without white space at its start.
pub open spec fn without_leading(text: Seq<char>) -> Seq<char>
    decreases text.len(),
{
    if text.len() > 0 && is_white(text[0]) {
        without_leading(text.skip(1))
    } else {
        text
    }
}

/// The text without white space at its end.
pub open spec fn without_trailing(text: Seq<char>) -> Seq<char>
    decreases text.len(),
{
    if text.len() > 0 && is_white(text.last()) {
        without_trailing(text.drop_last())
    } else {
        text
    }
}

/// The text without white space at its ends.
pub open spec fn trimmed(text: Seq<char>) -> Seq<char> {
    without_trailing(without_leading(text))
}

/// Says whether a character is white space.
pub fn white_space(c: char) -> (r: bool)
    ensures
        r == is_white(c),
{
    ('\u{9}' <= c && c <= '\u{d}') || c == ' ' || c == '\u{85}' || c == '\u{a0}' || c == '\u{1680}'
        || ('\u{2000}' <= c && c <= '\u{200a}') || c == '\u{2028}' || c == '\u{2029}' || c
        == '\u{202f}' || c == '\u{205f}' || c == '\u{3000}'
}

/// Cuts white space off both ends.
pub fn trim(text: &str) -> (r: String)
    ensures
        r@ == trimmed(text@),
{
    let chars = crate::text::to_chars(text);
    let mut from: usize = 0;
    assert(chars@.skip(0) =~= chars@);
    while from < chars.len() && white_space(chars[from])
        invariant
            from <= chars.len(),
            without_leading(chars@) == without_leading(chars@.skip(from as int)),
        decreases chars.len() - from,
    {
        assert(chars@.skip(from as int).skip(1) =~= chars@.skip(from as int + 1));
        from += 1;
    }
    let ghost kept = chars@.skip(from as int);
    let mut to: usize = chars.len();
    assert(kept.take(to - from) =~= kept);
    while to > from && white_space(chars[to - 1])
        invariant
            from <= to <= chars.len(),
            kept == chars@.skip(from as int),
            without_trailing(kept) == without_trailing(kept.take(to - from)),
        decreases to,
    {
        assert(kept.take(to - from).last() == chars@[to - 1]);
        assert(kept.take(to - from).drop_last() =~= kept.take(to - from - 1));
        to -= 1;
    }
    proof {
        if to > from {
            assert(kept.take(to - from).last() == chars@[to - 1]);
        }
        assert(kept.take(to - from) =~= text@.subrange(from as int, to as int));
    }
    text.substring_char(from, to).to_string()
}

proof fn lemma_without_trailing(text: Seq<char>)
    ensures
        without_trailing(text).len() <= text.len(),
        without_trailing(text) == text.take(without_trailing(text).len() as int),
        without_trailing(text).len() > 0 ==> !is_white(without_trailing(text).last()),
        forall|i: int|
            without_trailing(text).len() <= i < text.len() ==> is_white(#[trigger] text[i]),
    decreases text.len(),
{
    if text.len() > 0 && is_white(text.last()) {
        lemma_without_trailing(text.drop_last());
        let n = without_trailing(text).len() as int;
        assert(text.drop_last().take(n) =~= text.take(n));
        assert forall|i: int| n <= i < text.len() implies is_white(#[trigger] text[i]) by {
            if i < text.len() - 1 {
                assert(text.drop_last()[i] == text[i]);
            }
        }
    } else {
        assert(text.take(text.len() as int) =~= text);
    }
}

proof fn lemma_without_leading(text: Seq<char>)
    ensures
        without_leading(text).len() <= text.len(),
        without_leading(text) == text.skip(text.len() - without_leading(text).len()),
        without_leading(text).len() > 0 ==> !is_white(without_leading(text)[0]),
        forall|i: int|
            0 <= i < text.len() - without_leading(text).len() ==> is_white(#[trigger] text[i]),
    decreases text.len(),
{
    if text.len() > 0 && is_white(text[0]) {
        lemma_without_leading(text.skip(1));
        let n = text.len() - without_leading(text).len();
        assert(text.skip(1).skip(n - 1) =~= text.skip(n));
        assert forall|i: int| 0 <= i < n implies is_white(#[trigger] text[i]) by {
            if i > 0 {
                assert(text.skip(1)[i - 1] == text[i]);
            }
        }
    } else {
        assert(text.skip(0) =~= text);
    }
}

/// What is left of a text is a part of it that neither starts nor ends with white space, and
/// nothing but white space stands before it and behind it.
pub proof fn lemma_trimming_cuts_white_space_only(text: Seq<char>) -> (from: int)
    ensures
        0 <= from <= from + trimmed(text).len() <= text.len(),
        trimmed(text) == text.subrange(from, from + trimmed(text).len()),
        trimmed(text).len() > 0 ==> !is_white(trimmed(text)[0]) && !is_white(trimmed(text).last()),
        forall|i: int| 0 <= i < from ==> is_white(#[trigger] text[i]),
        forall|i: int|
            from + trimmed(text).len() <= i < text.len() ==> is_white(#[trigger] text[i]),
{
    let kept = without_leading(text);
    let from = text.len() - kept.len();
    lemma_without_leading(text);
    lemma_without_trailing(kept);
    let n = trimmed(text).len() as int;
    assert(kept.take(n) =~= text.subrange(from, from + n));
    assert forall|i: int| from + n <= i < text.len() implies is_white(#[trigger] text[i]) by {
        assert(kept[i - from] == text[i]);
    }
    from
}

/// A text without white space at its ends is left as it is.
pub proof fn lemma_trimming_leaves_trimmed_text(text: Seq<char>)
    requires
        text.len() > 0 ==> !is_white(text[0]) && !is_white(text.last()),
    ensures
        trimmed(text) == text,
{
}

/// White space is the ASCII kind, the controls of lines, and the spaces of Unicode, by their code
/// points.
pub proof fn lemma_white_space_by_code_points(c: char)
    ensures
        is_white(c) <==> {
            let n = c as u32;
            9 <= n <= 13 || n == 32 || n == 0x85 || n == 0xa0 || n == 0x1680 || 0x2000 <= n <= 0x200a
                || n == 0x2028 || n == 0x2029 || n == 0x202f || n == 0x205f || n == 0x3000
        },
{
}

} // verus!
