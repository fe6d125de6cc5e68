//! Text in fixed size blocks of memory, and the lines in it.
use vstd::prelude::*;
use vstd::string::*;

verus! {

/// The bytes before the first zero byte.
pub open spec fn until_nul(bytes: Seq<u8>) -> Seq<u8>
    decreases bytes.len(),
{
    if bytes.len() == 0 || bytes[0] == 0 {
        Seq::empty()
    } else {
        seq![bytes[0]] + until_nul(bytes.skip(1))
    }
}

/// The text of a zero terminated block: what stands before the first zero byte, or `ERR` if that
/// is not UTF-8.
pub open spec fn block_text(bytes: Seq<u8>) -> Seq<char> {
    if vstd::utf8::valid_utf8(until_nul(bytes)) {
        vstd::utf8::decode_utf8(until_nul(bytes))
    } else {
        "ERR"@
    }
}

/// How many characters stand before the first `c`.
pub open spec fn before(text: Seq<char>, c: char) -> nat
    decreases text.len(),
{
    if text.len() == 0 || text[0] == c {
        0
    } else {
        1 + before(text.skip(1), c)
    }
}

/// The text without a carriage return at its end.
pub open spec fn without_return(line: Seq<char>) -> Seq<char> {
    if line.len() > 0 && line.last() == '\r' {
        line.drop_last()
    } else {
        line
    }
}

/// The lines of a text. A line ends before a line feed, or before a carriage return and a line
/// feed; the last one may also end with the text. A text that ends with a line feed has no empty
/// line after it.
pub open spec fn lines(text: Seq<char>) -> Seq<Seq<char>>
    decreases text.len(),
{
    let end = before(text, '\n');
    if text.len() == 0 {
        Seq::empty()
    } else if end < text.len() {
        seq![without_return(text.take(end as int))] + lines(text.skip(end as int + 1))
    } else {
        seq![text]
    }
}

/// How many characters stand before the first colon that a space follows.
pub open spec fn before_separator(line: Seq<char>) -> nat
    decreases line.len(),
{
    if line.len() < 2 {
        line.len()
    } else if line[0] == ':' && line[1] == ' ' {
        0
    } else {
        1 + before_separator(line.skip(1))
    }
}

/// What stands behind the first `": "` of a line, or nothing if there is none.
pub open spec fn line_value(line: Seq<char>) -> Seq<char> {
    if before_separator(line) < line.len() {
        line.skip(before_separator(line) as int + 2)
    } else {
        Seq::empty()
    }
}

/// The value of a line of a text, or nothing if the text has fewer lines.
pub open spec fn nth_value(text: Seq<char>, n: int) -> Seq<char> {
    if n < lines(text).len() {
        line_value(lines(text)[n])
    } else {
        Seq::empty()
    }
}

/// Calls `String::from_utf8`: the bytes are a text exactly if they are well formed UTF-8, and
/// then the text is the one that they encode.
#[verifier::external_body]
fn utf8_text(bytes: Vec<u8>) -> (r: Option<String>)
    ensures
        r is Some == vstd::utf8::valid_utf8(bytes@),
        r is Some ==> r->0@ == vstd::utf8::decode_utf8(bytes@),
{
    String::from_utf8(bytes).ok()
}

/// The text of a zero terminated block.
pub fn decode_block(bytes: &Vec<u8>) -> (r: String)
    ensures
        r@ == block_text(bytes@),
{
    let mut raw: Vec<u8> = Vec::new();
    let mut i: usize = 0;
    assert(bytes@.skip(0) =~= bytes@);
    assert(raw@ + until_nul(bytes@.skip(0)) =~= until_nul(bytes@));
    while i < bytes.len() && bytes[i] != 0
        invariant
            i <= bytes.len(),
            raw@ + until_nul(bytes@.skip(i as int)) == until_nul(bytes@),
        decreases bytes.len() - i,
    {
        let ghost rest = bytes@.skip(i as int);
        let ghost taken = raw@;
        raw.push(bytes[i]);
        i += 1;
        proof {
            assert(rest.skip(1) =~= bytes@.skip(i as int));
            assert(raw@ + until_nul(bytes@.skip(i as int)) =~= taken + until_nul(rest));
        }
    }
    assert(raw@ =~= until_nul(bytes@));
    match utf8_text(raw) {
        Some(text) => text,
        None => "ERR".to_string(),
    }
}

/// The characters of a text.
pub fn to_chars(text: &str) -> (r: Vec<char>)
    ensures
        r@ == text@,
{
    let mut r: Vec<char> = Vec::new();
    for c in it: text.chars()
        invariant
            it.seq() == text@,
            r@ == it.seq().take(it.index() as int),
    {
        r.push(c);
    }
    r
}

/// Looking for `c` behind characters that are not `c`.
proof fn lemma_before_skips(text: Seq<char>, c: char, k: int)
    requires
        0 <= k <= text.len(),
        forall|j: int| 0 <= j < k ==> text[j] != c,
    ensures
        before(text, c) == k + before(text.skip(k), c),
    decreases k,
{
    if k == 0 {
        assert(text.skip(0) =~= text);
    } else {
        lemma_before_skips(text.skip(1), c, k - 1);
        assert(text.skip(1).skip(k - 1) =~= text.skip(k));
    }
}

/// No separator starts in the first `k` characters.
proof fn lemma_separator_skips(line: Seq<char>, k: int)
    requires
        0 <= k < line.len(),
        forall|j: int| 0 <= j < k ==> !(line[j] == ':' && #[trigger] line[j + 1] == ' '),
    ensures
        before_separator(line) == k + before_separator(line.skip(k)),
    decreases k,
{
    if k == 0 {
        assert(line.skip(0) =~= line);
    } else {
        let rest = line.skip(1);
        assert forall|j: int| 0 <= j < k - 1 implies !(rest[j] == ':' && #[trigger] rest[j + 1]
            == ' ') by {
            assert(rest[j] == line[j + 1] && rest[j + 1] == line[j + 1 + 1]);
        }
        lemma_separator_skips(rest, k - 1);
        assert(rest.skip(k - 1) =~= line.skip(k));
        assert(!(line[0] == ':' && line[0int + 1] == ' '));
    }
}

/// Where the lines of a text start and end.
fn line_spans(text: &Vec<char>) -> (spans: Vec<(usize, usize)>)
    ensures
        spans.len() == lines(text@).len(),
        forall|i: int|
            0 <= i < spans.len() ==> (#[trigger] spans@[i]).0 <= spans@[i].1 <= text.len()
                && text@.subrange(spans@[i].0 as int, spans@[i].1 as int) == lines(text@)[i],
{
    let mut spans: Vec<(usize, usize)> = Vec::new();
    let mut start: usize = 0;
    let ghost mut done: Seq<Seq<char>> = Seq::empty();
    assert(text@.skip(0) =~= text@);
    assert(done + lines(text@.skip(0)) =~= lines(text@));
    while start < text.len()
        invariant
            start <= text.len(),
            done + lines(text@.skip(start as int)) == lines(text@),
            spans.len() == done.len(),
            forall|i: int|
                0 <= i < spans.len() ==> (#[trigger] spans@[i]).0 <= spans@[i].1 <= text.len()
                    && text@.subrange(spans@[i].0 as int, spans@[i].1 as int) == done[i],
        decreases text.len() - start,
    {
        let ghost rest = text@.skip(start as int);
        let mut end: usize = start;
        while end < text.len() && text[end] != '\n'
            invariant
                start <= end <= text.len(),
                rest == text@.skip(start as int),
                forall|j: int| 0 <= j < end - start ==> rest[j] != '\n',
            decreases text.len() - end,
        {
            assert(rest[end - start] == text@[end as int]);
            end += 1;
        }
        proof {
            lemma_before_skips(rest, '\n', end - start);
            if end < text.len() {
                assert(rest.skip(end - start)[0] == text@[end as int]);
            }
            assert(before(rest, '\n') == end - start);
        }
        let ghost line = rest.take(end - start);
        assert(line =~= text@.subrange(start as int, end as int));
        if end < text.len() {
            let stop: usize = if end > start && text[end - 1] == '\r' {
                end - 1
            } else {
                end
            };
            spans.push((start, stop));
            proof {
                assert(text@.subrange(start as int, stop as int) =~= without_return(line));
                assert(rest.skip(end - start + 1) =~= text@.skip(end as int + 1));
                let grown = done.push(without_return(line));
                assert(grown + lines(text@.skip(end as int + 1)) =~= done + lines(rest));
                done = grown;
            }
            start = end + 1;
        } else {
            spans.push((start, end));
            proof {
                assert(line =~= rest);
                let grown = done.push(rest);
                assert(lines(text@.skip(end as int)) =~= Seq::<Seq<char>>::empty());
                assert(grown + lines(text@.skip(end as int)) =~= done + lines(rest));
                done = grown;
            }
            start = end;
        }
    }
    assert(done =~= lines(text@));
    spans
}

/// The value of the line that stands between two places of a text.
fn value_between(text: &str, chars: &Vec<char>, from: usize, to: usize) -> (r: String)
    requires
        chars@ == text@,
        from <= to <= chars.len(),
    ensures
        r@ == line_value(text@.subrange(from as int, to as int)),
{
    let ghost line = text@.subrange(from as int, to as int);
    let mut i: usize = from;
    while to - i >= 2
        invariant
            from <= i <= to <= chars.len(),
            i == from || i < to,
            chars@ == text@,
            line == text@.subrange(from as int, to as int),
            forall|j: int|
                0 <= j < i - from ==> !(line[j] == ':' && #[trigger] line[j + 1] == ' '),
        decreases to - i,
    {
        assert(line[i - from] == chars@[i as int] && line[i - from + 1] == chars@[i + 1]);
        if chars[i] == ':' && chars[i + 1] == ' ' {
            proof {
                lemma_separator_skips(line, i - from);
                assert(line.skip(i - from)[0] == line[i - from]);
                assert(line.skip(i - from)[1] == line[i - from + 1]);
                assert(before_separator(line) == i - from);
                assert(line.skip(i - from + 2) =~= text@.subrange(i as int + 2, to as int));
            }
            return text.substring_char(i + 2, to).to_string();
        }
        i += 1;
    }
    proof {
        if i < to {
            lemma_separator_skips(line, i - from);
        }
        assert(before_separator(line) >= line.len());
    }
    String::new()
}

/// The values of the first three lines of a text.
pub fn leading_values(text: &str) -> (r: (String, String, String))
    ensures
        r.0@ == nth_value(text@, 0),
        r.1@ == nth_value(text@, 1),
        r.2@ == nth_value(text@, 2),
{
    let chars = to_chars(text);
    let spans = line_spans(&chars);
    (
        span_value(text, &chars, &spans, 0),
        span_value(text, &chars, &spans, 1),
        span_value(text, &chars, &spans, 2),
    )
}

fn span_value(text: &str, chars: &Vec<char>, spans: &Vec<(usize, usize)>, n: usize) -> (r: String)
    requires
        chars@ == text@,
        spans.len() == lines(text@).len(),
        forall|i: int|
            0 <= i < spans.len() ==> (#[trigger] spans@[i]).0 <= spans@[i].1 <= chars.len()
                && text@.subrange(spans@[i].0 as int, spans@[i].1 as int) == lines(text@)[i],
    ensures
        r@ == nth_value(text@, n as int),
{
    if n < spans.len() {
        value_between(text, chars, spans[n].0, spans[n].1)
    } else {
        String::new()
    }
}

/// A text that starts with a line and a line feed has that line, and then those of the rest.
pub proof fn lemma_first_line(line: Seq<char>, rest: Seq<char>)
    requires
        !line.contains('\n'),
    ensures
        lines(line + seq!['\n'] + rest) == seq![without_return(line)] + lines(rest),
{
    let text = line + seq!['\n'] + rest;
    assert forall|j: int| 0 <= j < line.len() implies text[j] != '\n' by {
        assert(text[j] == line[j]);
    }
    lemma_before_skips(text, '\n', line.len() as int);
    assert(text.skip(line.len() as int)[0] == '\n');
    assert(text.take(line.len() as int) =~= line);
    assert(text.skip(line.len() as int + 1) =~= rest);
}

/// A text without a line feed is one line, unless it is empty.
pub proof fn lemma_only_line(line: Seq<char>)
    requires
        !line.contains('\n'),
        line.len() > 0,
    ensures
        lines(line) == seq![line],
{
    lemma_before_skips(line, '\n', line.len() as int);
}

/// The value of a line is what stands behind its label, a colon and a space.
pub proof fn lemma_labelled_value(label: Seq<char>, value: Seq<char>)
    requires
        !label.contains(':'),
    ensures
        line_value(label + seq![':', ' '] + value) == value,
{
    let line = label + seq![':', ' '] + value;
    assert forall|j: int| 0 <= j < label.len() implies !(line[j] == ':' && #[trigger] line[j + 1]
        == ' ') by {
        assert(line[j] == label[j]);
    }
    lemma_separator_skips(line, label.len() as int);
    assert(line.skip(label.len() as int)[0] == ':');
    assert(line.skip(label.len() as int)[1] == ' ');
    assert(line.skip(label.len() as int + 2) =~= value);
}

/// A line with a label and a value.
pub open spec fn labelled(label: Seq<char>, value: Seq<char>) -> Seq<char> {
    label + seq![':', ' '] + value
}

/// Three lines with labels give back the values that were written. Not so a value that ends with a
/// carriage return ahead of a line feed: that belongs to the end of the line.
pub proof fn lemma_three_values_are_read_back(
    labels: (Seq<char>, Seq<char>, Seq<char>),
    first: Seq<char>,
    second: Seq<char>,
    third: Seq<char>,
)
    requires
        !labels.0.contains(':') && !labels.1.contains(':') && !labels.2.contains(':'),
        !labelled(labels.0, first).contains('\n'),
        !labelled(labels.1, second).contains('\n'),
        !labelled(labels.2, third).contains('\n'),
        first.len() > 0 ==> first.last() != '\r',
        second.len() > 0 ==> second.last() != '\r',
    ensures
        ({
            let text = labelled(labels.0, first) + seq!['\n'] + (labelled(labels.1, second)
                + seq!['\n'] + labelled(labels.2, third));
            &&& nth_value(text, 0) == first
            &&& nth_value(text, 1) == second
            &&& nth_value(text, 2) == third
        }),
{
    let a = labelled(labels.0, first);
    let b = labelled(labels.1, second);
    let c = labelled(labels.2, third);
    lemma_first_line(a, b + seq!['\n'] + c);
    lemma_first_line(b, c);
    lemma_only_line(c);
    lemma_labelled_value(labels.0, first);
    lemma_labelled_value(labels.1, second);
    lemma_labelled_value(labels.2, third);
    assert(a.last() == (if first.len() > 0 { first.last() } else { ' ' }));
    assert(b.last() == (if second.len() > 0 { second.last() } else { ' ' }));
    let all = lines(a + seq!['\n'] + (b + seq!['\n'] + c));
    assert(all =~= seq![a, b, c]);
}

proof fn lemma_until_nul(bytes: Seq<u8>, rest: Seq<u8>)
    requires
        !bytes.contains(0),
        rest.len() > 0 ==> rest[0] == 0,
    ensures
        until_nul(bytes + rest) == bytes,
    decreases bytes.len(),
{
    let whole = bytes + rest;
    if bytes.len() == 0 {
        assert(until_nul(whole) =~= bytes);
    } else {
        let shorter = bytes.skip(1);
        assert forall|i: int| 0 <= i < shorter.len() implies shorter[i] != 0 by {
            assert(shorter[i] == bytes[i + 1]);
        }
        lemma_until_nul(shorter, rest);
        assert(whole.skip(1) =~= shorter + rest);
        assert(bytes[0] != 0);
        assert(seq![bytes[0]] + shorter =~= bytes);
    }
}

/// A block gives back the text that was written to it, whatever stands behind the zero byte that
/// ends it, if one does. A text with a zero byte in it ends there.
pub proof fn lemma_block_gives_back_text(text: Seq<char>, rest: Seq<u8>)
    requires
        !vstd::utf8::encode_utf8(text).contains(0),
        rest.len() > 0 ==> rest[0] == 0,
    ensures
        block_text(vstd::utf8::encode_utf8(text) + rest) == text,
{
    lemma_until_nul(vstd::utf8::encode_utf8(text), rest);
    vstd::utf8::encode_utf8_valid_utf8(text);
    vstd::utf8::encode_utf8_decode_utf8(text);
}

/// A carriage return at the end of a line belongs to the end of the line, and one is enough; any
/// other line is taken as it is.
pub proof fn lemma_line_end(line: Seq<char>)
    ensures
        without_return(line.push('\r')) == line,
        line.len() == 0 || line.last() != '\r' ==> without_return(line) == line,
        lines(Seq::empty()) == Seq::<Seq<char>>::empty(),
{
    assert(line.push('\r').drop_last() =~= line);
}

/// What stands behind the first colon that a space follows is the value of a line. A line without
/// such a colon has none.
pub proof fn lemma_value_behind_the_first_separator(line: Seq<char>, i: int)
    requires
        0 <= i < line.len(),
        forall|j: int| 0 <= j < i ==> !(line[j] == ':' && #[trigger] line[j + 1] == ' '),
    ensures
        i + 1 < line.len() && line[i] == ':' && line[i + 1] == ' ' ==> line_value(line)
            == line.subrange(i + 2, line.len() as int),
        i + 1 == line.len() ==> line_value(line) == Seq::<char>::empty(),
        line_value(Seq::empty()) == Seq::<char>::empty(),
{
    lemma_separator_skips(line, i);
    if i + 1 < line.len() && line[i] == ':' && line[i + 1] == ' ' {
        assert(line.skip(i)[0] == ':' && line.skip(i)[1] == ' ');
        assert(line.skip(i + 2) =~= line.subrange(i + 2, line.len() as int));
    }
}

/// A block that is not UTF-8 up to its first zero byte gives `ERR`.
pub proof fn lemma_block_that_is_no_text(bytes: Seq<u8>, rest: Seq<u8>)
    requires
        !bytes.contains(0),
        rest.len() > 0 ==> rest[0] == 0,
        !vstd::utf8::valid_utf8(bytes),
    ensures
        block_text(bytes + rest) == seq!['E', 'R', 'R'],
{
    lemma_until_nul(bytes, rest);
    reveal_strlit("ERR");
    assert("ERR"@ =~= seq!['E', 'R', 'R']);
}

} // verus!
