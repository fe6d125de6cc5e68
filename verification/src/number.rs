//! Numbers as text.
use vstd::prelude::*;
use vstd::string::*;

verus! {

/// The character of a digit below 16.
pub open spec fn digit(d: nat) -> char {
    "0123456789ABCDEF"@[d as int]
}

/// A number in hexadecimal, with capital letters.
pub open spec fn hexadecimal(n: nat) -> Seq<char>
    decreases n,
{
    if n < 16 {
        seq![digit(n)]
    } else {
        hexadecimal(n / 16).push(digit(n % 16))
    }
}

/// A number in decimal.
pub open spec fn decimal(n: nat) -> Seq<char>
    decreases n,
{
    if n < 10 {
        seq![digit(n)]
    } else {
        decimal(n / 10).push(digit(n % 10))
    }
}

/// A number in decimal, behind a minus sign if it is negative.
pub open spec fn signed_decimal(n: int) -> Seq<char> {
    if n < 0 {
        "-"@ + decimal((-n) as nat)
    } else {
        decimal(n as nat)
    }
}

/// The character is one of the ten decimal digits.
pub open spec fn is_decimal_digit(c: char) -> bool {
    '0' <= c <= '9'
}

/// The text consists of decimal digits, of one at least.
pub open spec fn is_numeral(text: Seq<char>) -> bool {
    &&& text.len() > 0
    &&& forall|i: int| 0 <= i < text.len() ==> is_decimal_digit(#[trigger] text[i])
}

/// The number that decimal digits stand for.
pub open spec fn numeral_value(text: Seq<char>) -> nat
    decreases text.len(),
{
    if text.len() == 0 {
        0
    } else {
        10 * numeral_value(text.drop_last()) + (text.last() as nat - '0' as nat) as nat
    }
}

/// The number that a text stands for: decimal digits, behind a sign or not.
pub open spec fn parsed(text: Seq<char>) -> Option<int> {
    if text.len() > 0 && (text[0] == '-' || text[0] == '+') {
        if !is_numeral(text.skip(1)) {
            None
        } else if text[0] == '-' {
            Some(-numeral_value(text.skip(1)))
        } else {
            Some(numeral_value(text.skip(1)) as int)
        }
    } else if is_numeral(text) {
        Some(numeral_value(text) as int)
    } else {
        None
    }
}

/// The number that a text stands for, if it is in the range of `i32`.
pub open spec fn parsed_i32(text: Seq<char>) -> Option<i32> {
    match parsed(text) {
        Some(n) => if i32::MIN <= n <= i32::MAX {
            Some(n as i32)
        } else {
            None
        },
        None => None,
    }
}

fn digit_text(d: usize) -> (r: &'static str)
    requires
        d < 16,
    ensures
        r@ == seq![digit(d as nat)],
{
    proof {
        reveal_strlit("0123456789ABCDEF");
    }
    let r = "0123456789ABCDEF".substring_char(d, d + 1);
    assert(r@ =~= seq![digit(d as nat)]);
    r
}

/// Writes a number in hexadecimal.
pub fn to_hexadecimal(n: usize) -> (r: String)
    ensures
        r@ == hexadecimal(n as nat),
    decreases n,
{
    if n < 16 {
        digit_text(n).to_string()
    } else {
        let r = to_hexadecimal(n / 16).concat(digit_text(n % 16));
        assert(r@ =~= hexadecimal(n as nat));
        r
    }
}

fn natural_to_decimal(n: u32) -> (r: String)
    ensures
        r@ == decimal(n as nat),
    decreases n,
{
    if n < 10 {
        digit_text(n as usize).to_string()
    } else {
        let r = natural_to_decimal(n / 10).concat(digit_text((n % 10) as usize));
        assert(r@ =~= decimal(n as nat));
        r
    }
}

/// Writes a number in decimal.
pub fn to_decimal(n: i32) -> (r: String)
    ensures
        r@ == signed_decimal(n as int),
{
    if n < 0 {
        "-".to_string().concat(natural_to_decimal((-(n as i64)) as u32).as_str())
    } else {
        natural_to_decimal(n as u32)
    }
}

/// The value of decimal digits only grows as digits are appended.
proof fn lemma_numeral_grows(text: Seq<char>, k: int)
    requires
        0 <= k <= text.len(),
    ensures
        numeral_value(text.take(k)) <= numeral_value(text),
    decreases text.len() - k,
{
    if k < text.len() {
        lemma_numeral_grows(text, k + 1);
        assert(text.take(k + 1).drop_last() =~= text.take(k));
    } else {
        assert(text.take(k) =~= text);
    }
}

/// The value of the digits from `from` on, if there is one at least, nothing else, and the value
/// is at most `i32::MAX + 1`.
fn parse_digits(chars: &Vec<char>, from: usize) -> (r: Option<i64>)
    requires
        from <= chars.len(),
    ensures
        ({
            let digits = chars@.skip(from as int);
            if is_numeral(digits) && numeral_value(digits) <= i32::MAX + 1 {
                r == Some(numeral_value(digits) as i64)
            } else {
                r is None
            }
        }),
{
    let ghost digits = chars@.skip(from as int);
    if from >= chars.len() {
        return None;
    }
    let mut value: i64 = 0;
    let mut i: usize = from;
    assert(digits.take(0).len() == 0);
    while i < chars.len()
        invariant
            from <= i <= chars.len(),
            digits == chars@.skip(from as int),
            value == numeral_value(digits.take(i - from)),
            value <= i32::MAX + 1,
            forall|j: int| 0 <= j < i - from ==> is_decimal_digit(#[trigger] digits[j]),
        decreases chars.len() - i,
    {
        let c = chars[i];
        assert(digits[i - from] == c);
        if !('0' <= c && c <= '9') {
            return None;
        }
        proof {
            assert(digits.take(i - from + 1).drop_last() =~= digits.take(i - from));
            lemma_numeral_grows(digits, i - from + 1);
        }
        value = 10 * value + (c as u32 - '0' as u32) as i64;
        if value > 0x8000_0000 {
            return None;
        }
        i += 1;
    }
    assert(digits.take(i - from) =~= digits);
    Some(value)
}

/// Reads a number in decimal.
pub fn parse_i32(text: &str) -> (r: Option<i32>)
    ensures
        r == parsed_i32(text@),
{
    let chars = crate::text::to_chars(text);
    assert(chars@.skip(0) =~= chars@);
    if chars.len() > 0 && (chars[0] == '-' || chars[0] == '+') {
        match parse_digits(&chars, 1) {
            None => None,
            Some(n) => {
                if chars[0] == '-' {
                    Some((-n) as i32)
                } else if n <= 0x7fff_ffff {
                    Some(n as i32)
                } else {
                    None
                }
            },
        }
    } else {
        match parse_digits(&chars, 0) {
            None => None,
            Some(n) => {
                if n <= 0x7fff_ffff {
                    Some(n as i32)
                } else {
                    None
                }
            },
        }
    }
}

proof fn lemma_digit_is_decimal(d: nat)
    requires
        d < 10,
    ensures
        is_decimal_digit(digit(d)),
        digit(d) as nat - '0' as nat == d,
{
    reveal_strlit("0123456789ABCDEF");
}

proof fn lemma_decimal_is_read_back(n: nat)
    ensures
        is_numeral(decimal(n)),
        numeral_value(decimal(n)) == n,
    decreases n,
{
    reveal_with_fuel(numeral_value, 2);
    lemma_digit_is_decimal(n % 10);
    if n < 10 {
        assert(decimal(n).drop_last() =~= Seq::empty());
    } else {
        lemma_decimal_is_read_back(n / 10);
        assert(decimal(n).drop_last() =~= decimal(n / 10));
    }
}

/// A number that was written in decimal is read back as it was.
pub proof fn lemma_written_number_is_read_back(n: i32)
    ensures
        parsed_i32(signed_decimal(n as int)) == Some(n),
{
    if n < 0 {
        let digits = decimal((-n) as nat);
        lemma_decimal_is_read_back((-n) as nat);
        reveal_strlit("-");
        assert(("-"@ + digits).skip(1) =~= digits);
        assert(("-"@ + digits)[0] == '-');
    } else {
        lemma_decimal_is_read_back(n as nat);
        assert(is_decimal_digit(decimal(n as nat)[0]));
    }
}

/// A number that was written in decimal has no white space at its ends.
pub proof fn lemma_written_number_has_no_white_space(n: i32)
    ensures
        signed_decimal(n as int).len() > 0,
        !crate::trim::is_white(signed_decimal(n as int)[0]),
        !crate::trim::is_white(signed_decimal(n as int).last()),
{
    let magnitude = if n < 0 {
        (-n) as nat
    } else {
        n as nat
    };
    lemma_decimal_is_read_back(magnitude);
    reveal_strlit("-");
    assert(is_decimal_digit(decimal(magnitude)[0]));
    assert(is_decimal_digit(decimal(magnitude).last()));
}

/// The digits are the ten digits and then the letters from `A` on.
pub proof fn lemma_digits(d: nat)
    ensures
        d < 10 ==> digit(d) as int == '0' as int + d,
        10 <= d < 16 ==> digit(d) as int == 'A' as int + (d - 10),
{
    reveal_strlit("0123456789ABCDEF");
}

/// In hexadecimal a number below 16 is one digit, and each further digit multiplies what stands
/// ahead of it by 16; there are no leading zeros.
pub proof fn lemma_hexadecimal_by_digits(n: nat, d: nat)
    requires
        d < 16,
    ensures
        hexadecimal(d) == seq![digit(d)],
        n > 0 ==> hexadecimal(16 * n + d) == hexadecimal(n).push(digit(d)),
        n > 0 ==> hexadecimal(n)[0] != '0',
    decreases n,
{
    reveal_strlit("0123456789ABCDEF");
    if n > 0 {
        assert((16 * n + d) / 16 == n && (16 * n + d) % 16 == d);
        if n >= 16 {
            lemma_hexadecimal_by_digits(n / 16, n % 16);
            assert(hexadecimal(n / 16).len() > 0);
        }
    }
}

/// In decimal a number below ten is one digit, and each further digit multiplies what stands ahead
/// of it by ten; a negative number is its magnitude behind a minus sign.
pub proof fn lemma_decimal_by_digits(n: nat, d: nat)
    requires
        d < 10,
    ensures
        decimal(d) == seq![digit(d)],
        n > 0 ==> decimal(10 * n + d) == decimal(n).push(digit(d)),
        signed_decimal(n as int) == decimal(n),
        n > 0 ==> signed_decimal(-n) == seq!['-'] + decimal(n),
{
    reveal_strlit("-");
    assert("-"@ =~= seq!['-']);
    if n > 0 {
        assert((10 * n + d) / 10 == n && (10 * n + d) % 10 == d);
    }
}

/// What texts of digits stand for: one digit stands for itself, and one digit more multiplies by ten
/// and adds. A minus sign ahead of digits makes the number negative, a plus sign changes nothing.
pub proof fn lemma_parsed_by_digits(text: Seq<char>, c: char)
    requires
        text.len() > 0,
        forall|i: int| 0 <= i < text.len() ==> '0' <= #[trigger] text[i] <= '9',
        '0' <= c <= '9',
    ensures
        parsed(seq![c]) == Some(c as int - '0' as int),
        parsed(text) is Some,
        parsed(text.push(c)) == Some(10 * parsed(text)->0 + (c as int - '0' as int)),
        parsed(seq!['-'] + text) == Some(-parsed(text)->0),
        parsed(seq!['+'] + text) == Some(parsed(text)->0),
{
    reveal_with_fuel(numeral_value, 2);
    assert forall|i: int| 0 <= i < text.len() implies is_decimal_digit(#[trigger] text[i]) by {}
    assert(is_numeral(text));
    let one = seq![c];
    assert(is_decimal_digit(one[0]));
    assert(is_numeral(one));
    assert(one.drop_last() =~= Seq::empty());
    assert(is_decimal_digit(text[0]));
    let grown = text.push(c);
    assert(grown.drop_last() =~= text);
    assert forall|i: int| 0 <= i < grown.len() implies is_decimal_digit(#[trigger] grown[i]) by {
        if i < text.len() {
            assert(grown[i] == text[i]);
        }
    }
    assert(is_decimal_digit(grown[0]));
    assert((seq!['-'] + text).skip(1) =~= text);
    assert((seq!['+'] + text).skip(1) =~= text);
}

/// A text stands for no number unless it consists of digits, one at least, behind a sign or not; and
/// for no `i32` if the number is out of range.
pub proof fn lemma_what_is_no_number(text: Seq<char>)
    ensures
        parsed(Seq::empty()) is None,
        parsed(seq!['-']) is None,
        parsed(seq!['+']) is None,
        forall|i: int|
            0 < i < text.len() && !('0' <= #[trigger] text[i] <= '9') ==> parsed(text) is None,
        text.len() > 0 && !('0' <= text[0] <= '9') && text[0] != '-' && text[0] != '+'
            ==> parsed(text) is None,
        parsed_i32(text) == (match parsed(text) {
            Some(n) => if -0x8000_0000 <= n <= 0x7fff_ffff {
                Some(n as i32)
            } else {
                None
            },
            None => None,
        }),
{
    assert forall|i: int| 0 < i < text.len() && !('0' <= #[trigger] text[i] <= '9') implies parsed(
        text,
    ) is None by {
        assert(text.skip(1)[i - 1] == text[i]);
        assert(!is_decimal_digit(text.skip(1)[i - 1]));
        assert(!is_decimal_digit(text[i]));
    }
    if text.len() > 0 && !('0' <= text[0] <= '9') {
        assert(!is_decimal_digit(text[0]));
    }
}

} // verus!
