//! Building and inspecting text: decimal numbers, concatenation, blank strings.
use vstd::prelude::*;
use vstd::string::StringExecFns;

verus! {

/// The decimal digit `d` as a character.
pub open spec fn digit(d: int) -> char {
    ('0' as int + d) as char
}

/// `n` in decimal, without leading zeros.
pub open spec fn decimal(n: nat) -> Seq<char>
    decreases n,
{
    if n < 10 {
        seq![digit(n as int)]
    } else {
        decimal(n / 10).push(digit((n % 10) as int))
    }
}

/// `n` in decimal, padded with a zero to at least two digits.
pub open spec fn two_digits(n: nat) -> Seq<char> {
    if n < 10 {
        seq!['0'] + decimal(n)
    } else {
        decimal(n)
    }
}

/// The characters with the Unicode property `White_Space`.
pub open spec fn is_white_space(c: char) -> bool {
    let u = c as int;
    ||| 0x9 <= u <= 0xd
    ||| u == 0x20
    ||| u == 0x85
    ||| u == 0xa0
    ||| u == 0x1680
    ||| 0x2000 <= u <= 0x200a
    ||| 0x2028 <= u <= 0x2029
    ||| u == 0x202f
    ||| u == 0x205f
    ||| u == 0x3000
}

/// Nothing is left of a blank string once its white space is trimmed.
pub open spec fn blank(s: Seq<char>) -> bool {
    forall|i: int| 0 <= i < s.len() ==> is_white_space(#[trigger] s[i])
}

/// Appends `suffix` to `out`.
pub(crate) fn push_str(out: &mut String, suffix: &str)
    ensures
        final(out)@ == old(out)@ + suffix@,
{
    out.append(suffix);
}

fn digit_str(d: u8) -> (text: &'static str)
    requires
        d < 10,
    ensures
        text@ == seq![digit(d as int)],
{
    proof {
        reveal_strlit("0");
        reveal_strlit("1");
        reveal_strlit("2");
        reveal_strlit("3");
        reveal_strlit("4");
        reveal_strlit("5");
        reveal_strlit("6");
        reveal_strlit("7");
        reveal_strlit("8");
        reveal_strlit("9");
    }
    match d {
        0 => "0",
        1 => "1",
        2 => "2",
        3 => "3",
        4 => "4",
        5 => "5",
        6 => "6",
        7 => "7",
        8 => "8",
        _ => "9",
    }
}

/// Appends `n` in decimal to `out`.
pub fn push_decimal(out: &mut String, n: u128)
    ensures
        final(out)@ == old(out)@ + decimal(n as nat),
    decreases n,
{
    if n < 10 {
        push_str(out, digit_str(n as u8));
    } else {
        push_decimal(out, n / 10);
        push_str(out, digit_str((n % 10) as u8));
        assert(final(out)@ =~= old(out)@ + decimal(n as nat));
    }
}

/// Appends `n` in decimal to `out`, padded with a zero to at least two digits.
pub fn push_two_digits(out: &mut String, n: u128)
    ensures
        final(out)@ == old(out)@ + two_digits(n as nat),
{
    if n < 10 {
        push_str(out, "0");
        proof {
            reveal_strlit("0");
        }
    }
    push_decimal(out, n);
    assert(out@ =~= old(out)@ + two_digits(n as nat));
}

/// Whether two strings hold the same characters.
pub fn same_text(left: &str, right: &str) -> (same: bool)
    ensures
        same == (left@ == right@),
{
    left.to_owned() == right.to_owned()
}

/// Whether a character has the Unicode property `White_Space`.
pub fn white_space(c: char) -> (r: bool)
    ensures
        r == is_white_space(c),
{
    let u: u32 = c as u32;
    (0x9 <= u && u <= 0xd) || u == 0x20 || u == 0x85 || u == 0xa0 || u == 0x1680 || (0x2000 <= u && u
        <= 0x200a) || (0x2028 <= u && u <= 0x2029) || u == 0x202f || u == 0x205f || u == 0x3000
}

/// Whether nothing is left of `text` once its white space is trimmed.
pub fn is_blank(text: &str) -> (r: bool)
    ensures
        r == blank(text@),
{
    for c in it: text.chars()
        invariant
            forall|i: int| 0 <= i < it.index() ==> is_white_space(#[trigger] text@[i]),
            it.seq() == text@,
    {
        if !white_space(c) {
            assert(text@[it.index() as int] == c);
            return false;
        }
    }
    true
}

/// The number that decimal digits stand for.
pub open spec fn read_decimal(text: Seq<char>) -> int
    decreases text.len(),
{
    if text.len() == 0 {
        0
    } else {
        10 * read_decimal(text.drop_last()) + (text.last() as int - 0x30)
    }
}

/// A number is written in decimal digits alone, from which it can be read back, and
/// without a leading zero but for zero itself.
pub proof fn law_decimal_reads_back(n: nat)
    ensures
        0 < decimal(n).len(),
        read_decimal(decimal(n)) == n,
        forall|i: int|
            0 <= i < decimal(n).len() ==> 0x30 <= (#[trigger] decimal(n)[i]) as int <= 0x39,
        decimal(n)[0] as int == 0x30 ==> n == 0 && decimal(n).len() == 1,
    decreases n,
{
    if n < 10 {
        assert(decimal(n).drop_last() =~= Seq::empty());
        assert(read_decimal(Seq::<char>::empty()) == 0);
    } else {
        let shorter = decimal(n / 10);
        law_decimal_reads_back(n / 10);
        assert(decimal(n).drop_last() =~= shorter);
        assert(decimal(n)[0] == shorter[0]);
        assert forall|i: int| 0 <= i < decimal(n).len() implies 0x30 <= (#[trigger] decimal(
            n,
        )[i]) as int <= 0x39 by {
            if i < shorter.len() {
                assert(decimal(n)[i] == shorter[i]);
            }
        }
    }
}

/// A padded number can be read back too, has at least two digits, and is padded only
/// if it has one digit.
pub proof fn law_two_digits_read_back(n: nat)
    ensures
        2 <= two_digits(n).len(),
        read_decimal(two_digits(n)) == n,
        n >= 10 ==> two_digits(n) == decimal(n),
        n < 10 ==> two_digits(n) == seq!['0'] + decimal(n),
{
    law_decimal_reads_back(n);
    if n < 10 {
        let text = two_digits(n);
        assert(text.len() == 2 && text[0] as int == 0x30 && text[1] == decimal(n)[0]);
        assert(decimal(n).drop_last() =~= Seq::empty());
        assert(text.drop_last().drop_last() =~= Seq::empty());
        assert(text.drop_last().last() == '0');
        reveal_with_fuel(read_decimal, 3);
    } else {
        law_decimal_reads_back(n / 10);
    }
}

/// A text is blank exactly if none of its characters is other than white space; so what
/// is put together from two texts is blank exactly if both are.
pub proof fn law_blank_texts(text: Seq<char>, other: Seq<char>)
    ensures
        blank(text) <==> !exists|i: int|
            0 <= i < text.len() && !is_white_space(#[trigger] text[i]),
        blank(text + other) <==> blank(text) && blank(other),
        blank(Seq::<char>::empty()),
{
    let both = text + other;
    assert(forall|i: int| 0 <= i < text.len() ==> both[i] == text[i]);
    assert forall|i: int| 0 <= i < other.len() implies other[i] == #[trigger] both[text.len() + i] by {}
    if blank(both) {
        assert forall|i: int| 0 <= i < text.len() implies is_white_space(#[trigger] text[i]) by {
            assert(is_white_space(both[i]));
        }
        assert forall|i: int| 0 <= i < other.len() implies is_white_space(#[trigger] other[i]) by {
            assert(is_white_space(both[text.len() + i]));
        }
    }
}

/// White space is the tab to the carriage return, the space, the next line, the
/// no-break space, and the other spaces and separators of Unicode.
pub proof fn law_white_space_is_unicode(c: char)
    ensures
        is_white_space(c) <==> (match c as u32 {
            0x9 => true,
            0xa => true,
            0xb => true,
            0xc => true,
            0xd => true,
            0x20 => true,
            0x85 => true,
            0xa0 => true,
            0x1680 => true,
            0x2028 => true,
            0x2029 => true,
            0x202f => true,
            0x205f => true,
            0x3000 => true,
            code => 0x2000 <= code && code < 0x200b,
        }),
{
}

} // verus!
