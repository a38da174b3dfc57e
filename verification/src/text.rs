//! Plain text: numbers, padding and lists.

use vstd::prelude::*;
use vstd::string::StringExecFns;
use vstd::string::StrSliceExecFns;

verus! {

broadcast use vstd::seq::group_seq_axioms;

/// The digit `d` of a number in base 16 or less.
pub open spec fn digit_char(d: int) -> char {
    seq!['0', '1', '2', '3', '4', '5', '6', '7', '8', '9', 'A', 'B', 'C', 'D', 'E', 'F'][d]
}

/// A number in decimal, without leading zeros.
pub open spec fn decimal(n: nat) -> Seq<char>
    decreases n,
{
    if n < 10 {
        seq![digit_char(n as int)]
    } else {
        decimal(n / 10).push(digit_char((n % 10) as int))
    }
}

/// A byte in hexadecimal, with two digits.
pub open spec fn hex_byte(byte: u8) -> Seq<char> {
    seq![digit_char(byte as int / 16), digit_char(byte as int % 16)]
}

/// `n` copies of one character.
pub open spec fn repeated(c: char, n: int) -> Seq<char> {
    Seq::new(
        if n > 0 {
            n as nat
        } else {
            0
        },
        |i: int| c,
    )
}

/// Text filled up with spaces on its left to a width.
pub open spec fn pad_left(text: Seq<char>, width: int) -> Seq<char> {
    repeated(' ', width - text.len()) + text
}

/// Text filled up with spaces on its right to a width.
pub open spec fn pad_right(text: Seq<char>, width: int) -> Seq<char> {
    text + repeated(' ', width - text.len())
}

/// Pieces of text with a separator between them.
pub open spec fn joined(parts: Seq<Seq<char>>, separator: Seq<char>) -> Seq<char>
    decreases parts.len(),
{
    if parts.len() == 0 {
        Seq::empty()
    } else if parts.len() == 1 {
        parts[0]
    } else {
        joined(parts.drop_last(), separator) + separator + parts.last()
    }
}

/// What a list of strings says.
pub open spec fn texts(strings: Seq<String>) -> Seq<Seq<char>> {
    strings.map_values(|s: String| s@)
}

pub(crate) proof fn lemma_texts_push(strings: Seq<String>, s: String)
    ensures
        texts(strings.push(s)) == texts(strings).push(s@),
{
    assert(texts(strings.push(s)) =~= texts(strings).push(s@));
}

/// The digit `d`, as text.
fn digit(d: u8) -> (text: &'static str)
    requires
        d < 16,
    ensures
        text@ == seq![digit_char(d as int)],
{
    proof {
        reveal_strlit("0");
        reveal_strlit("1");
        reveal_strlit("2");
        reveal_strlit("3");
        reveal_strlit("4");
        reveal_strlit("5");
        reveal_strlit("6");
        reveal_strlit("7");
        reveal_strlit("8");
        reveal_strlit("9");
        reveal_strlit("A");
        reveal_strlit("B");
        reveal_strlit("C");
        reveal_strlit("D");
        reveal_strlit("E");
        reveal_strlit("F");
    }
    let text = match d {
        0 => "0",
        1 => "1",
        2 => "2",
        3 => "3",
        4 => "4",
        5 => "5",
        6 => "6",
        7 => "7",
        8 => "8",
        9 => "9",
        10 => "A",
        11 => "B",
        12 => "C",
        13 => "D",
        14 => "E",
        _ => "F",
    };
    assert(text@ =~= seq![digit_char(d as int)]);
    text
}

/// Append a number in decimal.
pub(crate) fn push_decimal(out: &mut String, n: u64)
    ensures
        final(out)@ == old(out)@ + decimal(n as nat),
    decreases n,
{
    if n >= 10 {
        push_decimal(out, n / 10);
    }
    out.append(digit((n % 10) as u8));
    assert(out@ =~= old(out)@ + decimal(n as nat));
}

/// A number in decimal.
pub(crate) fn decimal_text(n: u64) -> (text: String)
    ensures
        text@ == decimal(n as nat),
{
    let mut text = String::new();
    push_decimal(&mut text, n);
    assert(text@ =~= decimal(n as nat));
    text
}

/// Append a byte in hexadecimal, with two digits.
pub(crate) fn push_hex(out: &mut String, byte: u8)
    ensures
        final(out)@ == old(out)@ + hex_byte(byte),
{
    out.append(digit(byte / 16));
    out.append(digit(byte % 16));
    assert(out@ =~= old(out)@ + hex_byte(byte));
}

/// Append `n` copies of a piece of text that is one character long.
pub(crate) fn push_repeated(out: &mut String, piece: &str, n: usize)
    requires
        piece@.len() == 1,
    ensures
        final(out)@ == old(out)@ + repeated(piece@[0], n as int),
{
    let ghost before = out@;
    assert(before + repeated(piece@[0], 0) =~= before);
    for i in 0..n
        invariant
            piece@.len() == 1,
            out@ == before + repeated(piece@[0], i as int),
    {
        out.append(piece);
        assert(out@ =~= before + repeated(piece@[0], i + 1));
    }
}

/// Append text filled up with spaces on its left to a width.
pub(crate) fn push_left_padded(out: &mut String, text: &str, width: usize)
    ensures
        final(out)@ == old(out)@ + pad_left(text@, width as int),
{
    let length: usize = text.unicode_len();
    proof {
        reveal_strlit(" ");
    }
    if length < width {
        push_repeated(out, " ", width - length);
    }
    out.append(text);
    assert(out@ =~= old(out)@ + pad_left(text@, width as int));
}

/// Append text filled up with spaces on its right to a width.
pub(crate) fn push_right_padded(out: &mut String, text: &str, width: usize)
    ensures
        final(out)@ == old(out)@ + pad_right(text@, width as int),
{
    let length: usize = text.unicode_len();
    proof {
        reveal_strlit(" ");
    }
    out.append(text);
    if length < width {
        push_repeated(out, " ", width - length);
    }
    assert(out@ =~= old(out)@ + pad_right(text@, width as int));
}

/// Pieces of text with a separator between them.
pub(crate) fn join(parts: &Vec<String>, separator: &str) -> (text: String)
    ensures
        text@ == joined(texts(parts@), separator@),
{
    let ghost all = texts(parts@);
    let mut text = String::new();
    assert(text@ =~= joined(all.take(0), separator@));
    for i in 0..parts.len()
        invariant
            all == texts(parts@),
            text@ == joined(all.take(i as int), separator@),
    {
        let ghost before = text@;
        if i > 0 {
            text.append(separator);
        }
        text.append(parts[i].as_str());
        proof {
            assert(all.take(i + 1).drop_last() =~= all.take(i as int));
            assert(all.take(i + 1).last() == parts@[i as int]@);
            assert(text@ =~= joined(all.take(i + 1), separator@));
        }
    }
    assert(all.take(all.len() as int) =~= all);
    text
}

/// The number that a string of decimal digits is read as.
pub open spec fn read_decimal(digits: Seq<char>) -> int
    decreases digits.len(),
{
    if digits.len() == 0 {
        0
    } else {
        10 * read_decimal(digits.drop_last()) + (digits.last() as int - 48)
    }
}

/// A number is read back from its decimal text, which holds only digits, at
/// least one, and no leading zero but for zero itself.
pub proof fn law_decimals_read_back(n: nat)
    ensures
        read_decimal(decimal(n)) == n,
        decimal(n).len() > 0,
        decimal(n).len() > 1 ==> decimal(n)[0] as int != 48,
        forall|i: int| 0 <= i < decimal(n).len() ==> 48 <= #[trigger] decimal(n)[i] as int <= 57,
    decreases n,
{
    if n >= 10 {
        law_decimals_read_back(n / 10);
        let high = decimal(n / 10);
        assert(decimal(n).drop_last() =~= high);
        assert(decimal(n)[0] == high[0]);
        if high.len() == 1 {
            reveal_with_fuel(read_decimal, 2);
            assert(read_decimal(high) == high[0] as int - 48);
        }
    } else {
        assert(decimal(n).drop_last() =~= Seq::empty());
        assert(read_decimal(Seq::empty()) == 0);
    }
}

/// Numbers of up to four digits have as many digits as they should.
pub(crate) proof fn lemma_decimal_len(n: nat)
    ensures
        n < 10 ==> decimal(n).len() == 1,
        10 <= n < 100 ==> decimal(n).len() == 2,
        100 <= n < 1000 ==> decimal(n).len() == 3,
        1000 <= n < 10000 ==> decimal(n).len() == 4,
{
    reveal_with_fuel(decimal, 5);
}

/// Padding adds spaces, on the one side only, up to the width and no further.
pub proof fn law_padding_adds_only_spaces(text: Seq<char>, width: nat)
    ensures
        ({
            let left = pad_left(text, width as int);
            let right = pad_right(text, width as int);
            let length = if text.len() < width {
                width
            } else {
                text.len()
            };
            &&& left.len() == length
            &&& right.len() == length
            &&& left.skip(length - text.len()) == text
            &&& right.take(text.len() as int) == text
            &&& forall|i: int| 0 <= i < length - text.len() ==> #[trigger] left[i] as int == 32
            &&& forall|i: int| text.len() <= i < length ==> #[trigger] right[i] as int == 32
        }),
{
    let left = pad_left(text, width as int);
    let right = pad_right(text, width as int);
    assert(left.skip(left.len() - text.len()) =~= text);
    assert(right.take(text.len() as int) =~= text);
}

/// A byte is written as two upper-case hexadecimal digits from which it is read
/// back.
pub proof fn law_hex_bytes_read_back(byte: u8)
    ensures
        hex_byte(byte).len() == 2,
        crate::discover::hex_digit_value(hex_byte(byte)[0]) == Some((byte / 16) as nat),
        crate::discover::hex_digit_value(hex_byte(byte)[1]) == Some((byte % 16) as nat),
        (hex_byte(byte)[0] as int) < 97,
        (hex_byte(byte)[1] as int) < 97,
{
}

/// Joining nothing gives nothing, joining one piece gives that piece, and two
/// lists are joined with one separator between them.
pub proof fn law_joining_separates_the_parts(
    a: Seq<Seq<char>>,
    b: Seq<Seq<char>>,
    part: Seq<char>,
    separator: Seq<char>,
)
    ensures
        joined(Seq::empty(), separator) == Seq::<char>::empty(),
        joined(seq![part], separator) == part,
        a.len() > 0 && b.len() > 0 ==> joined(a + b, separator) == joined(a, separator) + separator
            + joined(b, separator),
    decreases b.len(),
{
    if a.len() > 0 && b.len() > 0 {
        assert((a + b).drop_last() =~= a + b.drop_last());
        assert((a + b).last() == b.last());
        if b.len() == 1 {
            assert(a + b.drop_last() =~= a);
        } else {
            law_joining_separates_the_parts(a, b.drop_last(), part, separator);
            assert(joined(a + b, separator) =~= joined(a, separator) + separator + joined(
                b,
                separator,
            ));
        }
    }
}

/// Columns of one width, joined by one character, stand at even distances.
pub(crate) proof fn lemma_columns(parts: Seq<Seq<char>>, separator: Seq<char>, width: int, i: int)
    requires
        separator.len() == 1,
        0 < width,
        forall|k: int| 0 <= k < parts.len() ==> (#[trigger] parts[k]).len() == width,
        0 <= i < parts.len(),
    ensures
        joined(parts, separator).len() == parts.len() * (width + 1) - 1,
        0 <= i * (width + 1),
        i * (width + 1) + width <= joined(parts, separator).len(),
        joined(parts, separator).subrange(i * (width + 1), i * (width + 1) + width) == parts[i],
        i < parts.len() - 1 ==> i * (width + 1) + width < joined(parts, separator).len() && joined(
            parts,
            separator,
        )[i * (width + 1) + width] == separator[0],
    decreases parts.len(),
{
    let n = parts.len() as int;
    let stride = width + 1;
    let all = joined(parts, separator);
    assert(parts[n - 1].len() == width);
    assert(n * stride == (n - 1) * stride + stride) by (nonlinear_arith);
    assert(0 <= i * stride <= (n - 1) * stride) by (nonlinear_arith)
        requires
            0 <= i <= n - 1,
            0 < stride,
    ;
    if n == 1 {
        assert(i * stride == 0) by (nonlinear_arith)
            requires
                i == 0,
        ;
        assert(1 * stride == stride);
        assert(all.subrange(0, width) =~= parts[0]);
    } else {
        let init = parts.drop_last();
        let before = joined(init, separator);
        assert(forall|k: int| 0 <= k < init.len() ==> init[k] == #[trigger] parts[k]);
        lemma_columns(init, separator, width, if i < n - 1 {
            i
        } else {
            0
        });
        assert(before.len() == (n - 1) * stride - 1);
        if i < n - 1 {
            assert(all.subrange(i * stride, i * stride + width) =~= before.subrange(
                i * stride,
                i * stride + width,
            ));
            assert(init[i] == parts[i]);
            if i == n - 2 {
                assert(i * stride + stride == (n - 1) * stride) by (nonlinear_arith)
                    requires
                        i == n - 2,
                ;
            }
        } else {
            assert(all.subrange(i * stride, i * stride + width) =~= parts[i]);
        }
    }
}

/// The model of a list of strings shows all of them, in order.
pub proof fn law_a_list_shows_all_its_strings(strings: Seq<String>)
    ensures
        texts(strings).len() == strings.len(),
        forall|i: int| 0 <= i < strings.len() ==> #[trigger] texts(strings)[i] == strings[i]@,
{
}

} // verus!
