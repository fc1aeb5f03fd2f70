//! The text format of the world data: lines, comma-separated fields and
//! unsigned decimal numbers.

use vstd::prelude::*;

verus! {

/// The pieces of `text` between the occurrences of `separator`. There is
/// always one piece more than there are separators.
pub open spec fn split_on(text: Seq<char>, separator: char) -> Seq<Seq<char>>
    decreases text.len(),
{
    if text.len() == 0 {
        seq![Seq::empty()]
    } else {
        let before = split_on(text.drop_last(), separator);
        if text.last() == separator {
            before.push(Seq::empty())
        } else {
            before.drop_last().push(before.last().push(text.last()))
        }
    }
}

/// `line` without its last character, if that is a carriage return.
pub open spec fn without_carriage_return(line: Seq<char>) -> Seq<char> {
    if line.len() > 0 && line.last() == '\r' {
        line.drop_last()
    } else {
        line
    }
}

/// The lines of `text`. A line ends with a line feed, or with a carriage
/// return and a line feed; neither belongs to the line. What follows the last
/// line feed is a line too, unless it is empty.
pub open spec fn split_lines(text: Seq<char>) -> Seq<Seq<char>> {
    let pieces = split_on(text, '\n');
    let ended = pieces.drop_last().map_values(|piece: Seq<char>| without_carriage_return(piece));
    if pieces.last().len() == 0 {
        ended
    } else {
        ended.push(pieces.last())
    }
}

/// A list of character vectors as a list of their contents.
pub open spec fn rows(list: Seq<Vec<char>>) -> Seq<Seq<char>> {
    list.map_values(|row: Vec<char>| row@)
}

pub open spec fn is_digit(c: char) -> bool {
    '0' <= c <= '9'
}

/// What the digit `c` counts for, and zero for any other character.
pub open spec fn digit_value(c: char) -> nat {
    if is_digit(c) {
        (c as int - '0' as int) as nat
    } else {
        0
    }
}

/// The number that `digits` writes in base ten.
pub open spec fn digits_value(digits: Seq<char>) -> nat
    decreases digits.len(),
{
    if digits.len() == 0 {
        0
    } else {
        10 * digits_value(digits.drop_last()) + digit_value(digits.last())
    }
}

pub open spec fn all_digits(text: Seq<char>) -> bool {
    forall|i: int| 0 <= i < text.len() ==> is_digit(#[trigger] text[i])
}

/// `field` without a leading plus sign.
pub open spec fn unsigned_digits(field: Seq<char>) -> Seq<char> {
    if field.len() > 0 && field[0] == '+' {
        field.drop_first()
    } else {
        field
    }
}

/// The number that `field` writes, if `field` is an optional plus sign and
/// then one or more digits, and the number is at most `max`.
pub open spec fn number_of(field: Seq<char>, max: u32) -> Option<u32> {
    let digits = unsigned_digits(field);
    if digits.len() > 0 && all_digits(digits) && digits_value(digits) <= max {
        Some(digits_value(digits) as u32)
    } else {
        None
    }
}

/// Every piece of a split is free of the separator.
pub proof fn lemma_split_pieces_lack_separator(text: Seq<char>, separator: char)
    ensures
        split_on(text, separator).len() >= 1,
        forall|i: int, j: int|
            0 <= i < split_on(text, separator).len() && 0 <= j < split_on(text, separator)[i].len()
                ==> (#[trigger] split_on(text, separator)[i][j]) != separator,
    decreases text.len(),
{
    if text.len() > 0 {
        lemma_split_pieces_lack_separator(text.drop_last(), separator);
    }
}

/// No line holds a line feed.
pub proof fn lemma_lines_lack_line_feed(text: Seq<char>)
    ensures
        forall|i: int, j: int|
            0 <= i < split_lines(text).len() && 0 <= j < split_lines(text)[i].len() ==> (
            #[trigger] split_lines(text)[i][j]) != '\n',
{
    let pieces = split_on(text, '\n');
    lemma_split_pieces_lack_separator(text, '\n');
    assert forall|i: int, j: int|
        0 <= i < split_lines(text).len() && 0 <= j < split_lines(text)[i].len() implies (
    #[trigger] split_lines(text)[i][j]) != '\n' by {
        if i < pieces.len() - 1 {
            assert(split_lines(text)[i] == without_carriage_return(pieces[i]));
            assert(split_lines(text)[i][j] == pieces[i][j]);
        } else {
            assert(split_lines(text)[i] == pieces[i]);
        }
    }
}

/// The pieces of `pieces`, written one after another with `separator` between
/// them.
pub open spec fn join_with(pieces: Seq<Seq<char>>, separator: char) -> Seq<char>
    decreases pieces.len(),
{
    if pieces.len() == 0 {
        Seq::empty()
    } else if pieces.len() == 1 {
        pieces[0]
    } else {
        join_with(pieces.drop_last(), separator).push(separator) + pieces.last()
    }
}

/// Joining the pieces of a split gives the text back.
pub proof fn lemma_join_of_split(text: Seq<char>, separator: char)
    ensures
        join_with(split_on(text, separator), separator) == text,
    decreases text.len(),
{
    if text.len() == 0 {
        assert(join_with(split_on(text, separator), separator) =~= text);
    } else {
        let shorter = text.drop_last();
        let before = split_on(shorter, separator);
        let pieces = split_on(text, separator);
        lemma_join_of_split(shorter, separator);
        lemma_split_pieces_lack_separator(shorter, separator);
        if text.last() == separator {
            assert(pieces.drop_last() =~= before);
            assert(join_with(pieces, separator) =~= shorter.push(separator));
        } else {
            let longer = before.last().push(text.last());
            assert(pieces.last() == longer);
            if before.len() == 1 {
                assert(before[0] == shorter);
                assert(pieces[0] =~= shorter.push(text.last()));
            } else {
                assert(pieces.drop_last() =~= before.drop_last());
                assert(join_with(before, separator) == join_with(
                    before.drop_last(),
                    separator,
                ).push(separator) + before.last());
                assert(join_with(pieces, separator) =~= shorter.push(text.last()));
            }
        }
        assert(text =~= shorter.push(text.last()));
    }
}

/// Appending digits never makes the number smaller.
pub proof fn lemma_digits_value_grows(digits: Seq<char>, shorter: int)
    requires
        0 <= shorter <= digits.len(),
    ensures
        digits_value(digits.take(shorter)) <= digits_value(digits),
    decreases digits.len() - shorter,
{
    if shorter < digits.len() {
        lemma_digits_value_grows(digits.drop_last(), shorter);
        assert(digits.drop_last().take(shorter) =~= digits.take(shorter));
    } else {
        assert(digits.take(shorter) =~= digits);
    }
}

/// Copies the characters of `text` into a vector.
pub fn chars_of(text: &str) -> (chars: Vec<char>)
    ensures
        chars@ == text@,
{
    let mut chars: Vec<char> = Vec::new();
    let ghost mut seen: int = 0;
    for c in it: text.chars()
        invariant
            it.seq() == text@,
            seen == it.index(),
            chars@ == text@.take(seen),
    {
        chars.push(c);
        proof {
            assert(text@.take(seen + 1) =~= text@.take(seen).push(c));
            seen = seen + 1;
        }
    }
    assert(text@.take(seen) =~= text@);
    chars
}

/// Splits `text` at every occurrence of `separator`.
pub fn split(text: &Vec<char>, separator: char) -> (pieces: Vec<Vec<char>>)
    ensures
        rows(pieces@) == split_on(text@, separator),
{
    let mut done: Vec<Vec<char>> = Vec::new();
    let mut current: Vec<char> = Vec::new();
    assert(rows(done@).push(current@) =~= split_on(text@.take(0), separator));
    for i in 0..text.len()
        invariant
            rows(done@).push(current@) == split_on(text@.take(i as int), separator),
    {
        let c = text[i];
        let ghost before = split_on(text@.take(i as int), separator);
        proof {
            assert(text@.take(i + 1).drop_last() =~= text@.take(i as int));
            assert(before.last() == current@);
            assert(before.drop_last() =~= rows(done@));
        }
        if c == separator {
            done.push(current);
            current = Vec::new();
            assert(rows(done@).push(current@) =~= before.push(Seq::empty()));
        } else {
            current.push(c);
            assert(rows(done@).push(current@) =~= before.drop_last().push(before.last().push(c)));
        }
    }
    assert(text@.take(text.len() as int) =~= text@);
    done.push(current);
    assert(rows(done@) =~= split_on(text@, separator));
    done
}

/// Splits `text` into its lines.
pub fn lines(text: &str) -> (lines: Vec<Vec<char>>)
    ensures
        rows(lines@) == split_lines(text@),
{
    let chars = chars_of(text);
    let mut done: Vec<Vec<char>> = Vec::new();
    let mut current: Vec<char> = Vec::new();
    assert(rows(done@) =~= split_on(chars@.take(0), '\n').drop_last().map_values(
        |piece: Seq<char>| without_carriage_return(piece),
    ));
    for i in 0..chars.len()
        invariant
            rows(done@) == split_on(chars@.take(i as int), '\n').drop_last().map_values(
                |piece: Seq<char>| without_carriage_return(piece),
            ),
            current@ == split_on(chars@.take(i as int), '\n').last(),
    {
        let c = chars[i];
        let ghost before = split_on(chars@.take(i as int), '\n');
        proof {
            assert(chars@.take(i + 1).drop_last() =~= chars@.take(i as int));
            lemma_split_pieces_lack_separator(chars@.take(i as int), '\n');
        }
        if c == '\n' {
            let ghost piece = current@;
            let n = current.len();
            if n > 0 && current[n - 1] == '\r' {
                current.pop();
            }
            assert(current@ =~= without_carriage_return(piece));
            let ghost earlier = done@;
            let ghost stripped = current@;
            done.push(current);
            current = Vec::new();
            assert(before.push(Seq::empty()).drop_last() =~= before);
            assert(rows(earlier).len() == before.drop_last().len());
            assert forall|k: int| 0 <= k < before.len() implies #[trigger] rows(done@)[k]
                == without_carriage_return(before[k]) by {
                if k < before.len() - 1 {
                    assert(rows(done@)[k] == rows(earlier)[k]);
                    assert(before.drop_last()[k] == before[k]);
                } else {
                    assert(rows(done@)[k] == stripped);
                    assert(before[k] == piece);
                }
            }
            assert(rows(done@) =~= before.map_values(
                |piece: Seq<char>| without_carriage_return(piece),
            ));
        } else {
            current.push(c);
            assert(before.drop_last().push(before.last().push(c)).drop_last()
                =~= before.drop_last());
        }
    }
    assert(chars@.take(chars.len() as int) =~= chars@);
    if current.len() > 0 {
        done.push(current);
    }
    assert(rows(done@) =~= split_lines(text@));
    done
}

/// Reads `field` as an unsigned decimal number that is at most `max`.
pub fn parse_number(field: &Vec<char>, max: u32) -> (value: Option<u32>)
    ensures
        value == number_of(field@, max),
{
    let start: usize = if field.len() > 0 && field[0] == '+' {
        1
    } else {
        0
    };
    let ghost digits = unsigned_digits(field@);
    assert(digits =~= field@.skip(start as int));
    if start == field.len() {
        return None;
    }
    let mut value: u64 = 0;
    assert(digits.take(0) =~= Seq::<char>::empty());
    for i in start..field.len()
        invariant
            start <= 1,
            digits == field@.skip(start as int),
            digits == unsigned_digits(field@),
            digits.len() > 0,
            value == digits_value(digits.take(i - start)),
            value <= max,
            all_digits(digits.take(i - start)),
    {
        let c = field[i];
        proof {
            assert(digits[i - start] == c);
            assert(digits.take(i - start + 1).drop_last() =~= digits.take(i - start));
            assert(digits.take(i - start + 1).last() == c);
        }
        if !(c >= '0' && c <= '9') {
            assert(!is_digit(digits[i - start]));
            return None;
        }
        let digit = (c as u32 - '0' as u32) as u64;
        value = value * 10 + digit;
        if value > max as u64 {
            proof {
                lemma_digits_value_grows(digits, i - start + 1);
            }
            return None;
        }
    }
    assert(digits.take(field.len() - start) =~= digits);
    Some(value as u32)
}

/// Appends `c` to `text` with `String::push`.
#[verifier::external_body]
pub(crate) fn push_char(text: &mut String, c: char)
    ensures
        final(text)@ == old(text)@.push(c),
{
    text.push(c)
}

/// Makes a string of `chars`.
pub fn string_of(chars: &Vec<char>) -> (text: String)
    ensures
        text@ == chars@,
{
    let mut text = String::new();
    for i in 0..chars.len()
        invariant
            text@ == chars@.take(i as int),
    {
        push_char(&mut text, chars[i]);
        assert(chars@.take(i + 1) =~= chars@.take(i as int).push(chars@[i as int]));
    }
    assert(chars@.take(chars.len() as int) =~= chars@);
    text
}

/// The character that writes the digit `d`.
pub open spec fn digit_char(d: nat) -> char
    recommends
        d < 10,
{
    ('0' as u8 + d as u8) as char
}

/// `n` written in base ten, without leading zeros.
pub open spec fn decimal_digits(n: nat) -> Seq<char>
    decreases n,
{
    if n < 10 {
        seq![digit_char(n)]
    } else {
        decimal_digits(n / 10).push(digit_char(n % 10))
    }
}

/// A number that was written with [`decimal_digits`] reads back as itself.
pub proof fn lemma_decimal_reads_back(n: nat)
    ensures
        decimal_digits(n).len() > 0,
        all_digits(decimal_digits(n)),
        digits_value(decimal_digits(n)) == n,
        decimal_digits(n)[0] != '+',
        n <= u32::MAX ==> number_of(decimal_digits(n), u32::MAX) == Some(n as u32),
    decreases n,
{
    let written = decimal_digits(n);
    if n < 10 {
        assert(written.drop_last() =~= Seq::<char>::empty());
        assert(digits_value(written.drop_last()) == 0);
        assert(digit_value(digit_char(n)) == n);
    } else {
        lemma_decimal_reads_back(n / 10);
        assert(written.drop_last() =~= decimal_digits(n / 10));
        assert(digit_value(digit_char(n % 10)) == n % 10);
        assert(written[0] == decimal_digits(n / 10)[0]);
    }
    assert(unsigned_digits(written) == written);
}

/// Appends `n`, written in base ten, to `text`.
pub fn push_decimal(text: &mut String, n: usize)
    ensures
        final(text)@ == old(text)@ + decimal_digits(n as nat),
    decreases n,
{
    if n >= 10 {
        push_decimal(text, n / 10);
    }
    let digit = (n % 10) as u8;
    push_char(text, (48u8 + digit) as char);
    assert(text@ =~= old(text)@ + decimal_digits(n as nat));
}

} // verus!
