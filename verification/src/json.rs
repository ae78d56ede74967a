//! The two JSON values a claim set is made of: strings and unsigned numbers,
//! each in the one form this library writes.
//!
//! A string is written between quotes with `"` and `\` behind a backslash,
//! bytes below 0x20 as `\u00` and two lower-case hex digits, and every other
//! byte as it stands. A number is written in decimal without leading zeros.
//! The readers accept exactly what the writers produce.

use vstd::prelude::*;

verus! {

pub const QUOTE: u8 = 0x22;

pub const BACKSLASH: u8 = 0x5C;

pub const LETTER_U: u8 = 0x75;

pub const ZERO: u8 = 0x30;

/// The lower-case hex digit for a value below 16.
pub open spec fn hex_digit(n: u8) -> u8 {
    if n < 10 {
        (0x30 + n) as u8
    } else {
        (0x57 + n) as u8
    }
}

/// True of `0`..`9` and `a`..`f`.
pub open spec fn is_lower_hex(b: u8) -> bool {
    0x30 <= b <= 0x39 || 0x61 <= b <= 0x66
}

/// The value of a lower-case hex digit.
pub open spec fn hex_value(b: u8) -> u8 {
    if b <= 0x39 {
        (b - 0x30) as u8
    } else {
        (b - 0x57) as u8
    }
}

/// How one byte of a string is written.
pub open spec fn escape_byte(b: u8) -> Seq<u8> {
    if b == QUOTE || b == BACKSLASH {
        seq![BACKSLASH, b]
    } else if b < 0x20 {
        seq![BACKSLASH, LETTER_U, ZERO, ZERO, (0x30 + b / 16) as u8, hex_digit(b % 16)]
    } else {
        seq![b]
    }
}

/// How the bytes of a string are written, without the quotes around them.
pub open spec fn escape(s: Seq<u8>) -> Seq<u8>
    decreases s.len(),
{
    if s.len() == 0 {
        Seq::empty()
    } else {
        escape_byte(s[0]) + escape(s.drop_first())
    }
}

/// A string as it is written: the escaped bytes between two quotes.
pub open spec fn quoted(s: Seq<u8>) -> Seq<u8> {
    seq![QUOTE] + escape(s) + seq![QUOTE]
}

/// The byte written at `i`, and how many bytes of `text` write it; `None`
/// where no byte is written in this way at `i`.
pub open spec fn escape_at(text: Seq<u8>, i: int) -> Option<(u8, int)> {
    if text[i] == BACKSLASH {
        if i + 1 < text.len() && (text[i + 1] == QUOTE || text[i + 1] == BACKSLASH) {
            Some((text[i + 1], 2))
        } else if i + 5 < text.len() && text[i + 1] == LETTER_U && text[i + 2] == ZERO && text[i
            + 3] == ZERO && (text[i + 4] == 0x30 || text[i + 4] == 0x31) && is_lower_hex(
            text[i + 5],
        ) {
            Some((((text[i + 4] - 0x30) * 16 + hex_value(text[i + 5])) as u8, 6))
        } else {
            None
        }
    } else if text[i] < 0x20 || text[i] == QUOTE {
        None
    } else {
        Some((text[i], 1))
    }
}

/// Puts `head` in front of the bytes of a reading.
pub open spec fn prepend(head: Seq<u8>, reading: Option<(Seq<u8>, int)>) -> Option<
    (Seq<u8>, int),
> {
    match reading {
        Some((rest, end)) => Some((head + rest, end)),
        None => None,
    }
}

/// Reads string bytes from `i` up to the closing quote: the bytes read and
/// the index behind the quote.
pub open spec fn unescape(text: Seq<u8>, i: int) -> Option<(Seq<u8>, int)>
    decreases text.len() - i,
{
    if i < 0 || i >= text.len() {
        None
    } else if text[i] == QUOTE {
        Some((Seq::empty(), i + 1))
    } else {
        match escape_at(text, i) {
            Some((byte, width)) => prepend(seq![byte], unescape(text, i + width)),
            None => None,
        }
    }
}

/// Reads a string that opens with a quote at `i`: its bytes and the index
/// behind its closing quote.
pub open spec fn read_string(text: Seq<u8>, i: int) -> Option<(Seq<u8>, int)> {
    if 0 <= i < text.len() && text[i] == QUOTE {
        unescape(text, i + 1)
    } else {
        None
    }
}

/// Writing a string and one more byte is writing the string, then the byte.
pub proof fn lemma_escape_push(s: Seq<u8>, b: u8)
    ensures
        escape(s.push(b)) == escape(s) + escape_byte(b),
    decreases s.len(),
{
    if s.len() == 0 {
        assert(s.push(b).drop_first() =~= Seq::<u8>::empty());
        assert(escape(s.push(b).drop_first()) =~= Seq::<u8>::empty());
        assert(escape(s.push(b)) =~= escape(s) + escape_byte(b));
    } else {
        assert(s.push(b).drop_first() =~= s.drop_first().push(b));
        lemma_escape_push(s.drop_first(), b);
        assert(escape(s.push(b)) =~= escape(s) + escape_byte(b));
    }
}

/// What was written for one byte reads back as that byte.
pub proof fn lemma_escape_at_reads_byte(text: Seq<u8>, i: int, b: u8)
    requires
        0 <= i,
        i + escape_byte(b).len() <= text.len(),
        text.subrange(i, i + escape_byte(b).len()) == escape_byte(b),
    ensures
        text[i] != QUOTE,
        escape_at(text, i) == Some((b, escape_byte(b).len() as int)),
{
    let e = escape_byte(b);
    let part = text.subrange(i, i + e.len());
    assert(forall|k: int| 0 <= k < e.len() ==> text[i + k] == #[trigger] part[k]);
    if b == QUOTE || b == BACKSLASH {
        assert(text[i] == part[0]);
        assert(text[i + 1] == part[1]);
    } else if b < 0x20 {
        assert(text[i] == part[0]);
        assert(text[i + 1] == part[1]);
        assert(text[i + 2] == part[2]);
        assert(text[i + 3] == part[3]);
        assert(text[i + 4] == part[4]);
        assert(text[i + 5] == part[5]);
        let hi: u8 = (0x30 + b / 16) as u8;
        let lo: u8 = hex_digit(b % 16);
        assert(hi == 0x30 || hi == 0x31);
        assert(is_lower_hex(lo));
        assert(hex_value(lo) == b % 16);
        assert((hi - 0x30) * 16 + hex_value(lo) == b);
    } else {
        assert(text[i] == part[0]);
    }
}

/// A written string reads back as its bytes, wherever it stands.
pub proof fn lemma_unescape_escape(text: Seq<u8>, i: int, s: Seq<u8>)
    requires
        0 <= i,
        i + escape(s).len() < text.len(),
        text.subrange(i, i + escape(s).len()) == escape(s),
        text[i + escape(s).len()] == QUOTE,
    ensures
        unescape(text, i) == Some((s, i + escape(s).len() + 1)),
    decreases s.len(),
{
    if s.len() == 0 {
        assert(s =~= Seq::<u8>::empty());
    } else {
        let head = escape_byte(s[0]);
        let tail = escape(s.drop_first());
        assert(escape(s) == head + tail);
        let whole = text.subrange(i, i + escape(s).len());
        let split = head.len() as int;
        assert(text.subrange(i, i + split) =~= whole.subrange(0, split));
        assert(whole.subrange(0, split) =~= head);
        lemma_escape_at_reads_byte(text, i, s[0]);
        let next = i + split;
        assert(text.subrange(next, next + tail.len()) =~= whole.subrange(split, whole.len() as int));
        assert(whole.subrange(split, whole.len() as int) =~= tail);
        lemma_unescape_escape(text, next, s.drop_first());
        assert(seq![s[0]] + s.drop_first() =~= s);
    }
}

/// A written string between its quotes reads back as its bytes.
pub proof fn lemma_read_quoted(text: Seq<u8>, i: int, s: Seq<u8>)
    requires
        0 <= i,
        i + quoted(s).len() <= text.len(),
        text.subrange(i, i + quoted(s).len()) == quoted(s),
    ensures
        read_string(text, i) == Some((s, i + quoted(s).len())),
{
    let q = quoted(s);
    let part = text.subrange(i, i + q.len());
    assert(text[i] == part[0]);
    let inner = escape(s).len() as int;
    assert(text[i + 1 + inner] == part[1 + inner]);
    assert(text.subrange(i + 1, i + 1 + inner) =~= part.subrange(1, 1 + inner));
    assert(part.subrange(1, 1 + inner) =~= escape(s));
    lemma_unescape_escape(text, i + 1, s);
}

/// A reading goes forward, and by no more than the text has.
pub proof fn lemma_unescape_bounds(text: Seq<u8>, i: int)
    ensures
        unescape(text, i) matches Some((s, end)) ==> i < end <= text.len() && s.len() <= end - i,
    decreases text.len() - i,
{
    if 0 <= i < text.len() && text[i] != QUOTE {
        if let Some((byte, width)) = escape_at(text, i) {
            lemma_unescape_bounds(text, i + width);
        }
    }
}

/// Appends the written form of the bytes of a string, without quotes.
pub fn push_escaped(out: &mut Vec<u8>, s: &[u8])
    ensures
        final(out)@ == old(out)@ + escape(s@),
{
    let mut i: usize = 0;
    assert(s@.take(0) =~= Seq::<u8>::empty());
    assert(out@ =~= old(out)@ + escape(s@.take(0)));
    while i < s.len()
        invariant
            i <= s.len(),
            out@ == old(out)@ + escape(s@.take(i as int)),
        decreases s.len() - i,
    {
        let b: u8 = s[i];
        let ghost before = out@;
        if b == QUOTE || b == BACKSLASH {
            out.push(BACKSLASH);
            out.push(b);
        } else if b < 0x20 {
            out.push(BACKSLASH);
            out.push(LETTER_U);
            out.push(ZERO);
            out.push(ZERO);
            out.push(0x30 + b / 16);
            out.push(hex_digit_of(b % 16));
        } else {
            out.push(b);
        }
        proof {
            assert(out@ =~= before + escape_byte(b));
            assert(s@.take(i + 1) =~= s@.take(i as int).push(b));
            lemma_escape_push(s@.take(i as int), b);
            assert(out@ =~= old(out)@ + escape(s@.take(i + 1)));
        }
        i += 1;
    }
    assert(s@.take(s.len() as int) =~= s@);
}

/// Appends a string as it is written, quotes included.
pub fn push_quoted(out: &mut Vec<u8>, s: &[u8])
    ensures
        final(out)@ == old(out)@ + quoted(s@),
{
    out.push(QUOTE);
    push_escaped(out, s);
    out.push(QUOTE);
    assert(out@ =~= old(out)@ + quoted(s@));
}

fn hex_digit_of(n: u8) -> (d: u8)
    requires
        n < 16,
    ensures
        d == hex_digit(n),
{
    if n < 10 {
        0x30 + n
    } else {
        0x57 + n
    }
}

/// Reads the string that opens with a quote at `start`.
pub fn parse_string(text: &[u8], start: usize) -> (reading: Option<(Vec<u8>, usize)>)
    ensures
        match reading {
            Some((bytes, end)) => read_string(text@, start as int) == Some((bytes@, end as int)),
            None => read_string(text@, start as int) is None,
        },
{
    if start >= text.len() || text[start] != QUOTE {
        return None;
    }
    let mut out: Vec<u8> = Vec::new();
    let mut i: usize = start + 1;
    assert(prepend(out@, unescape(text@, i as int)) =~= unescape(text@, i as int)) by {
        if let Some((rest, end)) = unescape(text@, i as int) {
            assert(out@ + rest =~= rest);
        }
    }
    loop
        invariant
            start < i <= text.len(),
            read_string(text@, start as int) == prepend(out@, unescape(text@, i as int)),
        decreases text.len() - i,
    {
        if i >= text.len() {
            return None;
        }
        let c: u8 = text[i];
        if c == QUOTE {
            assert(out@ + Seq::<u8>::empty() =~= out@);
            return Some((out, i + 1));
        }
        let ghost acc = out@;
        if c == BACKSLASH {
            if i + 1 < text.len() && (text[i + 1] == QUOTE || text[i + 1] == BACKSLASH) {
                out.push(text[i + 1]);
                proof {
                    lemma_prepend_push(acc, text@[i + 1], unescape(text@, i + 2));
                }
                i += 2;
            } else if text.len() - i > 5 && text[i + 1] == LETTER_U && text[i + 2] == ZERO && text[i
                + 3] == ZERO && (text[i + 4] == 0x30 || text[i + 4] == 0x31) && is_lower_hex_byte(
                text[i + 5],
            ) {
                let hi: u8 = text[i + 4] - 0x30;
                let lo: u8 = hex_value_of(text[i + 5]);
                let byte: u8 = hi * 16 + lo;
                out.push(byte);
                proof {
                    lemma_prepend_push(acc, byte, unescape(text@, i + 6));
                }
                i += 6;
            } else {
                return None;
            }
        } else if c < 0x20 {
            return None;
        } else {
            out.push(c);
            proof {
                lemma_prepend_push(acc, c, unescape(text@, i + 1));
            }
            i += 1;
        }
    }
}

proof fn lemma_prepend_push(acc: Seq<u8>, byte: u8, reading: Option<(Seq<u8>, int)>)
    ensures
        prepend(acc, prepend(seq![byte], reading)) == prepend(acc.push(byte), reading),
{
    if let Some((rest, end)) = reading {
        assert(acc + (seq![byte] + rest) =~= acc.push(byte) + rest);
    }
}

fn is_lower_hex_byte(b: u8) -> (yes: bool)
    ensures
        yes == is_lower_hex(b),
{
    (0x30 <= b && b <= 0x39) || (0x61 <= b && b <= 0x66)
}

fn hex_value_of(b: u8) -> (v: u8)
    requires
        is_lower_hex(b),
    ensures
        v == hex_value(b),
        v < 16,
{
    if b <= 0x39 {
        b - 0x30
    } else {
        b - 0x57
    }
}

/// True of `0`..`9`.
pub open spec fn is_digit(b: u8) -> bool {
    0x30 <= b <= 0x39
}

/// A number as it is written: decimal digits, the first not `0` unless the
/// number is zero.
pub open spec fn decimal(n: nat) -> Seq<u8>
    decreases n,
{
    if n < 10 {
        seq![(0x30 + n) as u8]
    } else {
        decimal(n / 10).push((0x30 + n % 10) as u8)
    }
}

/// The number that a run of digits writes.
pub open spec fn decimal_value(digits: Seq<u8>) -> nat
    decreases digits.len(),
{
    if digits.len() == 0 {
        0
    } else {
        decimal_value(digits.drop_last()) * 10 + (digits.last() - 0x30) as nat
    }
}

/// The index behind the run of digits that starts at `i`.
pub open spec fn digits_end(text: Seq<u8>, i: int) -> int
    decreases text.len() - i,
{
    if 0 <= i < text.len() && is_digit(text[i]) {
        digits_end(text, i + 1)
    } else {
        i
    }
}

/// Reads the number written at `i`: its value and the index behind its last
/// digit. There is none where no digit stands at `i`, where a zero leads
/// further digits, or where the value is beyond `u64`.
pub open spec fn read_number(text: Seq<u8>, i: int) -> Option<(u64, int)> {
    let end = digits_end(text, i);
    let value = decimal_value(text.subrange(i, end));
    if 0 <= i < end && (text[i] == ZERO ==> end == i + 1) && value <= u64::MAX {
        Some((value as u64, end))
    } else {
        None
    }
}

/// A run of digits ends where the run behind its first digits ends.
pub proof fn lemma_digits_end_from(text: Seq<u8>, i: int, k: int)
    requires
        0 <= i <= k <= text.len(),
        forall|j: int| i <= j < k ==> is_digit(#[trigger] text[j]),
    ensures
        digits_end(text, i) == digits_end(text, k),
        k <= digits_end(text, k) <= text.len(),
    decreases text.len() - i,
{
    if i < k {
        lemma_digits_end_from(text, i + 1, k);
    } else {
        lemma_digits_end_bounds(text, k);
    }
}

proof fn lemma_digits_end_bounds(text: Seq<u8>, i: int)
    requires
        0 <= i <= text.len(),
    ensures
        i <= digits_end(text, i) <= text.len(),
        forall|j: int| i <= j < digits_end(text, i) ==> is_digit(#[trigger] text[j]),
    decreases text.len() - i,
{
    if i < text.len() && is_digit(text[i]) {
        lemma_digits_end_bounds(text, i + 1);
    }
}

/// More digits never write a smaller number.
pub proof fn lemma_decimal_value_grows(digits: Seq<u8>, k: int)
    requires
        0 <= k <= digits.len(),
        forall|j: int| 0 <= j < digits.len() ==> is_digit(#[trigger] digits[j]),
    ensures
        decimal_value(digits.take(k)) <= decimal_value(digits),
    decreases digits.len(),
{
    if k < digits.len() {
        let shorter = digits.drop_last();
        assert(shorter.take(k) =~= digits.take(k));
        lemma_decimal_value_grows(shorter, k);
    } else {
        assert(digits.take(k) =~= digits);
    }
}

/// What `decimal` writes: digits only, no leading zero but for zero itself,
/// and the number back as their value.
pub proof fn lemma_decimal_digits(n: nat)
    ensures
        decimal(n).len() >= 1,
        forall|j: int| 0 <= j < decimal(n).len() ==> is_digit(#[trigger] decimal(n)[j]),
        n >= 1 ==> decimal(n)[0] != ZERO,
        n == 0 ==> decimal(n) == seq![ZERO],
        decimal_value(decimal(n)) == n,
    decreases n,
{
    if n < 10 {
        let d = decimal(n);
        assert(d.drop_last() =~= Seq::<u8>::empty());
        assert(decimal_value(d.drop_last()) == 0);
    } else {
        lemma_decimal_digits(n / 10);
        let shorter = decimal(n / 10);
        let d = decimal(n);
        assert(d.drop_last() =~= shorter);
        assert(d[0] == shorter[0]);
    }
}

/// A written number reads back as itself wherever no digit follows it.
pub proof fn lemma_read_decimal(text: Seq<u8>, i: int, n: u64)
    requires
        0 <= i,
        i + decimal(n as nat).len() <= text.len(),
        text.subrange(i, i + decimal(n as nat).len()) == decimal(n as nat),
        i + decimal(n as nat).len() < text.len() ==> !is_digit(text[i + decimal(n as nat).len()]),
    ensures
        read_number(text, i) == Some((n, i + decimal(n as nat).len())),
{
    let d = decimal(n as nat);
    let end = i + d.len();
    lemma_decimal_digits(n as nat);
    let part = text.subrange(i, end);
    assert(forall|j: int| i <= j < end ==> text[j] == #[trigger] part[j - i]);
    assert(forall|j: int| i <= j < end ==> is_digit(#[trigger] text[j])) by {
        assert(forall|j: int| i <= j < end ==> text[j] == part[j - i]);
    }
    lemma_digits_end_from(text, i, end);
    assert(digits_end(text, end) == end);
    assert(text[i] == part[0]);
    if text[i] == ZERO {
        assert(n == 0);
    }
}

/// Appends a number as it is written.
pub fn push_decimal(out: &mut Vec<u8>, n: u64)
    ensures
        final(out)@ == old(out)@ + decimal(n as nat),
    decreases n,
{
    if n < 10 {
        out.push(0x30 + n as u8);
        assert(out@ =~= old(out)@ + decimal(n as nat));
    } else {
        push_decimal(out, n / 10);
        out.push(0x30 + (n % 10) as u8);
        assert(out@ =~= old(out)@ + decimal(n as nat));
    }
}

/// Reads the number written at `start`.
pub fn parse_number(text: &[u8], start: usize) -> (reading: Option<(u64, usize)>)
    ensures
        match reading {
            Some((value, end)) => start < end <= text@.len() && read_number(text@, start as int)
                == Some((value, end as int)),
            None => read_number(text@, start as int) is None,
        },
{
    if start >= text.len() || !is_digit_byte(text[start]) {
        return None;
    }
    let mut value: u64 = (text[start] - 0x30) as u64;
    let mut i: usize = start + 1;
    proof {
        let first = text@.subrange(start as int, i as int);
        assert(first.drop_last() =~= Seq::<u8>::empty());
        assert(decimal_value(first.drop_last()) == 0);
    }
    while i < text.len() && is_digit_byte(text[i])
        invariant
            start < i <= text.len(),
            forall|j: int| start <= j < i ==> is_digit(#[trigger] text@[j]),
            value == decimal_value(text@.subrange(start as int, i as int)),
            i > start + 1 ==> text@[start as int] != ZERO,
        decreases text.len() - i,
    {
        let digit: u64 = (text[i] - 0x30) as u64;
        proof {
            let longer = text@.subrange(start as int, i + 1);
            assert(longer.drop_last() =~= text@.subrange(start as int, i as int));
            assert(decimal_value(longer) == value * 10 + digit);
            lemma_digits_end_from(text@, start as int, i + 1);
            lemma_digits_end_bounds(text@, i + 1);
            let end = digits_end(text@, start as int);
            let all = text@.subrange(start as int, end);
            assert(all.take(i + 1 - start) =~= longer);
            lemma_decimal_value_grows(all, i + 1 - start);
        }
        if text[start] == ZERO {
            return None;
        }
        if value > (u64::MAX - digit) / 10 {
            return None;
        }
        value = value * 10 + digit;
        i += 1;
    }
    proof {
        lemma_digits_end_from(text@, start as int, i as int);
        assert(digits_end(text@, i as int) == i);
    }
    Some((value, i))
}

fn is_digit_byte(b: u8) -> (yes: bool)
    ensures
        yes == is_digit(b),
{
    0x30 <= b && b <= 0x39
}

/// What reads as one byte is what is written for that byte.
pub proof fn lemma_escape_at_is_written(text: Seq<u8>, i: int)
    requires
        0 <= i < text.len(),
        text[i] != QUOTE,
        escape_at(text, i) is Some,
    ensures
        ({
            let (byte, width) = escape_at(text, i).unwrap();
            &&& 1 <= width
            &&& i + width <= text.len()
            &&& text.subrange(i, i + width) == escape_byte(byte)
        }),
{
    let (byte, width) = escape_at(text, i).unwrap();
    if text[i] == BACKSLASH {
        if i + 1 < text.len() && (text[i + 1] == QUOTE || text[i + 1] == BACKSLASH) {
            assert(text.subrange(i, i + 2) =~= escape_byte(byte));
        } else {
            let hi: u8 = text[i + 4];
            let lo: u8 = text[i + 5];
            assert(byte == (hi - 0x30) * 16 + hex_value(lo));
            assert(byte < 0x20);
            assert(byte / 16 == hi - 0x30);
            assert(byte % 16 == hex_value(lo));
            assert(hex_digit(hex_value(lo)) == lo);
            assert(text.subrange(i, i + 6) =~= escape_byte(byte));
        }
    } else {
        assert(text.subrange(i, i + 1) =~= escape_byte(byte));
    }
}

/// What reads as the bytes of a string up to a closing quote is what is
/// written for them, and the quote.
pub proof fn lemma_unescape_is_written(text: Seq<u8>, i: int)
    requires
        unescape(text, i) is Some,
    ensures
        ({
            let (s, end) = unescape(text, i).unwrap();
            &&& 0 <= i < end <= text.len()
            &&& text.subrange(i, end - 1) == escape(s)
            &&& text[end - 1] == QUOTE
        }),
    decreases text.len() - i,
{
    let (s, end) = unescape(text, i).unwrap();
    if text[i] == QUOTE {
        assert(text.subrange(i, i) =~= escape(s));
    } else {
        let (byte, width) = escape_at(text, i).unwrap();
        lemma_escape_at_is_written(text, i);
        lemma_unescape_is_written(text, i + width);
        let (rest, rest_end) = unescape(text, i + width).unwrap();
        assert(s == seq![byte] + rest);
        assert(s.drop_first() =~= rest);
        assert(escape(s) == escape_byte(byte) + escape(rest));
        assert(text.subrange(i, end - 1) =~= text.subrange(i, i + width) + text.subrange(
            i + width,
            end - 1,
        ));
    }
}

/// What reads as a string is that string as it is written.
pub proof fn lemma_read_string_is_quoted(text: Seq<u8>, i: int)
    requires
        read_string(text, i) is Some,
    ensures
        ({
            let (s, end) = read_string(text, i).unwrap();
            &&& 0 <= i < end <= text.len()
            &&& text.subrange(i, end) == quoted(s)
        }),
{
    let (s, end) = read_string(text, i).unwrap();
    lemma_unescape_is_written(text, i + 1);
    assert(text.subrange(i, end) =~= seq![QUOTE] + text.subrange(i + 1, end - 1) + seq![QUOTE]);
}

/// Digits that start with no zero write a number that is not zero.
pub proof fn lemma_decimal_value_positive(digits: Seq<u8>)
    requires
        digits.len() >= 1,
        forall|j: int| 0 <= j < digits.len() ==> is_digit(#[trigger] digits[j]),
        digits[0] != ZERO,
    ensures
        decimal_value(digits) >= 1,
    decreases digits.len(),
{
    if digits.len() == 1 {
        assert(digits.drop_last() =~= Seq::<u8>::empty());
        assert(decimal_value(digits.drop_last()) == 0);
        assert(digits.last() == digits[0]);
    } else {
        let shorter = digits.drop_last();
        assert(shorter[0] == digits[0]);
        lemma_decimal_value_positive(shorter);
    }
}

/// Digits without a leading zero are how their number is written.
pub proof fn lemma_decimal_of_value(digits: Seq<u8>)
    requires
        digits.len() >= 1,
        forall|j: int| 0 <= j < digits.len() ==> is_digit(#[trigger] digits[j]),
        digits[0] == ZERO ==> digits.len() == 1,
    ensures
        decimal(decimal_value(digits)) == digits,
    decreases digits.len(),
{
    let shorter = digits.drop_last();
    let last = digits.last();
    assert(is_digit(last));
    if digits.len() == 1 {
        assert(shorter =~= Seq::<u8>::empty());
        assert(decimal_value(shorter) == 0);
        assert(decimal(decimal_value(digits)) =~= digits);
    } else {
        assert(shorter[0] == digits[0]);
        lemma_decimal_value_positive(shorter);
        lemma_decimal_of_value(shorter);
        let v = decimal_value(digits);
        let d = (last - 0x30) as nat;
        assert(v == decimal_value(shorter) * 10 + d);
        assert(v >= 10);
        assert(v / 10 == decimal_value(shorter));
        assert(v % 10 == d);
        assert(decimal(v) =~= shorter.push(last));
        assert(shorter.push(last) =~= digits);
    }
}

/// What reads as a number is that number as it is written.
pub proof fn lemma_read_number_is_decimal(text: Seq<u8>, i: int)
    requires
        read_number(text, i) is Some,
    ensures
        ({
            let (n, end) = read_number(text, i).unwrap();
            &&& 0 <= i < end <= text.len()
            &&& text.subrange(i, end) == decimal(n as nat)
        }),
{
    let (n, end) = read_number(text, i).unwrap();
    lemma_digits_end_bounds(text, i);
    let digits = text.subrange(i, end);
    assert(forall|j: int| 0 <= j < digits.len() ==> digits[j] == text[i + j]);
    assert(digits[0] == text[i]);
    lemma_decimal_of_value(digits);
}

} // verus!
