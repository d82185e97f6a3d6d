use vstd::prelude::*;
use vstd::string::StringSliceAdditionalSpecFns;
use vstd::utf8::{decode_utf8, valid_utf8};
use crate::outpoint::{OutPoint, SatPoint};

verus! {

/// The decimal digits of a number, as ASCII bytes, without leading zeros.
pub open spec fn decimal(n: nat) -> Seq<u8>
    decreases n,
{
    if n < 10 {
        seq![(0x30 + n) as u8]
    } else {
        decimal(n / 10).push((0x30 + n % 10) as u8)
    }
}

/// The lower-case hexadecimal digit of a value below sixteen.
pub open spec fn hex_digit(value: nat) -> u8 {
    if value < 10 {
        (0x30 + value) as u8
    } else {
        (0x61 + value - 10) as u8
    }
}

/// The two hexadecimal digits of each byte, in the order of the bytes.
pub open spec fn hex(bytes: Seq<u8>) -> Seq<u8>
    decreases bytes.len(),
{
    if bytes.len() == 0 {
        Seq::empty()
    } else {
        hex(bytes.drop_last()).push(hex_digit(bytes.last() as nat / 16)).push(
            hex_digit(bytes.last() as nat % 16),
        )
    }
}

/// A transaction id as it is written: its bytes in reverse, in
/// hexadecimal.
pub open spec fn txid_text(txid: [u8; 32]) -> Seq<u8> {
    hex(txid@.reverse())
}

/// An outpoint as it is written: the transaction id, a colon, the index.
pub open spec fn outpoint_text(outpoint: OutPoint) -> Seq<u8> {
    txid_text(outpoint.txid) + seq![0x3au8] + decimal(outpoint.vout as nat)
}

/// A satpoint as it is written: the outpoint, a colon, the offset.
pub open spec fn satpoint_text(satpoint: SatPoint) -> Seq<u8> {
    outpoint_text(satpoint.outpoint) + seq![0x3au8] + decimal(satpoint.offset as nat)
}

/// Appends the decimal digits of `n`.
pub fn push_decimal(out: &mut Vec<u8>, n: u64)
    ensures
        final(out)@ == old(out)@ + decimal(n as nat),
    decreases n,
{
    if n < 10 {
        out.push(0x30 + n as u8);
        assert(out@ =~= old(out)@ + decimal(n as nat));
    } else {
        push_decimal(out, n / 10);
        out.push(0x30 + (n % 10) as u8);
        assert(out@ =~= old(out)@ + decimal(n as nat));
    }
}

/// The hexadecimal digit of a value below sixteen.
fn hex_digit_of(value: u8) -> (digit: u8)
    requires
        value < 16,
    ensures
        digit == hex_digit(value as nat),
{
    if value < 10 {
        0x30 + value
    } else {
        0x61 + (value - 10)
    }
}

/// Appends a transaction id as it is written.
pub fn push_txid(out: &mut Vec<u8>, txid: &[u8; 32])
    ensures
        final(out)@ == old(out)@ + txid_text(*txid),
{
    let ghost reversed = txid@.reverse();
    let mut i: usize = 0;
    assert(reversed.take(0) =~= Seq::<u8>::empty());
    assert(out@ =~= old(out)@ + hex(reversed.take(0)));
    while i < 32
        invariant
            i <= 32,
            reversed == txid@.reverse(),
            out@ == old(out)@ + hex(reversed.take(i as int)),
        decreases 32 - i,
    {
        let byte: u8 = txid[31 - i];
        proof {
            assert(reversed.take(i + 1).drop_last() =~= reversed.take(i as int));
            assert(reversed.take(i + 1).last() == byte);
        }
        out.push(hex_digit_of(byte / 16));
        out.push(hex_digit_of(byte % 16));
        assert(out@ =~= old(out)@ + hex(reversed.take(i + 1)));
        i += 1;
    }
    assert(reversed.take(32) =~= reversed);
}

/// Appends an outpoint as it is written.
pub fn push_outpoint(out: &mut Vec<u8>, outpoint: &OutPoint)
    ensures
        final(out)@ == old(out)@ + outpoint_text(*outpoint),
{
    push_txid(out, &outpoint.txid);
    out.push(0x3a);
    push_decimal(out, outpoint.vout as u64);
    assert(out@ =~= old(out)@ + outpoint_text(*outpoint));
}

/// Appends a satpoint as it is written.
pub fn push_satpoint(out: &mut Vec<u8>, satpoint: &SatPoint)
    ensures
        final(out)@ == old(out)@ + satpoint_text(*satpoint),
{
    push_outpoint(out, &satpoint.outpoint);
    out.push(0x3a);
    push_decimal(out, satpoint.offset);
    assert(out@ =~= old(out)@ + satpoint_text(*satpoint));
}

/// Appends the bytes of a string.
pub fn push_str(out: &mut Vec<u8>, text: &str)
    ensures
        final(out)@ == old(out)@ + text.spec_bytes(),
{
    let bytes = text.as_bytes();
    let mut i: usize = 0;
    assert(out@ =~= old(out)@ + bytes@.take(0));
    while i < bytes.len()
        invariant
            i <= bytes@.len(),
            out@ == old(out)@ + bytes@.take(i as int),
        decreases bytes@.len() - i,
    {
        out.push(bytes[i]);
        assert(out@ =~= old(out)@ + bytes@.take(i + 1));
        i += 1;
    }
    assert(bytes@.take(bytes@.len() as int) =~= bytes@);
}

/// A byte string of one ASCII byte is valid UTF-8.
pub proof fn lemma_ascii_valid(byte: u8)
    requires
        byte < 0x80,
    ensures
        valid_utf8(seq![byte]),
{
    let chars = seq![byte as char];
    assert(vstd::utf8::is_ascii_chars(chars));
    vstd::utf8::is_ascii_chars_encode_utf8(chars);
    assert(vstd::utf8::encode_utf8(chars) =~= seq![byte]);
    vstd::utf8::encode_utf8_valid_utf8(chars);
}

/// Valid UTF-8 to which an ASCII byte is added stays valid.
pub proof fn lemma_push_ascii_valid(bytes: Seq<u8>, byte: u8)
    requires
        valid_utf8(bytes),
        byte < 0x80,
    ensures
        valid_utf8(bytes.push(byte)),
{
    lemma_ascii_valid(byte);
    vstd::utf8::valid_utf8_concat(bytes, seq![byte]);
    assert(bytes + seq![byte] =~= bytes.push(byte));
}

/// The decimal digits of a number are valid UTF-8.
pub proof fn lemma_decimal_valid(n: nat)
    ensures
        valid_utf8(decimal(n)),
    decreases n,
{
    if n < 10 {
        lemma_ascii_valid((0x30 + n) as u8);
    } else {
        lemma_decimal_valid(n / 10);
        lemma_push_ascii_valid(decimal(n / 10), (0x30 + n % 10) as u8);
    }
}

/// Hexadecimal digits are valid UTF-8.
pub proof fn lemma_hex_valid(bytes: Seq<u8>)
    ensures
        valid_utf8(hex(bytes)),
    decreases bytes.len(),
{
    if bytes.len() == 0 {
        vstd::utf8::encode_utf8_valid_utf8(Seq::<char>::empty());
        assert(vstd::utf8::encode_utf8(Seq::<char>::empty()) =~= Seq::<u8>::empty());
    } else {
        lemma_hex_valid(bytes.drop_last());
        let high = hex_digit(bytes.last() as nat / 16);
        let low = hex_digit(bytes.last() as nat % 16);
        lemma_push_ascii_valid(hex(bytes.drop_last()), high);
        lemma_push_ascii_valid(hex(bytes.drop_last()).push(high), low);
    }
}

/// An outpoint as it is written is valid UTF-8.
pub proof fn lemma_outpoint_text_valid(outpoint: OutPoint)
    ensures
        valid_utf8(outpoint_text(outpoint)),
{
    lemma_hex_valid(outpoint.txid@.reverse());
    lemma_ascii_valid(0x3a);
    lemma_decimal_valid(outpoint.vout as nat);
    vstd::utf8::valid_utf8_concat(txid_text(outpoint.txid), seq![0x3au8]);
    vstd::utf8::valid_utf8_concat(
        txid_text(outpoint.txid) + seq![0x3au8],
        decimal(outpoint.vout as nat),
    );
}

/// A satpoint as it is written is valid UTF-8.
pub proof fn lemma_satpoint_text_valid(satpoint: SatPoint)
    ensures
        valid_utf8(satpoint_text(satpoint)),
{
    lemma_outpoint_text_valid(satpoint.outpoint);
    lemma_ascii_valid(0x3a);
    lemma_decimal_valid(satpoint.offset as nat);
    vstd::utf8::valid_utf8_concat(outpoint_text(satpoint.outpoint), seq![0x3au8]);
    vstd::utf8::valid_utf8_concat(
        outpoint_text(satpoint.outpoint) + seq![0x3au8],
        decimal(satpoint.offset as nat),
    );
}

/// The bytes of a string are valid UTF-8.
pub proof fn lemma_str_valid(text: &str)
    ensures
        valid_utf8(text.spec_bytes()),
{
    vstd::utf8::encode_utf8_valid_utf8(text@);
}

/// `String::from_utf8_lossy`: the string that the bytes encode. Where the
/// bytes are valid UTF-8 it holds the characters that they decode to;
/// nothing is stated of other bytes.
#[verifier::external_body]
pub(crate) fn string_of(bytes: &Vec<u8>) -> (text: String)
    ensures
        valid_utf8(bytes@) ==> text@ == decode_utf8(bytes@),
{
    String::from_utf8_lossy(bytes).into_owned()
}

/// Whether `pattern` stands in `text` at place `i`.
pub open spec fn occurs_at(text: Seq<u8>, pattern: Seq<u8>, i: int) -> bool {
    &&& 0 <= i
    &&& i + pattern.len() <= text.len()
    &&& text.subrange(i, i + pattern.len()) == pattern
}

/// Whether `i` is the first place at which `pattern` stands in `text`.
pub open spec fn first_at(text: Seq<u8>, pattern: Seq<u8>, i: int) -> bool {
    &&& occurs_at(text, pattern, i)
    &&& forall|j: int| 0 <= j < i ==> !occurs_at(text, pattern, j)
}

/// The first place at which `pattern` stands in `text`.
pub open spec fn position(text: Seq<u8>, pattern: Seq<u8>) -> Option<int> {
    if exists|i: int| occurs_at(text, pattern, i) {
        Some(choose|i: int| first_at(text, pattern, i))
    } else {
        None
    }
}

/// Where `pattern` occurs in `text`, it occurs at a first place, and that
/// place is one place only.
pub proof fn lemma_position(text: Seq<u8>, pattern: Seq<u8>, i: int)
    requires
        first_at(text, pattern, i),
    ensures
        position(text, pattern) == Some(i),
{
    let chosen = choose|k: int| first_at(text, pattern, k);
    if chosen < i {
        assert(!occurs_at(text, pattern, chosen));
    } else if i < chosen {
        assert(!occurs_at(text, pattern, i));
    }
}

/// Whether `pattern` stands in `text` at place `at`.
pub fn matches_at(text: &[u8], pattern: &[u8], at: usize) -> (r: bool)
    requires
        at <= text@.len(),
    ensures
        r == occurs_at(text@, pattern@, at as int),
{
    if pattern.len() > text.len() - at {
        return false;
    }
    let mut k: usize = 0;
    while k < pattern.len()
        invariant
            k <= pattern@.len(),
            at + pattern@.len() <= text@.len(),
            text@.len() <= usize::MAX,
            forall|j: int| 0 <= j < k ==> text@[at + j] == pattern@[j],
        decreases pattern@.len() - k,
    {
        if text[at + k] != pattern[k] {
            assert(text@.subrange(at as int, at + pattern@.len())[k as int] != pattern@[k as int]);
            return false;
        }
        k += 1;
    }
    assert(text@.subrange(at as int, at + pattern@.len()) =~= pattern@);
    true
}

/// The first place at which `pattern` stands in `text`.
pub fn find(text: &[u8], pattern: &[u8]) -> (r: Option<usize>)
    ensures
        match r {
            Some(i) => position(text@, pattern@) == Some(i as int) && first_at(
                text@,
                pattern@,
                i as int,
            ),
            None => position(text@, pattern@) is None,
        },
{
    let mut i: usize = 0;
    loop
        invariant
            i <= text@.len(),
            forall|j: int| 0 <= j < i ==> !occurs_at(text@, pattern@, j),
        decreases text@.len() - i,
    {
        if matches_at(text, pattern, i) {
            proof {
                lemma_position(text@, pattern@, i as int);
            }
            return Some(i);
        }
        if i == text.len() {
            return None;
        }
        i += 1;
    }
}

/// Whether a byte is a decimal digit.
pub open spec fn is_digit(byte: u8) -> bool {
    0x30 <= byte <= 0x39
}

/// Whether all the bytes are decimal digits.
pub open spec fn all_digits(digits: Seq<u8>) -> bool {
    forall|i: int| 0 <= i < digits.len() ==> is_digit(#[trigger] digits[i])
}

/// The number that decimal digits write.
pub open spec fn digits_value(digits: Seq<u8>) -> nat
    decreases digits.len(),
{
    if digits.len() == 0 {
        0
    } else {
        digits_value(digits.drop_last()) * 10 + (digits.last() - 0x30) as nat
    }
}

/// The number that a text writes, if it is no more than `max`: the text
/// is one or more decimal digits, before which a plus sign may stand.
pub open spec fn number(text: Seq<u8>, max: nat) -> Option<nat> {
    let digits = if text.len() > 0 && text[0] == 0x2b {
        text.skip(1)
    } else {
        text
    };
    if digits.len() > 0 && all_digits(digits) && digits_value(digits) <= max {
        Some(digits_value(digits))
    } else {
        None
    }
}

/// The first digits of a number write no more than all its digits.
pub proof fn lemma_digits_value_grows(digits: Seq<u8>, n: int)
    requires
        0 <= n <= digits.len(),
        all_digits(digits),
    ensures
        digits_value(digits.take(n)) <= digits_value(digits),
    decreases digits.len() - n,
{
    if n == digits.len() {
        assert(digits.take(n) =~= digits);
    } else {
        lemma_digits_value_grows(digits, n + 1);
        assert(digits.take(n + 1).drop_last() =~= digits.take(n));
    }
}

/// Reads the number that the bytes of `text` from `start` on write.
pub fn parse_number(text: &[u8], start: usize, max: u64) -> (r: Option<u64>)
    requires
        start <= text@.len(),
    ensures
        match r {
            Some(n) => number(text@.skip(start as int), max as nat) == Some(n as nat),
            None => number(text@.skip(start as int), max as nat) is None,
        },
{
    let ghost whole = text@.skip(start as int);
    let length: usize = text.len();
    let first: usize = if start < length && text[start] == 0x2b {
        start + 1
    } else {
        start
    };
    let ghost digits = text@.skip(first as int);
    assert(digits =~= if whole.len() > 0 && whole[0] == 0x2b {
        whole.skip(1)
    } else {
        whole
    });
    if first == length {
        return None;
    }
    let mut value: u64 = 0;
    let mut i: usize = first;
    assert(digits.take(0) =~= Seq::<u8>::empty());
    while i < length
        invariant
            first <= i <= length,
            first < length,
            length == text@.len(),
            whole == text@.skip(start as int),
            digits == text@.skip(first as int),
            digits == if whole.len() > 0 && whole[0] == 0x2b {
                whole.skip(1)
            } else {
                whole
            },
            all_digits(digits.take(i - first)),
            value == digits_value(digits.take(i - first)),
            value <= max,
        decreases length - i,
    {
        let byte: u8 = text[i];
        assert(digits[i - first] == byte);
        if byte < 0x30 || byte > 0x39 {
            assert(!is_digit(digits[i - first]));
            return None;
        }
        let digit: u64 = (byte - 0x30) as u64;
        proof {
            assert(digits.take(i - first + 1).drop_last() =~= digits.take(i - first));
            assert(digits.take(i - first + 1).last() == byte);
            assert(all_digits(digits.take(i - first + 1))) by {
                assert forall|k: int| 0 <= k < i - first + 1 implies is_digit(
                    #[trigger] digits.take(i - first + 1)[k],
                ) by {
                    if k < i - first {
                        assert(digits.take(i - first + 1)[k] == digits.take(i - first)[k]);
                    }
                }
            }
        }
        if digit > max || value > (max - digit) / 10 {
            proof {
                assert(value * 10 + digit > max);
                if all_digits(digits) {
                    lemma_digits_value_grows(digits, i - first + 1);
                }
            }
            return None;
        }
        value = value * 10 + digit;
        i += 1;
    }
    assert(digits.take(i - first) =~= digits);
    Some(value)
}

/// A string of ASCII characters is as long in bytes as in characters.
pub proof fn lemma_ascii_length(text: Seq<char>)
    requires
        forall|i: int| 0 <= i < text.len() ==> (#[trigger] text[i]) as u32 <= 0x7f,
    ensures
        vstd::utf8::encode_utf8(text).len() == text.len(),
    decreases text.len(),
{
    reveal_with_fuel(vstd::utf8::encode_utf8, 2);
    if text.len() > 0 {
        lemma_ascii_length(text.drop_first());
    }
}

} // verus!
