//! The LSON encoding: a reversible transform of a text into printable
//! characters.
//!
//! A text is first written as binary digits, eight for the low byte of each
//! character. The bytes of those digits are combined with a repeating key by
//! exclusive or, and the result is written in base64.

use vstd::prelude::*;
use vstd::utf8::{decode_utf8, valid_utf8};
use crate::text::{to_chars, to_string};

verus! {

/// What `base64::engine::general_purpose::STANDARD` encodes `data` to, with
/// `base64::Engine::encode`.
pub uninterp spec fn base64_text(data: Seq<u8>) -> Seq<char>;

/// What `base64::engine::general_purpose::STANDARD` decodes `text` to, with
/// `base64::Engine::decode`, or `None` where it reports an error.
pub uninterp spec fn base64_data(text: Seq<char>) -> Option<Seq<u8>>;

/// The length of `data` in base64, with padding, fits a `usize`.
pub open spec fn encodable(data: Seq<u8>) -> bool {
    data.len() / 3 * 4 + 4 <= usize::MAX
}

/// Calls `base64::Engine::encode` on the engine `STANDARD`. The call panics
/// where the encoded length does not fit a `usize`, which `requires` rules out.
/// The result is the named result `base64_text`.
#[verifier::external_body]
fn base64_encode(data: &Vec<u8>) -> (text: String)
    requires
        encodable(data@),
    ensures
        text@ == base64_text(data@),
{
    base64::Engine::encode(&base64::engine::general_purpose::STANDARD, data)
}

/// Calls `base64::Engine::decode` on the engine `STANDARD`. The result is the
/// named result `base64_data`, with `None` for any error.
#[verifier::external_body]
fn base64_decode(text: &str) -> (data: Option<Vec<u8>>)
    ensures
        match data {
            Some(bytes) => base64_data(text@) == Some(bytes@),
            None => base64_data(text@) is None,
        },
{
    base64::Engine::decode(&base64::engine::general_purpose::STANDARD, text).ok()
}

/// Calls `String::from_utf8`, which accepts exactly the byte sequences that
/// are valid UTF-8 and gives the text that they encode.
#[verifier::external_body]
fn utf8_text(bytes: Vec<u8>) -> (text: Option<String>)
    ensures
        match text {
            Some(s) => valid_utf8(bytes@) && s@ == decode_utf8(bytes@),
            None => !valid_utf8(bytes@),
        },
{
    String::from_utf8(bytes).ok()
}

/// The low byte of the code of `c`.
pub open spec fn low_byte(c: char) -> u8 {
    (c as u32 % 256) as u8
}

/// The character for one binary digit.
pub open spec fn digit(set: bool) -> char {
    if set {
        '1'
    } else {
        '0'
    }
}

/// The eight binary digits of `byte`, highest first.
pub open spec fn byte_digits(byte: u8) -> Seq<char> {
    seq![
        digit(byte / 128 % 2 == 1),
        digit(byte / 64 % 2 == 1),
        digit(byte / 32 % 2 == 1),
        digit(byte / 16 % 2 == 1),
        digit(byte / 8 % 2 == 1),
        digit(byte / 4 % 2 == 1),
        digit(byte / 2 % 2 == 1),
        digit(byte % 2 == 1),
    ]
}

/// `text` in binary digits: for each character the eight digits of its low
/// byte.
pub open spec fn binary_of(text: Seq<char>) -> Seq<char>
    decreases text.len(),
{
    if text.len() == 0 {
        Seq::empty()
    } else {
        binary_of(text.drop_last()) + byte_digits(low_byte(text.last()))
    }
}

/// The digit `0` or the digit `1`.
pub open spec fn is_binary_digit(c: char) -> bool {
    c == '0' || c == '1'
}

/// The number that the binary digits of `digits` write.
pub open spec fn binary_value(digits: Seq<char>) -> nat
    decreases digits.len(),
{
    if digits.len() == 0 {
        0
    } else {
        2 * binary_value(digits.drop_last()) + if digits.last() == '1' {
            1nat
        } else {
            0nat
        }
    }
}

/// Every character of `digits` is a binary digit.
pub open spec fn all_binary(digits: Seq<char>) -> bool {
    forall|i: int| 0 <= i < digits.len() ==> is_binary_digit(#[trigger] digits[i])
}

/// `group` without one `+` at its start.
pub open spec fn without_plus(group: Seq<char>) -> Seq<char> {
    if group.len() > 0 && group[0] == '+' {
        group.skip(1)
    } else {
        group
    }
}

/// The byte that a group of digits writes: an optional `+`, then one or more
/// binary digits that write a number below 256. `None` for any other group.
pub open spec fn group_byte(group: Seq<char>) -> Option<u8> {
    let digits = without_plus(group);
    if digits.len() > 0 && all_binary(digits) && binary_value(digits) < 256 {
        Some(binary_value(digits) as u8)
    } else {
        None
    }
}

/// The text that binary digits write: the digits are taken in groups of
/// eight, the last group being shorter where the digits run out, and each
/// group that writes a byte gives the character with that code. Other groups
/// give nothing.
pub open spec fn text_of(binary: Seq<char>) -> Seq<char>
    decreases binary.len(),
{
    if binary.len() == 0 {
        Seq::empty()
    } else {
        let n = if binary.len() < 8 {
            binary.len() as int
        } else {
            8
        };
        let head = match group_byte(binary.take(n)) {
            Some(byte) => seq![byte as char],
            None => Seq::empty(),
        };
        head + text_of(binary.skip(n))
    }
}

/// Each byte of `data` combined by exclusive or with the byte of `key` at
/// the same place, `key` being repeated as often as needed.
pub open spec fn xored(data: Seq<u8>, key: Seq<u8>) -> Seq<u8> {
    Seq::new(data.len(), |i: int| data[i] ^ key[i % key.len() as int])
}

/// The low bytes of the characters of `text`.
pub open spec fn low_bytes(text: Seq<char>) -> Seq<u8> {
    Seq::new(text.len(), |i: int| low_byte(text[i]))
}

/// The key of the encoding.
pub open spec fn key_bytes() -> Seq<u8> {
    low_bytes("lson_encryption_key_32_bytes_long"@)
}

/// The bytes that stand for `text` before they are written in base64: the
/// binary digits of `text`, combined with the key.
pub open spec fn sealed(text: Seq<char>) -> Seq<u8> {
    xored(low_bytes(binary_of(text)), key_bytes())
}

/// The text that `data` stands for: the key is taken off, and what is left
/// is read as binary digits. The empty text where what is left is no UTF-8.
pub open spec fn opened(data: Seq<u8>) -> Seq<char> {
    let plain = xored(data, key_bytes());
    if valid_utf8(plain) {
        text_of(decode_utf8(plain))
    } else {
        Seq::empty()
    }
}

/// The encoding of `text`.
pub open spec fn encrypted(text: Seq<char>) -> Seq<char> {
    base64_text(sealed(text))
}

/// The text that `coded` encodes, or the empty text where `coded` is no
/// base64, or where what it holds is no UTF-8 once the key is taken off.
pub open spec fn decrypted(coded: Seq<char>) -> Seq<char> {
    match base64_data(coded) {
        Some(data) => opened(data),
        None => Seq::empty(),
    }
}

/// Every character of `text` has a code below 256.
pub open spec fn is_single_byte(text: Seq<char>) -> bool {
    forall|i: int| 0 <= i < text.len() ==> (#[trigger] text[i] as u32) < 256
}

/// Appending digits never makes the number smaller.
pub proof fn lemma_binary_value_grows(digits: Seq<char>, k: int)
    requires
        0 <= k <= digits.len(),
    ensures
        binary_value(digits.take(k)) <= binary_value(digits),
    decreases digits.len(),
{
    if k == digits.len() {
        assert(digits.take(k) =~= digits);
    } else {
        lemma_binary_value_grows(digits.drop_last(), k);
        assert(digits.drop_last().take(k) =~= digits.take(k));
    }
}

fn low_byte_of(c: char) -> (b: u8)
    ensures
        b == low_byte(c),
{
    (c as u32 % 256) as u8
}

fn digit_of(set: bool) -> (c: char)
    ensures
        c == digit(set),
{
    if set {
        '1'
    } else {
        '0'
    }
}

fn push_digits(out: &mut Vec<char>, byte: u8)
    ensures
        final(out)@ == old(out)@ + byte_digits(byte),
{
    let ghost before = out@;
    out.push(digit_of(byte / 128 % 2 == 1));
    out.push(digit_of(byte / 64 % 2 == 1));
    out.push(digit_of(byte / 32 % 2 == 1));
    out.push(digit_of(byte / 16 % 2 == 1));
    out.push(digit_of(byte / 8 % 2 == 1));
    out.push(digit_of(byte / 4 % 2 == 1));
    out.push(digit_of(byte / 2 % 2 == 1));
    out.push(digit_of(byte % 2 == 1));
    assert(out@ =~= before + byte_digits(byte));
}

fn binary_chars(text: &Vec<char>) -> (out: Vec<char>)
    ensures
        out@ == binary_of(text@),
{
    let mut out: Vec<char> = Vec::new();
    let mut i: usize = 0;
    assert(text@.take(0) =~= Seq::<char>::empty());
    while i < text.len()
        invariant
            i <= text.len(),
            out@ == binary_of(text@.take(i as int)),
        decreases text.len() - i,
    {
        push_digits(&mut out, low_byte_of(text[i]));
        assert(text@.take(i + 1).drop_last() =~= text@.take(i as int));
        i += 1;
    }
    assert(text@.take(i as int) =~= text@);
    out
}

/// Writes `text` in binary digits.
pub fn text_to_binary(text: &str) -> (binary: String)
    ensures
        binary@ == binary_of(text@),
{
    let chars = to_chars(text);
    to_string(&binary_chars(&chars))
}

/// The byte that the digits of `binary` from `from` up to `to` write.
fn group_byte_of(binary: &Vec<char>, from: usize, to: usize) -> (r: Option<u8>)
    requires
        from <= to <= binary.len(),
    ensures
        r == group_byte(binary@.subrange(from as int, to as int)),
{
    let ghost group = binary@.subrange(from as int, to as int);
    let start: usize = if from < to && binary[from] == '+' {
        from + 1
    } else {
        from
    };
    let ghost digits = binary@.subrange(start as int, to as int);
    assert(digits =~= without_plus(group));
    if start == to {
        return None;
    }
    let mut value: u32 = 0;
    let mut i: usize = start;
    assert(digits.take(0) =~= Seq::<char>::empty());
    while i < to
        invariant
            from <= start <= i <= to <= binary.len(),
            start < to,
            group == binary@.subrange(from as int, to as int),
            digits == binary@.subrange(start as int, to as int),
            digits == without_plus(group),
            forall|j: int| 0 <= j < i - start ==> is_binary_digit(#[trigger] digits[j]),
            value == binary_value(digits.take(i - start)),
            value < 256,
        decreases to - i,
    {
        let c = binary[i];
        assert(digits[i - start] == c);
        if !(c == '0' || c == '1') {
            assert(!is_binary_digit(digits[i - start]));
            return None;
        }
        let ghost next = digits.take(i - start + 1);
        assert(next.drop_last() =~= digits.take(i - start));
        let bit: u32 = if c == '1' {
            1
        } else {
            0
        };
        let grown: u32 = 2 * value + bit;
        if grown >= 256 {
            proof {
                lemma_binary_value_grows(digits, i - start + 1);
            }
            return None;
        }
        value = grown;
        i += 1;
    }
    assert(digits.take(i - start) =~= digits);
    Some(value as u8)
}

fn decoded_chars(binary: &Vec<char>) -> (out: Vec<char>)
    ensures
        out@ == text_of(binary@),
{
    let mut out: Vec<char> = Vec::new();
    let mut at: usize = 0;
    assert(binary@.skip(0) =~= binary@);
    while at < binary.len()
        invariant
            at <= binary.len(),
            text_of(binary@) == out@ + text_of(binary@.skip(at as int)),
        decreases binary.len() - at,
    {
        let n: usize = if binary.len() - at < 8 {
            binary.len() - at
        } else {
            8
        };
        let ghost rest = binary@.skip(at as int);
        let ghost before = out@;
        assert(rest.take(n as int) =~= binary@.subrange(at as int, at + n));
        assert(rest.skip(n as int) =~= binary@.skip(at + n));
        match group_byte_of(binary, at, at + n) {
            Some(byte) => {
                out.push(byte as char);
                assert(out@ + text_of(binary@.skip(at + n)) =~= before + (seq![byte as char]
                    + text_of(binary@.skip(at + n))));
            },
            None => {
                assert(out@ + text_of(binary@.skip(at + n)) =~= before + (Seq::<char>::empty()
                    + text_of(binary@.skip(at + n))));
            },
        }
        at += n;
    }
    assert(binary@.skip(at as int) =~= Seq::<char>::empty());
    assert(out@ + Seq::<char>::empty() =~= out@);
    out
}

/// Reads the text that binary digits write.
pub fn binary_to_text(binary: &str) -> (text: String)
    ensures
        text@ == text_of(binary@),
{
    let chars = to_chars(binary);
    to_string(&decoded_chars(&chars))
}

/// Combines `data` with the repeating `key` by exclusive or. Doing so twice
/// with one key gives `data` back.
pub fn xor_encrypt_decrypt(data: &[u8], key: &[u8]) -> (out: Vec<u8>)
    requires
        key@.len() > 0,
    ensures
        out@ == xored(data@, key@),
{
    let mut out: Vec<u8> = Vec::new();
    let mut i: usize = 0;
    while i < data.len()
        invariant
            i <= data.len(),
            key@.len() > 0,
            out@.len() == i,
            forall|j: int| 0 <= j < i ==> out@[j] == data@[j] ^ key@[j % key@.len() as int],
        decreases data.len() - i,
    {
        out.push(data[i] ^ key[i % key.len()]);
        i += 1;
    }
    assert(out@ =~= xored(data@, key@));
    out
}

fn low_bytes_of(text: &Vec<char>) -> (out: Vec<u8>)
    ensures
        out@ == low_bytes(text@),
{
    let mut out: Vec<u8> = Vec::new();
    let mut i: usize = 0;
    while i < text.len()
        invariant
            i <= text.len(),
            out@.len() == i,
            forall|j: int| 0 <= j < i ==> out@[j] == low_byte(text@[j]),
        decreases text.len() - i,
    {
        out.push(low_byte_of(text[i]));
        i += 1;
    }
    assert(out@ =~= low_bytes(text@));
    out
}

fn key() -> (k: Vec<u8>)
    ensures
        k@ == key_bytes(),
        k@.len() > 0,
{
    proof {
        reveal_strlit("lson_encryption_key_32_bytes_long");
    }
    low_bytes_of(&to_chars("lson_encryption_key_32_bytes_long"))
}

/// Opening what was sealed gives the text back, as long as the code of each
/// of its characters fits a byte.
pub proof fn lemma_opened_sealed(text: Seq<char>)
    requires
        is_single_byte(text),
    ensures
        opened(sealed(text)) == text,
{
    let binary = binary_of(text);
    let bytes = low_bytes(binary);
    reveal_strlit("lson_encryption_key_32_bytes_long");
    lemma_xor_twice(bytes, key_bytes());
    lemma_binary_digits_only(text);
    assert(vstd::utf8::is_ascii_chars(binary));
    vstd::utf8::is_ascii_chars_encode_utf8(binary);
    assert(vstd::utf8::encode_utf8(binary) =~= bytes);
    vstd::utf8::encode_utf8_valid_utf8(binary);
    vstd::utf8::encode_utf8_decode_utf8(binary);
    lemma_binary_round_trip(text);
}

/// Decoding what was encoded gives the text back, as long as the code of
/// each of its characters fits a byte and the base64 decoder reads back what
/// the base64 encoder wrote.
pub proof fn lemma_decrypt_inverts_encrypt(text: Seq<char>)
    requires
        is_single_byte(text),
        base64_data(base64_text(sealed(text))) == Some(sealed(text)),
    ensures
        decrypted(encrypted(text)) == text,
{
    lemma_opened_sealed(text);
}

/// A text in binary digits holds binary digits only.
proof fn lemma_binary_digits_only(text: Seq<char>)
    ensures
        all_binary(binary_of(text)),
    decreases text.len(),
{
    if text.len() > 0 {
        lemma_binary_digits_only(text.drop_last());
        lemma_binary_length(text.drop_last());
        let head = binary_of(text.drop_last());
        let tail = byte_digits(low_byte(text.last()));
        assert forall|i: int| 0 <= i < binary_of(text).len() implies is_binary_digit(
            #[trigger] binary_of(text)[i],
        ) by {
            if i < head.len() {
                assert(binary_of(text)[i] == head[i]);
            } else {
                assert(binary_of(text)[i] == tail[i - head.len()]);
            }
        }
    }
}

/// Encodes `text`.
pub fn encrypt(text: &str) -> (coded: String)
    requires
        text@.len() * 8 / 3 * 4 + 4 <= usize::MAX,
    ensures
        coded@ == encrypted(text@),
{
    let chars = to_chars(text);
    let data = low_bytes_of(&binary_chars(&chars));
    let k = key();
    let mixed = xor_encrypt_decrypt(data.as_slice(), k.as_slice());
    proof {
        lemma_binary_length(text@);
    }
    base64_encode(&mixed)
}

/// Decodes `coded`. What cannot be decoded gives the empty text.
pub fn decrypt(coded: &str) -> (text: String)
    ensures
        text@ == decrypted(coded@),
{
    match base64_decode(coded) {
        Some(data) => {
            let k = key();
            let plain = xor_encrypt_decrypt(data.as_slice(), k.as_slice());
            match utf8_text(plain) {
                Some(binary) => binary_to_text(binary.as_str()),
                None => String::new(),
            }
        },
        None => String::new(),
    }
}

/// Combining twice with one key gives the data back.
pub proof fn lemma_xor_twice(data: Seq<u8>, key: Seq<u8>)
    requires
        key.len() > 0,
    ensures
        xored(xored(data, key), key) == data,
{
    assert forall|i: int| 0 <= i < data.len() implies #[trigger] xored(xored(data, key), key)[i]
        == data[i] by {
        let d = data[i];
        let k = key[i % key.len() as int];
        assert((d ^ k) ^ k == d) by (bit_vector);
    }
    assert(xored(xored(data, key), key) =~= data);
}

proof fn lemma_binary_value_push(digits: Seq<char>, c: char)
    ensures
        binary_value(digits.push(c)) == 2 * binary_value(digits) + if c == '1' {
            1nat
        } else {
            0nat
        },
{
    assert(digits.push(c).drop_last() =~= digits);
}

/// The eight digits of a byte write that byte.
proof fn lemma_byte_digits(byte: u8)
    ensures
        group_byte(byte_digits(byte)) == Some(byte),
{
    let d = byte_digits(byte);
    let e = Seq::<char>::empty();
    lemma_binary_value_push(e, d[0]);
    lemma_binary_value_push(e.push(d[0]), d[1]);
    lemma_binary_value_push(e.push(d[0]).push(d[1]), d[2]);
    lemma_binary_value_push(e.push(d[0]).push(d[1]).push(d[2]), d[3]);
    lemma_binary_value_push(e.push(d[0]).push(d[1]).push(d[2]).push(d[3]), d[4]);
    lemma_binary_value_push(e.push(d[0]).push(d[1]).push(d[2]).push(d[3]).push(d[4]), d[5]);
    lemma_binary_value_push(
        e.push(d[0]).push(d[1]).push(d[2]).push(d[3]).push(d[4]).push(d[5]),
        d[6],
    );
    lemma_binary_value_push(
        e.push(d[0]).push(d[1]).push(d[2]).push(d[3]).push(d[4]).push(d[5]).push(d[6]),
        d[7],
    );
    assert(d =~= e.push(d[0]).push(d[1]).push(d[2]).push(d[3]).push(d[4]).push(d[5]).push(
        d[6],
    ).push(d[7]));
    assert(binary_value(e) == 0);
    assert(binary_value(d) == byte);
    assert(without_plus(d) == d);
}

/// The binary digits of a text begin with those of its first character.
proof fn lemma_binary_of_first(text: Seq<char>)
    requires
        text.len() > 0,
    ensures
        binary_of(text) == byte_digits(low_byte(text[0])) + binary_of(text.skip(1)),
    decreases text.len(),
{
    if text.len() == 1 {
        assert(text.drop_last() =~= Seq::<char>::empty());
        assert(text.skip(1) =~= Seq::<char>::empty());
        assert(binary_of(text) =~= byte_digits(low_byte(text[0])) + binary_of(text.skip(1)));
    } else {
        lemma_binary_of_first(text.drop_last());
        assert(text.drop_last().skip(1) =~= text.skip(1).drop_last());
        assert(binary_of(text) =~= byte_digits(low_byte(text[0])) + binary_of(text.skip(1)));
    }
}

/// Reading the binary digits of a text gives the text back, as long as the
/// code of each of its characters fits a byte.
pub proof fn lemma_binary_round_trip(text: Seq<char>)
    requires
        is_single_byte(text),
    ensures
        text_of(binary_of(text)) == text,
    decreases text.len(),
{
    if text.len() > 0 {
        let byte = low_byte(text[0]);
        let rest = text.skip(1);
        lemma_binary_of_first(text);
        lemma_binary_length(rest);
        lemma_binary_round_trip(rest);
        lemma_byte_digits(byte);
        let binary = binary_of(text);
        assert(binary.take(8) =~= byte_digits(byte));
        assert(binary.skip(8) =~= binary_of(rest));
        assert(byte as char == text[0]) by {
            assert(byte as u32 == text[0] as u32);
            vstd::utf8::char_u32_cast(text[0], byte as u32);
        }
        assert(text_of(binary) =~= seq![text[0]] + rest);
        assert(seq![text[0]] + rest =~= text);
    }
}

/// A text in binary digits is eight times as long as the text.
pub proof fn lemma_binary_length(text: Seq<char>)
    ensures
        binary_of(text).len() == 8 * text.len(),
    decreases text.len(),
{
    if text.len() > 0 {
        lemma_binary_length(text.drop_last());
    }
}

} // verus!
