use lson::lson::{binary_to_text, decrypt, encrypt, text_to_binary, xor_encrypt_decrypt};

#[test]
fn text_in_binary_has_eight_digits_for_each_character() {
    assert_eq!(text_to_binary(""), "");
    assert_eq!(text_to_binary("A"), "01000001");
    assert_eq!(text_to_binary("Hi"), "0100100001101001");
    assert_eq!(text_to_binary("\u{0}\u{ff}"), "0000000011111111");
}

#[test]
fn only_the_low_byte_of_a_character_is_written() {
    assert_eq!(text_to_binary("\u{141}"), "01000001");
    assert_eq!(text_to_binary("\u{1F600}"), "00000000");
}

#[test]
fn binary_digits_are_read_in_groups_of_eight() {
    assert_eq!(binary_to_text(""), "");
    assert_eq!(binary_to_text("01000001"), "A");
    assert_eq!(binary_to_text("0100100001101001"), "Hi");
    assert_eq!(binary_to_text("11111111"), "\u{ff}");
}

#[test]
fn a_short_last_group_is_read_as_it_is() {
    assert_eq!(binary_to_text("01000001101"), "A\u{5}");
    assert_eq!(binary_to_text("1"), "\u{1}");
}

#[test]
fn groups_that_write_no_byte_are_left_out() {
    assert_eq!(binary_to_text("0100000x01000010"), "B");
    assert_eq!(binary_to_text("+1000001"), "A");
    assert_eq!(binary_to_text("+"), "");
    assert_eq!(binary_to_text("-1000001"), "");
    assert_eq!(binary_to_text("0100000201000001"), "A");
    assert_eq!(binary_to_text("01000001 "), "A");
}

#[test]
fn binary_to_text_agrees_with_from_str_radix() {
    for group in ["", "0", "1", "+", "+1", "++1", "-1", "1+", "00000000", "11111111", "+1111111", "1111111+", "2", "1 "] {
        let wanted: String = match u8::from_str_radix(group, 2) {
            Ok(byte) => char::from(byte).to_string(),
            Err(_) => String::new(),
        };
        assert_eq!(binary_to_text(group), wanted, "{:?}", group);
    }
}

#[test]
fn xor_with_a_repeating_key() {
    assert_eq!(xor_encrypt_decrypt(&[], &[1]), Vec::<u8>::new());
    assert_eq!(xor_encrypt_decrypt(&[0, 0, 0, 0, 0], &[1, 2]), vec![1, 2, 1, 2, 1]);
    assert_eq!(xor_encrypt_decrypt(&[0xff, 0x0f], &[0xf0]), vec![0x0f, 0xff]);
    let data = [3u8, 1, 4, 1, 5, 9, 2, 6];
    let key = [7u8, 11, 13];
    let mixed = xor_encrypt_decrypt(&data, &key);
    assert_eq!(xor_encrypt_decrypt(&mixed, &key), data.to_vec());
}

#[test]
fn encoding_of_a_known_text() {
    assert_eq!(encrypt(""), "");
    assert_eq!(encrypt("A"), "XEJfXm9VXlI=");
}

#[test]
fn decoding_gives_the_text_back() {
    for text in ["", "A", "name = \"Ann\"\n$user\n  age = 9", "\u{e9}t\u{e9}"] {
        assert_eq!(decrypt(&encrypt(text)), text, "{:?}", text);
    }
    assert_eq!(decrypt("XEJfXm9VXlI="), "A");
}

#[test]
fn what_cannot_be_decoded_gives_the_empty_text() {
    assert_eq!(decrypt("not base64 at all!"), "");
    assert_eq!(decrypt("////"), "");
}
