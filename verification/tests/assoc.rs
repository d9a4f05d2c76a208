use xemanh::assoc::{associated_extensions, base64_encode, file_exts_key, temp_key_name, format_user_choice_string, generate_user_choice_hash, hash_string, word_swap};
use xemanh::text::to_wide;

#[test]
fn base64_examples() {
    assert_eq!(base64_encode(b""), "");
    assert_eq!(base64_encode(b"f"), "Zg==");
    assert_eq!(base64_encode(b"fo"), "Zm8=");
    assert_eq!(base64_encode(b"foo"), "Zm9v");
    assert_eq!(base64_encode(b"foob"), "Zm9vYg==");
    assert_eq!(base64_encode(b"foobar"), "Zm9vYmFy");
    assert_eq!(base64_encode(&[0xFB, 0xFF]), "+/8=");
}

#[test]
fn word_swap_rotates_halves() {
    assert_eq!(word_swap(0x1234_5678), 0x5678_1234);
    assert_eq!(word_swap(0xFFFF_0000), 0x0000_FFFF);
    assert_eq!(word_swap(0), 0);
}

#[test]
fn hash_of_short_inputs_is_none() {
    assert_eq!(hash_string(""), None);
    assert_eq!(hash_string("ab"), None);
}

#[test]
fn hash_examples() {
    assert_eq!(hash_string("abc"), Some("S0uiSASHgHM=".to_string()));
    assert_eq!(hash_string("abcdefg"), Some("7viceekdFXk=".to_string()));
    assert_eq!(hash_string("Xin chào"), Some("Yv57UvmwpKs=".to_string()));
}

#[test]
fn user_choice_text_is_lowercase_with_hex_words() {
    let text = format_user_choice_string(".JPG", "S-1-5-21-1000", "XemAnh.Image", 0x01DA_2B3C, 0x4D5E_6F70);
    assert_eq!(
        text,
        ".jpgs-1-5-21-1000xemanh.image01da2b3c4d5e6f70user choice set via windows user experience \
         {d18b6dd5-6124-4341-9318-804003bafa0b}"
    );
    let padded = format_user_choice_string(".png", "s", "p", 0x1, 0xABC);
    assert!(padded.contains("0000000100000abc"));
}

#[test]
fn user_choice_hash_example() {
    assert_eq!(
        generate_user_choice_hash(".JPG", "S-1-5-21-1000", "XemAnh.Image", 0x01DA_2B3C, 0x4D5E_6F70),
        Some("n7Tr8ux19+8=".to_string())
    );
}

#[test]
fn wide_strings_end_in_nul() {
    assert_eq!(to_wide("ab"), vec![97, 98, 0]);
    assert_eq!(to_wide(""), vec![0]);
    assert_eq!(to_wide("😀"), vec![0xD83D, 0xDE00, 0]);
}

#[test]
fn registry_names() {
    assert_eq!(
        file_exts_key(".jpg"),
        "Software\\Microsoft\\Windows\\CurrentVersion\\Explorer\\FileExts\\.jpg"
    );
    assert_eq!(temp_key_name(0x1A2B), "{0000000000001a2b}");
    assert_eq!(temp_key_name(u64::MAX), "{ffffffffffffffff}");
}

#[test]
fn associated_extensions_are_the_image_extensions() {
    assert_eq!(
        associated_extensions(),
        vec![".jpg", ".jpeg", ".jpe", ".jfif", ".png", ".bmp", ".dib", ".gif", ".tga"]
    );
}
