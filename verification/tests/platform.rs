use xemanh::platform::{
    check_clipboard_image, encode_dib_bgra, icon_image_bytes, select_icon_images, title_to_wide, IconImage,
};

fn entry(width: u8, size: u32, offset: u32) -> Vec<u8> {
    let mut e = vec![width, width, 0, 0, 1, 0, 32, 0];
    e.extend_from_slice(&size.to_le_bytes());
    e.extend_from_slice(&offset.to_le_bytes());
    e
}

fn ico(entries: &[Vec<u8>], count: u16, data_len: usize) -> Vec<u8> {
    let mut v = vec![0, 0, 1, 0];
    v.extend_from_slice(&count.to_le_bytes());
    for e in entries {
        v.extend_from_slice(e);
    }
    v.extend((0..data_len).map(|i| i as u8));
    v
}

#[test]
fn title_replaces_ellipsis_and_terminates() {
    assert_eq!(title_to_wide("a…b"), vec![97, 46, 46, 98, 0]);
    assert_eq!(title_to_wide(""), vec![0]);
    assert_eq!(title_to_wide("é😀"), vec![0xE9, 0xD83D, 0xDE00, 0]);
}

#[test]
fn icon_selection_picks_largest_and_smallest() {
    let f = ico(&[entry(16, 10, 54), entry(32, 20, 64), entry(0, 30, 84)], 3, 60);
    assert_eq!(
        select_icon_images(&f),
        Some((IconImage { offset: 84, len: 30 }, IconImage { offset: 54, len: 10 }))
    );
}

#[test]
fn icon_selection_with_one_size_uses_it_twice() {
    let big_only = ico(&[entry(48, 10, 22)], 1, 10);
    assert_eq!(
        select_icon_images(&big_only),
        Some((IconImage { offset: 22, len: 10 }, IconImage { offset: 22, len: 10 }))
    );
    let small_only = ico(&[entry(16, 10, 22)], 1, 10);
    assert_eq!(
        select_icon_images(&small_only),
        Some((IconImage { offset: 22, len: 10 }, IconImage { offset: 22, len: 10 }))
    );
}

#[test]
fn icon_selection_refuses_bad_files() {
    assert_eq!(select_icon_images(&[0, 0, 1, 0]), None);
    let truncated = ico(&[entry(16, 10, 38)], 2, 0);
    assert_eq!(select_icon_images(&truncated), None);
    let empty_entries = ico(&[entry(16, 0, 22)], 1, 0);
    assert_eq!(select_icon_images(&empty_entries), None);
    assert_eq!(select_icon_images(&ico(&[], 0, 0)), None);
}

#[test]
fn icon_image_bytes_within_file() {
    let f = ico(&[entry(16, 4, 22)], 1, 6);
    assert_eq!(icon_image_bytes(&f, IconImage { offset: 22, len: 4 }), Some(vec![0, 1, 2, 3]));
    assert_eq!(icon_image_bytes(&f, IconImage { offset: 24, len: 4 }), Some(vec![2, 3, 4, 5]));
    assert_eq!(icon_image_bytes(&f, IconImage { offset: 25, len: 4 }), None);
}

#[test]
fn clipboard_image_checks() {
    assert_eq!(check_clipboard_image(2, 1, 8), Ok(()));
    let msg = "Cannot copy image: invalid pixel data".to_string();
    assert_eq!(check_clipboard_image(0, 1, 0), Err(msg.clone()));
    assert_eq!(check_clipboard_image(2, 0, 0), Err(msg.clone()));
    assert_eq!(check_clipboard_image(2, 1, 7), Err(msg));
}

#[test]
fn dib_is_bottom_up_bgra() {
    let rgba: Vec<u8> = (1..=16).collect();
    let dib = encode_dib_bgra(2, 2, &rgba);
    let mut expected = vec![40, 0, 0, 0, 2, 0, 0, 0, 2, 0, 0, 0, 1, 0, 32, 0, 0, 0, 0, 0, 16, 0, 0, 0];
    expected.extend(std::iter::repeat(0u8).take(16));
    expected.extend_from_slice(&[11, 10, 9, 12, 15, 14, 13, 16, 3, 2, 1, 4, 7, 6, 5, 8]);
    assert_eq!(dib, expected);
}

#[test]
fn utf16_of_a_concatenation_concatenates() {
    let a = xemanh::text::encode_utf16("ab");
    let b = xemanh::text::encode_utf16("😀é");
    let mut ab = a.clone();
    ab.extend(b);
    assert_eq!(xemanh::text::encode_utf16("ab😀é"), ab);
}
