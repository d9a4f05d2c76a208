use xemanh::crop::{crop_base_stem, crop_candidate_path, pasted_file_name};

#[test]
fn crop_suffix_is_stripped() {
    assert_eq!(crop_base_stem("photo_crop12"), "photo");
    assert_eq!(crop_base_stem("a_crop1_crop2"), "a_crop1");
}

#[test]
fn stem_without_crop_digits_is_kept() {
    assert_eq!(crop_base_stem("photo_crop"), "photo_crop");
    assert_eq!(crop_base_stem("photo_crop1a"), "photo_crop1a");
    assert_eq!(crop_base_stem("photo"), "photo");
    assert_eq!(crop_base_stem(""), "");
    assert_eq!(crop_base_stem("_crop7"), "");
}

#[test]
fn crop_candidates() {
    assert_eq!(crop_candidate_path("/d/photo_crop3.jpg", 1), "/d/photo_crop1.jpg");
    assert_eq!(crop_candidate_path("/d/photo.png", 12), "/d/photo_crop12.png");
    assert_eq!(crop_candidate_path("noext", 2), "noext_crop2.png");
}

#[test]
fn pasted_names_hold_the_time() {
    assert_eq!(pasted_file_name(1_700_000_000_123), "xemanh-1700000000123.jpg");
    assert_eq!(pasted_file_name(0), "xemanh-0.jpg");
}

#[test]
fn crop_names_keep_their_base() {
    for x in ["photo", "a_crop1", "", "x_crop", "_crop_crop"] {
        for n in [0u64, 7, 123] {
            assert_eq!(crop_base_stem(&format!("{x}_crop{n}")), x);
        }
    }
}
