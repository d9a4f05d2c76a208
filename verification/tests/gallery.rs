use xemanh::gallery::{
    file_name_of, is_image_file, resolve_initial_path, resolve_path, same_path, scan_dir_images,
    Gallery, ListedFile, PathKind,
};

fn listed(path: &str, is_file: bool) -> ListedFile {
    ListedFile { path: path.to_string(), is_file, canonical: Some(path.to_string()) }
}

#[test]
fn image_files_are_recognised_by_extension_ignoring_case() {
    assert!(is_image_file("/pics/a.JPG", true));
    assert!(is_image_file("/pics/b.jfif", true));
    assert!(is_image_file("c.TgA", true));
    assert!(!is_image_file("/pics/a.txt", true));
    assert!(!is_image_file("/pics/a.png", false));
    assert!(!is_image_file("/pics/noext", true));
    assert!(!is_image_file("/pics/.png", true));
}

#[test]
fn file_name_of_gives_last_component_or_question_mark() {
    assert_eq!(file_name_of("/x/y/photo.png"), "photo.png");
    assert_eq!(file_name_of("photo.png"), "photo.png");
    assert_eq!(file_name_of("/"), "?");
    assert_eq!(file_name_of("a/.."), "?");
}

#[test]
fn same_path_prefers_canonical_forms() {
    let a = Some("/real/x.png".to_string());
    let b = Some("/real/x.png".to_string());
    assert!(same_path("/link/x.png", "/other/x.png", &a, &b));
    let c = Some("/real/y.png".to_string());
    assert!(!same_path("/same.png", "/same.png", &a, &c));
    assert!(same_path("dir//x.png", "dir/x.png", &a, &None));
    assert!(!same_path("dir/x.png", "dir/y.png", &None, &None));
}

#[test]
fn scan_keeps_images_sorted_by_lowercase_name() {
    let listing = vec![
        listed("/d/B.jpg", true),
        listed("/d/notes.txt", true),
        listed("/d/a.png", true),
        listed("/d/folder.gif", false),
        listed("/d/c.GIF", true),
    ];
    assert_eq!(scan_dir_images(listing), vec!["/d/a.png", "/d/B.jpg", "/d/c.GIF"]);
}

#[test]
fn scan_keeps_listing_order_for_equal_names() {
    let listing = vec![listed("/d/X.jpg", true), listed("/d/a.jpg", true), listed("/d/x.jpg", true)];
    assert_eq!(scan_dir_images(listing), vec!["/d/a.jpg", "/d/X.jpg", "/d/x.jpg"]);
    let listing = vec![listed("/d/x.jpg", true), listed("/d/X.jpg", true)];
    assert_eq!(scan_dir_images(listing), vec!["/d/x.jpg", "/d/X.jpg"]);
}

#[test]
fn scan_of_empty_listing_is_empty() {
    assert!(scan_dir_images(Vec::new()).is_empty());
}

#[test]
fn resolve_path_expands_home() {
    assert_eq!(resolve_path("~/Pictures".to_string(), "/home/u"), "/home/u/Pictures");
    assert_eq!(resolve_path("~".to_string(), "/home/u"), "/home/u");
    assert_eq!(resolve_path("~//\\x".to_string(), "/home/u"), "/home/u/x");
    assert_eq!(resolve_path("~/".to_string(), "/home/u"), "/home/u");
    assert_eq!(resolve_path("/abs/p.png".to_string(), "/home/u"), "/abs/p.png");
    assert_eq!(resolve_path("~/Pictures".to_string(), ""), "Pictures");
    assert_eq!(resolve_path("rel/~x".to_string(), "/home/u"), "rel/~x");
}

#[test]
fn resolve_initial_path_from_argument() {
    let listing = vec![listed("/d/b.png", true), listed("/d/a.png", true)];
    assert_eq!(resolve_initial_path(true, "/d", PathKind::Directory, listing), Ok("/d/a.png".to_string()));
    assert_eq!(
        resolve_initial_path(true, "/d", PathKind::Directory, vec![listed("/d/x.txt", true)]),
        Err("No image files found in directory: \"/d\"".to_string())
    );
    assert_eq!(resolve_initial_path(true, "/d/f.png", PathKind::File, Vec::new()), Ok("/d/f.png".to_string()));
    assert_eq!(
        resolve_initial_path(true, "/nope", PathKind::Missing, Vec::new()),
        Err("Path does not exist or is not a file/directory: \"/nope\"".to_string())
    );
}

#[test]
fn resolve_initial_path_without_argument() {
    let listing = vec![listed("/h/Pictures/z.bmp", true)];
    assert_eq!(
        resolve_initial_path(false, "/h/Pictures", PathKind::Directory, listing),
        Ok("/h/Pictures/z.bmp".to_string())
    );
    assert_eq!(
        resolve_initial_path(false, "/h/Pictures", PathKind::Directory, Vec::new()),
        Err("No image files found in ~/Pictures directory: \"/h/Pictures\"".to_string())
    );
    assert_eq!(
        resolve_initial_path(false, "/h/Pictures", PathKind::File, Vec::new()),
        Err("~/Pictures directory does not exist: \"/h/Pictures\"".to_string())
    );
    assert_eq!(
        resolve_initial_path(false, "/h/Pictures", PathKind::Missing, Vec::new()),
        Err("~/Pictures directory does not exist: \"/h/Pictures\"".to_string())
    );
}

#[test]
fn gallery_opens_on_the_initial_image() {
    let listing = vec![listed("/d/c.png", true), listed("/d/a.jpg", true), listed("/d/b.gif", true), listed("/d/t.txt", true)];
    let g = Gallery::from_image_path("/d/b.gif".to_string(), listing, Some("/d/b.gif".to_string())).unwrap();
    assert_eq!(g.entries, vec!["/d/a.jpg", "/d/b.gif", "/d/c.png"]);
    assert_eq!(g.index, 1);
    assert_eq!(g.len(), 3);
    assert!(!g.is_empty());
    assert_eq!(g.current().map(|s| s.as_str()), Some("/d/b.gif"));
    assert_eq!(g.current_path(), "/d/b.gif");
}

#[test]
fn gallery_matches_the_initial_image_through_canonical_paths() {
    let listing = vec![
        ListedFile { path: "/d/a.jpg".to_string(), is_file: true, canonical: Some("/r/a.jpg".to_string()) },
        ListedFile { path: "/d/b.jpg".to_string(), is_file: true, canonical: Some("/r/b.jpg".to_string()) },
    ];
    let g = Gallery::from_image_path("/link/b.jpg".to_string(), listing, Some("/r/b.jpg".to_string())).unwrap();
    assert_eq!(g.index, 1);
}

#[test]
fn gallery_starts_at_first_entry_when_initial_is_not_found() {
    let listing = vec![listed("/d/a.jpg", true), listed("/d/b.jpg", true)];
    let g = Gallery::from_image_path("/elsewhere/x.jpg".to_string(), listing, None).unwrap();
    assert_eq!(g.index, 0);
}

#[test]
fn gallery_of_folder_without_images_holds_the_initial_path() {
    let g = Gallery::from_image_path("/d/odd.webp".to_string(), vec![listed("/d/t.txt", true)], None).unwrap();
    assert_eq!(g.entries, vec!["/d/odd.webp"]);
    assert_eq!(g.index, 0);
}

fn gallery(n: usize, index: usize) -> Gallery {
    Gallery { entries: (0..n).map(|i| format!("/d/img{}.png", i)).collect(), index }
}

#[test]
fn navigation_wraps_around() {
    let g = gallery(3, 2);
    assert_eq!(g.next_index(), Some(0));
    assert_eq!(g.prev_index(), Some(1));
    let g = gallery(3, 0);
    assert_eq!(g.prev_index(), Some(2));
    assert_eq!(g.next_index(), Some(1));
}

#[test]
fn navigation_needs_two_images() {
    assert_eq!(gallery(1, 0).next_index(), None);
    assert_eq!(gallery(1, 0).prev_index(), None);
    assert_eq!(gallery(0, 0).next_index(), None);
}

#[test]
fn next_then_prev_returns_to_start() {
    for n in 2..6 {
        for i in 0..n {
            let next = gallery(n, i).next_index().unwrap();
            assert_eq!(gallery(n, next).prev_index(), Some(i));
        }
    }
}

#[test]
fn current_is_none_out_of_range() {
    assert_eq!(gallery(2, 5).current(), None);
    assert_eq!(gallery(0, 0).current(), None);
}

#[test]
fn remove_current_moves_to_following_image() {
    let mut g = gallery(3, 1);
    assert_eq!(g.remove_current(), Some(("img1.png".to_string(), false)));
    assert_eq!(g.entries, vec!["/d/img0.png", "/d/img2.png"]);
    assert_eq!(g.index, 1);
}

#[test]
fn remove_current_at_end_moves_to_new_last() {
    let mut g = gallery(3, 2);
    assert_eq!(g.remove_current(), Some(("img2.png".to_string(), false)));
    assert_eq!(g.index, 1);
}

#[test]
fn remove_last_image_empties_gallery() {
    let mut g = gallery(1, 0);
    assert_eq!(g.remove_current(), Some(("img0.png".to_string(), true)));
    assert!(g.is_empty());
    assert_eq!(g.remove_current(), None);
}

#[test]
fn title_label_shows_position() {
    assert_eq!(gallery(3, 1).title_label(), "img1.png [2/3]");
    assert_eq!(gallery(12, 9).title_label(), "img9.png [10/12]");
    assert_eq!(gallery(0, 0).title_label(), "(no images)");
}

#[test]
fn startup_on_a_folder_opens_its_first_image() {
    let listing = vec![listed("/d/b.png", true), listed("/d/a.png", true), listed("/d/x.txt", true)];
    let g = Gallery::from_startup_arg(true, "/d", PathKind::Directory, listing, Some("/d".to_string()))
        .expect("folder has images");
    assert_eq!(g.entries, vec!["/d/a.png", "/d/b.png"]);
    assert_eq!(g.index, 0);
}

#[test]
fn startup_on_a_file_opens_its_folder_at_that_file() {
    let listing = vec![listed("/d/a.png", true), listed("/d/b.png", true), listed("/d/c.png", true)];
    let g = Gallery::from_startup_arg(true, "/d/b.png", PathKind::File, listing, Some("/d/b.png".to_string()))
        .expect("file opens");
    assert_eq!(g.entries, vec!["/d/a.png", "/d/b.png", "/d/c.png"]);
    assert_eq!(g.index, 1);
}

#[test]
fn startup_errors() {
    let err = |r: Result<Gallery, String>| r.err().expect("no gallery");
    assert_eq!(
        err(Gallery::from_startup_arg(true, "/d", PathKind::Directory, vec![listed("/d/x.txt", true)], None)),
        "No image files found in directory: \"/d\""
    );
    assert_eq!(
        err(Gallery::from_startup_arg(true, "/nope", PathKind::Missing, Vec::new(), None)),
        "Path does not exist or is not a file/directory: \"/nope\""
    );
    assert_eq!(
        err(Gallery::from_startup_arg(false, "/h/Pictures", PathKind::Directory, Vec::new(), None)),
        "No image files found in ~/Pictures directory: \"/h/Pictures\""
    );
    assert_eq!(
        err(Gallery::from_startup_arg(false, "/h/Pictures", PathKind::Missing, Vec::new(), None)),
        "~/Pictures directory does not exist: \"/h/Pictures\""
    );
}

#[test]
fn crop_is_inserted_after_the_current_image() {
    let mut g = Gallery { entries: vec!["a".to_string(), "b".to_string(), "c".to_string()], index: 1 };
    assert_eq!(g.insert_after_current("b_crop1".to_string()), 2);
    assert_eq!(g.entries, vec!["a", "b", "b_crop1", "c"]);
    assert_eq!(g.index, 1);
    let mut g = Gallery { entries: vec!["a".to_string()], index: 0 };
    assert_eq!(g.insert_after_current("z".to_string()), 1);
    assert_eq!(g.entries, vec!["a", "z"]);
}

#[test]
fn stepping_forward_through_all_images_comes_back() {
    for n in 2..6 {
        for start in 0..n {
            let mut g = gallery(n, start);
            for _ in 0..n {
                g.index = g.next_index().expect("more than one image");
            }
            assert_eq!(g.index, start);
        }
    }
}

#[test]
fn navigation_from_the_largest_index() {
    let g = gallery(3, usize::MAX);
    assert_eq!(g.next_index(), Some(1));
    assert_eq!(g.prev_index(), Some(2));
}
