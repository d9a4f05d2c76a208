use xemanh::animation::{frame_delay_ms, ImageAnimation, FALLBACK_FRAME_NANOS};

const MS: u128 = 1_000_000;

fn anim(durs: Vec<u128>) -> ImageAnimation<u8> {
    let frames: Vec<u8> = (0..durs.len() as u8).collect();
    ImageAnimation { frames, frame_durations: durs, current_frame: 0, elapsed_in_frame: 0 }
}

#[test]
fn update_moves_through_frames_in_steps() {
    let mut a = anim(vec![100 * MS, 50 * MS, 100 * MS]);
    a.update(120 * MS);
    assert_eq!((a.current_frame, a.elapsed_in_frame), (1, 20 * MS));
    a.update(40 * MS);
    assert_eq!((a.current_frame, a.elapsed_in_frame), (2, 10 * MS));
    assert_eq!(*a.current_texture(), 2);
}

#[test]
fn update_in_one_step_matches_two_steps() {
    let mut a = anim(vec![100 * MS, 50 * MS, 100 * MS]);
    a.update(160 * MS);
    assert_eq!((a.current_frame, a.elapsed_in_frame), (2, 10 * MS));
}

#[test]
fn update_wraps_to_first_frame() {
    let mut a = anim(vec![100 * MS, 50 * MS]);
    a.update(170 * MS);
    assert_eq!((a.current_frame, a.elapsed_in_frame), (0, 20 * MS));
}

#[test]
fn zero_duration_of_shown_frame_counts_as_fallback() {
    let mut a = anim(vec![0, 50 * MS]);
    a.update(60 * MS);
    assert_eq!((a.current_frame, a.elapsed_in_frame), (0, 60 * MS));
    assert_eq!(FALLBACK_FRAME_NANOS, 100 * MS);
}

#[test]
fn zero_duration_frame_reached_later_is_skipped() {
    let mut a = anim(vec![100 * MS, 50 * MS, 0]);
    a.current_frame = 1;
    a.update(150 * MS);
    // 50 ms on frame 1, frame 2 lasts nothing, then 100 ms on frame 0.
    assert_eq!((a.current_frame, a.elapsed_in_frame), (1, 0));
}

#[test]
fn update_with_single_frame_changes_nothing() {
    let mut a = anim(vec![10 * MS]);
    a.update(500 * MS);
    assert_eq!((a.current_frame, a.elapsed_in_frame), (0, 0));
}

#[test]
fn update_with_no_frames_changes_nothing() {
    let mut a = anim(vec![]);
    a.update(500 * MS);
    assert_eq!((a.current_frame, a.elapsed_in_frame), (0, 0));
}

#[test]
fn frame_delay_rules() {
    assert_eq!(frame_delay_ms(0, 1), 100);
    assert_eq!(frame_delay_ms(30, 0), 100);
    assert_eq!(frame_delay_ms(30, 1), 30);
    assert_eq!(frame_delay_ms(5, 1), 10);
    assert_eq!(frame_delay_ms(1000, 10), 100);
    assert_eq!(frame_delay_ms(95, 10), 10);
}

#[test]
fn from_frames_builds_durations() {
    let a = ImageAnimation::from_frames(vec![7u8, 8, 9, 10], vec![(50, 1), (0, 1), (5, 1), (1000, 10)])
        .expect("two or more frames give an animation");
    assert_eq!(a.frames, vec![7, 8, 9, 10]);
    assert_eq!(a.frame_durations, vec![50 * MS, 100 * MS, 10 * MS, 100 * MS]);
    assert_eq!(a.current_frame, 0);
    assert_eq!(a.elapsed_in_frame, 0);
    assert_eq!(*a.current_texture(), 7);
}

#[test]
fn from_frames_needs_two_frames() {
    assert!(ImageAnimation::<u8>::from_frames(vec![1], vec![(10, 1)]).is_none());
    assert!(ImageAnimation::<u8>::from_frames(vec![], vec![]).is_none());
}
