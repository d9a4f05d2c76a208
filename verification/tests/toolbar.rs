use xemanh::toolbar::{action_name, toolbar_actions, ToolbarAction};

#[test]
fn buttons_from_left_to_right() {
    assert_eq!(
        toolbar_actions(),
        vec![
            ToolbarAction::Crop,
            ToolbarAction::Prev,
            ToolbarAction::Next,
            ToolbarAction::Play,
            ToolbarAction::Interval,
            ToolbarAction::ZoomOut,
            ToolbarAction::ResetView,
            ToolbarAction::ZoomIn,
        ]
    );
}

#[test]
fn tooltips() {
    assert_eq!(action_name(ToolbarAction::Prev), "Ảnh trước");
    assert_eq!(action_name(ToolbarAction::Next), "Ảnh tiếp");
    assert_eq!(action_name(ToolbarAction::Play), "Slideshow");
    assert_eq!(action_name(ToolbarAction::Interval), "Khoảng thời gian");
    assert_eq!(action_name(ToolbarAction::Crop), "Cắt ảnh");
    assert_eq!(action_name(ToolbarAction::ZoomIn), "Phóng to");
    assert_eq!(action_name(ToolbarAction::ZoomOut), "Thu nhỏ");
    assert_eq!(action_name(ToolbarAction::ResetView), "Đặt lại tỷ lệ");
}
