//! The toolbar's buttons: which there are, in which order, and their labels.

use vstd::prelude::*;

use crate::text::{chars_of, string_from_chars};

verus! {

/// What a toolbar button does.
#[derive(Clone, Copy, Debug, PartialEq, Eq, Structural)]
pub enum ToolbarAction {
    Prev,
    Next,
    Play,
    Interval,
    Crop,
    ZoomIn,
    ZoomOut,
    ResetView,
}

/// The buttons from left to right.
pub open spec fn toolbar_order() -> Seq<ToolbarAction> {
    seq![
        ToolbarAction::Crop,
        ToolbarAction::Prev,
        ToolbarAction::Next,
        ToolbarAction::Play,
        ToolbarAction::Interval,
        ToolbarAction::ZoomOut,
        ToolbarAction::ResetView,
        ToolbarAction::ZoomIn,
    ]
}

/// The tooltip of a button.
pub open spec fn action_name_spec(action: ToolbarAction) -> Seq<char> {
    match action {
        ToolbarAction::Prev => "Ảnh trước"@,
        ToolbarAction::Next => "Ảnh tiếp"@,
        ToolbarAction::Play => "Slideshow"@,
        ToolbarAction::Interval => "Khoảng thời gian"@,
        ToolbarAction::Crop => "Cắt ảnh"@,
        ToolbarAction::ZoomIn => "Phóng to"@,
        ToolbarAction::ZoomOut => "Thu nhỏ"@,
        ToolbarAction::ResetView => "Đặt lại tỷ lệ"@,
    }
}

/// The buttons of the toolbar, from left to right.
pub fn toolbar_actions() -> (r: Vec<ToolbarAction>)
    ensures
        r@ == toolbar_order(),
{
    let r = vec![
        ToolbarAction::Crop,
        ToolbarAction::Prev,
        ToolbarAction::Next,
        ToolbarAction::Play,
        ToolbarAction::Interval,
        ToolbarAction::ZoomOut,
        ToolbarAction::ResetView,
        ToolbarAction::ZoomIn,
    ];
    assert(r@ =~= toolbar_order());
    r
}

/// The tooltip shown over a button.
pub fn action_name(action: ToolbarAction) -> (r: String)
    ensures
        r@ == action_name_spec(action),
{
    let name = match action {
        ToolbarAction::Prev => chars_of("Ảnh trước"),
        ToolbarAction::Next => chars_of("Ảnh tiếp"),
        ToolbarAction::Play => chars_of("Slideshow"),
        ToolbarAction::Interval => chars_of("Khoảng thời gian"),
        ToolbarAction::Crop => chars_of("Cắt ảnh"),
        ToolbarAction::ZoomIn => chars_of("Phóng to"),
        ToolbarAction::ZoomOut => chars_of("Thu nhỏ"),
        ToolbarAction::ResetView => chars_of("Đặt lại tỷ lệ"),
    };
    string_from_chars(&name)
}

} // verus!
