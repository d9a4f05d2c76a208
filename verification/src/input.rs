//! Keyboard shortcuts: which commands the keys pressed in one frame give.

use vstd::prelude::*;

use crate::imaging::Rot;

verus! {

/// The keys pressed this frame, and the modifiers held.
pub struct KeyInput {
    pub escape: bool,
    pub enter: bool,
    pub c: bool,
    pub space: bool,
    pub right: bool,
    pub page_down: bool,
    pub down: bool,
    pub left: bool,
    pub page_up: bool,
    pub up: bool,
    pub home: bool,
    pub end: bool,
    pub i: bool,
    pub r: bool,
    pub s: bool,
    pub v: bool,
    pub delete: bool,
    pub key0: bool,
    pub keypad0: bool,
    /// Either Control key is held.
    pub ctrl: bool,
    /// Either Shift key is held.
    pub shift: bool,
}

/// What the viewer does for a shortcut.
#[derive(Clone, Copy, Debug, PartialEq, Eq, Structural)]
pub enum KeyCommand {
    /// Leave crop mode without cropping.
    CancelCrop,
    ToggleFullscreen,
    /// Crop to the selection and save the crop.
    ApplyCrop,
    /// Enter or leave crop mode.
    ToggleCrop,
    Next,
    Prev,
    /// Show the image at this position.
    Open(usize),
    /// Show or hide the image information panel.
    ToggleInfo,
    /// Rotate (or not) and save the image.
    RotateAndSave(Rot),
    Copy,
    Paste,
    Delete,
    ResetView,
}

/// What happens after the commands: the rest of the frame's input is handled,
/// it is skipped, or the viewer quits.
#[derive(Clone, Copy, Debug, PartialEq, Eq, Structural)]
pub enum KeyFlow {
    Continue,
    Stop,
    Quit,
}

/// `c` alone when `b` holds, else nothing.
pub open spec fn when(b: bool, c: KeyCommand) -> Seq<KeyCommand> {
    if b {
        seq![c]
    } else {
        Seq::empty()
    }
}

/// The commands of the shortcuts handled after Escape and Enter, in order.
pub open spec fn shortcut_commands(k: KeyInput, gallery_len: nat) -> Seq<KeyCommand> {
    when(k.c && !k.ctrl, KeyCommand::ToggleCrop) + when(k.space, KeyCommand::ToggleFullscreen) + when(
        k.right || k.page_down || k.down,
        KeyCommand::Next,
    ) + when(k.left || k.page_up || k.up, KeyCommand::Prev) + when(
        k.home && gallery_len > 0,
        KeyCommand::Open(0),
    ) + when(k.end && gallery_len > 0, KeyCommand::Open((gallery_len - 1) as usize)) + when(
        k.i,
        KeyCommand::ToggleInfo,
    ) + when(
        k.r,
        KeyCommand::RotateAndSave(
            if k.shift {
                Rot::Ccw
            } else {
                Rot::Cw
            },
        ),
    ) + when(k.s && k.ctrl, KeyCommand::RotateAndSave(Rot::Keep)) + when(k.c && k.ctrl, KeyCommand::Copy)
        + when(k.v && k.ctrl, KeyCommand::Paste) + when(k.delete, KeyCommand::Delete) + when(
        k.key0 || k.keypad0,
        KeyCommand::ResetView,
    )
}

/// The commands of a frame's keys and what follows them. Escape leaves crop mode
/// (and nothing else is handled), else leaves fullscreen, else quits; Enter in
/// crop mode crops (and nothing else is handled); the other shortcuts follow.
pub open spec fn key_commands_spec(
    k: KeyInput,
    crop_active: bool,
    fullscreen: bool,
    gallery_len: nat,
) -> (Seq<KeyCommand>, KeyFlow) {
    if k.escape && crop_active {
        (seq![KeyCommand::CancelCrop], KeyFlow::Stop)
    } else if k.escape && !fullscreen {
        (Seq::empty(), KeyFlow::Quit)
    } else {
        let first = when(k.escape, KeyCommand::ToggleFullscreen);
        if crop_active && k.enter {
            (first + seq![KeyCommand::ApplyCrop], KeyFlow::Stop)
        } else {
            (first + shortcut_commands(k, gallery_len), KeyFlow::Continue)
        }
    }
}

/// No key that gives a command is pressed, but perhaps the navigation keys.
pub open spec fn only_navigation(k: KeyInput) -> bool {
    !k.escape && !k.enter && !k.c && !k.space && !k.home && !k.end && !k.i && !k.r && !k.s && !k.v
        && !k.delete && !k.key0 && !k.keypad0
}

/// Law: Left, Page Up and Up each show the previous image: pressed alone (with
/// no other command key, whatever the modifiers, the crop mode or the screen), they
/// give exactly `Prev`, and the frame's other input is handled.
pub proof fn lemma_previous_keys(k: KeyInput, crop_active: bool, fullscreen: bool, gallery_len: nat)
    requires
        only_navigation(k),
        !k.right && !k.page_down && !k.down,
        k.left || k.page_up || k.up,
    ensures
        key_commands_spec(k, crop_active, fullscreen, gallery_len) == (
            seq![KeyCommand::Prev],
            KeyFlow::Continue,
        ),
{
    assert(shortcut_commands(k, gallery_len) =~= seq![KeyCommand::Prev]);
    assert(when(k.escape, KeyCommand::ToggleFullscreen) + shortcut_commands(k, gallery_len)
        =~= seq![KeyCommand::Prev]);
}

/// Law: Right, Page Down and Down each show the next image: pressed alone they give
/// exactly `Next`, and the frame's other input is handled.
pub proof fn lemma_next_keys(k: KeyInput, crop_active: bool, fullscreen: bool, gallery_len: nat)
    requires
        only_navigation(k),
        !k.left && !k.page_up && !k.up,
        k.right || k.page_down || k.down,
    ensures
        key_commands_spec(k, crop_active, fullscreen, gallery_len) == (
            seq![KeyCommand::Next],
            KeyFlow::Continue,
        ),
{
    assert(shortcut_commands(k, gallery_len) =~= seq![KeyCommand::Next]);
    assert(when(k.escape, KeyCommand::ToggleFullscreen) + shortcut_commands(k, gallery_len)
        =~= seq![KeyCommand::Next]);
}

/// Law: a navigation key of each direction pressed together gives `Next` then
/// `Prev`, in that order.
pub proof fn lemma_both_directions(k: KeyInput, crop_active: bool, fullscreen: bool, gallery_len: nat)
    requires
        only_navigation(k),
        k.left || k.page_up || k.up,
        k.right || k.page_down || k.down,
    ensures
        key_commands_spec(k, crop_active, fullscreen, gallery_len) == (
            seq![KeyCommand::Next, KeyCommand::Prev],
            KeyFlow::Continue,
        ),
{
    assert(shortcut_commands(k, gallery_len) =~= seq![KeyCommand::Next, KeyCommand::Prev]);
    assert(when(k.escape, KeyCommand::ToggleFullscreen) + shortcut_commands(k, gallery_len)
        =~= seq![KeyCommand::Next, KeyCommand::Prev]);
}

/// No key that gives a command is pressed (modifiers may be held).
pub open spec fn no_command_key(k: KeyInput) -> bool {
    only_navigation(k) && !k.left && !k.page_up && !k.up && !k.right && !k.page_down && !k.down
}

/// Law: Escape leaves crop mode first, and nothing else of the frame is handled.
pub proof fn lemma_escape_in_crop_mode(k: KeyInput, fullscreen: bool, gallery_len: nat)
    requires
        k.escape,
    ensures
        key_commands_spec(k, true, fullscreen, gallery_len) == (
            seq![KeyCommand::CancelCrop],
            KeyFlow::Stop,
        ),
{
}

/// Law: Escape in a window, outside crop mode, quits without any command.
pub proof fn lemma_escape_quits(k: KeyInput, gallery_len: nat)
    requires
        k.escape,
    ensures
        key_commands_spec(k, false, false, gallery_len) == (Seq::<KeyCommand>::empty(), KeyFlow::Quit),
{
}

/// Law: Escape in fullscreen, outside crop mode, leaves fullscreen first and the
/// frame's input goes on.
pub proof fn lemma_escape_leaves_fullscreen(k: KeyInput, gallery_len: nat)
    requires
        k.escape,
    ensures
        key_commands_spec(k, false, true, gallery_len).1 == KeyFlow::Continue,
        key_commands_spec(k, false, true, gallery_len).0.len() >= 1,
        key_commands_spec(k, false, true, gallery_len).0[0] == KeyCommand::ToggleFullscreen,
{
}

/// Law: Enter in crop mode crops, and nothing else of the frame is handled.
pub proof fn lemma_enter_crops(k: KeyInput, fullscreen: bool, gallery_len: nat)
    requires
        !k.escape,
        k.enter,
    ensures
        key_commands_spec(k, true, fullscreen, gallery_len) == (
            seq![KeyCommand::ApplyCrop],
            KeyFlow::Stop,
        ),
{
}

/// Law: with no command key pressed there is no command.
pub proof fn lemma_no_keys(k: KeyInput, crop_active: bool, fullscreen: bool, gallery_len: nat)
    requires
        no_command_key(k),
    ensures
        key_commands_spec(k, crop_active, fullscreen, gallery_len) == (
            Seq::<KeyCommand>::empty(),
            KeyFlow::Continue,
        ),
{
    assert(shortcut_commands(k, gallery_len) =~= Seq::<KeyCommand>::empty());
    assert(when(k.escape, KeyCommand::ToggleFullscreen) + shortcut_commands(k, gallery_len)
        =~= Seq::<KeyCommand>::empty());
}

/// The commands of one key pressed alone, with the modifiers of `k`, outside crop
/// mode and without Escape.
pub open spec fn alone(k: KeyInput, gallery_len: nat) -> Seq<KeyCommand> {
    key_commands_spec(k, false, false, gallery_len).0
}

/// Law: each other shortcut pressed alone gives its one command: Home the first
/// image and End the last (nothing when there is none), C enters or leaves crop
/// mode and Ctrl+C copies, Space toggles fullscreen, I the information, R rotates
/// clockwise (counter-clockwise with Shift) and saves, Ctrl+S saves as it is,
/// Ctrl+V pastes, Delete deletes, 0 resets the view; S and V without Ctrl do
/// nothing.
pub proof fn lemma_single_shortcuts(k: KeyInput, n: nat)
    requires
        no_command_key(k),
        n > 0,
    ensures
        alone(KeyInput { home: true, ..k }, n) == seq![KeyCommand::Open(0)],
        alone(KeyInput { end: true, ..k }, n) == seq![KeyCommand::Open((n - 1) as usize)],
        alone(KeyInput { home: true, ..k }, 0) == Seq::<KeyCommand>::empty(),
        alone(KeyInput { end: true, ..k }, 0) == Seq::<KeyCommand>::empty(),
        alone(KeyInput { c: true, ..k }, n) == if k.ctrl {
            seq![KeyCommand::Copy]
        } else {
            seq![KeyCommand::ToggleCrop]
        },
        alone(KeyInput { space: true, ..k }, n) == seq![KeyCommand::ToggleFullscreen],
        alone(KeyInput { i: true, ..k }, n) == seq![KeyCommand::ToggleInfo],
        alone(KeyInput { r: true, ..k }, n) == seq![
            KeyCommand::RotateAndSave(
                if k.shift {
                    Rot::Ccw
                } else {
                    Rot::Cw
                },
            ),
        ],
        alone(KeyInput { s: true, ..k }, n) == if k.ctrl {
            seq![KeyCommand::RotateAndSave(Rot::Keep)]
        } else {
            Seq::<KeyCommand>::empty()
        },
        alone(KeyInput { v: true, ..k }, n) == if k.ctrl {
            seq![KeyCommand::Paste]
        } else {
            Seq::<KeyCommand>::empty()
        },
        alone(KeyInput { delete: true, ..k }, n) == seq![KeyCommand::Delete],
        alone(KeyInput { key0: true, ..k }, n) == seq![KeyCommand::ResetView],
        alone(KeyInput { keypad0: true, ..k }, n) == seq![KeyCommand::ResetView],
{
    let e = Seq::<KeyCommand>::empty();
    assert(alone(KeyInput { home: true, ..k }, n) =~= seq![KeyCommand::Open(0)]);
    assert(alone(KeyInput { end: true, ..k }, n) =~= seq![KeyCommand::Open((n - 1) as usize)]);
    assert(alone(KeyInput { home: true, ..k }, 0) =~= e);
    assert(alone(KeyInput { end: true, ..k }, 0) =~= e);
    if k.ctrl {
        assert(alone(KeyInput { c: true, ..k }, n) =~= seq![KeyCommand::Copy]);
        assert(alone(KeyInput { s: true, ..k }, n) =~= seq![KeyCommand::RotateAndSave(Rot::Keep)]);
        assert(alone(KeyInput { v: true, ..k }, n) =~= seq![KeyCommand::Paste]);
    } else {
        assert(alone(KeyInput { c: true, ..k }, n) =~= seq![KeyCommand::ToggleCrop]);
        assert(alone(KeyInput { s: true, ..k }, n) =~= e);
        assert(alone(KeyInput { v: true, ..k }, n) =~= e);
    }
    assert(alone(KeyInput { space: true, ..k }, n) =~= seq![KeyCommand::ToggleFullscreen]);
    assert(alone(KeyInput { i: true, ..k }, n) =~= seq![KeyCommand::ToggleInfo]);
    assert(alone(KeyInput { r: true, ..k }, n) =~= seq![
        KeyCommand::RotateAndSave(
            if k.shift {
                Rot::Ccw
            } else {
                Rot::Cw
            },
        ),
    ]);
    assert(alone(KeyInput { delete: true, ..k }, n) =~= seq![KeyCommand::Delete]);
    assert(alone(KeyInput { key0: true, ..k }, n) =~= seq![KeyCommand::ResetView]);
    assert(alone(KeyInput { keypad0: true, ..k }, n) =~= seq![KeyCommand::ResetView]);
}

fn push_when(out: &mut Vec<KeyCommand>, b: bool, c: KeyCommand)
    ensures
        final(out)@ == old(out)@ + when(b, c),
{
    if b {
        out.push(c);
    }
    assert(final(out)@ =~= old(out)@ + when(b, c));
}

/// The commands of the shortcuts handled after Escape and Enter, in order.
fn shortcut_vec(k: &KeyInput, gallery_len: usize) -> (r: Vec<KeyCommand>)
    ensures
        r@ == shortcut_commands(*k, gallery_len as nat),
{
    let mut out: Vec<KeyCommand> = Vec::new();
    push_when(&mut out, k.c && !k.ctrl, KeyCommand::ToggleCrop);
    assert(out@ =~= when(k.c && !k.ctrl, KeyCommand::ToggleCrop));
    push_when(&mut out, k.space, KeyCommand::ToggleFullscreen);
    push_when(&mut out, k.right || k.page_down || k.down, KeyCommand::Next);
    push_when(&mut out, k.left || k.page_up || k.up, KeyCommand::Prev);
    push_when(&mut out, k.home && gallery_len > 0, KeyCommand::Open(0));
    let last = if gallery_len > 0 {
        gallery_len - 1
    } else {
        0
    };
    assert(when(k.end && gallery_len > 0, KeyCommand::Open(last)) == when(
        k.end && gallery_len > 0,
        KeyCommand::Open((gallery_len - 1) as usize),
    ));
    push_when(&mut out, k.end && gallery_len > 0, KeyCommand::Open(last));
    push_when(&mut out, k.i, KeyCommand::ToggleInfo);
    let turn = if k.shift {
        Rot::Ccw
    } else {
        Rot::Cw
    };
    push_when(&mut out, k.r, KeyCommand::RotateAndSave(turn));
    push_when(&mut out, k.s && k.ctrl, KeyCommand::RotateAndSave(Rot::Keep));
    push_when(&mut out, k.c && k.ctrl, KeyCommand::Copy);
    push_when(&mut out, k.v && k.ctrl, KeyCommand::Paste);
    push_when(&mut out, k.delete, KeyCommand::Delete);
    push_when(&mut out, k.key0 || k.keypad0, KeyCommand::ResetView);
    out
}

/// The commands the keys pressed this frame give, in the order they are carried
/// out, and whether the frame's other input is handled after them.
pub fn key_commands(k: &KeyInput, crop_active: bool, fullscreen: bool, gallery_len: usize) -> (r: (
    Vec<KeyCommand>,
    KeyFlow,
))
    ensures
        (r.0@, r.1) == key_commands_spec(*k, crop_active, fullscreen, gallery_len as nat),
{
    let mut out: Vec<KeyCommand> = Vec::new();
    if k.escape {
        if crop_active {
            out.push(KeyCommand::CancelCrop);
            assert(out@ =~= seq![KeyCommand::CancelCrop]);
            return (out, KeyFlow::Stop);
        }
        if !fullscreen {
            assert(out@ =~= Seq::<KeyCommand>::empty());
            return (out, KeyFlow::Quit);
        }
        out.push(KeyCommand::ToggleFullscreen);
    }
    assert(out@ =~= when(k.escape, KeyCommand::ToggleFullscreen));
    if crop_active && k.enter {
        out.push(KeyCommand::ApplyCrop);
        return (out, KeyFlow::Stop);
    }
    let rest = shortcut_vec(k, gallery_len);
    let ghost first = out@;
    let mut i: usize = 0;
    while i < rest.len()
        invariant
            i <= rest@.len(),
            out@ == first + rest@.take(i as int),
        decreases rest@.len() - i,
    {
        out.push(rest[i]);
        i = i + 1;
        assert(out@ =~= first + rest@.take(i as int));
    }
    assert(rest@.take(i as int) =~= rest@);
    (out, KeyFlow::Continue)
}

} // verus!
