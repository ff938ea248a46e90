//! Decisions of the building screen: the HUD's windows, keyboard shortcuts and mouse clicks.
use vstd::prelude::*;

verus! {

/// Which of the HUD's windows are open: colour picker, block shapes, block position.
#[derive(Clone, Copy, Debug, PartialEq, Eq, Structural)]
pub struct HudWindows {
    pub picker_open: bool,
    pub block_menu_open: bool,
    pub edit_open: bool,
}

/// At most one of the HUD's windows is open.
pub open spec fn at_most_one_open(w: HudWindows) -> bool {
    !(w.picker_open && w.block_menu_open) && !(w.picker_open && w.edit_open) && !(w.block_menu_open
        && w.edit_open)
}

/// The windows after the HUD buttons of one frame (see `hud_buttons_step`).
pub open spec fn hud_windows_after(
    w: HudWindows,
    human_mode: bool,
    colour_pressed: bool,
    block_types_pressed: bool,
    edit_pressed: bool,
    has_selected_block: bool,
) -> HudWindows {
    if human_mode || w.picker_open || w.block_menu_open || w.edit_open {
        w
    } else if edit_pressed && has_selected_block {
        HudWindows { picker_open: false, block_menu_open: false, edit_open: true }
    } else if block_types_pressed {
        HudWindows { picker_open: false, block_menu_open: true, edit_open: false }
    } else if colour_pressed {
        HudWindows { picker_open: true, block_menu_open: false, edit_open: false }
    } else {
        w
    }
}

/// The HUD buttons. They do nothing in human mode or while a window is open; otherwise
/// "Colour", "Block Types" and "Edit" (the last only when a block is selected) each open their
/// window and close the others, later buttons winning.
pub fn hud_buttons_step(
    w: HudWindows,
    human_mode: bool,
    colour_pressed: bool,
    block_types_pressed: bool,
    edit_pressed: bool,
    has_selected_block: bool,
) -> (r: HudWindows)
    ensures
        r == hud_windows_after(
            w,
            human_mode,
            colour_pressed,
            block_types_pressed,
            edit_pressed,
            has_selected_block,
        ),
        human_mode || w.picker_open || w.block_menu_open || w.edit_open ==> r == w,
{
    if human_mode {
        return w;
    }
    if w.picker_open || w.block_menu_open || w.edit_open {
        return w;
    }
    let mut r = w;
    if colour_pressed {
        r = HudWindows { picker_open: true, block_menu_open: false, edit_open: false };
    }
    if block_types_pressed {
        r = HudWindows { picker_open: false, block_menu_open: true, edit_open: false };
    }
    if edit_pressed && has_selected_block {
        r = HudWindows { picker_open: false, block_menu_open: false, edit_open: true };
    }
    r
}

/// The HUD buttons never leave two windows open at once.
pub proof fn lemma_hud_windows_stay_exclusive(
    w: HudWindows,
    human_mode: bool,
    colour_pressed: bool,
    block_types_pressed: bool,
    edit_pressed: bool,
    has_selected_block: bool,
)
    requires
        at_most_one_open(w),
    ensures
        at_most_one_open(
            hud_windows_after(
                w,
                human_mode,
                colour_pressed,
                block_types_pressed,
                edit_pressed,
                has_selected_block,
            ),
        ),
{
}

/// The building flags: delete mode, edit mode and the selected block (by entity bits).
#[derive(Clone, Copy, Debug, PartialEq, Eq, Structural)]
pub struct EditFlags {
    pub is_deleting: bool,
    pub editing_mode: bool,
    pub editing_entity: Option<u64>,
}

/// The building shortcut keys pressed in one frame.
#[derive(Clone, Copy, Debug, PartialEq, Eq, Structural)]
pub struct ShortcutKeys {
    /// `P`: toggle delete mode.
    pub toggle_delete: bool,
    /// `B`: toggle edit mode.
    pub toggle_edit: bool,
    pub left: bool,
    pub right: bool,
    pub up: bool,
    pub down: bool,
}

/// What the shortcut keys do in one frame.
#[derive(Clone, Copy, Debug, PartialEq, Eq, Structural)]
pub struct ShortcutOutcome {
    pub flags: EditFlags,
    /// Take down the selection outline.
    pub clear_highlights: bool,
    /// An arrow key turned the block to be placed by a quarter turn.
    pub rotation_changed: bool,
    /// The selected block to turn with it.
    pub rotate_selected: Option<u64>,
}

/// The flags after the toggles of one frame: `P` flips delete mode; `B` flips edit mode and drops
/// the selection.
pub open spec fn toggled_flags(f: EditFlags, keys: ShortcutKeys) -> EditFlags {
    EditFlags {
        is_deleting: f.is_deleting != keys.toggle_delete,
        editing_mode: f.editing_mode != keys.toggle_edit,
        editing_entity: if keys.toggle_edit {
            None
        } else {
            f.editing_entity
        },
    }
}

/// The building shortcuts, ignored while the colour picker is open. `P` toggles delete mode; `B`
/// toggles edit mode, drops the selection, and takes down the outline when edit mode ends; an
/// arrow key turns the placement (and the selected block, if any).
pub fn keyboard_shortcuts(flags: EditFlags, keys: ShortcutKeys, picker_open: bool) -> (r:
    ShortcutOutcome)
    ensures
        picker_open ==> r == (ShortcutOutcome {
            flags,
            clear_highlights: false,
            rotation_changed: false,
            rotate_selected: None,
        }),
        !picker_open ==> r.flags == toggled_flags(flags, keys),
        !picker_open && !keys.toggle_edit ==> r.flags.editing_entity == flags.editing_entity,
        !picker_open ==> r.flags.is_deleting == (flags.is_deleting != keys.toggle_delete),
        !picker_open ==> r.clear_highlights == (keys.toggle_edit && !r.flags.editing_mode),
        !picker_open ==> r.rotation_changed == (keys.left || keys.right || keys.up || keys.down),
        !picker_open ==> r.rotate_selected == (if r.rotation_changed {
            r.flags.editing_entity
        } else {
            None
        }),
{
    if picker_open {
        return ShortcutOutcome {
            flags,
            clear_highlights: false,
            rotation_changed: false,
            rotate_selected: None,
        };
    }
    let mut f = flags;
    if keys.toggle_delete {
        f.is_deleting = !f.is_deleting;
    }
    let mut clear_highlights = false;
    if keys.toggle_edit {
        f.editing_mode = !f.editing_mode;
        f.editing_entity = None;
        if !f.editing_mode {
            clear_highlights = true;
        }
    }
    let rotation_changed = keys.left || keys.right || keys.up || keys.down;
    let rotate_selected = if rotation_changed {
        f.editing_entity
    } else {
        None
    };
    ShortcutOutcome { flags: f, clear_highlights, rotation_changed, rotate_selected }
}

/// Drops the selection when the selected block was not found in the world.
pub fn forget_missing_selection(flags: &mut EditFlags, found: bool)
    ensures
        final(flags).is_deleting == old(flags).is_deleting,
        final(flags).editing_mode == old(flags).editing_mode,
        final(flags).editing_entity == (if found {
            old(flags).editing_entity
        } else {
            None
        }),
{
    if !found {
        flags.editing_entity = None;
    }
}

/// Pressing the same toggles in two frames gives back the flags (but the selection, which `B`
/// drops).
pub proof fn lemma_toggles_twice(f: EditFlags, keys: ShortcutKeys)
    ensures
        toggled_flags(toggled_flags(f, keys), keys).is_deleting == f.is_deleting,
        toggled_flags(toggled_flags(f, keys), keys).editing_mode == f.editing_mode,
{
}

/// What a left click in the world does.
#[derive(Clone, Copy, Debug, PartialEq, Eq, Structural)]
pub enum ClickAction {
    /// Nothing.
    Ignore,
    /// Select the block under the cursor (edit mode).
    Select,
    /// Remove the block under the cursor (delete mode).
    Delete,
    /// Place a block where the cursor points.
    Place,
}

/// The circumstances of a frame, as far as clicks in the world go.
#[derive(Clone, Copy, Debug, PartialEq, Eq, Structural)]
pub struct ClickContext {
    pub picker_open: bool,
    /// The pointer is over an egui window.
    pub pointer_over_panel: bool,
    pub left_just_pressed: bool,
    /// Some HUD button is hovered or pressed.
    pub button_interacting: bool,
    /// A window, a camera, a cursor position and a ray through it are at hand.
    pub has_ray: bool,
}

/// A left click that reaches the world selects in edit mode, else deletes in delete mode, else
/// places. It does not reach the world while the picker is open, over an egui window, over a HUD
/// button, or when no ray can be cast.
pub fn click_action(ctx: ClickContext, editing_mode: bool, is_deleting: bool) -> (r: ClickAction)
    ensures
        r == (if ctx.picker_open || ctx.pointer_over_panel || !ctx.left_just_pressed
            || ctx.button_interacting || !ctx.has_ray {
            ClickAction::Ignore
        } else if editing_mode {
            ClickAction::Select
        } else if is_deleting {
            ClickAction::Delete
        } else {
            ClickAction::Place
        }),
{
    if ctx.picker_open || ctx.pointer_over_panel || !ctx.left_just_pressed || ctx.button_interacting
        || !ctx.has_ray {
        ClickAction::Ignore
    } else if editing_mode {
        ClickAction::Select
    } else if is_deleting {
        ClickAction::Delete
    } else {
        ClickAction::Place
    }
}

/// The mode shown in the status text: edit mode first, then delete mode, else build.
pub fn build_mode_label(editing_mode: bool, is_deleting: bool) -> (r: &'static str)
    ensures
        editing_mode ==> r@ == "EDIT"@,
        !editing_mode && is_deleting ==> r@ == "DELETE"@,
        !editing_mode && !is_deleting ==> r@ == "BUILD"@,
{
    if editing_mode {
        "EDIT"
    } else if is_deleting {
        "DELETE"
    } else {
        "BUILD"
    }
}

/// The block shapes offered in the block menu: a name, and the size along x, y and z in quarter
/// units (so `[4, 8, 4]` is 1 x 2 x 1).
pub fn block_presets() -> (r: [(&'static str, [u8; 3]); 9])
    ensures
        r[0].0@ == "Cube"@ && r[0].1 == [4u8, 4, 4],
        r[1].0@ == "Small Cube"@ && r[1].1 == [2u8, 2, 2],
        r[2].0@ == "Tall Wall"@ && r[2].1 == [4u8, 8, 4],
        r[3].0@ == "Wide Wall"@ && r[3].1 == [8u8, 4, 4],
        r[4].0@ == "Long Beam"@ && r[4].1 == [12u8, 2, 2],
        r[5].0@ == "Floor Slab"@ && r[5].1 == [12u8, 1, 12],
        r[6].0@ == "Pillar"@ && r[6].1 == [3u8, 12, 3],
        r[7].0@ == "Large Block"@ && r[7].1 == [8u8, 8, 8],
        r[8].0@ == "Wide Slab"@ && r[8].1 == [16u8, 2, 8],
{
    [
        ("Cube", [4, 4, 4]),
        ("Small Cube", [2, 2, 2]),
        ("Tall Wall", [4, 8, 4]),
        ("Wide Wall", [8, 4, 4]),
        ("Long Beam", [12, 2, 2]),
        ("Floor Slab", [12, 1, 12]),
        ("Pillar", [3, 12, 3]),
        ("Large Block", [8, 8, 8]),
        ("Wide Slab", [16, 2, 8]),
    ]
}

/// The HUD buttons change nothing in human mode or while any window is open.
pub proof fn lemma_hud_buttons_wait_for_closed_windows(
    w: HudWindows,
    human_mode: bool,
    colour_pressed: bool,
    block_types_pressed: bool,
    edit_pressed: bool,
    has_selected_block: bool,
)
    requires
        human_mode || w.picker_open || w.block_menu_open || w.edit_open,
    ensures
        hud_windows_after(
            w,
            human_mode,
            colour_pressed,
            block_types_pressed,
            edit_pressed,
            has_selected_block,
        ) == w,
{
}

/// With every window closed outside human mode, a button opens its own window alone, "Edit" only
/// with a selected block, and a later button wins; with no button the windows stay closed.
pub proof fn lemma_hud_button_opens_its_window(
    colour_pressed: bool,
    block_types_pressed: bool,
    edit_pressed: bool,
    has_selected_block: bool,
)
    ensures
        ({
            let closed = HudWindows { picker_open: false, block_menu_open: false, edit_open: false };
            let r = hud_windows_after(
                closed,
                false,
                colour_pressed,
                block_types_pressed,
                edit_pressed,
                has_selected_block,
            );
            &&& r.edit_open == (edit_pressed && has_selected_block)
            &&& r.block_menu_open == (block_types_pressed && !(edit_pressed && has_selected_block))
            &&& r.picker_open == (colour_pressed && !block_types_pressed && !(edit_pressed
                && has_selected_block))
        }),
{
}

/// `P` flips delete mode alone and `B` flips edit mode alone; the selection is dropped exactly
/// when `B` is pressed.
pub proof fn lemma_shortcut_toggles(f: EditFlags, keys: ShortcutKeys)
    ensures
        toggled_flags(f, keys).is_deleting == (f.is_deleting != keys.toggle_delete),
        toggled_flags(f, keys).editing_mode == (f.editing_mode != keys.toggle_edit),
        !keys.toggle_edit ==> toggled_flags(f, keys).editing_entity == f.editing_entity,
        keys.toggle_edit ==> toggled_flags(f, keys).editing_entity is None,
{
}

} // verus!
