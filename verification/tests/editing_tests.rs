use house_builder::editing::{
    build_mode_label, click_action, forget_missing_selection, hud_buttons_step,
    keyboard_shortcuts, ClickAction, ClickContext, EditFlags, HudWindows, ShortcutKeys,
};

fn closed() -> HudWindows {
    HudWindows { picker_open: false, block_menu_open: false, edit_open: false }
}

#[test]
fn hud_buttons_open_one_window() {
    let r = hud_buttons_step(closed(), false, true, false, false, false);
    assert_eq!(r, HudWindows { picker_open: true, ..closed() });
    let r = hud_buttons_step(closed(), false, true, true, false, false);
    assert_eq!(r, HudWindows { block_menu_open: true, ..closed() });
    let r = hud_buttons_step(closed(), false, true, true, true, true);
    assert_eq!(r, HudWindows { edit_open: true, ..closed() });
    let r = hud_buttons_step(closed(), false, false, false, true, false);
    assert_eq!(r, closed());
}

#[test]
fn hud_buttons_do_nothing_in_human_mode_or_with_a_window_open() {
    assert_eq!(hud_buttons_step(closed(), true, true, true, true, true), closed());
    let open = HudWindows { picker_open: true, ..closed() };
    assert_eq!(hud_buttons_step(open, false, false, true, true, true), open);
}

fn flags() -> EditFlags {
    EditFlags { is_deleting: false, editing_mode: false, editing_entity: None }
}

fn keys() -> ShortcutKeys {
    ShortcutKeys {
        toggle_delete: false,
        toggle_edit: false,
        left: false,
        right: false,
        up: false,
        down: false,
    }
}

#[test]
fn shortcuts_toggle_modes() {
    let r = keyboard_shortcuts(flags(), ShortcutKeys { toggle_delete: true, ..keys() }, false);
    assert!(r.flags.is_deleting);
    let r2 = keyboard_shortcuts(r.flags, ShortcutKeys { toggle_delete: true, ..keys() }, false);
    assert!(!r2.flags.is_deleting);

    let selected = EditFlags { editing_mode: true, editing_entity: Some(7), ..flags() };
    let r = keyboard_shortcuts(selected, ShortcutKeys { toggle_edit: true, ..keys() }, false);
    assert!(!r.flags.editing_mode);
    assert_eq!(r.flags.editing_entity, None);
    assert!(r.clear_highlights);
    let r = keyboard_shortcuts(flags(), ShortcutKeys { toggle_edit: true, ..keys() }, false);
    assert!(r.flags.editing_mode && !r.clear_highlights);
}

#[test]
fn shortcuts_turn_the_selected_block() {
    let selected = EditFlags { editing_mode: true, editing_entity: Some(7), ..flags() };
    let r = keyboard_shortcuts(selected, ShortcutKeys { left: true, ..keys() }, false);
    assert!(r.rotation_changed);
    assert_eq!(r.rotate_selected, Some(7));
    let r = keyboard_shortcuts(selected, keys(), false);
    assert!(!r.rotation_changed);
    assert_eq!(r.rotate_selected, None);
}

#[test]
fn shortcuts_are_ignored_while_picking_a_colour() {
    let all = ShortcutKeys {
        toggle_delete: true,
        toggle_edit: true,
        left: true,
        right: true,
        up: true,
        down: true,
    };
    let r = keyboard_shortcuts(flags(), all, true);
    assert_eq!(r.flags, flags());
    assert!(!r.rotation_changed && !r.clear_highlights);
}

#[test]
fn missing_selection_is_forgotten() {
    let mut f = EditFlags { editing_mode: true, editing_entity: Some(3), ..flags() };
    forget_missing_selection(&mut f, true);
    assert_eq!(f.editing_entity, Some(3));
    forget_missing_selection(&mut f, false);
    assert_eq!(f.editing_entity, None);
    assert!(f.editing_mode);
}

fn ready() -> ClickContext {
    ClickContext {
        picker_open: false,
        pointer_over_panel: false,
        left_just_pressed: true,
        button_interacting: false,
        has_ray: true,
    }
}

#[test]
fn clicks_follow_the_mode() {
    assert_eq!(click_action(ready(), true, true), ClickAction::Select);
    assert_eq!(click_action(ready(), false, true), ClickAction::Delete);
    assert_eq!(click_action(ready(), false, false), ClickAction::Place);
}

#[test]
fn clicks_that_do_not_reach_the_world() {
    for ctx in [
        ClickContext { picker_open: true, ..ready() },
        ClickContext { pointer_over_panel: true, ..ready() },
        ClickContext { left_just_pressed: false, ..ready() },
        ClickContext { button_interacting: true, ..ready() },
        ClickContext { has_ray: false, ..ready() },
    ] {
        assert_eq!(click_action(ctx, false, false), ClickAction::Ignore);
    }
}

#[test]
fn mode_labels() {
    assert_eq!(build_mode_label(true, true), "EDIT");
    assert_eq!(build_mode_label(false, true), "DELETE");
    assert_eq!(build_mode_label(false, false), "BUILD");
}

#[test]
fn block_presets_in_quarter_units() {
    let p = house_builder::editing::block_presets();
    assert_eq!(p.len(), 9);
    assert_eq!(p[0], ("Cube", [4, 4, 4]));
    assert_eq!(p[5], ("Floor Slab", [12, 1, 12]));
    assert_eq!(p[6], ("Pillar", [3, 12, 3]));
    assert_eq!(p[8], ("Wide Slab", [16, 2, 8]));
}
