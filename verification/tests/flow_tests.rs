use house_builder::flow::{
    accept_new_house, contains_name, cursor_policy, edit_new_house_name, main_menu_step,
    mode_switch_message, new_house_candidate, new_house_prompt, pause_menu_step,
    saved_houses_step, toggle_pause, CurrentWorld, GameMode, GameState, PauseMenuPresses,
    PauseScreen, TextInputBuffer,
};

#[test]
fn defaults() {
    assert_eq!(GameState::default(), GameState::MainMenu);
    assert_eq!(GameMode::default(), GameMode::Free);
    assert!(CurrentWorld::default().name.is_empty());
    assert!(TextInputBuffer::default().text.is_empty());
}

#[test]
fn escape_swaps_playing_and_paused() {
    assert_eq!(toggle_pause(GameState::Playing, true), Some(GameState::Paused));
    assert_eq!(toggle_pause(GameState::Paused, true), Some(GameState::Playing));
    let back = toggle_pause(toggle_pause(GameState::Playing, true).unwrap(), true);
    assert_eq!(back, Some(GameState::Playing));
}

#[test]
fn escape_is_ignored_in_menus_and_without_the_key() {
    for s in [GameState::MainMenu, GameState::SavedHouses, GameState::NewHouseInput] {
        assert_eq!(toggle_pause(s, true), None);
    }
    assert_eq!(toggle_pause(GameState::Playing, false), None);
}

#[test]
fn main_menu_buttons() {
    let r = main_menu_step(true, false, false);
    assert_eq!(r.next, Some(GameState::SavedHouses));
    assert!(!r.quit);
    let r = main_menu_step(true, true, true);
    assert_eq!(r.next, Some(GameState::NewHouseInput));
    assert!(r.quit);
    assert_eq!(main_menu_step(false, false, false).next, None);
}

fn strings(items: &[&str]) -> Vec<String> {
    items.iter().map(|s| s.to_string()).collect()
}

#[test]
fn saved_houses_menu() {
    let r = saved_houses_step(true, &Vec::new(), &Vec::new());
    assert_eq!(r.next, Some(GameState::MainMenu));
    assert!(r.loads.is_empty() && r.world_name.is_none() && r.delete.is_none());

    let r = saved_houses_step(true, &strings(&["a", "b"]), &strings(&["c", "d"]));
    assert_eq!(r.next, Some(GameState::Playing));
    assert_eq!(r.loads, strings(&["a", "b"]));
    assert_eq!(r.world_name.as_deref(), Some("b"));
    assert_eq!(r.delete.as_deref(), Some("c"));
}

fn presses() -> PauseMenuPresses {
    PauseMenuPresses {
        resume: false,
        controls: false,
        back: false,
        switch_mode: false,
        save: false,
        save_and_quit: false,
    }
}

#[test]
fn pause_menu_resume_and_screens() {
    let r = pause_menu_step(GameMode::Free, PauseMenuPresses { resume: true, ..presses() });
    assert_eq!(r.next, Some(GameState::Playing));
    assert_eq!(r.show, None);
    let r = pause_menu_step(
        GameMode::Free,
        PauseMenuPresses { controls: true, switch_mode: true, save: true, ..presses() },
    );
    assert_eq!(r.show, Some(PauseScreen::Controls));
    assert_eq!(r.mode, GameMode::Free);
    assert_eq!(r.saves, 0);
    let r = pause_menu_step(GameMode::Human, PauseMenuPresses { back: true, ..presses() });
    assert_eq!(r.show, Some(PauseScreen::Pause));
}

#[test]
fn pause_menu_switch_mode() {
    let r = pause_menu_step(GameMode::Free, PauseMenuPresses { switch_mode: true, ..presses() });
    assert_eq!(r.mode, GameMode::Human);
    assert!(r.level_camera && r.confirm_mode);
    let r2 = pause_menu_step(r.mode, PauseMenuPresses { switch_mode: true, ..presses() });
    assert_eq!(r2.mode, GameMode::Free);
    assert!(!r2.level_camera);
    assert_eq!(mode_switch_message(GameMode::Free), "Switched to Free Mode");
    assert_eq!(mode_switch_message(GameMode::Human), "Switched to Human Mode");
}

#[test]
fn pause_menu_save_and_quit() {
    let r = pause_menu_step(
        GameMode::Free,
        PauseMenuPresses { save: true, save_and_quit: true, resume: true, ..presses() },
    );
    assert_eq!(r.saves, 2);
    assert!(r.close_pause_menu);
    assert_eq!(r.next, Some(GameState::MainMenu));
}

#[test]
fn cursor_locked_only_when_walking_in_game() {
    let p = cursor_policy(GameMode::Human, GameState::Playing);
    assert!(p.locked && !p.visible);
    for (m, s) in [
        (GameMode::Human, GameState::Paused),
        (GameMode::Free, GameState::Playing),
        (GameMode::Free, GameState::MainMenu),
    ] {
        let p = cursor_policy(m, s);
        assert!(!p.locked && p.visible);
    }
}

#[test]
fn typing_skips_control_characters_and_erases() {
    let mut b = TextInputBuffer { text: String::from("My") };
    assert!(!edit_new_house_name(&mut b, false, " Ho\u{8}use\n", false));
    assert_eq!(b.text, "My House");
    assert!(!edit_new_house_name(&mut b, false, "", true));
    assert_eq!(b.text, "My Hous");
    assert!(!edit_new_house_name(&mut b, false, "ée", true));
    assert_eq!(b.text, "My Housé");
}

#[test]
fn backspace_on_empty_name_keeps_it_empty() {
    let mut b = TextInputBuffer::default();
    assert!(!edit_new_house_name(&mut b, false, "", true));
    assert_eq!(b.text, "");
}

#[test]
fn escape_cancels_and_clears() {
    let mut b = TextInputBuffer { text: String::from("Cabin") };
    assert!(edit_new_house_name(&mut b, true, "x", false));
    assert_eq!(b.text, "");
}

#[test]
fn candidate_name_is_trimmed() {
    let b = TextInputBuffer { text: String::from("  Villa  ") };
    assert_eq!(new_house_candidate(&b, true).as_deref(), Some("Villa"));
    assert_eq!(new_house_candidate(&b, false), None);
    assert_eq!(new_house_candidate(&TextInputBuffer::default(), true), None);
    let blank = TextInputBuffer { text: String::from("   ") };
    assert_eq!(new_house_candidate(&blank, true).as_deref(), Some(""));
}

#[test]
fn new_house_accepted_only_when_free() {
    let saved = strings(&["Villa", "Cabin"]);
    let mut b = TextInputBuffer { text: String::from("Villa ") };
    assert!(!accept_new_house(&mut b, &String::from("Villa"), &saved));
    assert_eq!(b.text, "Villa ");
    let mut b = TextInputBuffer { text: String::from("   ") };
    assert!(!accept_new_house(&mut b, &String::new(), &saved));
    assert_eq!(b.text, "   ");
    let mut b = TextInputBuffer { text: String::from(" Barn") };
    assert!(accept_new_house(&mut b, &String::from("Barn"), &saved));
    assert_eq!(b.text, "");
    for bad in ["../x", "/tmp/x", "a/b"] {
        let mut b = TextInputBuffer { text: String::from(bad) };
        assert!(!accept_new_house(&mut b, &String::from(bad), &saved));
        assert_eq!(b.text, bad);
    }
    let mut b = TextInputBuffer { text: String::from("ab:c") };
    assert!(accept_new_house(&mut b, &String::from("ab:c"), &saved));
    assert!(contains_name(&saved, &String::from("Cabin")));
    assert!(!contains_name(&saved, &String::from("cabin")));
}

#[test]
fn prompt_shows_a_cursor() {
    assert_eq!(new_house_prompt(&TextInputBuffer::default()), "_");
    assert_eq!(new_house_prompt(&TextInputBuffer { text: String::from("Hut") }), "Hut_");
}
