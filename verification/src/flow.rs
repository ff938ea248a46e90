//! The game's screens and modes, and the decisions of its menus.
use vstd::prelude::*;

verus! {

/// The screen the game is on.
#[derive(Clone, Copy, Debug, PartialEq, Eq, Hash, Structural)]
pub enum GameState {
    MainMenu,
    SavedHouses,
    NewHouseInput,
    Playing,
    Paused,
}

impl Default for GameState {
    fn default() -> (r: Self)
        ensures
            r == GameState::MainMenu,
    {
        GameState::MainMenu
    }
}

/// How the player moves: flying freely, or walking as a person.
#[derive(Clone, Copy, Debug, PartialEq, Eq, Structural)]
pub enum GameMode {
    Free,
    Human,
}

impl Default for GameMode {
    fn default() -> (r: Self)
        ensures
            r == GameMode::Free,
    {
        GameMode::Free
    }
}

/// The house being built: its name is the name of its save file.
#[derive(Clone, Debug)]
pub struct CurrentWorld {
    pub name: String,
}

impl Default for CurrentWorld {
    fn default() -> (r: Self)
        ensures
            r.name@.len() == 0,
    {
        CurrentWorld { name: String::new() }
    }
}

/// What the player has typed as the name of a new house.
#[derive(Clone, Debug)]
pub struct TextInputBuffer {
    pub text: String,
}

impl Default for TextInputBuffer {
    fn default() -> (r: Self)
        ensures
            r.text@.len() == 0,
    {
        TextInputBuffer { text: String::new() }
    }
}

/// Whether the block shapes window is open.
#[derive(Clone, Copy, Debug, Default, PartialEq, Eq, Structural)]
pub struct BlockMenuState {
    pub is_open: bool,
}

/// The screen that pressing Escape leads to from `state`: playing and paused swap, the menus
/// ignore it.
pub open spec fn escape_target(state: GameState) -> Option<GameState> {
    match state {
        GameState::Playing => Some(GameState::Paused),
        GameState::Paused => Some(GameState::Playing),
        _ => None,
    }
}

/// The screen to switch to when Escape is pressed (or not) on `state`; `None` keeps the screen.
pub fn toggle_pause(state: GameState, escape_pressed: bool) -> (r: Option<GameState>)
    ensures
        r == (if escape_pressed {
            escape_target(state)
        } else {
            None
        }),
{
    if escape_pressed {
        match state {
            GameState::Playing => Some(GameState::Paused),
            GameState::Paused => Some(GameState::Playing),
            GameState::MainMenu | GameState::SavedHouses | GameState::NewHouseInput => None,
        }
    } else {
        None
    }
}

/// Pausing and pressing Escape again returns to the game, and the other way round.
pub proof fn lemma_escape_twice_returns(state: GameState)
    requires
        state == GameState::Playing || state == GameState::Paused,
    ensures
        escape_target(state) matches Some(s) && escape_target(s) == Some(state),
{
}

/// What the main menu's buttons ask for in one frame.
#[derive(Clone, Copy, Debug, PartialEq, Eq, Structural)]
pub struct MainMenuOutcome {
    /// The screen to switch to, if any.
    pub next: Option<GameState>,
    /// Whether to quit the game.
    pub quit: bool,
}

/// The main menu: "Saved Houses" and "New House" switch screens (the later button wins when both
/// are pressed), "Quit" ends the game.
pub fn main_menu_step(saved_pressed: bool, new_pressed: bool, quit_pressed: bool) -> (r:
    MainMenuOutcome)
    ensures
        r.next == (if new_pressed {
            Some(GameState::NewHouseInput)
        } else if saved_pressed {
            Some(GameState::SavedHouses)
        } else {
            None
        }),
        r.quit == quit_pressed,
{
    let mut next: Option<GameState> = None;
    if saved_pressed {
        next = Some(GameState::SavedHouses);
    }
    if new_pressed {
        next = Some(GameState::NewHouseInput);
    }
    MainMenuOutcome { next, quit: quit_pressed }
}

/// What the saved-houses menu asks for in one frame.
#[derive(Clone, Debug)]
pub struct SavedHousesOutcome {
    /// The screen to switch to, if any.
    pub next: Option<GameState>,
    /// The houses to load, in order; each first clears the blocks in the world.
    pub loads: Vec<String>,
    /// The new name of the current house, if a house is loaded.
    pub world_name: Option<String>,
    /// The save to delete, after which the menu is built anew.
    pub delete: Option<String>,
}

/// The saved-houses menu: "Back" returns to the main menu, each pressed house is loaded and
/// starts the game (the last one loaded becomes the current house), and the first pressed
/// "Delete" removes that save.
pub fn saved_houses_step(back_pressed: bool, load_pressed: &Vec<String>, delete_pressed: &Vec<
    String,
>) -> (r: SavedHousesOutcome)
    ensures
        r.next == (if load_pressed@.len() > 0 {
            Some(GameState::Playing)
        } else if back_pressed {
            Some(GameState::MainMenu)
        } else {
            None
        }),
        r.loads@ == load_pressed@,
        load_pressed@.len() == 0 ==> r.world_name is None,
        load_pressed@.len() > 0 ==> (r.world_name matches Some(n) && n@ == load_pressed@.last()@),
        delete_pressed@.len() == 0 ==> r.delete is None,
        delete_pressed@.len() > 0 ==> (r.delete matches Some(n) && n@ == delete_pressed@[0]@),
{
    let mut next: Option<GameState> = None;
    if back_pressed {
        next = Some(GameState::MainMenu);
    }
    let n = load_pressed.len();
    let mut world_name: Option<String> = None;
    if n > 0 {
        next = Some(GameState::Playing);
        world_name = Some(load_pressed[n - 1].clone());
    }
    let delete = if delete_pressed.len() > 0 {
        Some(delete_pressed[0].clone())
    } else {
        None
    };
    SavedHousesOutcome { next, loads: load_pressed.clone(), world_name, delete }
}

/// The screens of the pause menu.
#[derive(Clone, Copy, Debug, PartialEq, Eq, Structural)]
pub enum PauseScreen {
    /// The pause menu itself.
    Pause,
    /// The list of controls.
    Controls,
}

/// The pause menu's buttons pressed in one frame.
#[derive(Clone, Copy, Debug, PartialEq, Eq, Structural)]
pub struct PauseMenuPresses {
    pub resume: bool,
    pub controls: bool,
    pub back: bool,
    pub switch_mode: bool,
    pub save: bool,
    pub save_and_quit: bool,
}

/// What the pause menu asks for in one frame.
#[derive(Clone, Copy, Debug, PartialEq, Eq, Structural)]
pub struct PauseMenuOutcome {
    /// The game screen to switch to, if any.
    pub next: Option<GameState>,
    /// The pause screen to show in place of the other one, if any.
    pub show: Option<PauseScreen>,
    /// The mode after this frame.
    pub mode: GameMode,
    /// Whether to level the camera (on switching to human mode).
    pub level_camera: bool,
    /// Whether to show the message confirming the mode.
    pub confirm_mode: bool,
    /// How many times to save the house.
    pub saves: u8,
    /// Whether to take down the pause menu at once.
    pub close_pause_menu: bool,
}

/// The other mode.
pub open spec fn other_mode(mode: GameMode) -> GameMode {
    match mode {
        GameMode::Free => GameMode::Human,
        GameMode::Human => GameMode::Free,
    }
}

/// The pause menu, in the order the buttons are handled: "Resume" returns to the game;
/// "Controls" and "Back" swap the pause and controls screens and end the frame's handling;
/// "Switch Mode" toggles the mode (levelling the camera when it becomes human); "Save" saves;
/// "Save & Quit" saves, takes down the menu and returns to the main menu.
pub fn pause_menu_step(mode: GameMode, presses: PauseMenuPresses) -> (r: PauseMenuOutcome)
    ensures
        presses.controls ==> r == (PauseMenuOutcome {
            next: if presses.resume {
                Some(GameState::Playing)
            } else {
                None
            },
            show: Some(PauseScreen::Controls),
            mode,
            level_camera: false,
            confirm_mode: false,
            saves: 0,
            close_pause_menu: false,
        }),
        !presses.controls && presses.back ==> r == (PauseMenuOutcome {
            next: if presses.resume {
                Some(GameState::Playing)
            } else {
                None
            },
            show: Some(PauseScreen::Pause),
            mode,
            level_camera: false,
            confirm_mode: false,
            saves: 0,
            close_pause_menu: false,
        }),
        !presses.controls && !presses.back ==> r == (PauseMenuOutcome {
            next: if presses.save_and_quit {
                Some(GameState::MainMenu)
            } else if presses.resume {
                Some(GameState::Playing)
            } else {
                None
            },
            show: None,
            mode: if presses.switch_mode {
                other_mode(mode)
            } else {
                mode
            },
            level_camera: presses.switch_mode && mode == GameMode::Free,
            confirm_mode: presses.switch_mode,
            saves: (if presses.save {
                1int
            } else {
                0
            } + if presses.save_and_quit {
                1int
            } else {
                0
            }) as u8,
            close_pause_menu: presses.save_and_quit,
        }),
{
    let mut out = PauseMenuOutcome {
        next: None,
        show: None,
        mode,
        level_camera: false,
        confirm_mode: false,
        saves: 0,
        close_pause_menu: false,
    };
    if presses.resume {
        out.next = Some(GameState::Playing);
    }
    if presses.controls {
        out.show = Some(PauseScreen::Controls);
        return out;
    }
    if presses.back {
        out.show = Some(PauseScreen::Pause);
        return out;
    }
    if presses.switch_mode {
        out.mode = match mode {
            GameMode::Free => GameMode::Human,
            GameMode::Human => GameMode::Free,
        };
        out.level_camera = match mode {
            GameMode::Free => true,
            GameMode::Human => false,
        };
        out.confirm_mode = true;
    }
    if presses.save {
        out.saves = out.saves + 1;
    }
    if presses.save_and_quit {
        out.saves = out.saves + 1;
        out.close_pause_menu = true;
        out.next = Some(GameState::MainMenu);
    }
    out
}

/// The message that confirms a switch to `mode`.
pub fn mode_switch_message(mode: GameMode) -> (r: &'static str)
    ensures
        mode == GameMode::Free ==> r@ == "Switched to Free Mode"@,
        mode == GameMode::Human ==> r@ == "Switched to Human Mode"@,
{
    match mode {
        GameMode::Free => "Switched to Free Mode",
        GameMode::Human => "Switched to Human Mode",
    }
}

/// Switching the mode twice gives back the mode one started from.
pub proof fn lemma_switch_mode_twice(mode: GameMode)
    ensures
        other_mode(other_mode(mode)) == mode,
        other_mode(mode) != mode,
{
}

/// How the mouse cursor is shown.
#[derive(Clone, Copy, Debug, PartialEq, Eq, Structural)]
pub struct CursorPolicy {
    pub visible: bool,
    /// Locked to the window (else free).
    pub locked: bool,
}

/// The cursor is hidden and locked exactly while a person walks through the house being played;
/// otherwise it is shown and free.
pub fn cursor_policy(mode: GameMode, state: GameState) -> (r: CursorPolicy)
    ensures
        r.locked == (mode == GameMode::Human && state == GameState::Playing),
        r.visible == !r.locked,
{
    let human_playing = mode == GameMode::Human && state == GameState::Playing;
    CursorPolicy { visible: !human_playing, locked: human_playing }
}

/// `s` without its control characters.
pub open spec fn without_controls(s: Seq<char>) -> Seq<char>
    decreases s.len(),
{
    if s.len() == 0 {
        s
    } else {
        let r = without_controls(s.drop_last());
        if crate::text::is_control(s.last()) {
            r
        } else {
            r.push(s.last())
        }
    }
}

/// The name being typed after the characters `typed` arrive (control characters are ignored)
/// and, if `backspace`, its last character is erased.
pub open spec fn typed_name(old: Seq<char>, typed: Seq<char>, backspace: bool) -> Seq<char> {
    let t = old + without_controls(typed);
    if backspace && t.len() > 0 {
        t.drop_last()
    } else {
        t
    }
}

/// One frame of typing the name of a new house. Escape cancels: the name is cleared and `true`
/// returned (the caller goes back to the main menu). Otherwise the characters `typed` are added,
/// skipping control characters, then Backspace erases the last character, and `false` is
/// returned.
pub fn edit_new_house_name(buffer: &mut TextInputBuffer, escape: bool, typed: &str, backspace: bool)
    -> (cancelled: bool)
    ensures
        cancelled == escape,
        escape ==> final(buffer).text@.len() == 0,
        !escape ==> final(buffer).text@ == typed_name(old(buffer).text@, typed@, backspace),
        !escape && !backspace && (forall|i: int|
            0 <= i < typed@.len() ==> !crate::text::is_control(#[trigger] typed@[i]))
            ==> final(buffer).text@ == old(buffer).text@ + typed@,
{
    proof {
        if forall|i: int| 0 <= i < typed@.len() ==> !crate::text::is_control(#[trigger] typed@[i]) {
            lemma_plain_typing_is_kept(old(buffer).text@, typed@);
        }
    }
    if escape {
        buffer.text = String::new();
        return true;
    }
    let n = typed.unicode_len();
    let mut i: usize = 0;
    assert(typed@.take(0) =~= Seq::<char>::empty());
    while i < n
        invariant
            n == typed@.len(),
            i <= n,
            buffer.text@ == old(buffer).text@ + without_controls(typed@.take(i as int)),
        decreases n - i,
    {
        let c = typed.get_char(i);
        assert(typed@.take(i + 1).drop_last() =~= typed@.take(i as int));
        assert(typed@.take(i + 1).last() == c);
        if !crate::text::char_is_control(c) {
            crate::text::push_char(&mut buffer.text, c);
        }
        i = i + 1;
    }
    assert(typed@.take(n as int) =~= typed@);
    if backspace {
        let _ = crate::text::pop_char(&mut buffer.text);
    }
    false
}

/// The name to try when Enter is pressed on a non-empty input: the input trimmed of white space.
pub fn new_house_candidate(buffer: &TextInputBuffer, enter: bool) -> (r: Option<String>)
    ensures
        enter && buffer.text@.len() > 0 ==> (r matches Some(n) && n@ == crate::text::trim_chars(
            buffer.text@,
        )),
        !(enter && buffer.text@.len() > 0) ==> r is None,
{
    if enter && buffer.text.as_str().unicode_len() > 0 {
        Some(String::from_str(crate::text::trim(buffer.text.as_str())))
    } else {
        None
    }
}

/// Whether `name` is among `names`.
pub fn contains_name(names: &Vec<String>, name: &String) -> (r: bool)
    ensures
        r == crate::color::entries_of(names@).contains(name@),
{
    let n = names.len();
    let mut i: usize = 0;
    while i < n
        invariant
            n == names@.len(),
            i <= n,
            forall|j: int| 0 <= j < i ==> names@[j]@ != name@,
        decreases n - i,
    {
        if names[i] == *name {
            assert(crate::color::entries_of(names@)[i as int] == name@);
            return true;
        }
        i = i + 1;
    }
    assert(!crate::color::entries_of(names@).contains(name@)) by {
        if crate::color::entries_of(names@).contains(name@) {
            let k = choose|k: int|
                0 <= k < crate::color::entries_of(names@).len() && crate::color::entries_of(
                    names@,
                )[k] == name@;
            assert(names@[k]@ == name@);
        }
    }
    false
}

/// Whether a new house may be created under `name`: it is not empty, it can name a file inside
/// the save directory (no path separator), and no save has it.
pub open spec fn name_is_free(name: Seq<char>, saved: Seq<Seq<char>>) -> bool {
    name.len() > 0 && crate::savefile::is_file_stem(name) && !saved.contains(name)
}

/// Decides on the candidate name of a new house, given the houses already `saved`. A name that is
/// free is accepted and the typed input cleared; otherwise nothing changes.
pub fn accept_new_house(buffer: &mut TextInputBuffer, candidate: &String, saved: &Vec<String>) -> (r:
    bool)
    ensures
        r == name_is_free(candidate@, crate::color::entries_of(saved@)),
        (exists|i: int| 0 <= i < saved@.len() && saved@[i]@ == candidate@) ==> !r,
        r ==> final(buffer).text@.len() == 0,
        !r ==> final(buffer).text@ == old(buffer).text@,
{
    proof {
        if exists|i: int| 0 <= i < saved@.len() && saved@[i]@ == candidate@ {
            let i = choose|i: int| 0 <= i < saved@.len() && saved@[i]@ == candidate@;
            assert(crate::color::entries_of(saved@)[i] == candidate@);
            lemma_taken_names_are_refused(candidate@, crate::color::entries_of(saved@));
        }
    }
    let free = candidate.as_str().unicode_len() > 0 && crate::savefile::is_plain_name(
        candidate.as_str(),
    ) && !contains_name(saved, candidate);
    if free {
        buffer.text = String::new();
    }
    free
}

/// The text shown while typing a new house's name: the name followed by `_` as a cursor.
pub fn new_house_prompt(buffer: &TextInputBuffer) -> (r: String)
    ensures
        r@ == buffer.text@.push('_'),
{
    let mut r = buffer.text.clone();
    crate::text::push_char(&mut r, '_');
    r
}

/// Typing never puts a control character into a name.
pub proof fn lemma_typed_name_has_no_controls(old: Seq<char>, typed: Seq<char>, backspace: bool)
    requires
        forall|i: int| 0 <= i < old.len() ==> !crate::text::is_control(#[trigger] old[i]),
    ensures
        forall|i: int|
            0 <= i < typed_name(old, typed, backspace).len() ==> !crate::text::is_control(
                #[trigger] typed_name(old, typed, backspace)[i],
            ),
{
    lemma_without_controls_clean(typed);
    let t = old + without_controls(typed);
    assert forall|i: int| 0 <= i < t.len() implies !crate::text::is_control(#[trigger] t[i]) by {
        if i >= old.len() {
            assert(t[i] == without_controls(typed)[i - old.len()]);
        }
    }
}

proof fn lemma_without_controls_clean(s: Seq<char>)
    ensures
        forall|i: int|
            0 <= i < without_controls(s).len() ==> !crate::text::is_control(
                #[trigger] without_controls(s)[i],
            ),
    decreases s.len(),
{
    if s.len() > 0 {
        lemma_without_controls_clean(s.drop_last());
        let r = without_controls(s.drop_last());
        assert forall|i: int| 0 <= i < without_controls(s).len() implies !crate::text::is_control(
            #[trigger] without_controls(s)[i],
        ) by {
            if i < r.len() {
                assert(without_controls(s)[i] == r[i]);
            }
        }
    }
}

/// A name that some save already has is never free, whichever entry holds it; a non-empty name
/// without a path separator that no save has is free.
pub proof fn lemma_taken_names_are_refused(name: Seq<char>, saved: Seq<Seq<char>>)
    ensures
        (exists|i: int| 0 <= i < saved.len() && saved[i] == name) ==> !name_is_free(name, saved),
        name.len() > 0 && (forall|i: int| 0 <= i < name.len() ==> name[i] != '/') && (forall|i: int|
            0 <= i < saved.len() ==> saved[i] != name) ==> name_is_free(name, saved),
{
    if exists|i: int| 0 <= i < saved.len() && saved[i] == name {
        let i = choose|i: int| 0 <= i < saved.len() && saved[i] == name;
        assert(saved.contains(name));
    }
    if name.len() > 0 && (forall|i: int| 0 <= i < name.len() ==> name[i] != '/') && (forall|i: int|
        0 <= i < saved.len() ==> saved[i] != name) {
        assert(!saved.contains(name));
        assert(crate::savefile::is_file_stem(name));
    }
}

/// Text typed without control characters reaches the name unchanged, in order.
pub proof fn lemma_plain_typing_is_kept(old: Seq<char>, typed: Seq<char>)
    requires
        forall|i: int| 0 <= i < typed.len() ==> !crate::text::is_control(#[trigger] typed[i]),
    ensures
        without_controls(typed) == typed,
        typed_name(old, typed, false) == old + typed,
    decreases typed.len(),
{
    if typed.len() > 0 {
        lemma_plain_typing_is_kept(old, typed.drop_last());
        assert(typed.drop_last().push(typed.last()) =~= typed);
    }
}

/// Typing a text in two parts gives what typing it at once gives.
pub proof fn lemma_typing_splits(a: Seq<char>, b: Seq<char>)
    ensures
        without_controls(a + b) == without_controls(a) + without_controls(b),
    decreases b.len(),
{
    if b.len() == 0 {
        assert(a + b =~= a);
        assert(without_controls(a) + without_controls(b) =~= without_controls(a));
    } else {
        assert((a + b).drop_last() =~= a + b.drop_last());
        lemma_typing_splits(a, b.drop_last());
        assert((a + b).last() == b.last());
        if !crate::text::is_control(b.last()) {
            assert(without_controls(a) + without_controls(b.drop_last()).push(b.last())
                =~= (without_controls(a) + without_controls(b.drop_last())).push(b.last()));
        }
    }
}

/// A single typed character is kept exactly when it is not a control character.
pub proof fn lemma_typing_one_char(c: char)
    ensures
        without_controls(seq![c]) == (if crate::text::is_control(c) {
            Seq::<char>::empty()
        } else {
            seq![c]
        }),
{
    assert(seq![c].drop_last() =~= Seq::<char>::empty());
    assert(seq![c].last() == c);
    assert(without_controls(Seq::<char>::empty()) =~= Seq::<char>::empty());
    assert(Seq::<char>::empty().push(c) =~= seq![c]);
}

} // verus!
