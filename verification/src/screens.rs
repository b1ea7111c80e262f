use vstd::prelude::*;
use crate::ui::{CursorRequest, Ui, UiError};

verus! {

/// A top-level screen.
#[derive(Debug, Clone, Copy, PartialEq, Eq, Hash, Structural)]
pub enum Screen {
    World,
    Title,
    Main,
    GameOptions,
    SystemOptions,
    Keybinds,
    UiTest,
}

/// A stacking band: the debug overlay draws and takes input above the rest.
#[derive(Debug, Clone, Copy, PartialEq, Eq, Hash, Structural)]
pub enum Layer {
    Content,
    Debug,
}

/// What the application loop is told to do.
#[derive(Debug, Clone, Copy, PartialEq, Eq, Structural)]
pub enum AppEvent {
    Exit,
}

/// The node shown for each screen, and the screen showing.
#[derive(Debug)]
pub struct Screens {
    main_idx: usize,
    game_idx: usize,
    sys_idx: usize,
    keybind_idx: usize,
    world_idx: usize,
    title_idx: usize,
    ui_test_idx: usize,
    current: Screen,
}

impl Screens {
    pub closed spec fn current_spec(&self) -> Screen {
        self.current
    }

    /// The node shown for screen `s`.
    pub closed spec fn container_spec(&self, s: Screen) -> usize {
        match s {
            Screen::World => self.world_idx,
            Screen::Title => self.title_idx,
            Screen::Main => self.main_idx,
            Screen::GameOptions => self.game_idx,
            Screen::SystemOptions => self.sys_idx,
            Screen::Keybinds => self.keybind_idx,
            Screen::UiTest => self.ui_test_idx,
        }
    }

    /// Screens shown by the given nodes, starting on the title screen.
    pub fn new(
        main_idx: usize,
        game_idx: usize,
        sys_idx: usize,
        keybind_idx: usize,
        world_idx: usize,
        title_idx: usize,
        ui_test_idx: usize,
    ) -> (r: Self)
        ensures
            r.current_spec() == Screen::Title,
            r.container_spec(Screen::Main) == main_idx,
            r.container_spec(Screen::GameOptions) == game_idx,
            r.container_spec(Screen::SystemOptions) == sys_idx,
            r.container_spec(Screen::Keybinds) == keybind_idx,
            r.container_spec(Screen::World) == world_idx,
            r.container_spec(Screen::Title) == title_idx,
            r.container_spec(Screen::UiTest) == ui_test_idx,
    {
        Screens { main_idx, game_idx, sys_idx, keybind_idx, world_idx, title_idx, ui_test_idx, current: Screen::Title }
    }

    /// The screen showing.
    pub fn current(&self) -> (r: Screen)
        ensures
            r == self.current_spec(),
    {
        self.current
    }

    /// The node shown for screen `s`.
    pub fn container_for(&self, s: Screen) -> (r: usize)
        ensures
            r == self.container_spec(s),
    {
        match s {
            Screen::World => self.world_idx,
            Screen::Title => self.title_idx,
            Screen::Main => self.main_idx,
            Screen::GameOptions => self.game_idx,
            Screen::SystemOptions => self.sys_idx,
            Screen::Keybinds => self.keybind_idx,
            Screen::UiTest => self.ui_test_idx,
        }
    }

    /// Switches to screen `target`: nothing to do if it already shows;
    /// else the current screen's node is hidden and the target's shown in
    /// `ui`, and the pointer is to be captured when entering the world and
    /// freed when leaving it. If a node cannot be shown or hidden, its error
    /// is returned and the current screen stays.
    pub fn go_to(&mut self, ui: &mut Ui, target: Screen) -> (r: Result<Option<CursorRequest>, UiError>)
        requires
            old(ui).wf(),
        ensures
            final(ui).wf(),
            final(ui).tree().kinds() == old(ui).tree().kinds(),
            final(ui).tree().parents() == old(ui).tree().parents(),
            final(ui).state() == old(ui).state(),
            forall|s: Screen| #[trigger] final(self).container_spec(s) == old(self).container_spec(s),
            ({
                let c = old(self).current_spec();
                let hide = old(self).container_spec(c);
                let show = old(self).container_spec(target);
                let n = old(ui).tree().len();
                if c == target {
                    &&& r == Ok::<Option<CursorRequest>, UiError>(None)
                    &&& final(ui).tree() == old(ui).tree()
                    &&& final(self).current_spec() == c
                } else if hide >= n {
                    &&& r == Err::<Option<CursorRequest>, UiError>(UiError::OutOfBounds(hide))
                    &&& final(ui).tree() == old(ui).tree()
                    &&& final(self).current_spec() == c
                } else if show >= n {
                    &&& r == Err::<Option<CursorRequest>, UiError>(UiError::OutOfBounds(show))
                    &&& final(ui).tree().visibility() == old(ui).tree().visibility().update(hide as int, false)
                    &&& final(self).current_spec() == c
                } else {
                    &&& r == Ok::<Option<CursorRequest>, UiError>(
                        if target == Screen::World {
                            Some(CursorRequest::Lock)
                        } else if c == Screen::World {
                            Some(CursorRequest::Free)
                        } else {
                            None
                        },
                    )
                    &&& final(ui).tree().visibility() == old(ui).tree().visibility().update(hide as int, false).update(
                        show as int,
                        true,
                    )
                    &&& final(self).current_spec() == target
                }
            }),
    {
        let current = self.current;
        if current == target {
            return Ok(None);
        }
        let hide = self.container_for(current);
        let show = self.container_for(target);
        ui.set_visible(hide, false)?;
        ui.set_visible(show, true)?;
        let cursor = if target == Screen::World {
            Some(CursorRequest::Lock)
        } else if current == Screen::World {
            Some(CursorRequest::Free)
        } else {
            None
        };
        self.current = target;
        Ok(cursor)
    }
}

/// The screen the menu key leads to: from the world to the main menu, from
/// any menu back to the world; the title screen ignores it.
pub open spec fn toggle_target_spec(current: Screen) -> Option<Screen> {
    if current == Screen::Title {
        None
    } else if current == Screen::World {
        Some(Screen::Main)
    } else {
        Some(Screen::World)
    }
}

/// The screen the menu key leads to from `current`, if it was pressed.
pub fn menu_toggle_target(current: Screen, toggle_pressed: bool) -> (r: Option<Screen>)
    ensures
        r == (if toggle_pressed {
            toggle_target_spec(current)
        } else {
            None
        }),
{
    if !toggle_pressed || current == Screen::Title {
        None
    } else if current == Screen::World {
        Some(Screen::Main)
    } else {
        Some(Screen::World)
    }
}

/// The settings in force are copied into the ones being edited, except
/// while the system options are open and may hold unsaved edits.
pub fn syncs_pending(current: Screen) -> (r: bool)
    ensures
        r == (current != Screen::SystemOptions),
{
    current != Screen::SystemOptions
}

/// The first decision of a tick of input: quitting ends the application
/// before anything else is looked at.
pub fn quit_requested(quit_pressed: bool) -> (r: Option<AppEvent>)
    ensures
        r == (if quit_pressed {
            Some(AppEvent::Exit)
        } else {
            None::<AppEvent>
        }),
{
    if quit_pressed {
        Some(AppEvent::Exit)
    } else {
        None
    }
}

/// The mouse turns the camera only while the world shows.
pub fn camera_follows_mouse(current: Screen) -> (r: bool)
    ensures
        r == (current == Screen::World),
{
    current == Screen::World
}

} // verus!
