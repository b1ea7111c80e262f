use vstd::prelude::*;
use crate::ui::{
    checkbox_at, clamp_spec, slider_at_index, snap_spec, MenuState, Ui, UiAction, UiNode,
};

verus! {

/// `new` keeps the first `old.len()` entries of `old` and may add more.
pub open spec fn extends<A>(new: Seq<A>, old: Seq<A>) -> bool {
    &&& old.len() <= new.len()
    &&& forall|i: int| 0 <= i < old.len() ==> #[trigger] new[i] == old[i]
}

/// `u` is `o` with nodes appended or new nodes changed: every node of `o`
/// keeps its kind, parent and visibility, the menu's settings stay, nothing
/// more waits to be redrawn in place, and a full redraw stays due.
pub open spec fn grew_from(u: Ui, o: Ui) -> bool {
    &&& o.tree().parents().len() == o.tree().len()
    &&& o.tree().visibility().len() == o.tree().len()
    &&& u.tree().parents().len() == u.tree().len()
    &&& u.tree().visibility().len() == u.tree().len()
    &&& extends(u.tree().kinds(), o.tree().kinds())
    &&& extends(u.tree().parents(), o.tree().parents())
    &&& extends(u.tree().visibility(), o.tree().visibility())
    &&& u.keeps_settings(o)
    &&& u.redraw_list() == o.redraw_list()
    &&& o.needs_full_redraw() ==> u.needs_full_redraw()
}

/// The text of node `i` of `kinds`, if it is a label.
pub open spec fn label_text(kinds: Seq<UiNode>, i: int) -> Option<Seq<char>> {
    if 0 <= i < kinds.len() {
        match kinds[i] {
            UiNode::Label(l) => Some(l.text_spec()),
            _ => None,
        }
    } else {
        None
    }
}

/// Node `i` of `kinds` is a button with a hover colour that fires `action` when released over.
pub open spec fn action_button(kinds: Seq<UiNode>, i: int, action: UiAction) -> bool {
    &&& 0 <= i < kinds.len()
    &&& kinds[i] matches UiNode::Button(b) && b.has_hover_color && b.interaction.on_release == Some(action)
}

/// A value snapped to `[lo, hi]` stays in `[lo, hi]`.
proof fn lemma_snap_in_range(v: int, lo: int, hi: int, step: int)
    requires
        lo <= hi,
        step > 0,
    ensures
        lo <= snap_spec(v, lo, hi, step) <= hi,
{
    let d = clamp_spec(v, lo, hi) - lo;
    assert(0 <= (d / step) * step <= d) by (nonlinear_arith)
        requires
            d >= 0,
            step > 0,
    {
        vstd::arithmetic::div_mod::lemma_fundamental_div_mod(d, step);
    }
}

/// A labelled button: the button and its label.
pub type LabelledButton = (usize, usize);

/// The nodes of the menu that [`Ui::build_menu`] builds, by their role.
#[derive(Debug)]
pub struct MenuNodes {
    pub main: usize,
    pub main_heading: usize,
    pub resume: LabelledButton,
    pub open_game: LabelledButton,
    pub open_system: LabelledButton,
    pub open_keybinds: LabelledButton,
    pub quit: LabelledButton,
    pub game: usize,
    pub game_heading: usize,
    pub game_back: LabelledButton,
    pub system: usize,
    pub system_heading: usize,
    pub vsync_row: usize,
    pub vsync_label: usize,
    pub vsync: usize,
    pub fps_row: usize,
    pub fps_label: usize,
    /// The frame-rate slider; its thumb and value label follow it.
    pub fps: usize,
    pub accept: LabelledButton,
    pub system_back: LabelledButton,
    pub keybinds: usize,
    pub keybinds_heading: usize,
    pub keybinds_back: LabelledButton,
    pub world: usize,
    pub hotbar: usize,
    pub slots: Vec<usize>,
    pub title: usize,
    pub title_heading: usize,
    pub start: LabelledButton,
    pub title_quit: LabelledButton,
}

/// Number of slots of the world screen's hotbar.
pub const HOTBAR_SLOTS: usize = 10;

impl Ui {
    /// Adds a label reading `text` under `parent`.
    fn add_label(&mut self, parent: usize, text: &str) -> (r: usize)
        requires
            old(self).wf(),
            parent < old(self).tree().len(),
            old(self).tree().len() < 1000,
            text@.len() > 0,
        ensures
            final(self).wf(),
            final(self).needs_full_redraw(),
            r == old(self).tree().len(),
            final(self).tree().len() == r + 1,
            grew_from(*final(self), *old(self)),
            final(self).tree().parents()[r as int] == Some(parent),
            label_text(final(self).tree().kinds(), r as int) == Some(text@),
    {
        proof {
            self.lemma_wf_facts();
        }
        let r = self.create_label(parent);
        let _ = self.update_label(r, text.to_owned());
        proof {
            self.lemma_wf_facts();
        }
        r
    }

    /// Adds a button under `parent` with a hover colour, firing `action`
    /// when released over, and a label reading `text` under it.
    fn add_button(&mut self, parent: usize, action: UiAction, text: &str) -> (r: LabelledButton)
        requires
            old(self).wf(),
            parent < old(self).tree().len(),
            old(self).tree().len() < 990,
            text@.len() > 0,
        ensures
            final(self).wf(),
            final(self).needs_full_redraw(),
            r.0 == old(self).tree().len(),
            r.1 == r.0 + 1,
            final(self).tree().len() == r.0 + 2,
            grew_from(*final(self), *old(self)),
            final(self).tree().parents()[r.0 as int] == Some(parent),
            final(self).tree().parents()[r.1 as int] == Some(r.0),
            action_button(final(self).tree().kinds(), r.0 as int, action),
            label_text(final(self).tree().kinds(), r.1 as int) == Some(text@),
    {
        proof {
            self.lemma_wf_facts();
        }
        let b = self.create_button(parent);
        let _ = self.set_on_release(b, Some(action));
        let _ = self.set_hover_color(b, true);
        let l = self.add_label(b, text);
        proof {
            self.lemma_wf_facts();
        }
        (b, l)
    }

    /// Adds a panel under `parent`.
    fn add_panel(&mut self, parent: usize) -> (r: usize)
        requires
            old(self).wf(),
            parent < old(self).tree().len(),
            old(self).tree().len() < 990,
        ensures
            final(self).wf(),
            r == old(self).tree().len(),
            final(self).tree().len() == r + 1,
            grew_from(*final(self), *old(self)),
            final(self).tree().parents()[r as int] == Some(parent),
            final(self).tree().kinds()[r as int] is Panel,
    {
        proof {
            self.lemma_wf_facts();
        }
        let r = self.create_panel(parent);
        proof {
            self.lemma_wf_facts();
        }
        r
    }

    /// Adds a checkbox under `parent` with a hover colour, ticked as
    /// `selected`, firing `action` when released over.
    fn add_checkbox(&mut self, parent: usize, selected: bool, action: UiAction) -> (r: usize)
        requires
            old(self).wf(),
            parent < old(self).tree().len(),
            old(self).tree().len() < 990,
        ensures
            final(self).wf(),
            r == old(self).tree().len(),
            final(self).tree().len() == r + 1,
            grew_from(*final(self), *old(self)),
            final(self).tree().parents()[r as int] == Some(parent),
            checkbox_at(final(self).tree().kinds(), r as int) matches Some(c) && c.selected == selected
                && c.has_hover_color && c.interaction.on_release == Some(action),
    {
        proof {
            self.lemma_wf_facts();
        }
        let r = self.create_checkbox(parent);
        let _ = self.set_checkbox_selected(r, selected);
        let _ = self.set_hover_color(r, true);
        let _ = self.set_on_release(r, Some(action));
        proof {
            self.lemma_wf_facts();
        }
        r
    }

    /// Adds a slider under `parent` over `[min, max]` in steps of `step`,
    /// set to `value` clamped and snapped; its thumb and value label follow it.
    fn add_slider(&mut self, parent: usize, min: u32, max: u32, step: u32, value: u32) -> (r: usize)
        requires
            old(self).wf(),
            parent < old(self).tree().len(),
            old(self).tree().len() < 990,
            min <= max,
            step > 0,
        ensures
            final(self).wf(),
            r == old(self).tree().len(),
            final(self).tree().len() == r + 3,
            grew_from(*final(self), *old(self)),
            final(self).tree().parents()[r as int] == Some(parent),
            slider_at_index(final(self).tree().kinds(), r as int) matches Some(sl) && sl.min_value == min
                && sl.max_value == max && sl.step_size == step && sl.value == snap_spec(
                value as int,
                min as int,
                max as int,
                step as int,
            ),
    {
        proof {
            self.lemma_wf_facts();
        }
        let r = self.create_slider(parent);
        let _ = self.configure_slider(r, min, max, step, value);
        proof {
            self.lemma_wf_facts();
            lemma_snap_in_range(value as int, min as int, max as int, step as int);
        }
        r
    }

    /// The main menu: a heading and five buttons (resume, the three option
    /// screens, quit).
    fn build_main_screen(&mut self) -> (r: (usize, usize, LabelledButton, LabelledButton, LabelledButton, LabelledButton, LabelledButton))
        requires
            old(self).wf(),
            1 <= old(self).tree().len() < 500,
        ensures
            final(self).wf(),
            final(self).tree().len() == old(self).tree().len() + 12,
            grew_from(*final(self), *old(self)),
            r.0 == old(self).tree().len(),
            final(self).tree().parents()[r.0 as int] == Some(0usize),
            label_text(final(self).tree().kinds(), r.1 as int) == Some("Main Menu"@),
            action_button(final(self).tree().kinds(), r.2.0 as int, UiAction::CloseMenu),
            label_text(final(self).tree().kinds(), r.2.1 as int) == Some("Resume"@),
            action_button(final(self).tree().kinds(), r.3.0 as int, UiAction::OpenGameOptions),
            label_text(final(self).tree().kinds(), r.3.1 as int) == Some("Game Options"@),
            action_button(final(self).tree().kinds(), r.4.0 as int, UiAction::OpenSystemOptions),
            label_text(final(self).tree().kinds(), r.4.1 as int) == Some("System Options"@),
            action_button(final(self).tree().kinds(), r.5.0 as int, UiAction::OpenKeybinds),
            label_text(final(self).tree().kinds(), r.5.1 as int) == Some("Keybinds"@),
            action_button(final(self).tree().kinds(), r.6.0 as int, UiAction::ExitApp),
            label_text(final(self).tree().kinds(), r.6.1 as int) == Some("Quit"@),
            r.0 < r.1 < r.2.0 < r.2.1 < r.3.0 < r.3.1 < r.4.0 < r.4.1 < r.5.0 < r.5.1 < r.6.0 < r.6.1,
            r.6.1 < final(self).tree().len(),
    {
        proof {
            reveal_strlit("Main Menu");
            reveal_strlit("Resume");
            reveal_strlit("Game Options");
            reveal_strlit("System Options");
            reveal_strlit("Keybinds");
            reveal_strlit("Quit");
        }
        let main = self.add_panel(0);
        let heading = self.add_label(main, "Main Menu");
        let resume = self.add_button(main, UiAction::CloseMenu, "Resume");
        let game = self.add_button(main, UiAction::OpenGameOptions, "Game Options");
        let system = self.add_button(main, UiAction::OpenSystemOptions, "System Options");
        let keybinds = self.add_button(main, UiAction::OpenKeybinds, "Keybinds");
        let quit = self.add_button(main, UiAction::ExitApp, "Quit");
        (main, heading, resume, game, system, keybinds, quit)
    }

    /// A screen of a heading and one button back to the main menu.
    fn build_back_screen(&mut self, heading_text: &str) -> (r: (usize, usize, LabelledButton))
        requires
            old(self).wf(),
            heading_text@.len() > 0,
            1 <= old(self).tree().len() < 500,
        ensures
            final(self).wf(),
            final(self).tree().len() == old(self).tree().len() + 4,
            grew_from(*final(self), *old(self)),
            r.0 == old(self).tree().len(),
            r.0 < r.1 < r.2.0 < r.2.1 < final(self).tree().len(),
            final(self).tree().parents()[r.0 as int] == Some(0usize),
            label_text(final(self).tree().kinds(), r.1 as int) == Some(heading_text@),
            action_button(final(self).tree().kinds(), r.2.0 as int, UiAction::BackToMain),
            label_text(final(self).tree().kinds(), r.2.1 as int) == Some("Back"@),
    {
        proof {
            reveal_strlit("Back");
        }
        let screen = self.add_panel(0);
        let heading = self.add_label(screen, heading_text);
        let back = self.add_button(screen, UiAction::BackToMain, "Back");
        (screen, heading, back)
    }

    /// The system options: a heading, a V-sync row with a checkbox, a
    /// frame-rate row with a slider, and Accept and Back buttons.
    fn build_system_screen(&mut self) -> (r: (usize, usize, usize, usize, usize, usize, usize, usize, LabelledButton, LabelledButton))
        requires
            old(self).wf(),
            1 <= old(self).tree().len() < 500,
        ensures
            final(self).wf(),
            final(self).tree().len() == old(self).tree().len() + 14,
            grew_from(*final(self), *old(self)),
            r.0 == old(self).tree().len(),
            r.0 < r.1 < r.2 < r.3 < r.4 < r.5 < r.6 < r.7 && r.7 + 2 < r.8.0 < r.8.1 < r.9.0 < r.9.1,
            r.9.1 < final(self).tree().len(),
            final(self).tree().parents()[r.0 as int] == Some(0usize),
            label_text(final(self).tree().kinds(), r.1 as int) == Some("System Options"@),
            final(self).tree().kinds()[r.2 as int] is Panel,
            label_text(final(self).tree().kinds(), r.3 as int) == Some("V-Sync"@),
            checkbox_at(final(self).tree().kinds(), r.4 as int) matches Some(c) && c.selected
                == old(self).pending_spec().vsync && c.has_hover_color && c.interaction.on_release == Some(
                UiAction::ToggleVsync,
            ),
            final(self).tree().kinds()[r.5 as int] is Panel,
            label_text(final(self).tree().kinds(), r.6 as int) == Some("Framerate"@),
            slider_at_index(final(self).tree().kinds(), r.7 as int) matches Some(sl) && sl.min_value == 60
                && sl.max_value == 999 && sl.step_size == 8 && sl.value == snap_spec(
                old(self).pending_spec().fps_cap as int,
                60,
                999,
                8,
            ),
            action_button(final(self).tree().kinds(), r.8.0 as int, UiAction::ApplySettings),
            label_text(final(self).tree().kinds(), r.8.1 as int) == Some("Accept"@),
            action_button(final(self).tree().kinds(), r.9.0 as int, UiAction::BackToMain),
            label_text(final(self).tree().kinds(), r.9.1 as int) == Some("Back"@),
    {
        let pending = self.pending();
        let screen = self.add_panel(0);
        proof {
            reveal_strlit("System Options");
            reveal_strlit("V-Sync");
            reveal_strlit("Framerate");
            reveal_strlit("Accept");
            reveal_strlit("Back");
        }
        let heading = self.add_label(screen, "System Options");
        let vsync_row = self.add_panel(screen);
        let vsync_label = self.add_label(vsync_row, "V-Sync");
        let vsync = self.add_checkbox(vsync_row, pending.vsync, UiAction::ToggleVsync);
        let fps_row = self.add_panel(screen);
        let fps_label = self.add_label(fps_row, "Framerate");
        let fps = self.add_slider(fps_row, 60, 999, 8, pending.fps_cap);
        let accept = self.add_button(screen, UiAction::ApplySettings, "Accept");
        let back = self.add_button(screen, UiAction::BackToMain, "Back");
        (screen, heading, vsync_row, vsync_label, vsync, fps_row, fps_label, fps, accept, back)
    }

    /// The world screen: a container holding the hotbar, a panel of empty slots.
    fn build_world_screen(&mut self) -> (r: (usize, usize, Vec<usize>))
        requires
            old(self).wf(),
            1 <= old(self).tree().len() < 500,
        ensures
            final(self).wf(),
            final(self).tree().len() == old(self).tree().len() + 2 + HOTBAR_SLOTS,
            grew_from(*final(self), *old(self)),
            r.0 == old(self).tree().len(),
            r.1 == r.0 + 1,
            r.2.len() == HOTBAR_SLOTS,
            forall|i: int| 0 <= i < HOTBAR_SLOTS ==> #[trigger] r.2@[i] == r.1 + 1 + i,
            final(self).tree().parents()[r.0 as int] == Some(0usize),
            final(self).tree().kinds()[r.0 as int] is Container,
            final(self).tree().visibility()[r.0 as int],
            final(self).tree().parents()[r.1 as int] == Some(r.0),
            forall|i: int| 0 <= i < HOTBAR_SLOTS ==> final(self).tree().parents()[#[trigger] r.2@[i] as int] == Some(
                r.1,
            ),
    {
        let world = self.create_container(0);
        let hotbar = self.add_panel(world);
        let ghost u0 = *self;
        let mut slots: Vec<usize> = Vec::new();
        let mut i: usize = 0;
        while i < HOTBAR_SLOTS
            invariant
                self.wf(),
                0 <= i <= HOTBAR_SLOTS,
                u0.tree().len() == hotbar + 1,
                hotbar == world + 1,
                world == old(self).tree().len(),
                1 <= old(self).tree().len() < 500,
                self.tree().len() == hotbar + 1 + i,
                grew_from(*self, u0),
                grew_from(u0, *old(self)),
                u0.tree().parents()[world as int] == Some(0usize),
                u0.tree().kinds()[world as int] is Container,
                u0.tree().visibility()[world as int],
                u0.tree().parents()[hotbar as int] == Some(world),
                slots.len() == i,
                forall|j: int| 0 <= j < i ==> #[trigger] slots@[j] == hotbar + 1 + j,
                forall|j: int| 0 <= j < i ==> self.tree().parents()[#[trigger] slots@[j] as int] == Some(hotbar),
            decreases HOTBAR_SLOTS - i,
        {
            let slot = self.create_button(hotbar);
            slots.push(slot);
            i += 1;
        }
        (world, hotbar, slots)
    }

    /// Builds every screen of the menu under the root of an empty tree:
    /// the main menu, game options, system options, keybinds, the world's
    /// hotbar and the title screen, each a child of the root; names them as
    /// the screens' nodes and the V-sync checkbox and frame-rate slider as
    /// the settings' controls; and shows only the current screen's node.
    /// The whole menu is left to be drawn anew.
    /// The checkbox and slider show the settings being edited.
    pub fn build_menu(&mut self) -> (r: MenuNodes)
        requires
            old(self).wf(),
            old(self).tree().len() == 1,
        ensures
            final(self).wf(),
            final(self).state() == old(self).state(),
            final(self).pending_spec() == old(self).pending_spec(),
            final(self).hovered() == old(self).hovered(),
            final(self).dragging() == old(self).dragging(),
            final(self).needs_full_redraw(),
            final(self).redraw_list() == old(self).redraw_list(),
            ({
                let k = final(self).tree().kinds();
                let p = final(self).tree().parents();
                let v = final(self).tree().visibility();
                let screens = seq![r.main, r.game, r.system, r.keybinds, r.world, r.title];
                &&& screens.no_duplicates()
                &&& forall|i: int| 0 <= i < 6 ==> 0 < #[trigger] screens[i] < k.len() && p[screens[i] as int] == Some(0usize)
                &&& final(self).container_spec(MenuState::Main) == r.main
                &&& final(self).container_spec(MenuState::GameOptions) == r.game
                &&& final(self).container_spec(MenuState::SystemOptions) == r.system
                &&& final(self).container_spec(MenuState::Keybinds) == r.keybinds
                &&& final(self).container_spec(MenuState::World) == r.world
                &&& final(self).container_spec(MenuState::Title) == r.title
                &&& forall|st: MenuState| #[trigger] v[final(self).container_spec(st) as int] == (st == old(self).state())
                &&& label_text(k, r.main_heading as int) == Some("Main Menu"@)
                &&& action_button(k, r.resume.0 as int, UiAction::CloseMenu)
                &&& label_text(k, r.resume.1 as int) == Some("Resume"@)
                &&& action_button(k, r.open_game.0 as int, UiAction::OpenGameOptions)
                &&& label_text(k, r.open_game.1 as int) == Some("Game Options"@)
                &&& action_button(k, r.open_system.0 as int, UiAction::OpenSystemOptions)
                &&& label_text(k, r.open_system.1 as int) == Some("System Options"@)
                &&& action_button(k, r.open_keybinds.0 as int, UiAction::OpenKeybinds)
                &&& label_text(k, r.open_keybinds.1 as int) == Some("Keybinds"@)
                &&& action_button(k, r.quit.0 as int, UiAction::ExitApp)
                &&& label_text(k, r.quit.1 as int) == Some("Quit"@)
                &&& label_text(k, r.game_heading as int) == Some("Game Options"@)
                &&& action_button(k, r.game_back.0 as int, UiAction::BackToMain)
                &&& label_text(k, r.game_back.1 as int) == Some("Back"@)
                &&& label_text(k, r.system_heading as int) == Some("System Options"@)
                &&& label_text(k, r.vsync_label as int) == Some("V-Sync"@)
                &&& checkbox_at(k, r.vsync as int) matches Some(c) && c.selected == old(self).pending_spec().vsync
                    && c.has_hover_color && c.interaction.on_release == Some(UiAction::ToggleVsync)
                &&& label_text(k, r.fps_label as int) == Some("Framerate"@)
                &&& slider_at_index(k, r.fps as int) matches Some(sl) && sl.min_value == 60 && sl.max_value == 999
                    && sl.step_size == 8 && sl.value == snap_spec(old(self).pending_spec().fps_cap as int, 60, 999, 8)
                &&& final(self).vsync_checkbox() == r.vsync
                &&& final(self).fps_slider() == r.fps
                &&& action_button(k, r.accept.0 as int, UiAction::ApplySettings)
                &&& label_text(k, r.accept.1 as int) == Some("Accept"@)
                &&& action_button(k, r.system_back.0 as int, UiAction::BackToMain)
                &&& label_text(k, r.system_back.1 as int) == Some("Back"@)
                &&& label_text(k, r.keybinds_heading as int) == Some("Keybinds"@)
                &&& action_button(k, r.keybinds_back.0 as int, UiAction::BackToMain)
                &&& label_text(k, r.keybinds_back.1 as int) == Some("Back"@)
                &&& k[r.world as int] is Container
                &&& p[r.hotbar as int] == Some(r.world)
                &&& r.slots.len() == HOTBAR_SLOTS
                &&& forall|i: int| 0 <= i < HOTBAR_SLOTS ==> p[#[trigger] r.slots@[i] as int] == Some(r.hotbar)
                &&& label_text(k, r.title_heading as int) == Some("Playground"@)
                &&& action_button(k, r.start.0 as int, UiAction::CloseMenu)
                &&& label_text(k, r.start.1 as int) == Some("Start"@)
                &&& action_button(k, r.title_quit.0 as int, UiAction::ExitApp)
                &&& label_text(k, r.title_quit.1 as int) == Some("Quit"@)
            }),
    {
        proof {
            reveal_strlit("Game Options");
            reveal_strlit("Keybinds");
            reveal_strlit("Playground");
            reveal_strlit("Start");
            reveal_strlit("Quit");
        }
        let m = self.build_main_screen();
        let g = self.build_back_screen("Game Options");
        let sy = self.build_system_screen();
        let kb = self.build_back_screen("Keybinds");
        let w = self.build_world_screen();
        let title = self.add_panel(0);
        let title_heading = self.add_label(title, "Playground");
        let start = self.add_button(title, UiAction::CloseMenu, "Start");
        let title_quit = self.add_button(title, UiAction::ExitApp, "Quit");
        let ghost built = *self;

        let _ = self.set_visible(m.0, false);
        let _ = self.set_visible(g.0, false);
        let _ = self.set_visible(sy.0, false);
        let _ = self.set_visible(kb.0, false);
        let _ = self.set_visible(title, false);
        let ghost hidden = *self;
        self.set_screen_containers(m.0, g.0, sy.0, kb.0, w.0, title);
        self.set_settings_controls(sy.4, sy.7);
        self.restore_visibility();
        proof {
            self.lemma_wf_facts();
            assert(hidden.tree().kinds() == built.tree().kinds());
            assert(self.tree().kinds() == built.tree().kinds());
            assert(self.tree().parents() == built.tree().parents());
            assert(built.tree().visibility()[w.0 as int]);
            let v = self.tree().visibility();
            assert forall|st: MenuState| #[trigger] v[self.container_spec(st) as int] == (st == old(self).state()) by {
                match st {
                    MenuState::World => {},
                    MenuState::Title => {},
                    MenuState::Main => {},
                    MenuState::GameOptions => {},
                    MenuState::SystemOptions => {},
                    MenuState::Keybinds => {},
                }
            }
        }
        MenuNodes {
            main: m.0,
            main_heading: m.1,
            resume: m.2,
            open_game: m.3,
            open_system: m.4,
            open_keybinds: m.5,
            quit: m.6,
            game: g.0,
            game_heading: g.1,
            game_back: g.2,
            system: sy.0,
            system_heading: sy.1,
            vsync_row: sy.2,
            vsync_label: sy.3,
            vsync: sy.4,
            fps_row: sy.5,
            fps_label: sy.6,
            fps: sy.7,
            accept: sy.8,
            system_back: sy.9,
            keybinds: kb.0,
            keybinds_heading: kb.1,
            keybinds_back: kb.2,
            world: w.0,
            hotbar: w.1,
            slots: w.2,
            title,
            title_heading,
            start,
            title_quit,
        }
    }
}

} // verus!
