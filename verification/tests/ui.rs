use blitz::ui::{
    Anchor, CheckboxColor, CheckboxNode, CursorRequest, InteractionCb, LabelNode, MenuState, PendingSettings,
    SliderNode, Ui, UiAction, UiError, UiNode, UiTree,
};

#[test]
fn pending_settings_default_to_vsync_at_sixty() {
    let p = PendingSettings::default();
    assert!(p.vsync);
    assert_eq!(p.fps_cap, 60);
}

#[test]
fn anchors_sit_at_halves_of_the_rect() {
    assert_eq!(Anchor::TopLeft.fractions_in_halves(), (0, 0));
    assert_eq!(Anchor::Center.fractions_in_halves(), (1, 1));
    assert_eq!(Anchor::BottomRight.fractions_in_halves(), (2, 2));
    assert_eq!(Anchor::Right.fractions_in_halves(), (2, 1));
    assert_eq!(Anchor::Bottom.fractions_in_halves(), (1, 2));
}

#[test]
fn interactions_default_to_nothing() {
    let i = InteractionCb::default();
    assert_eq!(i.on_release, None);
    assert_eq!(i.on_pressed, None);
}

#[test]
fn slider_clamps_and_snaps_to_steps() {
    let mut s = SliderNode::new();
    s.set_min_max(60, 999);
    assert_eq!(s.value, 60);
    s.step_size = 8;
    s.set_value(100);
    assert_eq!(s.value, 100);
    s.set_value(101);
    assert_eq!(s.value, 100);
    s.set_value(1000);
    assert_eq!(s.value, 996);
    s.set_value(3);
    assert_eq!(s.value, 60);
    s.set_min_max(200, 300);
    assert_eq!(s.value, 200);
    assert_eq!(s.display_width(), 3);
}

#[test]
fn labels_remember_their_longest_text() {
    let mut l = LabelNode::new(String::from("abc"));
    assert_eq!(l.max_len(), 3);
    assert!(!l.set_text(String::from("xy")));
    assert_eq!(l.max_len(), 3);
    assert_eq!(l.text(), "xy");
    assert!(l.set_text(String::from("héllo")));
    assert_eq!(l.max_len(), 5);
}

#[test]
fn checkbox_colour_follows_hover_then_tick() {
    let mut c = CheckboxNode::new();
    assert_eq!(c.display_color(), CheckboxColor::Unselected);
    c.selected = true;
    assert_eq!(c.display_color(), CheckboxColor::Selected);
    c.hovered = true;
    assert_eq!(c.display_color(), CheckboxColor::Selected);
    c.has_hover_color = true;
    assert_eq!(c.display_color(), CheckboxColor::Hover);
}

#[test]
fn children_are_appended_under_their_parent() {
    let mut t = UiTree::default();
    let a = t.add_child(UiNode::Panel, 0);
    let b = t.add_child(UiNode::Container, a);
    let c = t.add_child(UiNode::Panel, 0);
    assert_eq!((a, b, c), (1, 2, 3));
    assert_eq!(t.children_of(0), &vec![1, 3]);
    assert_eq!(t.children_of(a), &vec![2]);
    assert_eq!(t.parent(b), Some(a));
    assert_eq!(t.parent(0), None);
    assert!(t.is_visible(b));
    t.set_visible(b, false);
    assert!(!t.is_visible(b));
    assert_eq!(t.node_count(), 4);
}

struct Menu {
    ui: Ui,
    open_sys: usize,
    checkbox: usize,
    slider: usize,
    thumb: usize,
    accept: usize,
    start: usize,
}

fn build_menu() -> Menu {
    let mut ui = Ui::new();
    let main = ui.create_panel(0);
    let open_sys = ui.create_button(main);
    ui.set_on_release(open_sys, Some(UiAction::OpenSystemOptions)).unwrap();
    ui.set_hover_color(open_sys, true).unwrap();
    let sys = ui.create_panel(0);
    let checkbox = ui.create_checkbox(sys);
    ui.set_on_release(checkbox, Some(UiAction::ToggleVsync)).unwrap();
    let slider = ui.create_slider(sys);
    ui.configure_slider(slider, 60, 999, 8, 60).unwrap();
    let accept = ui.create_button(sys);
    ui.set_on_release(accept, Some(UiAction::ApplySettings)).unwrap();
    let world = ui.create_container(0);
    let title = ui.create_panel(0);
    let start = ui.create_button(title);
    ui.set_on_release(start, Some(UiAction::CloseMenu)).unwrap();
    ui.set_screen_containers(main, main, sys, main, world, title);
    ui.set_settings_controls(checkbox, slider);
    Menu { ui, open_sys, checkbox, slider, thumb: slider + 1, accept, start }
}

#[test]
fn releasing_over_start_hands_close_back() {
    let mut m = build_menu();
    assert!(m.ui.is_title_screen());
    let r = m.ui.handle_input(Some(m.start), false, false, true).unwrap();
    assert_eq!(r.action, Some(UiAction::CloseMenu));
    assert_eq!(m.ui.current(), MenuState::Title);
}

#[test]
fn the_menu_key_toggles_between_world_and_main_menu() {
    let mut m = build_menu();
    assert_eq!(m.ui.toggle_menu(), CursorRequest::Lock);
    assert_eq!(m.ui.current(), MenuState::World);
    assert!(!m.ui.menu_opened());
    // nothing is handled while the world shows
    let r = m.ui.handle_input(Some(m.start), false, false, true).unwrap();
    assert_eq!(r.action, None);
    assert_eq!(m.ui.toggle_menu(), CursorRequest::Free);
    assert_eq!(m.ui.current(), MenuState::Main);
}

#[test]
fn settings_round_trip_through_the_system_options() {
    let mut m = build_menu();
    m.ui.toggle_menu();
    m.ui.toggle_menu();
    // hovering a button with a hover colour swaps its colours and queues a redraw
    m.ui.mark_flushed();
    m.ui.handle_input(Some(m.open_sys), false, false, false).unwrap();
    match m.ui.tree_ref().node(m.open_sys) {
        UiNode::Button(b) => assert!(b.hover_shown),
        _ => panic!("not a button"),
    }
    assert_eq!(m.ui.take_dirty_nodes(), vec![m.open_sys]);
    // opening the system options shows the pending settings
    let r = m.ui.handle_input(Some(m.open_sys), false, false, true).unwrap();
    assert_eq!(r.relayout_slider, Some(m.slider));
    assert_eq!(m.ui.current(), MenuState::SystemOptions);
    match m.ui.tree_ref().node(m.open_sys) {
        UiNode::Button(b) => assert!(!b.hover_shown),
        _ => panic!("not a button"),
    }
    // untick V-sync
    m.ui.handle_input(Some(m.checkbox), false, false, true).unwrap();
    match m.ui.tree_ref().node(m.checkbox) {
        UiNode::Checkbox(c) => assert!(!c.selected),
        _ => panic!("not a checkbox"),
    }
    // drag the slider by its thumb
    let r = m.ui.handle_input(Some(m.thumb), true, true, false).unwrap();
    assert_eq!(r.drag_started, Some(m.slider));
    let r = m.ui.handle_input(Some(m.thumb), true, false, false).unwrap();
    assert_eq!(r.drag_slider, Some(m.slider));
    m.ui.drag_to(m.slider, 143).unwrap();
    assert_eq!(m.ui.slider(m.slider).unwrap().value, 140);
    let r = m.ui.handle_input(Some(m.thumb), false, false, false).unwrap();
    assert_eq!(r.drag_slider, None);
    // accept stages the values and goes back to the main menu
    let r = m.ui.handle_input(Some(m.accept), false, false, true).unwrap();
    assert_eq!(r.action, Some(UiAction::ApplySettings));
    assert_eq!(m.ui.pending(), PendingSettings { vsync: false, fps_cap: 140 });
    assert_eq!(m.ui.current(), MenuState::Main);
}

#[test]
fn accept_without_its_controls_is_an_error() {
    let mut ui = Ui::new();
    let title = ui.create_panel(0);
    let accept = ui.create_button(title);
    ui.set_on_release(accept, Some(UiAction::ApplySettings)).unwrap();
    let r = ui.handle_input(Some(accept), false, false, true);
    assert_eq!(r, Err(UiError::WrongKind(0)));
    assert_eq!(ui.set_on_release(99, None), Err(UiError::OutOfBounds(99)));
    assert_eq!(ui.set_on_release(title, None), Err(UiError::WrongKind(title)));
}

#[test]
fn a_longer_label_asks_for_a_full_redraw() {
    let mut ui = Ui::new();
    let l = ui.create_label(0);
    ui.mark_flushed();
    ui.update_label(l, String::from("")).unwrap();
    assert!(!ui.is_dirty());
    assert!(ui.has_dirty_nodes());
    ui.update_label(l, String::from("60")).unwrap();
    assert!(ui.is_dirty());
}

#[test]
fn the_built_menu_names_every_screen_and_shows_only_the_title() {
    let mut ui = Ui::new();
    let n = ui.build_menu();
    assert_eq!(ui.tree_ref().node_count(), 53);
    let screens = [
        (MenuState::Main, n.main),
        (MenuState::GameOptions, n.game),
        (MenuState::SystemOptions, n.system),
        (MenuState::Keybinds, n.keybinds),
        (MenuState::World, n.world),
        (MenuState::Title, n.title),
    ];
    for (state, idx) in screens {
        assert_eq!(ui.container_for(state), idx);
        assert_eq!(ui.tree_ref().parent(idx), Some(0));
        assert_eq!(ui.tree_ref().is_visible(idx), state == MenuState::Title);
    }
    assert_eq!((n.main, n.game, n.system, n.keybinds, n.world, n.title), (1, 13, 17, 31, 35, 47));
    assert_eq!(ui.current(), MenuState::Title);
    assert!(ui.is_dirty());
    assert!(!ui.has_dirty_nodes());
}

#[test]
fn rebuilding_the_menu_leaves_it_to_be_drawn_anew() {
    let mut ui = Ui::new();
    ui.build_menu();
    ui.draw_plan().unwrap();
    assert!(!ui.is_dirty());
    ui.reset_tree();
    ui.build_menu();
    assert!(ui.is_dirty());
    assert!(!ui.has_dirty_nodes());
}

fn release_of(ui: &Ui, idx: usize) -> Option<UiAction> {
    match ui.tree_ref().node(idx) {
        UiNode::Button(b) => b.interaction.on_release,
        UiNode::Checkbox(c) => c.interaction.on_release,
        _ => None,
    }
}

fn text_of(ui: &Ui, idx: usize) -> String {
    match ui.tree_ref().node(idx) {
        UiNode::Label(l) => l.text().to_string(),
        _ => panic!("node {idx} is not a label"),
    }
}

#[test]
fn the_built_menu_wires_each_button() {
    let mut ui = Ui::new();
    let n = ui.build_menu();
    let buttons = [
        (n.resume, UiAction::CloseMenu, "Resume"),
        (n.open_game, UiAction::OpenGameOptions, "Game Options"),
        (n.open_system, UiAction::OpenSystemOptions, "System Options"),
        (n.open_keybinds, UiAction::OpenKeybinds, "Keybinds"),
        (n.quit, UiAction::ExitApp, "Quit"),
        (n.game_back, UiAction::BackToMain, "Back"),
        (n.accept, UiAction::ApplySettings, "Accept"),
        (n.system_back, UiAction::BackToMain, "Back"),
        (n.keybinds_back, UiAction::BackToMain, "Back"),
        (n.start, UiAction::CloseMenu, "Start"),
        (n.title_quit, UiAction::ExitApp, "Quit"),
    ];
    for ((button, label), action, text) in buttons {
        assert_eq!(release_of(&ui, button), Some(action));
        assert_eq!(text_of(&ui, label), text);
        assert_eq!(ui.tree_ref().parent(label), Some(button));
    }
    assert_eq!(text_of(&ui, n.main_heading), "Main Menu");
    assert_eq!(text_of(&ui, n.title_heading), "Playground");
    assert_eq!(text_of(&ui, n.vsync_label), "V-Sync");
    assert_eq!(text_of(&ui, n.fps_label), "Framerate");
    assert_eq!(n.slots.len(), 10);
    for slot in &n.slots {
        assert_eq!(ui.tree_ref().parent(*slot), Some(n.hotbar));
        assert_eq!(release_of(&ui, *slot), None);
    }
}

#[test]
fn the_built_menu_shows_the_pending_settings() {
    let mut ui = Ui::new();
    let n = ui.build_menu();
    match ui.tree_ref().node(n.vsync) {
        UiNode::Checkbox(c) => {
            assert!(c.selected);
            assert_eq!(c.interaction.on_release, Some(UiAction::ToggleVsync));
        }
        _ => panic!("no checkbox"),
    }
    let sl = ui.slider(n.fps).unwrap();
    assert_eq!((sl.min_value, sl.max_value, sl.step_size, sl.value), (60, 999, 8, 60));
    assert_eq!(sl.get_thumb(), Some(n.fps + 1));
    assert_eq!(sl.get_label(), Some(n.fps + 2));
}

#[test]
fn an_empty_menu_plans_no_quads() {
    let mut ui = Ui::new();
    assert!(ui.is_dirty());
    assert_eq!(ui.draw_plan(), Some(Vec::new()));
    assert!(!ui.is_dirty());
    assert!(!ui.has_dirty_nodes());
}

#[test]
fn the_title_screen_is_drawn_parents_first() {
    let mut ui = Ui::new();
    let n = ui.build_menu();
    let plan = ui.draw_plan().unwrap();
    // "Playground" reserves 10 quads, "Quit" 4 and "Start" 5.
    assert_eq!(
        plan,
        vec![
            (n.title, 0),
            (n.title_heading, 1),
            (n.start.0, 11),
            (n.title_quit.0, 12),
            (n.title_quit.1, 13),
            (n.start.1, 17),
        ]
    );
    assert!(!ui.is_dirty());
}

#[test]
fn the_world_is_drawn_after_the_crosshair() {
    let mut ui = Ui::new();
    let n = ui.build_menu();
    assert_eq!(ui.toggle_menu(), CursorRequest::Lock);
    assert_eq!(ui.current(), MenuState::World);
    let plan = ui.draw_plan().unwrap();
    let mut expected = vec![(n.world, 2), (n.hotbar, 2)];
    for (i, slot) in n.slots.iter().enumerate() {
        expected.push((*slot, 3 + i));
    }
    assert_eq!(plan, expected);
}

#[test]
fn hit_testing_prefers_earlier_children_and_descendants() {
    let mut ui = Ui::new();
    let panel = ui.create_panel(0);
    let first = ui.create_button(panel);
    let label = ui.create_label(first);
    let second = ui.create_button(panel);
    let n = ui.tree_ref().node_count();
    let all = vec![true; n];
    assert_eq!(ui.tree_ref().hit_test(&all, 0), Some(first));
    let mut outside_first = all.clone();
    outside_first[first] = false;
    assert_eq!(ui.tree_ref().hit_test(&outside_first, 0), Some(second));
    let mut only_panel = vec![false; n];
    only_panel[0] = true;
    only_panel[panel] = true;
    assert_eq!(ui.tree_ref().hit_test(&only_panel, 0), Some(panel));
    let mut only_label = vec![false; n];
    only_label[label] = true;
    assert_eq!(ui.tree_ref().hit_test(&only_label, label), None);
    ui.set_visible(first, false).unwrap();
    assert_eq!(ui.tree_ref().hit_test(&all, 0), Some(second));
    ui.set_visible(panel, false).unwrap();
    assert_eq!(ui.tree_ref().hit_test(&all, 0), None);
}
