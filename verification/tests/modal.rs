use codeatlas::launcher::modal::{draw, map_key, Key, Modal, Press, Role, Step};

fn modal_over(entries: &[&str]) -> Modal {
    Modal::new(String::from("/repos"), entries.iter().map(|s| s.to_string()).collect(), None)
}

fn frame(modal: &Modal) -> String {
    draw(modal, 9).iter().map(|l| l.text.clone()).collect::<Vec<_>>().join("\n")
}

/// A step as text, so tests can compare steps.
fn said(step: Step) -> String {
    match step {
        Step::Stay => "stay".to_string(),
        Step::List(p) => format!("list {p}"),
        Step::Choose(p) => format!("choose {p}"),
        Step::Quit => "quit".to_string(),
    }
}

fn confirm_choice(modal: &mut Modal) -> String {
    assert_eq!(said(modal.handle(Key::Enter)), "stay", "no confirm frame");
    said(modal.handle(Key::Enter))
}

#[test]
fn the_pinned_first_row_chooses_here_through_the_confirm() {
    let mut modal = modal_over(&["alpha", "beta"]);
    assert_eq!(confirm_choice(&mut modal), "choose /repos");
}

#[test]
fn the_up_row_is_visible_and_enter_on_it_climbs_instead_of_choosing() {
    let mut modal = modal_over(&["alpha"]);
    assert!(frame(&modal).contains("../ (up)"), "no visible way up");
    modal.handle(Key::Down);
    assert_eq!(said(modal.handle(Key::Enter)), "list /");
}

#[test]
fn navigation_clamps_at_both_ends() {
    let mut modal = modal_over(&["alpha", "beta"]);
    modal.handle(Key::Up);
    assert_eq!(modal.cursor, 0);
    for _ in 0..5 {
        modal.handle(Key::Down);
    }
    assert_eq!(modal.cursor, 3, "cursor ran past the last row");
}

#[test]
fn enter_on_a_subdirectory_opens_it_instead_of_choosing_it() {
    let mut modal = modal_over(&["alpha", "beta"]);
    for _ in 0..3 {
        modal.handle(Key::Down);
    }
    assert_eq!(said(modal.handle(Key::Enter)), "list /repos/beta");
    assert!(modal.confirming.is_none());
}

#[test]
fn descending_and_climbing_ask_the_driver_for_listings() {
    let mut modal = modal_over(&["alpha"]);
    modal.handle(Key::Down);
    modal.handle(Key::Down);
    assert_eq!(said(modal.handle(Key::In)), "list /repos/alpha");
    modal.listed(String::from("/repos/alpha"), Vec::new());
    assert_eq!(said(modal.handle(Key::Out)), "list /repos");
}

#[test]
fn the_confirm_frame_states_open_code_loudly_and_o_flips_it_there() {
    let mut modal = modal_over(&[]);
    modal.handle(Key::Enter);
    assert!(frame(&modal).contains("OPEN CODE OFF"), "{}", frame(&modal));
    modal.handle(Key::ToggleOpenCode);
    assert!(frame(&modal).contains("OPEN CODE ON"));
    assert_eq!(said(modal.handle(Key::Enter)), "choose /repos");
    assert!(modal.open_code, "the flip did not survive the confirm");
}

#[test]
fn esc_on_the_confirm_frame_returns_to_the_list_unchosen() {
    let mut modal = modal_over(&["alpha"]);
    modal.handle(Key::Enter);
    assert!(modal.confirming.is_some());
    modal.handle(Key::Quit);
    assert!(modal.confirming.is_none(), "Esc did not back out");
    assert_eq!(said(modal.handle(Key::Quit)), "quit", "then quit quits");
}

#[test]
fn typing_mode_collects_a_path_and_lands_on_the_confirm_frame() {
    let mut modal = modal_over(&["alpha"]);
    modal.handle(Key::TypePath);
    for c in "x/y".chars() {
        modal.handle(Key::Char(c));
    }
    modal.handle(Key::Backspace);
    modal.handle(Key::Char('z'));
    assert_eq!(said(modal.handle(Key::Enter)), "stay");
    assert_eq!(modal.confirming.as_deref(), Some("/repos/x/z"));
}

#[test]
fn while_typing_letters_are_letters_not_bindings() {
    let mut modal = modal_over(&[]);
    modal.handle(Key::TypePath);
    modal.handle(Key::Char('q'));
    modal.handle(Key::Char('j'));
    assert!(modal.typing.as_deref() == Some("qj"), "bindings ate typed text");
}

#[test]
fn a_rejected_path_falls_back_to_the_list_with_an_honest_error() {
    let mut modal = modal_over(&[]);
    modal.handle(Key::Enter);
    modal.reject("/nope");
    assert!(modal.confirming.is_none());
    assert!(frame(&modal).contains("no directory at /nope"), "{}", frame(&modal));
}

#[test]
fn the_frame_carries_the_cursor_marker_and_the_keybind_footer() {
    let modal = modal_over(&["alpha", "beta"]);
    let text = frame(&modal);
    assert!(text.contains("▸ . (map this directory)"), "{text}");
    assert!(text.contains("alpha/"));
    assert!(text.contains("j/k move"), "footer missing: {text}");
    assert!(text.contains("Enter on . maps here"), "{text}");
    let cursor_role = draw(&modal, 9).iter().find(|l| l.text.contains(". (map this directory)")).map(|l| l.role);
    assert_eq!(cursor_role, Some(Role::Cursor));
}

#[test]
fn a_cooked_newline_is_enter_in_both_modes() {
    for typing in [false, true] {
        assert_eq!(map_key(Press::Char('\n'), true, false, typing), Some(Key::Enter));
        assert_eq!(map_key(Press::Char('\r'), true, false, typing), Some(Key::Enter));
    }
}

#[test]
fn only_presses_count_and_control_c_always_quits() {
    assert_eq!(map_key(Press::Char('j'), false, false, false), None);
    assert_eq!(map_key(Press::Char('c'), true, true, true), Some(Key::Quit));
    assert_eq!(map_key(Press::Char('j'), true, false, false), Some(Key::Down));
    assert_eq!(map_key(Press::Char('j'), true, false, true), Some(Key::Char('j')));
    assert_eq!(map_key(Press::Esc, true, false, true), Some(Key::TypePath));
    assert_eq!(map_key(Press::Other, true, false, false), None);
}
