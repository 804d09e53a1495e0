use lis::ui::{on_key, InputMode, UiAction, UiKey, UiState};

#[test]
fn ui_navigation_moves_within_the_list() {
    let mut st = UiState::new(3);
    assert_eq!(on_key(&mut st, UiKey::Up), UiAction::Nothing);
    assert_eq!(st.selected_cluster, Some(0));
    on_key(&mut st, UiKey::Up);
    assert_eq!(st.selected_cluster, Some(0));
    on_key(&mut st, UiKey::Down);
    on_key(&mut st, UiKey::Down);
    on_key(&mut st, UiKey::Down);
    assert_eq!(st.selected_cluster, Some(2));
    let mut empty = UiState::new(0);
    on_key(&mut empty, UiKey::Down);
    assert_eq!(empty.selected_cluster, None);
    assert_eq!(on_key(&mut st, UiKey::Char('q')), UiAction::Quit);
}

#[test]
fn ui_typing_a_name_asks_for_a_cluster() {
    let mut st = UiState::new(0);
    assert_eq!(on_key(&mut st, UiKey::Char('c')), UiAction::Nothing);
    assert_eq!(st.input_mode, InputMode::Editing);
    assert_eq!(st.message.as_deref(), Some("Enter cluster name:"));
    for c in "  demoo".chars() {
        on_key(&mut st, UiKey::Char(c));
    }
    on_key(&mut st, UiKey::Backspace);
    on_key(&mut st, UiKey::Char(' '));
    assert_eq!(st.input_buffer, "  demo ");
    let a = on_key(&mut st, UiKey::Enter);
    assert_eq!(a, UiAction::CreateCluster("demo".to_string()));
    assert_eq!(st.input_mode, InputMode::Normal);
    assert_eq!(st.input_buffer, "");
}

#[test]
fn ui_blank_name_or_escape_creates_nothing() {
    let mut st = UiState::new(1);
    on_key(&mut st, UiKey::Char('c'));
    on_key(&mut st, UiKey::Char(' '));
    assert_eq!(on_key(&mut st, UiKey::Enter), UiAction::Nothing);
    assert_eq!(st.input_mode, InputMode::Normal);
    on_key(&mut st, UiKey::Char('c'));
    on_key(&mut st, UiKey::Char('x'));
    assert_eq!(on_key(&mut st, UiKey::Esc), UiAction::Nothing);
    assert_eq!(st.input_mode, InputMode::Normal);
    assert_eq!(st.message, None);
    assert_eq!(st.input_buffer, "");
}
