//! The decisions of the interactive screen: how each key press changes what
//! the screen shows and what it asks the program to do.

use vstd::prelude::*;
use vstd::string::*;

verus! {

/// Whether keys move through the cluster list or type a new cluster's name.
#[derive(Debug, Clone, Copy, PartialEq, Eq, Structural)]
pub enum InputMode {
    Normal,
    Editing,
}

/// The keys the interactive screen reacts to.
#[derive(Debug, Clone, Copy, PartialEq, Eq, Structural)]
pub enum UiKey {
    Char(char),
    Up,
    Down,
    Enter,
    Esc,
    Backspace,
    Other,
}

/// What the screen asks the program to do after a key press.
#[derive(Debug, PartialEq, Eq)]
pub enum UiAction {
    /// Nothing beyond redrawing.
    Nothing,
    /// Leave the interactive screen.
    Quit,
    /// Create a cluster of this name.
    CreateCluster(String),
}

/// What the interactive screen holds between key presses.
pub struct UiState {
    /// Where keys go.
    pub input_mode: InputMode,
    /// The highlighted cluster, by position in the list.
    pub selected_cluster: Option<usize>,
    /// How many clusters the list shows.
    pub cluster_count: usize,
    /// The name typed so far.
    pub input_buffer: String,
    /// The line shown under the list, if any.
    pub message: Option<String>,
}

/// Whether `c` has Unicode's White_Space property (the characters that
/// `char::is_whitespace` accepts).
pub open spec fn is_white_space(c: char) -> bool {
    let n = c as u32;
    ||| 0x09 <= n <= 0x0D
    ||| n == 0x20
    ||| n == 0x85
    ||| n == 0xA0
    ||| n == 0x1680
    ||| 0x2000 <= n <= 0x200A
    ||| n == 0x2028
    ||| n == 0x2029
    ||| n == 0x202F
    ||| n == 0x205F
    ||| n == 0x3000
}

/// The text without its leading whitespace.
pub open spec fn trimmed_start(s: Seq<char>) -> Seq<char>
    decreases s.len(),
{
    if s.len() > 0 && is_white_space(s[0]) {
        trimmed_start(s.drop_first())
    } else {
        s
    }
}

/// The text without its trailing whitespace.
pub open spec fn trimmed_end(s: Seq<char>) -> Seq<char>
    decreases s.len(),
{
    if s.len() > 0 && is_white_space(s.last()) {
        trimmed_end(s.drop_last())
    } else {
        s
    }
}

/// The text without its leading and trailing whitespace.
pub open spec fn trimmed(s: Seq<char>) -> Seq<char> {
    trimmed_end(trimmed_start(s))
}

/// `str::trim`: the text without leading and trailing whitespace, whitespace
/// being the characters with Unicode's White_Space property.
#[verifier::external_body]
fn trim_text(s: &String) -> (r: String)
    ensures
        r@ == trimmed(s@),
{
    s.trim().to_string()
}

/// `String::push`: appends the character.
#[verifier::external_body]
fn push_char(s: &mut String, c: char)
    ensures
        final(s)@ == old(s)@.push(c),
{
    s.push(c)
}

/// `String::pop`: removes the last character, if there is one.
#[verifier::external_body]
fn pop_char(s: &mut String)
    ensures
        final(s)@ == if old(s)@.len() > 0 {
            old(s)@.drop_last()
        } else {
            old(s)@
        },
{
    s.pop();
}

/// The selection after moving up: one place up, staying on the first; with
/// nothing selected, the first cluster if there is one.
pub open spec fn selection_up(selected: Option<usize>, count: usize) -> Option<usize> {
    match selected {
        Some(s) => if s > 0 {
            Some((s - 1) as usize)
        } else {
            Some(s)
        },
        None => if count > 0 {
            Some(0usize)
        } else {
            None
        },
    }
}

/// The selection after moving down: one place down, staying on the last;
/// with nothing selected, the first cluster if there is one.
pub open spec fn selection_down(selected: Option<usize>, count: usize) -> Option<usize> {
    match selected {
        Some(s) => if s + 1 < count {
            Some((s + 1) as usize)
        } else {
            Some(s)
        },
        None => if count > 0 {
            Some(0usize)
        } else {
            None
        },
    }
}

/// The prompt shown while a name is typed.
pub open spec fn name_prompt() -> Seq<char> {
    "Enter cluster name:"@
}

impl UiState {
    /// The screen as it starts: nothing selected, no name typed, no message.
    pub fn new(cluster_count: usize) -> (s: Self)
        ensures
            s.input_mode == InputMode::Normal,
            s.selected_cluster is None,
            s.cluster_count == cluster_count,
            s.input_buffer@ == Seq::<char>::empty(),
            s.message is None,
    {
        UiState {
            input_mode: InputMode::Normal,
            selected_cluster: None,
            cluster_count,
            input_buffer: String::new(),
            message: None,
        }
    }
}

/// Ends the typing of a name whose trimmed form is `name`: back to
/// navigation with the typed text cleared; a cluster of that name is asked
/// for unless it is empty.
pub fn finish_name(state: &mut UiState, name: String) -> (a: UiAction)
    ensures
        final(state).input_mode == InputMode::Normal,
        final(state).input_buffer@ == Seq::<char>::empty(),
        final(state).selected_cluster == old(state).selected_cluster,
        final(state).cluster_count == old(state).cluster_count,
        final(state).message == old(state).message,
        name@.len() > 0 ==> (a matches UiAction::CreateCluster(n) && n@ == name@),
        name@.len() == 0 ==> a == UiAction::Nothing,
{
    state.input_mode = InputMode::Normal;
    state.input_buffer = String::new();
    if name.as_str().unicode_len() > 0 {
        UiAction::CreateCluster(name)
    } else {
        UiAction::Nothing
    }
}

/// Handles a key press. While navigating: `q` quits, the arrows move the
/// selection, `c` starts typing a new cluster's name. While typing: Enter
/// ends the name (see `finish_name`), Esc abandons it, a character is added
/// and Backspace removes the last one. Other keys change nothing.
pub fn on_key(state: &mut UiState, key: UiKey) -> (a: UiAction)
    ensures
        final(state).cluster_count == old(state).cluster_count,
        old(state).input_mode == InputMode::Normal ==> match key {
            UiKey::Char(c) => if c == 'q' {
                &&& a == UiAction::Quit
                &&& *final(state) == *old(state)
            } else if c == 'c' {
                &&& a == UiAction::Nothing
                &&& final(state).input_mode == InputMode::Editing
                &&& final(state).input_buffer@ == Seq::<char>::empty()
                &&& final(state).message matches Some(m) && m@ == name_prompt()
                &&& final(state).selected_cluster == old(state).selected_cluster
            } else {
                a == UiAction::Nothing && *final(state) == *old(state)
            },
            UiKey::Up => {
                &&& a == UiAction::Nothing
                &&& final(state).selected_cluster == selection_up(old(state).selected_cluster, old(state).cluster_count)
                &&& final(state).input_mode == old(state).input_mode
                &&& final(state).input_buffer == old(state).input_buffer
                &&& final(state).message == old(state).message
            },
            UiKey::Down => {
                &&& a == UiAction::Nothing
                &&& final(state).selected_cluster == selection_down(old(state).selected_cluster, old(state).cluster_count)
                &&& final(state).input_mode == old(state).input_mode
                &&& final(state).input_buffer == old(state).input_buffer
                &&& final(state).message == old(state).message
            },
            _ => a == UiAction::Nothing && *final(state) == *old(state),
        },
        old(state).input_mode == InputMode::Editing ==> match key {
            UiKey::Enter => {
                &&& final(state).input_mode == InputMode::Normal
                &&& final(state).input_buffer@ == Seq::<char>::empty()
                &&& final(state).selected_cluster == old(state).selected_cluster
                &&& final(state).message == old(state).message
                &&& trimmed(old(state).input_buffer@).len() > 0 ==> (a matches UiAction::CreateCluster(n) && n@ == trimmed(
                    old(state).input_buffer@,
                ))
                &&& trimmed(old(state).input_buffer@).len() == 0 ==> a == UiAction::Nothing
            },
            UiKey::Esc => {
                &&& a == UiAction::Nothing
                &&& final(state).input_mode == InputMode::Normal
                &&& final(state).input_buffer@ == Seq::<char>::empty()
                &&& final(state).message is None
                &&& final(state).selected_cluster == old(state).selected_cluster
            },
            UiKey::Char(c) => {
                &&& a == UiAction::Nothing
                &&& final(state).input_buffer@ == old(state).input_buffer@.push(c)
                &&& final(state).input_mode == old(state).input_mode
                &&& final(state).selected_cluster == old(state).selected_cluster
                &&& final(state).message == old(state).message
            },
            UiKey::Backspace => {
                &&& a == UiAction::Nothing
                &&& final(state).input_buffer@ == if old(state).input_buffer@.len() > 0 {
                    old(state).input_buffer@.drop_last()
                } else {
                    old(state).input_buffer@
                }
                &&& final(state).input_mode == old(state).input_mode
                &&& final(state).selected_cluster == old(state).selected_cluster
                &&& final(state).message == old(state).message
            },
            _ => a == UiAction::Nothing && *final(state) == *old(state),
        },
{
    match state.input_mode {
        InputMode::Normal => match key {
            UiKey::Char(c) => {
                if c == 'q' {
                    UiAction::Quit
                } else if c == 'c' {
                    state.input_mode = InputMode::Editing;
                    state.input_buffer = String::new();
                    let prompt = String::from_str("Enter cluster name:");
                    state.message = Some(prompt);
                    UiAction::Nothing
                } else {
                    UiAction::Nothing
                }
            },
            UiKey::Up => {
                match state.selected_cluster {
                    Some(s) => {
                        if s > 0 {
                            state.selected_cluster = Some(s - 1);
                        }
                    },
                    None => {
                        if state.cluster_count > 0 {
                            state.selected_cluster = Some(0);
                        }
                    },
                }
                UiAction::Nothing
            },
            UiKey::Down => {
                match state.selected_cluster {
                    Some(s) => {
                        if state.cluster_count > 0 && s < state.cluster_count - 1 {
                            state.selected_cluster = Some(s + 1);
                        }
                    },
                    None => {
                        if state.cluster_count > 0 {
                            state.selected_cluster = Some(0);
                        }
                    },
                }
                UiAction::Nothing
            },
            _ => UiAction::Nothing,
        },
        InputMode::Editing => match key {
            UiKey::Enter => {
                let name = trim_text(&state.input_buffer);
                finish_name(state, name)
            },
            UiKey::Esc => {
                state.input_mode = InputMode::Normal;
                state.input_buffer = String::new();
                state.message = None;
                UiAction::Nothing
            },
            UiKey::Char(c) => {
                push_char(&mut state.input_buffer, c);
                UiAction::Nothing
            },
            UiKey::Backspace => {
                pop_char(&mut state.input_buffer);
                UiAction::Nothing
            },
            _ => UiAction::Nothing,
        },
    }
}

} // verus!
