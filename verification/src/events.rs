use vstd::prelude::*;

use crate::app::{
    clamp_selection, is_identity, is_ranking, last_line, next_selection, picker_scores,
    previous_selection, search_applied, App, LogViewer, Screen,
};
use crate::search::SearchState;
use crate::text::{pop_char, push_char, push_str};

verus! {

broadcast use vstd::string::group_string_axioms;

/// A key as the application tells keys apart.
#[derive(Debug, Clone, Copy, PartialEq, Eq, Structural)]
pub enum Key {
    Char(char),
    Enter,
    Esc,
    Backspace,
    Up,
    Down,
    Other,
}

/// A key press, with whether Control was held.
#[derive(Debug, Clone, Copy, PartialEq, Eq, Structural)]
pub struct KeyInput {
    pub key: Key,
    pub ctrl: bool,
}

/// What the terminal reported.
#[derive(Debug, Clone, Copy, PartialEq, Eq, Structural)]
pub enum InputEvent {
    /// A key went down.
    Press(KeyInput),
    /// A key release or repeat, a mouse event, a resize, ...
    Other,
}

/// What a key asks the application to do.
#[derive(Debug, Clone, Copy, PartialEq, Eq, Structural)]
pub enum Command {
    Quit,
    NextLog,
    PreviousLog,
    OpenSelected,
    OpenSearch,
    Reload,
    CloseViewer,
    BackToPicker,
    ScrollDown(usize),
    ScrollUp(usize),
    ScrollTop,
    ScrollBottom,
    ToggleLive,
    NextMatch,
    PreviousMatch,
    Save,
    CancelSearch,
    ConfirmSearch,
    DeleteChar,
    TypeChar(char),
    Ignore,
}

/// What the caller must do after a key: go on, stop, or do outside work
/// (open the selected log's stream, save the viewer's buffer) and go on.
#[derive(Debug, Clone, Copy, PartialEq, Eq, Structural)]
pub enum Action {
    Continue,
    Quit,
    OpenSelected,
    SaveBuffer,
}

/// The key bindings of each screen.
pub open spec fn command_spec(screen: Screen, has_viewer: bool, input: KeyInput) -> Command {
    match screen {
        Screen::Picker => match input.key {
            Key::Char('q') | Key::Char('Q') => Command::Quit,
            Key::Char('j') | Key::Down => Command::NextLog,
            Key::Char('k') | Key::Up => Command::PreviousLog,
            Key::Enter => Command::OpenSelected,
            Key::Char('/') => Command::OpenSearch,
            Key::Char('r') => Command::Reload,
            _ => Command::Ignore,
        },
        Screen::Viewer => if !has_viewer {
            Command::BackToPicker
        } else {
            match input.key {
                Key::Char('q') | Key::Char('Q') | Key::Esc => Command::CloseViewer,
                Key::Char('j') | Key::Down => Command::ScrollDown(1),
                Key::Char('k') | Key::Up => Command::ScrollUp(1),
                Key::Char('d') if input.ctrl => Command::ScrollDown(10),
                Key::Char('u') if input.ctrl => Command::ScrollUp(10),
                Key::Char('g') => Command::ScrollTop,
                Key::Char('G') => Command::ScrollBottom,
                Key::Char('l') | Key::Char(' ') => Command::ToggleLive,
                Key::Char('/') => Command::OpenSearch,
                Key::Char('n') => Command::NextMatch,
                Key::Char('N') => Command::PreviousMatch,
                Key::Char('s') => Command::Save,
                _ => Command::Ignore,
            }
        },
        Screen::Search | Screen::PickerSearch => match input.key {
            Key::Esc => Command::CancelSearch,
            Key::Enter => Command::ConfirmSearch,
            Key::Backspace => Command::DeleteChar,
            Key::Char(c) => Command::TypeChar(c),
            _ => Command::Ignore,
        },
    }
}

/// The command a key press stands for on the current screen.
pub fn command_for(screen: Screen, has_viewer: bool, input: KeyInput) -> (r: Command)
    ensures
        r == command_spec(screen, has_viewer, input),
{
    match screen {
        Screen::Picker => match input.key {
            Key::Char('q') | Key::Char('Q') => Command::Quit,
            Key::Char('j') | Key::Down => Command::NextLog,
            Key::Char('k') | Key::Up => Command::PreviousLog,
            Key::Enter => Command::OpenSelected,
            Key::Char('/') => Command::OpenSearch,
            Key::Char('r') => Command::Reload,
            _ => Command::Ignore,
        },
        Screen::Viewer => if !has_viewer {
            Command::BackToPicker
        } else {
            match input.key {
                Key::Char('q') | Key::Char('Q') | Key::Esc => Command::CloseViewer,
                Key::Char('j') | Key::Down => Command::ScrollDown(1),
                Key::Char('k') | Key::Up => Command::ScrollUp(1),
                Key::Char('d') if input.ctrl => Command::ScrollDown(10),
                Key::Char('u') if input.ctrl => Command::ScrollUp(10),
                Key::Char('g') => Command::ScrollTop,
                Key::Char('G') => Command::ScrollBottom,
                Key::Char('l') | Key::Char(' ') => Command::ToggleLive,
                Key::Char('/') => Command::OpenSearch,
                Key::Char('n') => Command::NextMatch,
                Key::Char('N') => Command::PreviousMatch,
                Key::Char('s') => Command::Save,
                _ => Command::Ignore,
            }
        },
        Screen::Search | Screen::PickerSearch => match input.key {
            Key::Esc => Command::CancelSearch,
            Key::Enter => Command::ConfirmSearch,
            Key::Backspace => Command::DeleteChar,
            Key::Char(c) => Command::TypeChar(c),
            _ => Command::Ignore,
        },
    }
}

/// The action the caller takes after a command.
pub open spec fn action_of(cmd: Command) -> Action {
    match cmd {
        Command::Quit => Action::Quit,
        Command::OpenSelected => Action::OpenSelected,
        Command::Save => Action::SaveBuffer,
        _ => Action::Continue,
    }
}


/// `b` is `a` apart from its viewer.
pub open spec fn same_but_viewer(a: &App, b: &App) -> bool {
    &&& b.same_sources(a)
    &&& b.same_picker(a)
    &&& b.screen == a.screen
    &&& b.message == a.message
    &&& b.loading == a.loading
}

/// `b` is `a`.
pub open spec fn unchanged(a: &App, b: &App) -> bool {
    same_but_viewer(a, b) && b.viewer == a.viewer
}

/// `w` is `v` with its view moved `n` lines down (no further than the last
/// line) and no longer live.
pub open spec fn scrolled_down(v: &LogViewer, w: &LogViewer, n: int) -> bool {
    &&& w.scroll as int == if v.scroll + n <= last_line(v.buffer@.len() as int) {
        v.scroll + n
    } else {
        last_line(v.buffer@.len() as int)
    }
    &&& !w.live
    &&& w.buffer == v.buffer
    &&& w.error == v.error
    &&& w.same_setup(v)
}

/// `w` is `v` with its view moved `n` lines up (no further than the first
/// line), no longer live when above the last line.
pub open spec fn scrolled_up(v: &LogViewer, w: &LogViewer, n: int) -> bool {
    &&& w.scroll as int == if v.scroll >= n {
        v.scroll - n
    } else {
        0
    }
    &&& w.live == (v.live && w.scroll >= last_line(v.buffer@.len() as int))
    &&& w.buffer == v.buffer
    &&& w.error == v.error
    &&& w.same_setup(v)
}

/// `w` is `v` with its view on the first line, no longer live.
pub open spec fn scrolled_top(v: &LogViewer, w: &LogViewer) -> bool {
    &&& w.scroll == 0
    &&& !w.live
    &&& w.buffer == v.buffer
    &&& w.error == v.error
    &&& w.same_setup(v)
}

/// `w` is `v` with its view on the last line.
pub open spec fn scrolled_bottom(v: &LogViewer, w: &LogViewer) -> bool {
    &&& w.scroll as int == last_line(v.buffer@.len() as int)
    &&& w.live == v.live
    &&& w.buffer == v.buffer
    &&& w.error == v.error
    &&& w.same_setup(v)
}

/// `w` is `v` with live following switched, on the last line when it
/// became live.
pub open spec fn toggled(v: &LogViewer, w: &LogViewer) -> bool {
    &&& w.live == !v.live
    &&& w.scroll as int == if w.live {
        last_line(v.buffer@.len() as int)
    } else {
        v.scroll as int
    }
    &&& w.buffer == v.buffer
    &&& w.error == v.error
    &&& w.same_setup(v)
}

/// `w` is `v` with its view on the line `hit` names, marked and no longer
/// live; unchanged when `hit` names none.
pub open spec fn moved_to(v: &LogViewer, w: &LogViewer, hit: Option<int>) -> bool {
    &&& match hit {
        Some(i) => {
            &&& w.scroll as int == i
            &&& w.search_cursor == Some(i as usize)
            &&& !w.live
        },
        None => {
            &&& w.scroll == v.scroll
            &&& w.search_cursor == v.search_cursor
            &&& w.live == v.live
        },
    }
    &&& w.buffer == v.buffer
    &&& w.error == v.error
    &&& w.search == v.search
    &&& w.source == v.source
    &&& w.receiver == v.receiver
    &&& w.max_lines == v.max_lines
}

/// A forward search of `v` cannot fail on its bounds.
pub open spec fn next_match_safe(v: &LogViewer) -> bool {
    v.search.compiles() ==> v.buffer@.len() > 0 && v.scroll < usize::MAX
}

/// A backward search of `v` cannot fail on its bounds.
pub open spec fn prev_match_safe(v: &LogViewer) -> bool {
    v.search.compiles() ==> v.buffer@.len() == 0 || v.scroll <= v.buffer@.len()
}

/// What a viewer command does to the open viewer.
pub open spec fn viewer_change(v: &LogViewer, w: &LogViewer, cmd: Command) -> bool {
    match cmd {
        Command::ScrollDown(n) => if v.scroll + n <= usize::MAX {
            scrolled_down(v, w, n as int)
        } else {
            w == v
        },
        Command::ScrollUp(n) => scrolled_up(v, w, n as int),
        Command::ScrollTop => scrolled_top(v, w),
        Command::ScrollBottom => scrolled_bottom(v, w),
        Command::ToggleLive => toggled(v, w),
        Command::NextMatch => if next_match_safe(v) {
            moved_to(v, w, v.search.next_match_index(v.line_texts(), v.scroll as int))
        } else {
            w == v
        },
        Command::PreviousMatch => if prev_match_safe(v) {
            moved_to(v, w, v.search.prev_match_index(v.line_texts(), v.scroll as int))
        } else {
            w == v
        },
        _ => w == v,
    }
}

/// The viewer of `b` is the viewer of `a` changed by `cmd`, and the rest
/// of the app is unchanged; with no viewer nothing changes.
pub open spec fn viewer_step(a: &App, b: &App, cmd: Command) -> bool {
    &&& same_but_viewer(a, b)
    &&& match a.viewer {
        Some(v) => b.viewer matches Some(w) && viewer_change(&v, &w, cmd),
        None => b.viewer is None,
    }
}

/// The text of a search box after a key: a typed character appended, or
/// the last character removed.
pub open spec fn edited(text: Seq<char>, cmd: Command) -> Seq<char> {
    match cmd {
        Command::TypeChar(c) => text.push(c),
        _ => if text.len() > 0 {
            text.drop_last()
        } else {
            text
        },
    }
}

/// What editing the search box does: the picker's filter is edited and
/// applied again; the viewer's query is edited and searched from the
/// current line, when that search cannot fail on its bounds.
pub open spec fn search_edited(a: &App, b: &App, cmd: Command) -> bool {
    match a.screen {
        Screen::PickerSearch => {
            let filter = edited(a.picker_filter@, cmd);
            &&& b.picker_filter@ == filter
            &&& filter.len() == 0 ==> is_identity(b.filtered_indices@, a.logs@.len() as int)
            &&& filter.len() > 0 ==> is_ranking(picker_scores(a.logs@, filter), b.filtered_indices@)
            &&& b.selected_index as int == clamp_selection(
                a.selected_index as int,
                b.filtered_indices@.len() as int,
            )
            &&& b.viewer == a.viewer
            &&& b.same_sources(a)
            &&& b.screen == a.screen
            &&& b.message == a.message
            &&& b.loading == a.loading
        },
        Screen::Search => {
            &&& b.same_sources(a)
            &&& b.same_picker(a)
            &&& b.screen == a.screen
            &&& b.message == a.message
            &&& b.loading == a.loading
            &&& match a.viewer {
                Some(v) => b.viewer matches Some(w) && {
                    let query = edited(v.search.query@, cmd);
                    let typed = SearchState { query: w.search.query, is_regex: v.search.is_regex };
                    &&& w.search.query@ == query
                    &&& if typed.compiles() ==> v.buffer@.len() > 0 && v.scroll < usize::MAX {
                        search_applied(&v, &w)
                    } else {
                        w.same_but_query(&v)
                    }
                },
                None => b.viewer is None,
            }
        },
        _ => unchanged(a, b),
    }
}

/// What a command does to the app.
pub open spec fn command_effect(a: &App, b: &App, cmd: Command) -> bool {
    match cmd {
        Command::Quit | Command::OpenSelected | Command::Save | Command::Ignore => unchanged(a, b),
        Command::NextLog => {
            &&& b.selected_index as int == if a.selected_index < usize::MAX {
                next_selection(a.selected_index as int, a.filtered_indices@.len() as int)
            } else {
                a.selected_index as int
            }
            &&& b.same_sources(a)
            &&& b.filtered_indices == a.filtered_indices
            &&& b.picker_filter == a.picker_filter
            &&& b.screen == a.screen
            &&& b.viewer == a.viewer
            &&& b.message == a.message
            &&& b.loading == a.loading
        },
        Command::PreviousLog => {
            &&& b.selected_index as int == previous_selection(
                a.selected_index as int,
                a.filtered_indices@.len() as int,
            )
            &&& b.same_sources(a)
            &&& b.filtered_indices == a.filtered_indices
            &&& b.picker_filter == a.picker_filter
            &&& b.screen == a.screen
            &&& b.viewer == a.viewer
            &&& b.message == a.message
            &&& b.loading == a.loading
        },
        Command::OpenSearch => {
            &&& b.screen == match a.screen {
                Screen::Picker => Screen::PickerSearch,
                Screen::Viewer => Screen::Search,
                s => s,
            }
            &&& b.same_sources(a)
            &&& b.same_picker(a)
            &&& b.viewer == a.viewer
            &&& b.message == a.message
            &&& b.loading == a.loading
        },
        Command::Reload => {
            &&& b.loading
            &&& b.same_sources(a)
            &&& b.same_picker(a)
            &&& b.screen == a.screen
            &&& b.viewer == a.viewer
            &&& b.message == a.message
        },
        Command::CloseViewer => {
            &&& b.viewer is None
            &&& b.screen == Screen::Picker
            &&& b.message is None
            &&& b.same_sources(a)
            &&& b.same_picker(a)
            &&& b.loading == a.loading
        },
        Command::BackToPicker => {
            &&& b.screen == Screen::Picker
            &&& b.same_sources(a)
            &&& b.same_picker(a)
            &&& b.viewer == a.viewer
            &&& b.message == a.message
            &&& b.loading == a.loading
        },
        Command::ScrollDown(_) | Command::ScrollUp(_) | Command::ScrollTop | Command::ScrollBottom
        | Command::ToggleLive | Command::NextMatch | Command::PreviousMatch => viewer_step(a, b, cmd),
        Command::CancelSearch => {
            &&& b.screen == match a.screen {
                Screen::PickerSearch => Screen::Picker,
                Screen::Search => Screen::Viewer,
                s => s,
            }
            &&& match a.viewer {
                None => b.viewer is None,
                Some(v) => b.viewer matches Some(w) && {
                    &&& w.search.query@.len() == 0
                    &&& w.search.is_regex
                    &&& w.search_cursor is None
                    &&& w.buffer == v.buffer
                    &&& w.scroll == v.scroll
                    &&& w.live == v.live
                    &&& w.error == v.error
                    &&& w.source == v.source
                    &&& w.receiver == v.receiver
                    &&& w.max_lines == v.max_lines
                },
            }
            &&& b.same_sources(a)
            &&& b.same_picker(a)
            &&& b.message == a.message
            &&& b.loading == a.loading
        },
        Command::ConfirmSearch => {
            &&& b.screen == match a.screen {
                Screen::PickerSearch => Screen::Picker,
                Screen::Search => Screen::Viewer,
                s => s,
            }
            &&& b.same_sources(a)
            &&& b.same_picker(a)
            &&& b.viewer == a.viewer
            &&& b.message == a.message
            &&& b.loading == a.loading
        },
        Command::DeleteChar | Command::TypeChar(_) => search_edited(a, b, cmd),
    }
}

/// Carries out `cmd` on the app (see [`command_effect`]); a step that
/// would overflow the selection or the view, or search the viewer past
/// its bounds, is skipped.
pub fn apply_command(app: &mut App, cmd: Command) -> (r: Action)
    ensures
        r == action_of(cmd),
        command_effect(old(app), final(app), cmd),
{
    match cmd {
        Command::Quit => Action::Quit,
        Command::OpenSelected => Action::OpenSelected,
        Command::Save => Action::SaveBuffer,
        Command::Ignore => Action::Continue,
        Command::NextLog => {
            if app.filtered_indices.len() == 0 || app.selected_index < usize::MAX {
                app.next_log();
            }
            Action::Continue
        },
        Command::PreviousLog => {
            app.previous_log();
            Action::Continue
        },
        Command::OpenSearch => {
            app.enter_search();
            Action::Continue
        },
        Command::Reload => {
            app.loading = true;
            Action::Continue
        },
        Command::CloseViewer => {
            app.close_viewer();
            Action::Continue
        },
        Command::BackToPicker => {
            app.screen = Screen::Picker;
            Action::Continue
        },
        Command::CancelSearch => {
            app.exit_search();
            Action::Continue
        },
        Command::ConfirmSearch => {
            app.confirm_search();
            Action::Continue
        },
        Command::ScrollDown(n) => {
            match app.viewer.take() {
                Some(mut v) => {
                    if v.scroll <= usize::MAX - n {
                        v.scroll_down(n);
                    }
                    app.viewer = Some(v);
                },
                None => {},
            }
            Action::Continue
        },
        Command::ScrollUp(n) => {
            match app.viewer.take() {
                Some(mut v) => {
                    v.scroll_up(n);
                    app.viewer = Some(v);
                },
                None => {},
            }
            Action::Continue
        },
        Command::ScrollTop => {
            match app.viewer.take() {
                Some(mut v) => {
                    v.scroll_to_top();
                    app.viewer = Some(v);
                },
                None => {},
            }
            Action::Continue
        },
        Command::ScrollBottom => {
            match app.viewer.take() {
                Some(mut v) => {
                    v.scroll_to_bottom();
                    app.viewer = Some(v);
                },
                None => {},
            }
            Action::Continue
        },
        Command::ToggleLive => {
            match app.viewer.take() {
                Some(mut v) => {
                    v.toggle_live();
                    app.viewer = Some(v);
                },
                None => {},
            }
            Action::Continue
        },
        Command::NextMatch => {
            match app.viewer.take() {
                Some(mut v) => {
                    let active = match v.search.compile() {
                        Some(_) => true,
                        None => false,
                    };
                    if !active || (v.buffer.len() > 0 && v.scroll < usize::MAX) {
                        v.next_search_result();
                    }
                    app.viewer = Some(v);
                },
                None => {},
            }
            Action::Continue
        },
        Command::PreviousMatch => {
            match app.viewer.take() {
                Some(mut v) => {
                    let active = match v.search.compile() {
                        Some(_) => true,
                        None => false,
                    };
                    if !active || v.buffer.len() == 0 || v.scroll <= v.buffer.len() {
                        v.prev_search_result();
                    }
                    app.viewer = Some(v);
                },
                None => {},
            }
            Action::Continue
        },
        Command::DeleteChar | Command::TypeChar(_) => {
            edit_search(app, cmd);
            Action::Continue
        },
    }
}

fn edit_search(app: &mut App, cmd: Command)
    requires
        cmd is DeleteChar || cmd is TypeChar,
    ensures
        search_edited(old(app), final(app), cmd),
{
    match app.current_filter_query_mut() {
        Some(query) => {
            match cmd {
                Command::TypeChar(c) => push_char(query, c),
                _ => {
                    pop_char(query);
                },
            }
        },
        None => {
            return;
        },
    }
    let safe = match &app.viewer {
        Some(v) => {
            let active = match v.search.compile() {
                Some(_) => true,
                None => false,
            };
            !active || (v.buffer.len() > 0 && v.scroll < usize::MAX)
        },
        None => true,
    };
    if app.screen == Screen::PickerSearch || safe {
        app.apply_current_filter();
    }
}

/// Handles one terminal event: a key press is looked up on the current
/// screen and carried out; anything else leaves the app as it is.
pub fn handle_event(app: &mut App, event: InputEvent) -> (r: Action)
    ensures
        match event {
            InputEvent::Press(input) => {
                let cmd = command_spec(old(app).screen, old(app).viewer is Some, input);
                &&& r == action_of(cmd)
                &&& command_effect(old(app), final(app), cmd)
            },
            InputEvent::Other => r == Action::Continue && unchanged(old(app), final(app)),
        },
{
    match event {
        InputEvent::Press(input) => {
            let has_viewer = match &app.viewer {
                Some(_) => true,
                None => false,
            };
            let cmd = command_for(app.screen, has_viewer, input);
            apply_command(app, cmd)
        },
        InputEvent::Other => Action::Continue,
    }
}

/// The status line after opening the selected log failed.
pub fn open_failed_message(error: &str) -> (r: String)
    ensures
        r@ == "Failed to open log: "@ + error@,
{
    let mut m = String::new();
    push_str(&mut m, "Failed to open log: ");
    push_str(&mut m, error);
    m
}

/// The status line after the buffer was saved to `path`.
pub fn saved_message(path: &str) -> (r: String)
    ensures
        r@ == "Saved to "@ + path@,
{
    let mut m = String::new();
    push_str(&mut m, "Saved to ");
    push_str(&mut m, path);
    m
}

} // verus!
