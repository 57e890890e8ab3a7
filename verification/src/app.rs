use std::collections::VecDeque;

use fuzzy_matcher::skim::SkimMatcherV2;
use fuzzy_matcher::FuzzyMatcher;
use tokio::runtime::Handle;
use tokio::sync::mpsc::UnboundedReceiver;
use vstd::prelude::*;

use crate::config::Config;
use crate::discovery::{
    DiscoveryResult, LogSource, search_text_of, source_text,
};
use crate::ssh::SshSession;
use crate::search::SearchState;
use crate::text::{
    chars_of, decimal, has_prefix, push_char, push_decimal, push_str, starts_with, string_from,
    string_views,
};

verus! {

broadcast use {vstd::string::group_string_axioms, vstd::std_specs::vecdeque::group_vec_dequeue_axioms};

#[verifier::external_type_specification]
#[verifier::external_body]
#[verifier::reject_recursive_types(T)]
pub struct ExUnboundedReceiver<T>(UnboundedReceiver<T>);

#[verifier::external_type_specification]
#[verifier::external_body]
pub struct ExHandle(Handle);

/// Which part of the interface has the keyboard.
#[derive(Debug, Clone, Copy, PartialEq, Eq, Structural)]
pub enum Screen {
    Picker,
    Viewer,
    Search,
    PickerSearch,
}

/// An open log: the lines received so far (at most `max_lines` of them),
/// the line the view is on, and the search over the lines.
pub struct LogViewer {
    pub source: LogSource,
    pub buffer: VecDeque<String>,
    pub scroll: usize,
    pub live: bool,
    pub receiver: UnboundedReceiver<String>,
    pub max_lines: usize,
    pub search: SearchState,
    pub search_cursor: Option<usize>,
    pub error: Option<String>,
}

/// The state of a viewer's buffer as values: lines, current line, whether
/// the view follows new lines, and the last error the remote side printed.
pub struct BufferState {
    pub lines: Seq<String>,
    pub scroll: int,
    pub live: bool,
    pub error: Option<Seq<char>>,
}

/// The last index of a buffer of `len` lines (0 for an empty buffer).
pub open spec fn last_line(len: int) -> int {
    if len > 0 {
        len - 1
    } else {
        0
    }
}

/// The marker that the stream puts before a line the remote side printed
/// on its error output.
pub open spec fn stderr_marker() -> Seq<char> {
    "STDERR:"@
}

/// What receiving `line` does to a buffer that keeps `max_lines` lines: an
/// error line is recorded as the error; any other line is appended,
/// the oldest line dropped first when the buffer is full, and a live view
/// moves to the new last line.
pub open spec fn receive(b: BufferState, line: String, max_lines: int) -> BufferState {
    if has_prefix(line@, stderr_marker()) {
        BufferState {
            lines: b.lines,
            scroll: b.scroll,
            live: b.live,
            error: Some(line@.skip(stderr_marker().len() as int)),
        }
    } else {
        let full = b.lines.len() >= max_lines;
        let kept = if full && b.lines.len() > 0 {
            b.lines.drop_first()
        } else {
            b.lines
        };
        let lines = kept.push(line);
        let scroll = if b.live {
            last_line(lines.len() as int)
        } else if full && b.scroll > 0 {
            b.scroll - 1
        } else {
            b.scroll
        };
        BufferState { lines, scroll, live: b.live, error: b.error }
    }
}

/// Receiving each of `lines` in turn.
pub open spec fn receive_all(b: BufferState, lines: Seq<String>, max_lines: int) -> BufferState
    decreases lines.len(),
{
    if lines.len() == 0 {
        b
    } else {
        receive(receive_all(b, lines.drop_last(), max_lines), lines.last(), max_lines)
    }
}

impl LogViewer {
    /// The buffer state of this viewer.
    pub open spec fn state(&self) -> BufferState {
        BufferState {
            lines: self.buffer@,
            scroll: self.scroll as int,
            live: self.live,
            error: match self.error {
                Some(e) => Some(e@),
                None => None,
            },
        }
    }

    /// The text of the buffered lines.
    pub open spec fn line_texts(&self) -> Seq<Seq<char>> {
        string_views(self.buffer@)
    }

    /// Everything but the search query is as in `other`.
    pub open spec fn same_but_query(&self, other: &LogViewer) -> bool {
        &&& self.source == other.source
        &&& self.buffer == other.buffer
        &&& self.scroll == other.scroll
        &&& self.live == other.live
        &&& self.receiver == other.receiver
        &&& self.max_lines == other.max_lines
        &&& self.search.is_regex == other.search.is_regex
        &&& self.search_cursor == other.search_cursor
        &&& self.error == other.error
    }

    /// Everything but the buffer state and the stream's position is as in
    /// `other`.
    pub open spec fn same_setup_but_stream(&self, other: &LogViewer) -> bool {
        &&& self.source == other.source
        &&& self.max_lines == other.max_lines
        &&& self.search == other.search
        &&& self.search_cursor == other.search_cursor
    }

    /// Everything but the buffer state is as in `other`.
    pub open spec fn same_setup(&self, other: &LogViewer) -> bool {
        &&& self.source == other.source
        &&& self.receiver == other.receiver
        &&& self.max_lines == other.max_lines
        &&& self.search == other.search
        &&& self.search_cursor == other.search_cursor
    }

    pub fn new(source: LogSource, receiver: UnboundedReceiver<String>, max_lines: usize) -> (r: Self)
        ensures
            r.source == source,
            r.receiver == receiver,
            r.max_lines == max_lines,
            r.buffer@.len() == 0,
            r.scroll == 0,
            r.live,
            r.search.query@.len() == 0,
            r.search.is_regex,
            r.search_cursor is None,
            r.error is None,
    {
        LogViewer {
            source,
            buffer: VecDeque::with_capacity(max_lines),
            scroll: 0,
            live: true,
            receiver,
            max_lines,
            search: SearchState::default(),
            search_cursor: None,
            error: None,
        }
    }

    /// Takes one line from the stream (see [`receive`]).
    pub fn push_line(&mut self, line: String)
        ensures
            final(self).state() == receive(old(self).state(), line, old(self).max_lines as int),
            final(self).same_setup(old(self)),
    {
        let cs = chars_of(line.as_str());
        let marker = chars_of("STDERR:");
        if starts_with(cs.as_slice(), marker.as_slice()) {
            self.error = Some(string_from(cs.as_slice(), marker.len()));
            return;
        }
        let ghost b = self.state();
        if self.buffer.len() >= self.max_lines {
            self.buffer.pop_front();
            if self.scroll > 0 {
                self.scroll = self.scroll.saturating_sub(1);
            }
        }
        proof {
            if b.lines.len() > 0 && b.lines.len() >= self.max_lines {
                assert(self.buffer@ == b.lines.drop_first());
            }
        }
        self.buffer.push_back(line);
        if self.live {
            self.scroll_to_bottom();
        }
    }

    /// Moves the view `n` lines down, no further than the last line, and
    /// stops following new lines.
    pub fn scroll_down(&mut self, n: usize)
        requires
            old(self).scroll + n <= usize::MAX,
        ensures
            final(self).scroll as int == if old(self).scroll + n <= last_line(
                old(self).buffer@.len() as int,
            ) {
                old(self).scroll + n
            } else {
                last_line(old(self).buffer@.len() as int)
            },
            !final(self).live,
            final(self).buffer == old(self).buffer,
            final(self).error == old(self).error,
            final(self).same_setup(old(self)),
    {
        let max = self.buffer.len().saturating_sub(1);
        let next = self.scroll + n;
        self.scroll = if next < max {
            next
        } else {
            max
        };
        self.live = false;
    }

    /// Moves the view `n` lines up, no further than the first line; a view
    /// left above the last line stops following new lines.
    pub fn scroll_up(&mut self, n: usize)
        ensures
            final(self).scroll as int == if old(self).scroll >= n {
                old(self).scroll - n
            } else {
                0
            },
            final(self).live == (old(self).live && final(self).scroll >= last_line(
                old(self).buffer@.len() as int,
            )),
            final(self).buffer == old(self).buffer,
            final(self).error == old(self).error,
            final(self).same_setup(old(self)),
    {
        self.scroll = self.scroll.saturating_sub(n);
        if self.scroll < self.buffer.len().saturating_sub(1) {
            self.live = false;
        }
    }

    /// Moves the view to the last line.
    pub fn scroll_to_bottom(&mut self)
        ensures
            final(self).scroll as int == last_line(old(self).buffer@.len() as int),
            final(self).live == old(self).live,
            final(self).buffer == old(self).buffer,
            final(self).error == old(self).error,
            final(self).same_setup(old(self)),
    {
        self.scroll = self.buffer.len().saturating_sub(1);
    }

    /// Moves the view to the first line and stops following new lines.
    pub fn scroll_to_top(&mut self)
        ensures
            final(self).scroll == 0,
            !final(self).live,
            final(self).buffer == old(self).buffer,
            final(self).error == old(self).error,
            final(self).same_setup(old(self)),
    {
        self.scroll = 0;
        self.live = false;
    }

    /// Switches following new lines on or off; switching it on moves the
    /// view to the last line.
    pub fn toggle_live(&mut self)
        ensures
            final(self).live == !old(self).live,
            final(self).scroll as int == if final(self).live {
                last_line(old(self).buffer@.len() as int)
            } else {
                old(self).scroll as int
            },
            final(self).buffer == old(self).buffer,
            final(self).error == old(self).error,
            final(self).same_setup(old(self)),
    {
        self.live = !self.live;
        if self.live {
            self.scroll_to_bottom();
        }
    }

    /// Copies of the buffered lines, oldest first.
    pub fn buffer_lines(&self) -> (r: Vec<String>)
        ensures
            string_views(r@) == self.line_texts(),
    {
        let mut out: Vec<String> = Vec::new();
        let n = self.buffer.len();
        for i in 0..n
            invariant
                n == self.buffer@.len(),
                string_views(out@) == self.line_texts().take(i as int),
        {
            let ghost before = out@;
            out.push(self.buffer[i].clone());
            assert(string_views(out@) =~= string_views(before).push(self.buffer@[i as int]@));
            assert(self.line_texts().take(i + 1) =~= self.line_texts().take(i as int).push(
                self.buffer@[i as int]@,
            ));
        }
        assert(self.line_texts().take(n as int) == self.line_texts());
        out
    }

    /// The lines the search lets through, each with its index in the
    /// buffer.
    pub fn visible_lines(&self) -> (r: Vec<(usize, &String)>)
        ensures
            r@.len() == visible_indices(self.search, self.line_texts()).len(),
            forall|k: int|
                0 <= k < r@.len() ==> {
                    let i = visible_indices(self.search, self.line_texts())[k];
                    &&& (#[trigger] r@[k]).0 as int == i
                    &&& r@[k].1 == self.buffer@[i]
                },
    {
        let ghost ls = self.line_texts();
        let mut out: Vec<(usize, &String)> = Vec::new();
        let n = self.buffer.len();
        for i in 0..n
            invariant
                n == self.buffer@.len(),
                ls == self.line_texts(),
                out@.len() == visible_indices(self.search, ls.take(i as int)).len(),
                forall|k: int|
                    0 <= k < out@.len() ==> {
                        let j = visible_indices(self.search, ls.take(i as int))[k];
                        &&& (#[trigger] out@[k]).0 as int == j
                        &&& out@[k].1 == self.buffer@[j]
                    },
        {
            assert(ls.take(i + 1).drop_last() == ls.take(i as int));
            assert(ls.take(i + 1).last() == self.buffer@[i as int]@);
            let line = &self.buffer[i];
            if self.search.matches(line.as_str()) {
                out.push((i, line));
            }
        }
        assert(ls.take(n as int) == ls);
        out
    }

    /// Sets the search query; when it is active, moves the view to the
    /// first matching line after the current one, marks it, and stops
    /// following new lines.
    pub fn set_search(&mut self, query: String)
        requires
            (SearchState { query: query, is_regex: old(self).search.is_regex }).compiles()
                ==> old(self).buffer@.len() > 0 && old(self).scroll < usize::MAX,
        ensures
            final(self).search.query == query,
            search_applied(old(self), final(self)),
    {
        self.search.query = query;
        self.search_cursor = None;
        if !self.search.query.as_str().is_empty() {
            let lines = self.buffer_lines();
            assert(lines@.len() == string_views(lines@).len());
            assert(self.search == (SearchState { query: query, is_regex: old(self).search.is_regex }));
            match self.search.next_match(lines.as_slice(), self.scroll) {
                Some(idx) => {
                    self.scroll = idx;
                    self.search_cursor = Some(idx);
                    self.live = false;
                },
                None => {},
            }
        }
    }

    /// Moves the view to the next matching line after the current one,
    /// wrapping around, marks it and stops following new lines; nothing
    /// changes when the search is inactive or no line matches.
    pub fn next_search_result(&mut self)
        requires
            old(self).search.compiles() ==> old(self).buffer@.len() > 0 && old(self).scroll
                < usize::MAX,
        ensures
            match old(self).search.next_match_index(old(self).line_texts(), old(self).scroll as int) {
                Some(i) => {
                    &&& final(self).scroll as int == i
                    &&& final(self).search_cursor == Some(i as usize)
                    &&& !final(self).live
                },
                None => {
                    &&& final(self).scroll == old(self).scroll
                    &&& final(self).search_cursor == old(self).search_cursor
                    &&& final(self).live == old(self).live
                },
            },
            final(self).buffer == old(self).buffer,
            final(self).error == old(self).error,
            final(self).search == old(self).search,
            final(self).source == old(self).source,
            final(self).receiver == old(self).receiver,
            final(self).max_lines == old(self).max_lines,
    {
        let lines = self.buffer_lines();
        assert(lines@.len() == string_views(lines@).len());
        match self.search.next_match(lines.as_slice(), self.scroll) {
            Some(idx) => {
                self.scroll = idx;
                self.search_cursor = Some(idx);
                self.live = false;
            },
            None => {},
        }
    }

    /// Moves the view to the nearest matching line before the current one,
    /// wrapping around, marks it and stops following new lines; nothing
    /// changes when the search is inactive or no line matches.
    pub fn prev_search_result(&mut self)
        requires
            old(self).search.compiles() ==> old(self).buffer@.len() == 0 || old(self).scroll
                <= old(self).buffer@.len(),
        ensures
            match old(self).search.prev_match_index(old(self).line_texts(), old(self).scroll as int) {
                Some(i) => {
                    &&& final(self).scroll as int == i
                    &&& final(self).search_cursor == Some(i as usize)
                    &&& !final(self).live
                },
                None => {
                    &&& final(self).scroll == old(self).scroll
                    &&& final(self).search_cursor == old(self).search_cursor
                    &&& final(self).live == old(self).live
                },
            },
            final(self).buffer == old(self).buffer,
            final(self).error == old(self).error,
            final(self).search == old(self).search,
            final(self).source == old(self).source,
            final(self).receiver == old(self).receiver,
            final(self).max_lines == old(self).max_lines,
    {
        let lines = self.buffer_lines();
        assert(lines@.len() == string_views(lines@).len());
        match self.search.prev_match(lines.as_slice(), self.scroll) {
            Some(idx) => {
                self.scroll = idx;
                self.search_cursor = Some(idx);
                self.live = false;
            },
            None => {},
        }
    }

    /// The buffered lines joined by newlines: what a save writes.
    pub fn buffer_text(&self) -> (r: String)
        ensures
            r@ == newline_joined(self.line_texts()),
    {
        let ghost ls = self.line_texts();
        let mut out = String::new();
        let n = self.buffer.len();
        for i in 0..n
            invariant
                n == self.buffer@.len(),
                ls == self.line_texts(),
                out@ == newline_joined(ls.take(i as int)),
        {
            assert(ls.take(i + 1).drop_last() == ls.take(i as int));
            assert(ls.take(i + 1).last() == self.buffer@[i as int]@);
            if i > 0 {
                push_char(&mut out, '\n');
            }
            push_str(&mut out, self.buffer[i].as_str());
        }
        assert(ls.take(n as int) == ls);
        out
    }

    /// The file name a save uses: `lview-`, the raw source name with `/`,
    /// space and `:` replaced by `_`, `-`, and the time stamp.
    pub fn save_name(&self, stamp: &str) -> (r: String)
        ensures
            r@ == "lview-"@ + file_safe(source_text(self.source@)) + "-"@ + stamp@,
    {
        let raw = self.source.to_string();
        let cs = chars_of(raw.as_str());
        let mut out = String::new();
        push_str(&mut out, "lview-");
        let ghost start = out@;
        for i in 0..cs.len()
            invariant
                out@ == start + file_safe(cs@.take(i as int)),
        {
            assert(cs@.take(i + 1).drop_last() == cs@.take(i as int));
            let c = cs[i];
            if c == '/' || c == ' ' || c == ':' {
                push_char(&mut out, '_');
            } else {
                push_char(&mut out, c);
            }
        }
        assert(cs@.take(cs@.len() as int) == cs@);
        push_str(&mut out, "-");
        push_str(&mut out, stamp);
        out
    }
}

/// `after` is `before` with its search set to `after`'s query: when the
/// query is active and some line matches, the view is on the first
/// matching line after the old one, marked, and no longer live; else the
/// view stays and nothing is marked.
pub open spec fn search_applied(before: &LogViewer, after: &LogViewer) -> bool {
    let hit = if after.search.query@.len() > 0 {
        after.search.next_match_index(before.line_texts(), before.scroll as int)
    } else {
        None
    };
    &&& match hit {
        Some(i) => {
            &&& after.scroll as int == i
            &&& after.search_cursor == Some(i as usize)
            &&& !after.live
        },
        None => {
            &&& after.scroll == before.scroll
            &&& after.search_cursor is None
            &&& after.live == before.live
        },
    }
    &&& after.search.is_regex == before.search.is_regex
    &&& after.buffer == before.buffer
    &&& after.error == before.error
    &&& after.source == before.source
    &&& after.receiver == before.receiver
    &&& after.max_lines == before.max_lines
}

/// After the lines `received` arrived, `viewer` holds `v` as receiving them
/// leaves it, with the error moved out: into `message`, which is otherwise
/// `old_message`.
pub open spec fn stream_taken(
    v: &LogViewer,
    received: Seq<String>,
    viewer: Option<LogViewer>,
    old_message: Option<String>,
    message: Option<String>,
) -> bool {
    let after = receive_all(v.state(), received, v.max_lines as int);
    &&& viewer matches Some(w) && {
        &&& w.buffer@ == after.lines
        &&& w.scroll as int == after.scroll
        &&& w.live == after.live
        &&& w.error is None
        &&& w.same_setup_but_stream(v)
    }
    &&& match after.error {
        Some(e) => message matches Some(m) && m@ == "SSH error: "@ + e,
        None => message == old_message,
    }
}

/// Takes the next line that has arrived on the stream, if there is one
/// (`UnboundedReceiver::try_recv`). Nothing is stated of which line comes:
/// that is up to the remote side and the time.
#[verifier::external_body]
fn try_receive(receiver: &mut UnboundedReceiver<String>) -> Option<String> {
    receiver.try_recv().ok()
}

/// Indices of the lines in `lines` that `search` accepts, in order.
pub open spec fn visible_indices(search: SearchState, lines: Seq<Seq<char>>) -> Seq<int>
    decreases lines.len(),
{
    if lines.len() == 0 {
        Seq::empty()
    } else {
        let rest = visible_indices(search, lines.drop_last());
        if search.accepts(lines.last()) {
            rest.push(lines.len() - 1)
        } else {
            rest
        }
    }
}

/// `lines` joined by newline characters.
pub open spec fn newline_joined(lines: Seq<Seq<char>>) -> Seq<char>
    decreases lines.len(),
{
    if lines.len() == 0 {
        Seq::empty()
    } else if lines.len() == 1 {
        lines[0]
    } else {
        newline_joined(lines.drop_last()).push('\n') + lines.last()
    }
}

/// `s` with `/`, space and `:` each replaced by `_`.
pub open spec fn file_safe(s: Seq<char>) -> Seq<char>
    decreases s.len(),
{
    if s.len() == 0 {
        Seq::empty()
    } else {
        let c = s.last();
        file_safe(s.drop_last()).push(
            if c == '/' || c == ' ' || c == ':' {
                '_'
            } else {
                c
            },
        )
    }
}


#[verifier::external_type_specification]
#[verifier::external_body]
pub struct ExSkimMatcherV2(SkimMatcherV2);

/// The score that a default `SkimMatcherV2` gives `choice` for `pattern`
/// (`FuzzyMatcher::fuzzy_match`); none when `choice` does not match.
pub uninterp spec fn skim_score(choice: Seq<char>, pattern: Seq<char>) -> Option<i64>;

/// The fuzzy matcher of the log picker: always a default `SkimMatcherV2`.
pub struct PickerMatcher {
    inner: SkimMatcherV2,
}

impl PickerMatcher {
    /// `SkimMatcherV2::default()`; nothing is stated of the new matcher
    /// beyond what `fuzzy_match` below claims of every `PickerMatcher`.
    #[verifier::external_body]
    pub(crate) fn new() -> Self {
        PickerMatcher { inner: SkimMatcherV2::default() }
    }

    /// `FuzzyMatcher::fuzzy_match` of the default skim matcher: trusted to
    /// be `skim_score(choice, pattern)`, which the matcher's configuration
    /// (fixed by `default()`) and its arguments alone decide; its source
    /// returns `Some(0)` for an empty pattern.
    #[verifier::external_body]
    pub(crate) fn fuzzy_match(&self, choice: &str, pattern: &str) -> (r: Option<i64>)
        ensures
            r == skim_score(choice@, pattern@),
            pattern@.len() == 0 ==> r == Some(0i64),
    {
        self.inner.fuzzy_match(choice, pattern)
    }
}

/// The application: the logs found on the machine, the picker's filter and
/// selection, the open viewer, and the status line.
pub struct App {
    pub session: SshSession,
    pub config: Config,
    pub runtime: Handle,
    pub logs: Vec<LogSource>,
    pub filtered_indices: Vec<usize>,
    pub selected_index: usize,
    pub screen: Screen,
    pub viewer: Option<LogViewer>,
    pub picker_filter: String,
    pub message: Option<String>,
    pub loading: bool,
    pub discovery_errors: Vec<String>,
    pub matcher: PickerMatcher,
}

/// The fuzzy score of each log for the picker's filter.
pub open spec fn picker_scores(logs: Seq<LogSource>, filter: Seq<char>) -> Seq<Option<i64>> {
    logs.map_values(|l: LogSource| skim_score(search_text_of(l@), filter))
}

/// Whether log `a` is listed before log `b`: a higher score first, and
/// on equal scores the earlier log first.
pub open spec fn ranks_before(scores: Seq<Option<i64>>, a: int, b: int) -> bool {
    let sa = scores[a]->0;
    let sb = scores[b]->0;
    sa > sb || (sa == sb && a < b)
}

/// `order` lists every log that has a score, exactly once, best first
/// (see [`ranks_before`]).
pub open spec fn is_ranking(scores: Seq<Option<i64>>, order: Seq<usize>) -> bool {
    &&& forall|k: int|
        0 <= k < order.len() ==> (#[trigger] order[k]) < scores.len() && scores[order[k] as int] is Some
    &&& forall|i: int| 0 <= i < scores.len() && (#[trigger] scores[i]) is Some ==> order.contains(i as usize)
    &&& forall|a: int, b: int|
        0 <= a < b < order.len() ==> ranks_before(scores, #[trigger] order[a] as int, #[trigger] order[b] as int)
}

/// `order` is `0, 1, ..., len - 1`.
pub open spec fn is_identity(order: Seq<usize>, len: int) -> bool {
    order.len() == len && forall|k: int| 0 <= k < len ==> #[trigger] order[k] == k
}

/// The selection after moving down in a list of `len` entries: the next
/// entry, the first after the last.
pub open spec fn next_selection(selected: int, len: int) -> int {
    if len > 0 {
        (selected + 1) % len
    } else {
        selected
    }
}

/// The selection after moving up in a list of `len` entries: the entry
/// before, the last before the first.
pub open spec fn previous_selection(selected: int, len: int) -> int {
    if len > 0 {
        if selected == 0 {
            len - 1
        } else {
            selected - 1
        }
    } else {
        selected
    }
}

/// The selection kept within a list of `len` entries.
pub open spec fn clamp_selection(selected: int, len: int) -> int {
    if selected <= last_line(len) {
        selected
    } else {
        last_line(len)
    }
}

impl App {
    /// Everything but the picker's list and selection is as in `other`.
    pub open spec fn same_but_picker(&self, other: &App) -> bool {
        &&& self.session == other.session
        &&& self.config == other.config
        &&& self.runtime == other.runtime
        &&& self.logs == other.logs
        &&& self.screen == other.screen
        &&& self.viewer == other.viewer
        &&& self.picker_filter == other.picker_filter
        &&& self.message == other.message
        &&& self.loading == other.loading
        &&& self.discovery_errors == other.discovery_errors
        &&& self.matcher == other.matcher
    }

    pub fn new(session: SshSession, config: Config, runtime: Handle) -> (r: Self)
        ensures
            r.session == session,
            r.config == config,
            r.runtime == runtime,
            r.logs@.len() == 0,
            r.filtered_indices@.len() == 0,
            r.selected_index == 0,
            r.screen == Screen::Picker,
            r.viewer is None,
            r.picker_filter@.len() == 0,
            r.message matches Some(m) && m@ == "Press 'r' to load logs"@,
            !r.loading,
            r.discovery_errors@.len() == 0,
    {
        App {
            session,
            config,
            runtime,
            logs: Vec::new(),
            filtered_indices: Vec::new(),
            selected_index: 0,
            screen: Screen::Picker,
            viewer: None,
            picker_filter: String::new(),
            message: Some(String::from_str("Press 'r' to load logs")),
            loading: false,
            discovery_errors: Vec::new(),
            matcher: PickerMatcher::new(),
        }
    }

    /// Recomputes the picker's list: every log when the filter is empty,
    /// else the logs that fuzzy-match it, best score first; the selection
    /// is kept within the list.
    pub fn apply_picker_filter(&mut self)
        ensures
            old(self).picker_filter@.len() == 0 ==> is_identity(
                final(self).filtered_indices@,
                old(self).logs@.len() as int,
            ),
            old(self).picker_filter@.len() > 0 ==> is_ranking(
                picker_scores(old(self).logs@, old(self).picker_filter@),
                final(self).filtered_indices@,
            ),
            final(self).selected_index as int == clamp_selection(
                old(self).selected_index as int,
                final(self).filtered_indices@.len() as int,
            ),
            final(self).same_but_picker(old(self)),
    {
        let n = self.logs.len();
        if self.picker_filter.as_str().is_empty() {
            let mut order: Vec<usize> = Vec::new();
            for i in 0..n
                invariant
                    is_identity(order@, i as int),
            {
                order.push(i);
            }
            self.filtered_indices = order;
        } else {
            let ghost scores = picker_scores(self.logs@, self.picker_filter@);
            let mut order: Vec<usize> = Vec::new();
            let mut order_scores: Vec<i64> = Vec::new();
            for i in 0..n
                invariant
                    n == self.logs@.len(),
                    scores == picker_scores(self.logs@, self.picker_filter@),
                    order_scores@.len() == order@.len(),
                    forall|k: int|
                        0 <= k < order@.len() ==> (#[trigger] order@[k]) < i && scores[order@[k] as int]
                            == Some(order_scores@[k]),
                    forall|j: int| 0 <= j < i && (#[trigger] scores[j]) is Some ==> order@.contains(j as usize),
                    forall|a: int, b: int|
                        0 <= a < b < order@.len() ==> ranks_before(
                            scores,
                            #[trigger] order@[a] as int,
                            #[trigger] order@[b] as int,
                        ),
            {
                let text = self.logs[i].search_text();
                let scored = self.matcher.fuzzy_match(text.as_str(), self.picker_filter.as_str());
                assert(scores[i as int] == scored);
                match scored {
                    Some(score) => {
                        let mut pos: usize = 0;
                        while pos < order.len() && order_scores[pos] >= score
                            invariant
                                pos <= order@.len(),
                                order_scores@.len() == order@.len(),
                                forall|k: int| 0 <= k < pos ==> #[trigger] order_scores@[k] >= score,
                            decreases order@.len() - pos,
                        {
                            pos = pos + 1;
                        }
                        let ghost old_order = order@;
                        let ghost old_scores = order_scores@;
                        order.insert(pos, i);
                        order_scores.insert(pos, score);
                        proof {
                            assert forall|k: int| 0 <= k < order@.len() implies (#[trigger] order@[k]) < i + 1
                                && scores[order@[k] as int] == Some(order_scores@[k]) by {
                                if k < pos {
                                    assert(order@[k] == old_order[k]);
                                } else if k > pos {
                                    assert(order@[k] == old_order[k - 1]);
                                }
                            }
                            assert forall|j: int| 0 <= j < i + 1 && (#[trigger] scores[j]) is Some implies order@.contains(
                                j as usize,
                            ) by {
                                if j == i {
                                    assert(order@[pos as int] == i);
                                } else {
                                    let k = choose|k: int| 0 <= k < old_order.len() && old_order[k] == j as usize;
                                    if k < pos {
                                        assert(order@[k] == old_order[k]);
                                    } else {
                                        assert(order@[k + 1] == old_order[k]);
                                    }
                                }
                            }
                            assert forall|a: int, b: int| 0 <= a < b < order@.len() implies ranks_before(
                                scores,
                                #[trigger] order@[a] as int,
                                #[trigger] order@[b] as int,
                            ) by {
                                if b < pos {
                                    assert(order@[a] == old_order[a] && order@[b] == old_order[b]);
                                } else if b == pos {
                                    assert(order@[a] == old_order[a]);
                                    assert(old_scores[a] >= score);
                                } else if a < pos {
                                    assert(order@[a] == old_order[a] && order@[b] == old_order[b - 1]);
                                } else if a == pos {
                                    assert(order@[b] == old_order[b - 1]);
                                    assert(old_scores[pos as int] < score);
                                    if b - 1 > pos {
                                        assert(ranks_before(scores, old_order[pos as int] as int, old_order[b - 1] as int));
                                    }
                                } else {
                                    assert(order@[a] == old_order[a - 1] && order@[b] == old_order[b - 1]);
                                }
                            }
                        }
                    },
                    None => {},
                }
            }
            self.filtered_indices = order;
        }
        let last = self.filtered_indices.len().saturating_sub(1);
        if self.selected_index > last {
            self.selected_index = last;
        }
    }

    /// The session, configuration, runtime, logs and discovery errors are
    /// as in `other`.
    pub open spec fn same_sources(&self, other: &App) -> bool {
        &&& self.session == other.session
        &&& self.config == other.config
        &&& self.runtime == other.runtime
        &&& self.logs == other.logs
        &&& self.discovery_errors == other.discovery_errors
        &&& self.matcher == other.matcher
    }

    /// The picker's list, selection and filter are as in `other`.
    pub open spec fn same_picker(&self, other: &App) -> bool {
        &&& self.filtered_indices == other.filtered_indices
        &&& self.selected_index == other.selected_index
        &&& self.picker_filter == other.picker_filter
    }

    /// Marks the start of a discovery run.
    pub fn begin_discovery(&mut self)
        ensures
            final(self).loading,
            final(self).message matches Some(m) && m@ == "Loading logs..."@,
            final(self).same_sources(old(self)),
            final(self).same_picker(old(self)),
            final(self).screen == old(self).screen,
            final(self).viewer == old(self).viewer,
    {
        self.loading = true;
        self.message = Some(String::from_str("Loading logs..."));
    }

    /// Takes in what a discovery run found: the sources become the logs,
    /// the filter is applied again, the first entry is selected, and the
    /// status tells how many logs there are.
    pub fn apply_discovery(&mut self, result: DiscoveryResult)
        ensures
            final(self).logs == result.sources,
            final(self).discovery_errors == result.errors,
            old(self).picker_filter@.len() == 0 ==> is_identity(
                final(self).filtered_indices@,
                result.sources@.len() as int,
            ),
            old(self).picker_filter@.len() > 0 ==> is_ranking(
                picker_scores(result.sources@, old(self).picker_filter@),
                final(self).filtered_indices@,
            ),
            final(self).selected_index == 0,
            final(self).message matches Some(m) && m@ == if result.sources@.len() == 0 {
                "No logs found."@
            } else {
                "Found "@ + decimal(result.sources@.len() as nat) + " logs"@
            },
            final(self).picker_filter == old(self).picker_filter,
            final(self).session == old(self).session,
            final(self).config == old(self).config,
            final(self).runtime == old(self).runtime,
            final(self).screen == old(self).screen,
            final(self).viewer == old(self).viewer,
            final(self).loading == old(self).loading,
    {
        self.logs = result.sources;
        self.discovery_errors = result.errors;
        self.apply_picker_filter();
        self.selected_index = 0;
        let n = self.logs.len();
        if n == 0 {
            self.message = Some(String::from_str("No logs found."));
        } else {
            let mut m = String::new();
            push_str(&mut m, "Found ");
            push_decimal(&mut m, n);
            push_str(&mut m, " logs");
            self.message = Some(m);
        }
    }

    /// The log under the selection, if the selection points at one.
    pub fn selected_log(&self) -> (r: Option<&LogSource>)
        ensures
            r == if self.selected_index < self.filtered_indices@.len()
                && self.filtered_indices@[self.selected_index as int] < self.logs@.len() {
                Some(&self.logs@[self.filtered_indices@[self.selected_index as int] as int])
            } else {
                None
            },
    {
        if self.selected_index < self.filtered_indices.len() {
            let i = self.filtered_indices[self.selected_index];
            if i < self.logs.len() {
                return Some(&self.logs[i]);
            }
        }
        None
    }

    /// Moves the selection one entry down, from the last entry to the first.
    pub fn next_log(&mut self)
        requires
            old(self).filtered_indices@.len() > 0 ==> old(self).selected_index < usize::MAX,
        ensures
            final(self).selected_index as int == next_selection(
                old(self).selected_index as int,
                old(self).filtered_indices@.len() as int,
            ),
            final(self).same_sources(old(self)),
            final(self).filtered_indices == old(self).filtered_indices,
            final(self).picker_filter == old(self).picker_filter,
            final(self).screen == old(self).screen,
            final(self).viewer == old(self).viewer,
            final(self).message == old(self).message,
            final(self).loading == old(self).loading,
    {
        if self.filtered_indices.len() > 0 {
            self.selected_index = (self.selected_index + 1) % self.filtered_indices.len();
        }
    }

    /// Moves the selection one entry up, from the first entry to the last.
    pub fn previous_log(&mut self)
        ensures
            final(self).selected_index as int == previous_selection(
                old(self).selected_index as int,
                old(self).filtered_indices@.len() as int,
            ),
            final(self).same_sources(old(self)),
            final(self).filtered_indices == old(self).filtered_indices,
            final(self).picker_filter == old(self).picker_filter,
            final(self).screen == old(self).screen,
            final(self).viewer == old(self).viewer,
            final(self).message == old(self).message,
            final(self).loading == old(self).loading,
    {
        let n = self.filtered_indices.len();
        if n > 0 {
            self.selected_index = if self.selected_index == 0 {
                n - 1
            } else {
                self.selected_index - 1
            };
        }
    }

    /// Shows a viewer on `source`, fed by `receiver`, keeping as many lines
    /// as the configuration says.
    pub fn open_viewer(&mut self, source: LogSource, receiver: UnboundedReceiver<String>)
        ensures
            final(self).viewer matches Some(v) && {
                &&& v.source == source
                &&& v.receiver == receiver
                &&& v.max_lines == old(self).config.max_log_lines
                &&& v.buffer@.len() == 0
                &&& v.scroll == 0
                &&& v.live
                &&& v.search.query@.len() == 0
                &&& v.search.is_regex
                &&& v.search_cursor is None
                &&& v.error is None
            },
            final(self).screen == Screen::Viewer,
            final(self).message is None,
            final(self).same_sources(old(self)),
            final(self).same_picker(old(self)),
            final(self).loading == old(self).loading,
    {
        self.viewer = Some(LogViewer::new(source, receiver, self.config.max_log_lines));
        self.screen = Screen::Viewer;
        self.message = None;
    }

    /// Closes the viewer and goes back to the picker.
    pub fn close_viewer(&mut self)
        ensures
            final(self).viewer is None,
            final(self).screen == Screen::Picker,
            final(self).message is None,
            final(self).same_sources(old(self)),
            final(self).same_picker(old(self)),
            final(self).loading == old(self).loading,
    {
        self.viewer = None;
        self.screen = Screen::Picker;
        self.message = None;
    }

    /// Feeds every line that has arrived on the stream to the open viewer,
    /// in order; an error the remote side printed moves to the status
    /// line. Which lines have arrived is up to the stream: whatever they
    /// are, the viewer takes them in as [`receive_all`] says.
    pub fn update_stream(&mut self)
        ensures
            match old(self).viewer {
                None => final(self).viewer is None && final(self).message == old(self).message,
                Some(v) => exists|received: Seq<String>| #[trigger]
                    stream_taken(&v, received, final(self).viewer, old(self).message, final(self).message),
            },
            final(self).same_sources(old(self)),
            final(self).same_picker(old(self)),
            final(self).screen == old(self).screen,
            final(self).loading == old(self).loading,
    {
        match self.viewer.take() {
            None => {},
            Some(mut v) => {
                let ghost v0 = v;
                let ghost mut received: Seq<String> = Seq::empty();
                let mut count: usize = 0;
                while count < usize::MAX
                    invariant
                        v.state() == receive_all(v0.state(), received, v0.max_lines as int),
                        v.same_setup_but_stream(&v0),
                    decreases usize::MAX - count,
                {
                    match try_receive(&mut v.receiver) {
                        Some(line) => {
                            let ghost prev = received;
                            proof {
                                received = received.push(line);
                                assert(received.drop_last() =~= prev);
                            }
                            v.push_line(line);
                        },
                        None => {
                            break;
                        },
                    }
                    count = count + 1;
                }
                match v.error.take() {
                    Some(err) => {
                        let mut m = String::new();
                        push_str(&mut m, "SSH error: ");
                        push_str(&mut m, err.as_str());
                        self.message = Some(m);
                    },
                    None => {},
                }
                self.viewer = Some(v);
                assert(stream_taken(&v0, received, self.viewer, old(self).message, self.message));
            },
        }
    }

    /// Opens the search box of the current screen.
    pub fn enter_search(&mut self)
        ensures
            final(self).screen == match old(self).screen {
                Screen::Picker => Screen::PickerSearch,
                Screen::Viewer => Screen::Search,
                s => s,
            },
            final(self).same_sources(old(self)),
            final(self).same_picker(old(self)),
            final(self).viewer == old(self).viewer,
            final(self).message == old(self).message,
            final(self).loading == old(self).loading,
    {
        self.screen = match self.screen {
            Screen::Picker => Screen::PickerSearch,
            Screen::Viewer => Screen::Search,
            s => s,
        };
    }

    /// Closes the search box, and clears the viewer's search.
    pub fn exit_search(&mut self)
        ensures
            final(self).screen == match old(self).screen {
                Screen::PickerSearch => Screen::Picker,
                Screen::Search => Screen::Viewer,
                s => s,
            },
            match old(self).viewer {
                None => final(self).viewer is None,
                Some(v) => final(self).viewer matches Some(w) && {
                    &&& w.search.query@.len() == 0
                    &&& w.search.is_regex
                    &&& w.search_cursor is None
                    &&& w.buffer == v.buffer
                    &&& w.scroll == v.scroll
                    &&& w.live == v.live
                    &&& w.error == v.error
                    &&& w.source == v.source
                    &&& w.receiver == v.receiver
                    &&& w.max_lines == v.max_lines
                },
            },
            final(self).same_sources(old(self)),
            final(self).same_picker(old(self)),
            final(self).message == old(self).message,
            final(self).loading == old(self).loading,
    {
        self.screen = match self.screen {
            Screen::PickerSearch => Screen::Picker,
            Screen::Search => Screen::Viewer,
            s => s,
        };
        match self.viewer.take() {
            Some(mut v) => {
                v.search = SearchState::default();
                v.search_cursor = None;
                self.viewer = Some(v);
            },
            None => {},
        }
    }

    /// Closes the search box and keeps the search.
    pub fn confirm_search(&mut self)
        ensures
            final(self).screen == match old(self).screen {
                Screen::PickerSearch => Screen::Picker,
                Screen::Search => Screen::Viewer,
                s => s,
            },
            final(self).same_sources(old(self)),
            final(self).same_picker(old(self)),
            final(self).viewer == old(self).viewer,
            final(self).message == old(self).message,
            final(self).loading == old(self).loading,
    {
        self.screen = match self.screen {
            Screen::PickerSearch => Screen::Picker,
            Screen::Search => Screen::Viewer,
            s => s,
        };
    }

    /// The text in the search box of the current screen.
    pub open spec fn filter_query(&self) -> Seq<char> {
        match self.screen {
            Screen::PickerSearch => self.picker_filter@,
            Screen::Search => match self.viewer {
                Some(v) => v.search.query@,
                None => Seq::empty(),
            },
            _ => Seq::empty(),
        }
    }

    /// The text in the search box of the current screen (empty when no
    /// search box is open).
    pub fn current_filter_query(&self) -> (r: &str)
        ensures
            r@ == self.filter_query(),
    {
        proof {
            reveal_strlit("");
        }
        match self.screen {
            Screen::PickerSearch => self.picker_filter.as_str(),
            Screen::Search => match &self.viewer {
                Some(v) => v.search.query.as_str(),
                None => "",
            },
            _ => "",
        }
    }

    /// The text of the open search box, to edit in place: the picker's
    /// filter, or the open viewer's query; none when no search box is open.
    pub fn current_filter_query_mut(&mut self) -> (r: Option<&mut String>)
        ensures
            final(self).same_sources(old(self)),
            final(self).filtered_indices == old(self).filtered_indices,
            final(self).selected_index == old(self).selected_index,
            final(self).screen == old(self).screen,
            final(self).message == old(self).message,
            final(self).loading == old(self).loading,
            match old(self).screen {
                Screen::PickerSearch => {
                    &&& r is Some
                    &&& *r->0 == old(self).picker_filter
                    &&& final(self).picker_filter == *final(r->0)
                    &&& final(self).viewer == old(self).viewer
                },
                Screen::Search => {
                    &&& final(self).picker_filter == old(self).picker_filter
                    &&& match old(self).viewer {
                        Some(v) => {
                            &&& r is Some
                            &&& *r->0 == v.search.query
                            &&& final(self).viewer matches Some(w) && w.search.query == *final(r->0)
                                && w.same_but_query(&v)
                        },
                        None => r is None && final(self).viewer is None,
                    }
                },
                _ => {
                    &&& r is None
                    &&& final(self).picker_filter == old(self).picker_filter
                    &&& final(self).viewer == old(self).viewer
                },
            },
    {
        match self.screen {
            Screen::PickerSearch => Some(&mut self.picker_filter),
            Screen::Search => match &mut self.viewer {
                Some(v) => Some(&mut v.search.query),
                None => None,
            },
            _ => None,
        }
    }

    /// Applies the text of the open search box: filters the picker, or
    /// searches the open viewer from its current line.
    pub fn apply_current_filter(&mut self)
        requires
            old(self).screen != Screen::PickerSearch ==> match old(self).viewer {
                Some(v) => v.search.compiles() ==> v.buffer@.len() > 0 && v.scroll < usize::MAX,
                None => true,
            },
        ensures
            old(self).screen == Screen::PickerSearch ==> {
                &&& old(self).picker_filter@.len() == 0 ==> is_identity(
                    final(self).filtered_indices@,
                    old(self).logs@.len() as int,
                )
                &&& old(self).picker_filter@.len() > 0 ==> is_ranking(
                    picker_scores(old(self).logs@, old(self).picker_filter@),
                    final(self).filtered_indices@,
                )
                &&& final(self).selected_index as int == clamp_selection(
                    old(self).selected_index as int,
                    final(self).filtered_indices@.len() as int,
                )
                &&& final(self).viewer == old(self).viewer
            },
            old(self).screen != Screen::PickerSearch ==> {
                &&& final(self).same_picker(old(self))
                &&& match old(self).viewer {
                    Some(v) => final(self).viewer matches Some(w) && {
                        &&& w.search.query == v.search.query
                        &&& search_applied(&v, &w)
                    },
                    None => final(self).viewer is None,
                }
            },
            final(self).picker_filter == old(self).picker_filter,
            final(self).same_sources(old(self)),
            final(self).screen == old(self).screen,
            final(self).message == old(self).message,
            final(self).loading == old(self).loading,
    {
        if self.screen == Screen::PickerSearch {
            self.apply_picker_filter();
        } else {
            match self.viewer.take() {
                Some(mut v) => {
                    let query = v.search.query.clone();
                    v.set_search(query);
                    self.viewer = Some(v);
                },
                None => {},
            }
        }
    }
}

} // verus!
