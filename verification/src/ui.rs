use vstd::prelude::*;

use crate::app::App;
use crate::discovery::{category_text, display_text, LogSource};
use crate::ssh::{arg_views, host_arg, space_joined};
use crate::text::{chars_of, contains_seq, decimal, has_infix, push_decimal, push_str};

verus! {

/// The color of the dot before a log line, by the level the line mentions.
#[derive(Debug, Clone, Copy, PartialEq, Eq, Structural)]
pub enum LevelColor {
    Red,
    Yellow,
    Cyan,
    Gray,
    DarkGray,
    White,
}

/// `s` in lower case, as `str::to_lowercase` gives it (Unicode's
/// lowercase mapping, the same on every machine).
pub uninterp spec fn lowercase(s: Seq<char>) -> Seq<char>;

/// `str::to_lowercase`: trusted to give `lowercase(s)`.
#[verifier::external_body]
fn to_lowercase(s: &str) -> (r: String)
    ensures
        r@ == lowercase(s@),
{
    s.to_lowercase()
}

/// The level color of a line: red for errors (error, critical, fatal,
/// panic, emergency), yellow for warnings, cyan for info and notices, gray
/// for debug, dark gray for trace, white otherwise; the words are looked
/// for in the lower-cased line.
pub open spec fn level_color(line: Seq<char>) -> LevelColor {
    let l = lowercase(line);
    if has_infix(l, "error"@) || has_infix(l, "critical"@) || has_infix(l, "fatal"@) || has_infix(
        l,
        "panic"@,
    ) || has_infix(l, "emergency"@) {
        LevelColor::Red
    } else if has_infix(l, "warn"@) || has_infix(l, "warning"@) {
        LevelColor::Yellow
    } else if has_infix(l, "info"@) || has_infix(l, "notice"@) {
        LevelColor::Cyan
    } else if has_infix(l, "debug"@) {
        LevelColor::Gray
    } else if has_infix(l, "trace"@) {
        LevelColor::DarkGray
    } else {
        LevelColor::White
    }
}

fn mentions(l: &[char], word: &str) -> (r: bool)
    ensures
        r == has_infix(l@, word@),
{
    let w = chars_of(word);
    contains_seq(l, w.as_slice())
}

/// Determine a color for the log-level indicator dot based on the line content.
pub fn log_level_color(line: &str) -> (r: LevelColor)
    ensures
        r == level_color(line@),
{
    let lower = to_lowercase(line);
    let l = chars_of(lower.as_str());
    let ls = l.as_slice();
    if mentions(ls, "error") || mentions(ls, "critical") || mentions(ls, "fatal") || mentions(
        ls,
        "panic",
    ) || mentions(ls, "emergency") {
        LevelColor::Red
    } else if mentions(ls, "warn") || mentions(ls, "warning") {
        LevelColor::Yellow
    } else if mentions(ls, "info") || mentions(ls, "notice") {
        LevelColor::Cyan
    } else if mentions(ls, "debug") {
        LevelColor::Gray
    } else if mentions(ls, "trace") {
        LevelColor::DarkGray
    } else {
        LevelColor::White
    }
}

/// Where the current line stands among the visible ones: the first entry
/// equal to `scroll`, else the last entry (0 when there is none).
pub open spec fn current_position(visible: Seq<usize>, scroll: usize) -> int {
    if exists|k: int| 0 <= k < visible.len() && visible[k] == scroll {
        choose|k: int|
            0 <= k < visible.len() && visible[k] == scroll && forall|j: int|
                0 <= j < k ==> visible[j] != scroll
    } else if visible.len() > 0 {
        visible.len() - 1
    } else {
        0
    }
}

/// The first visible line to draw so that the current line sits in the
/// middle of a view `height` rows high, without scrolling past the last
/// visible line.
pub open spec fn view_offset(visible: Seq<usize>, scroll: usize, height: u16) -> int {
    let pos = current_position(visible, scroll);
    let half = height as int / 2;
    let top = if pos >= half {
        pos - half
    } else {
        0
    };
    let last = if visible.len() > 0 {
        visible.len() - 1
    } else {
        0
    };
    if top <= last {
        top
    } else {
        last
    }
}

/// The viewport offset for the log view (see [`view_offset`]); `visible`
/// holds the buffer indices of the visible lines.
pub fn viewport_offset(visible: &[usize], scroll: usize, height: u16) -> (r: usize)
    ensures
        r as int == view_offset(visible@, scroll, height),
{
    let n = visible.len();
    let mut k: usize = 0;
    while k < n && visible[k] != scroll
        invariant
            k <= n,
            n == visible@.len(),
            forall|j: int| 0 <= j < k ==> visible@[j] != scroll,
        decreases n - k,
    {
        k = k + 1;
    }
    let last = if n > 0 {
        n - 1
    } else {
        0
    };
    let pos = if k < n {
        proof {
            let c = choose|c: int|
                0 <= c < visible@.len() && visible@[c] == scroll && forall|j: int|
                    0 <= j < c ==> visible@[j] != scroll;
            assert(visible@[k as int] == scroll);
            if c < k {
            } else if c > k {
            }
        }
        k
    } else {
        last
    };
    let half = (height / 2) as usize;
    let top = if pos >= half {
        pos - half
    } else {
        0
    };
    if top <= last {
        top
    } else {
        last
    }
}


/// The key help shown under the log picker.
pub open spec fn picker_help() -> Seq<char> {
    "j/k: move | Enter: open | /: filter | r: reload | q: quit"@
}

/// The key help shown under a log viewer.
pub open spec fn viewer_help() -> Seq<char> {
    "j/k: scroll | g/G: top/bottom | l/Space: live | /: search | n/N: next/prev | s: save | q: back"@
}

/// The host the status line names: the ssh target's host argument, or all
/// its arguments when none stands out.
pub open spec fn status_host(app: &App) -> Seq<char> {
    match host_arg(arg_views(app.session.target.args@)) {
        Some(h) => h,
        None => space_joined(arg_views(app.session.target.args@)),
    }
}

/// The status line under the picker: `Loading...` during discovery, else
/// the host and the message, or the host and the key help.
pub fn picker_status(app: &App) -> (r: String)
    ensures
        r@ == if app.loading {
            "Loading..."@
        } else {
            status_host(app) + " | "@ + match app.message {
                Some(m) => m@,
                None => picker_help(),
            }
        },
{
    if app.loading {
        return String::from_str("Loading...");
    }
    let mut out = app.session.target.host();
    push_str(&mut out, " | ");
    match &app.message {
        Some(m) => push_str(&mut out, m.as_str()),
        None => push_str(&mut out, "j/k: move | Enter: open | /: filter | r: reload | q: quit"),
    }
    out
}

/// The title of the picker's list: ` Logs (shown/all) `.
pub fn list_title(shown: usize, all: usize) -> (r: String)
    ensures
        r@ == " Logs ("@ + decimal(shown as nat) + "/"@ + decimal(all as nat) + ") "@,
{
    let mut out = String::new();
    push_str(&mut out, " Logs (");
    push_decimal(&mut out, shown);
    push_str(&mut out, "/");
    push_decimal(&mut out, all);
    push_str(&mut out, ") ");
    out
}

/// A line of the picker's list: `[category] label`.
pub fn list_entry(log: &LogSource) -> (r: String)
    ensures
        r@ == "["@ + category_text(log@) + "] "@ + display_text(log@),
{
    let mut out = String::new();
    push_str(&mut out, "[");
    push_str(&mut out, log.category());
    push_str(&mut out, "] ");
    let name = log.display_name();
    push_str(&mut out, name.as_str());
    out
}

/// The label of a viewer's follow mode.
pub fn live_label(live: bool) -> (r: &'static str)
    ensures
        r@ == if live {
            "LIVE"@
        } else {
            "PAUSED"@
        },
{
    if live {
        "LIVE"
    } else {
        "PAUSED"
    }
}

/// The status text after the follow mode under a viewer: line count,
/// current line and the key help.
pub fn viewer_status(lines: usize, scroll: usize) -> (r: String)
    ensures
        r@ == " | lines: "@ + decimal(lines as nat) + " | scroll: "@ + decimal(scroll as nat) + " | "@
            + viewer_help(),
{
    let mut out = String::new();
    push_str(&mut out, " | lines: ");
    push_decimal(&mut out, lines);
    push_str(&mut out, " | scroll: ");
    push_decimal(&mut out, scroll);
    push_str(&mut out, " | ");
    push_str(
        &mut out,
        "j/k: scroll | g/G: top/bottom | l/Space: live | /: search | n/N: next/prev | s: save | q: back",
    );
    out
}

} // verus!
