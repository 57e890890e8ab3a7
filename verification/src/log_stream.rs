use vstd::prelude::*;

use crate::discovery::{shell_escape, shell_word, LogSource, SourceView};
use crate::text::{decimal, push_decimal, push_str};

verus! {

/// The remote command that prints the last `tail_lines` lines of a source
/// and keeps following it.
pub open spec fn follow_command(source: SourceView, tail_lines: nat) -> Seq<char> {
    match source {
        SourceView::File { path } => "tail -n "@ + decimal(tail_lines) + " -f "@ + shell_word(path),
        SourceView::Docker { container, .. } => "docker logs -f --tail "@ + decimal(tail_lines)
            + " "@ + shell_word(container),
        SourceView::Journal { unit } => "journalctl -u "@ + shell_word(unit) + " -f -n "@
            + decimal(tail_lines) + " --no-pager"@,
    }
}

/// Builds the remote command that follows `source` (see [`follow_command`]).
pub fn build_command(source: &LogSource, tail_lines: usize) -> (r: String)
    ensures
        r@ == follow_command(source@, tail_lines as nat),
{
    let mut out = String::new();
    match source {
        LogSource::File { path } => {
            push_str(&mut out, "tail -n ");
            push_decimal(&mut out, tail_lines);
            push_str(&mut out, " -f ");
            let w = shell_escape(path.as_str());
            push_str(&mut out, w.as_str());
        },
        LogSource::Docker { container, .. } => {
            push_str(&mut out, "docker logs -f --tail ");
            push_decimal(&mut out, tail_lines);
            push_str(&mut out, " ");
            let w = shell_escape(container.as_str());
            push_str(&mut out, w.as_str());
        },
        LogSource::Journal { unit } => {
            push_str(&mut out, "journalctl -u ");
            let w = shell_escape(unit.as_str());
            push_str(&mut out, w.as_str());
            push_str(&mut out, " -f -n ");
            push_decimal(&mut out, tail_lines);
            push_str(&mut out, " --no-pager");
        },
    }
    out
}

} // verus!
