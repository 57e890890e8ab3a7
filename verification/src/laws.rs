use vstd::prelude::*;

use crate::app::{
    is_ranking, last_line, next_selection, previous_selection, ranks_before, receive,
    receive_all, stderr_marker, visible_indices, App, BufferState, LogViewer, Screen,
};
use crate::discovery::{
    all_found, dedup, display_text, found_sources, has_key, needs_quotes, quote_body,
    search_text_of, shell_word, sort_key_of, sorted_by_key, stably_sorted, SourceView,
};
use crate::events::{command_effect, command_spec, toggled, Key, KeyInput};
use crate::search::{ring_backward, ring_forward, SearchState};
use crate::ssh::host_arg;
use crate::text::{
    has_prefix, has_suffix, lemma_lex_le_antisym, lemma_lex_le_refl, lemma_lex_le_trans, lex_le,
};

verus! {

/// The received lines that go into a viewer's buffer: all but those the
/// remote side printed as errors.
pub open spec fn buffered(received: Seq<String>) -> Seq<String>
    decreases received.len(),
{
    if received.len() == 0 {
        Seq::empty()
    } else {
        let rest = buffered(received.drop_last());
        if has_prefix(received.last()@, stderr_marker()) {
            rest
        } else {
            rest.push(received.last())
        }
    }
}

/// How many lines a viewer configured for `max_lines` holds at most.
pub open spec fn capacity(max_lines: int) -> int {
    if max_lines > 0 {
        max_lines
    } else {
        1
    }
}

/// The last `n` elements of `s` (all of `s` when it is shorter).
pub open spec fn newest(s: Seq<String>, n: int) -> Seq<String> {
    if s.len() <= n {
        s
    } else {
        s.skip(s.len() - n)
    }
}

/// A viewer keeps the newest lines: after any lines arrive, the buffer
/// holds the last `max(max_lines, 1)` of the lines it held and the
/// non-error lines received, in order.
pub proof fn law_buffer_keeps_newest_lines(b: BufferState, received: Seq<String>, max_lines: int)
    requires
        0 <= max_lines,
        b.lines.len() <= capacity(max_lines),
    ensures
        receive_all(b, received, max_lines).lines == newest(
            b.lines + buffered(received),
            capacity(max_lines),
        ),
        receive_all(b, received, max_lines).lines.len() <= capacity(max_lines),
    decreases received.len(),
{
    if received.len() > 0 {
        let front = received.drop_last();
        let x = received.last();
        law_buffer_keeps_newest_lines(b, front, max_lines);
        let mid = receive_all(b, front, max_lines);
        let all = b.lines + buffered(front);
        let cap = capacity(max_lines);
        if !has_prefix(x@, stderr_marker()) {
            let all2 = b.lines + buffered(received);
            assert(all2 =~= all.push(x));
            if all.len() >= cap {
                assert(mid.lines.len() == cap);
                assert(mid.lines.drop_first().push(x) =~= all2.skip(all2.len() - cap));
            } else {
                assert(mid.lines == all);
            }
        } else {
            assert(b.lines + buffered(received) == all);
        }
    } else {
        assert(b.lines + buffered(received) =~= b.lines);
    }
}

/// A live view follows new lines: while it is live and on the last line,
/// it stays live and on the last line whatever arrives.
pub proof fn law_live_view_follows(b: BufferState, received: Seq<String>, max_lines: int)
    requires
        b.live,
        b.scroll == last_line(b.lines.len() as int),
    ensures
        receive_all(b, received, max_lines).live,
        receive_all(b, received, max_lines).scroll == last_line(
            receive_all(b, received, max_lines).lines.len() as int,
        ),
    decreases received.len(),
{
    if received.len() > 0 {
        law_live_view_follows(b, received.drop_last(), max_lines);
    }
}

/// The view never leaves the buffer: a view on one of the lines (or at 0
/// in an empty buffer) stays so whatever arrives.
pub proof fn law_view_stays_in_buffer(b: BufferState, received: Seq<String>, max_lines: int)
    requires
        0 <= b.scroll <= last_line(b.lines.len() as int),
    ensures
        0 <= receive_all(b, received, max_lines).scroll <= last_line(
            receive_all(b, received, max_lines).lines.len() as int,
        ),
    decreases received.len(),
{
    if received.len() > 0 {
        law_view_stays_in_buffer(b, received.drop_last(), max_lines);
    }
}

/// Moving the selection down and then up, or up and then down, comes back
/// to the same entry; and either move keeps the selection in the list.
pub proof fn law_selection_moves_undo(selected: int, len: int)
    requires
        0 <= selected < len,
    ensures
        0 <= next_selection(selected, len) < len,
        0 <= previous_selection(selected, len) < len,
        previous_selection(next_selection(selected, len), len) == selected,
        next_selection(previous_selection(selected, len), len) == selected,
{
    if selected + 1 < len {
        vstd::arithmetic::div_mod::lemma_small_mod((selected + 1) as nat, len as nat);
    } else {
        vstd::arithmetic::div_mod::lemma_mod_self_0(len);
    }
    if selected > 0 {
        vstd::arithmetic::div_mod::lemma_small_mod(selected as nat, len as nat);
    } else {
        vstd::arithmetic::div_mod::lemma_mod_self_0(len);
    }
}

/// An inactive search (empty query, or a pattern that does not build)
/// shows every line of the log.
pub proof fn law_inactive_search_shows_all(search: SearchState, lines: Seq<Seq<char>>)
    requires
        !search.compiles(),
    ensures
        visible_indices(search, lines) == Seq::new(lines.len(), |i: int| i),
    decreases lines.len(),
{
    if lines.len() > 0 {
        law_inactive_search_shows_all(search, lines.drop_last());
        assert(visible_indices(search, lines) =~= Seq::new(lines.len(), |i: int| i));
    } else {
        assert(visible_indices(search, lines) =~= Seq::new(lines.len(), |i: int| i));
    }
}

proof fn lemma_filter_push<A>(s: Seq<A>, x: A, p: spec_fn(A) -> bool)
    ensures
        s.push(x).filter(p) == (if p(x) {
            s.filter(p).push(x)
        } else {
            s.filter(p)
        }),
{
    reveal(Seq::filter);
    assert(s.push(x).drop_last() =~= s);
}

proof fn lemma_key_below_last(t: Seq<SourceView>, k: Seq<char>)
    requires
        sorted_by_key(t),
        t.filter(has_key(k)).len() > 0,
    ensures
        t.len() > 0,
        lex_le(k, sort_key_of(t.last())),
    decreases t.len(),
{
    reveal(Seq::filter);
    if t.len() == 0 {
        assert(t.filter(has_key(k)).len() == 0);
    } else {
        let d = t.drop_last();
        let x = t.last();
        assert(d.push(x) =~= t);
        lemma_filter_push(d, x, has_key(k));
        if sort_key_of(x) == k {
            lemma_lex_le_refl(k);
        } else {
            assert(sorted_by_key(d)) by {
                assert forall|i: int, j: int| 0 <= i < j < d.len() implies lex_le(
                    sort_key_of(#[trigger] d[i]),
                    sort_key_of(#[trigger] d[j]),
                ) by {
                    assert(d[i] == t[i] && d[j] == t[j]);
                }
            }
            lemma_key_below_last(d, k);
            assert(d.last() == t[t.len() - 2]);
            lemma_lex_le_trans(k, sort_key_of(d.last()), sort_key_of(x));
        }
    }
}

proof fn lemma_sorted_drop_last(t: Seq<SourceView>)
    requires
        sorted_by_key(t),
        t.len() > 0,
    ensures
        sorted_by_key(t.drop_last()),
{
    let d = t.drop_last();
    assert forall|i: int, j: int| 0 <= i < j < d.len() implies lex_le(
        sort_key_of(#[trigger] d[i]),
        sort_key_of(#[trigger] d[j]),
    ) by {
        assert(d[i] == t[i] && d[j] == t[j]);
    }
}

proof fn lemma_sorted_same_groups_equal(t1: Seq<SourceView>, t2: Seq<SourceView>)
    requires
        sorted_by_key(t1),
        sorted_by_key(t2),
        forall|k: Seq<char>| #[trigger] t1.filter(has_key(k)) == t2.filter(has_key(k)),
    ensures
        t1 == t2,
    decreases t1.len(),
{
    reveal(Seq::filter);
    if t1.len() == 0 {
        if t2.len() > 0 {
            let k = sort_key_of(t2.last());
            assert(t2.drop_last().push(t2.last()) =~= t2);
            lemma_filter_push(t2.drop_last(), t2.last(), has_key(k));
            assert(t1.filter(has_key(k)).len() == 0);
        }
        assert(t1 =~= t2);
    } else if t2.len() == 0 {
        let k = sort_key_of(t1.last());
        assert(t1.drop_last().push(t1.last()) =~= t1);
        lemma_filter_push(t1.drop_last(), t1.last(), has_key(k));
        assert(t2.filter(has_key(k)).len() == 0);
    } else {
        let x1 = t1.last();
        let x2 = t2.last();
        let k1 = sort_key_of(x1);
        let k2 = sort_key_of(x2);
        let d1 = t1.drop_last();
        let d2 = t2.drop_last();
        assert(d1.push(x1) =~= t1);
        assert(d2.push(x2) =~= t2);
        lemma_filter_push(d1, x1, has_key(k1));
        lemma_filter_push(d2, x2, has_key(k2));
        assert(t1.filter(has_key(k1)) == t2.filter(has_key(k1)));
        assert(t1.filter(has_key(k2)) == t2.filter(has_key(k2)));
        lemma_key_below_last(t2, k1);
        lemma_key_below_last(t1, k2);
        lemma_lex_le_antisym(k1, k2);
        assert(x1 == t1.filter(has_key(k1)).last());
        assert(x2 == t2.filter(has_key(k1)).last());
        lemma_sorted_drop_last(t1);
        lemma_sorted_drop_last(t2);
        assert forall|k: Seq<char>| #[trigger] d1.filter(has_key(k)) == d2.filter(has_key(k)) by {
            lemma_filter_push(d1, x1, has_key(k));
            lemma_filter_push(d2, x2, has_key(k));
            assert(t1.filter(has_key(k)) == t2.filter(has_key(k)));
            if k == k1 {
                assert(d1.filter(has_key(k)) =~= t1.filter(has_key(k)).drop_last());
                assert(d2.filter(has_key(k)) =~= t2.filter(has_key(k)).drop_last());
            }
        }
        lemma_sorted_same_groups_equal(d1, d2);
    }
}

/// Sorting the discovered sources is determined: two stable sorts by sort
/// key of the same sources are the same sequence.
pub proof fn law_stable_sort_is_determined(s: Seq<SourceView>, t1: Seq<SourceView>, t2: Seq<SourceView>)
    requires
        stably_sorted(s, t1),
        stably_sorted(s, t2),
    ensures
        t1 == t2,
{
    assert forall|k: Seq<char>| #[trigger] t1.filter(has_key(k)) == t2.filter(has_key(k)) by {
        assert(t1.filter(has_key(k)) == s.filter(has_key(k)));
        assert(t2.filter(has_key(k)) == s.filter(has_key(k)));
    }
    lemma_sorted_same_groups_equal(t1, t2);
}

proof fn lemma_dedup_from(s: Seq<SourceView>)
    ensures
        forall|i: int| 0 <= i < dedup(s).len() ==> s.contains(#[trigger] dedup(s)[i]),
        dedup(s).len() > 0 ==> s.len() > 0 && dedup(s).last() == s.last(),
    decreases s.len(),
{
    if s.len() > 0 {
        lemma_dedup_from(s.drop_last());
        let r = dedup(s.drop_last());
        assert forall|i: int| 0 <= i < dedup(s).len() implies s.contains(#[trigger] dedup(s)[i]) by {
            if i < r.len() {
                assert(dedup(s)[i] == r[i]);
                let j = choose|j: int| 0 <= j < s.drop_last().len() && s.drop_last()[j] == r[i];
                assert(s[j] == r[i]);
            } else {
                assert(dedup(s)[i] == s.last());
                assert(s[s.len() - 1] == s.last());
            }
        }
    }
}

/// The discovered sources come out sorted by key, with no source twice in
/// a row: removing neighbouring duplicates from a stable sort keeps it
/// sorted and leaves no equal neighbours.
pub proof fn law_discovered_sources_sorted_without_repeats(s: Seq<SourceView>, t: Seq<SourceView>)
    requires
        stably_sorted(s, t),
    ensures
        sorted_by_key(dedup(t)),
        forall|i: int| 0 <= i < dedup(t).len() - 1 ==> dedup(t)[i] != #[trigger] dedup(t)[i + 1],
{
    lemma_dedup_sorted(t);
}

proof fn lemma_dedup_sorted(t: Seq<SourceView>)
    requires
        sorted_by_key(t),
    ensures
        sorted_by_key(dedup(t)),
        forall|i: int| 0 <= i < dedup(t).len() - 1 ==> dedup(t)[i] != #[trigger] dedup(t)[i + 1],
    decreases t.len(),
{
    if t.len() > 0 {
        let d = t.drop_last();
        let x = t.last();
        lemma_sorted_drop_last(t);
        lemma_dedup_sorted(d);
        lemma_dedup_from(d);
        let r = dedup(d);
        if !(r.len() > 0 && r.last() == x) {
            let out = r.push(x);
            assert(dedup(t) == out);
            assert forall|i: int, j: int| 0 <= i < j < out.len() implies lex_le(
                sort_key_of(#[trigger] out[i]),
                sort_key_of(#[trigger] out[j]),
            ) by {
                if j == out.len() - 1 {
                    assert(out[i] == r[i]);
                    assert(d.contains(r[i]));
                    let m = choose|m: int| 0 <= m < d.len() && d[m] == r[i];
                    assert(t[m] == d[m]);
                    assert(t[t.len() - 1] == x);
                } else {
                    assert(out[i] == r[i] && out[j] == r[j]);
                }
            }
            assert forall|i: int| 0 <= i < out.len() - 1 implies out[i] != #[trigger] out[i + 1] by {
                if i == out.len() - 2 {
                    assert(out[i] == r.last());
                } else {
                    assert(out[i] == r[i] && out[i + 1] == r[i + 1]);
                }
            }
        }
    }
}

proof fn lemma_order_unique(scores: Seq<Option<i64>>, o1: Seq<usize>, o2: Seq<usize>)
    requires
        forall|a: int, b: int|
            0 <= a < b < o1.len() ==> ranks_before(scores, #[trigger] o1[a] as int, #[trigger] o1[b] as int),
        forall|a: int, b: int|
            0 <= a < b < o2.len() ==> ranks_before(scores, #[trigger] o2[a] as int, #[trigger] o2[b] as int),
        forall|x: usize| o1.contains(x) <==> o2.contains(x),
    ensures
        o1 == o2,
    decreases o1.len(),
{
    if o1.len() == 0 {
        if o2.len() > 0 {
            assert(o2.contains(o2[0]));
        }
        assert(o1 =~= o2);
    } else if o2.len() == 0 {
        assert(o1.contains(o1[0]));
    } else {
        let x1 = o1[0];
        let x2 = o2[0];
        assert(o1.contains(x1));
        assert(o2.contains(x2));
        let k = choose|k: int| 0 <= k < o2.len() && o2[k] == x1;
        let m = choose|m: int| 0 <= m < o1.len() && o1[m] == x2;
        if k > 0 && m > 0 {
            assert(ranks_before(scores, x2 as int, x1 as int));
            assert(ranks_before(scores, x1 as int, x2 as int));
        }
        assert(x1 == x2);
        let r1 = o1.drop_first();
        let r2 = o2.drop_first();
        assert forall|x: usize| r1.contains(x) <==> r2.contains(x) by {
            if r1.contains(x) {
                let i = choose|i: int| 0 <= i < r1.len() && r1[i] == x;
                assert(o1[i + 1] == x);
                assert(o1.contains(x));
                let j = choose|j: int| 0 <= j < o2.len() && o2[j] == x;
                if j == 0 {
                    assert(ranks_before(scores, o1[0] as int, o1[i + 1] as int));
                }
                assert(r2[j - 1] == x);
            }
            if r2.contains(x) {
                let i = choose|i: int| 0 <= i < r2.len() && r2[i] == x;
                assert(o2[i + 1] == x);
                assert(o2.contains(x));
                let j = choose|j: int| 0 <= j < o1.len() && o1[j] == x;
                if j == 0 {
                    assert(ranks_before(scores, o2[0] as int, o2[i + 1] as int));
                }
                assert(r1[j - 1] == x);
            }
        }
        assert forall|a: int, b: int| 0 <= a < b < r1.len() implies ranks_before(
            scores,
            #[trigger] r1[a] as int,
            #[trigger] r1[b] as int,
        ) by {
            assert(r1[a] == o1[a + 1] && r1[b] == o1[b + 1]);
        }
        assert forall|a: int, b: int| 0 <= a < b < r2.len() implies ranks_before(
            scores,
            #[trigger] r2[a] as int,
            #[trigger] r2[b] as int,
        ) by {
            assert(r2[a] == o2[a + 1] && r2[b] == o2[b + 1]);
        }
        lemma_order_unique(scores, r1, r2);
        assert(o1 =~= seq![x1] + r1);
        assert(o2 =~= seq![x2] + r2);
    }
}

/// The picker's order is determined: two lists that each hold every
/// matching log once, best score first, are the same list.
pub proof fn law_picker_order_is_determined(scores: Seq<Option<i64>>, o1: Seq<usize>, o2: Seq<usize>)
    requires
        is_ranking(scores, o1),
        is_ranking(scores, o2),
    ensures
        o1 == o2,
{
    assert forall|x: usize| o1.contains(x) <==> o2.contains(x) by {
        if o1.contains(x) {
            let k = choose|k: int| 0 <= k < o1.len() && o1[k] == x;
            assert(scores[o1[k] as int] is Some);
            assert(scores[x as int] is Some);
        }
        if o2.contains(x) {
            let k = choose|k: int| 0 <= k < o2.len() && o2[k] == x;
            assert(scores[o2[k] as int] is Some);
            assert(scores[x as int] is Some);
        }
    }
    lemma_order_unique(scores, o1, o2);
}


/// Searching forward and then backward comes back: when the view is on a
/// matching line `a` and the next match is `b`, the previous match from
/// `b` is `a` again (the lines unchanged).
pub proof fn law_next_then_previous_match_returns(search: SearchState, lines: Seq<Seq<char>>, a: int, b: int)
    requires
        0 <= a < lines.len(),
        search.accepts(lines[a]),
        search.next_match_index(lines, a) == Some(b),
    ensures
        search.prev_match_index(lines, b) == Some(a),
{
    let len = lines.len() as int;
    let sf = SearchState::forward_start(a, len);
    let k = choose|k: int| search.forward_hit(lines, a, k);
    assert(search.forward_hit(lines, a, k));
    assert(b == ring_forward(sf, k, len));
    let sb = SearchState::backward_start(b, len);
    assert(0 <= b < len);
    assert forall|j: int| 0 <= j < k implies ring_backward(sb, j, len) == ring_forward(sf, k - 1 - j, len) by {
    }
    assert(ring_backward(sb, k, len) == a);
    assert(search.backward_hit(lines, b, k)) by {
        assert forall|j: int| 0 <= j < k implies !search.accepts(#[trigger] lines[ring_backward(sb, j, len)]) by {
            assert(ring_backward(sb, j, len) == ring_forward(sf, k - 1 - j, len));
            assert(!search.accepts(lines[ring_forward(sf, k - 1 - j, len)]));
        }
    }
    let c = choose|c: int| search.backward_hit(lines, b, c);
    assert(search.backward_hit(lines, b, c));
    if c < k {
        assert(!search.accepts(lines[ring_backward(sb, c, len)]));
    } else if c > k {
        assert(!search.accepts(lines[ring_backward(sb, k, len)]));
    }
}


/// Toggling live following twice gives the old setting back, and leaves
/// the view on the last line (one of the two toggles switched it on).
pub proof fn law_toggle_twice_restores_live(v: LogViewer, w: LogViewer, x: LogViewer)
    requires
        toggled(&v, &w),
        toggled(&w, &x),
    ensures
        x.live == v.live,
        x.buffer == v.buffer,
        x.scroll as int == last_line(v.buffer@.len() as int),
{
}


/// Where a POSIX shell reading a word stands: outside quotes, inside
/// single quotes, or inside double quotes.
pub enum QuoteState {
    Bare,
    Single,
    Double,
}

/// One character read by the shell: quotes open and close quoting and are
/// dropped; inside single quotes every other character stands for itself,
/// and so does a single quote inside double quotes.
pub open spec fn read_char(st: (QuoteState, Seq<char>), c: char) -> (QuoteState, Seq<char>) {
    let (q, out) = st;
    match q {
        QuoteState::Bare => if c == '\'' {
            (QuoteState::Single, out)
        } else if c == '"' {
            (QuoteState::Double, out)
        } else {
            (QuoteState::Bare, out.push(c))
        },
        QuoteState::Single => if c == '\'' {
            (QuoteState::Bare, out)
        } else {
            (QuoteState::Single, out.push(c))
        },
        QuoteState::Double => if c == '"' {
            (QuoteState::Bare, out)
        } else {
            (QuoteState::Double, out.push(c))
        },
    }
}

/// Reading `w` from state `st`, one character after the other.
pub open spec fn read_from(st: (QuoteState, Seq<char>), w: Seq<char>) -> (QuoteState, Seq<char>)
    decreases w.len(),
{
    if w.len() == 0 {
        st
    } else {
        read_char(read_from(st, w.drop_last()), w.last())
    }
}

/// The text the shell makes of the word `w`, and whether all its quotes
/// are closed.
pub open spec fn shell_reads(w: Seq<char>) -> (QuoteState, Seq<char>) {
    read_from((QuoteState::Bare, Seq::empty()), w)
}

proof fn lemma_read_from_concat(st: (QuoteState, Seq<char>), a: Seq<char>, b: Seq<char>)
    ensures
        read_from(st, a + b) == read_from(read_from(st, a), b),
    decreases b.len(),
{
    if b.len() == 0 {
        assert(a + b =~= a);
    } else {
        assert((a + b).drop_last() =~= a + b.drop_last());
        assert((a + b).last() == b.last());
        lemma_read_from_concat(st, a, b.drop_last());
    }
}

proof fn lemma_read_push(st: (QuoteState, Seq<char>), w: Seq<char>, c: char)
    ensures
        read_from(st, w.push(c)) == read_char(read_from(st, w), c),
{
    assert(w.push(c).drop_last() =~= w);
}

proof fn lemma_read_quote_body(s: Seq<char>, out: Seq<char>)
    ensures
        read_from((QuoteState::Single, out), quote_body(s)) == (QuoteState::Single, out + s),
    decreases s.len(),
{
    if s.len() == 0 {
        assert(out + s =~= out);
    } else {
        let front = s.drop_last();
        let c = s.last();
        lemma_read_quote_body(front, out);
        let mid = (QuoteState::Single, out + front);
        let e = Seq::<char>::empty();
        if c == '\'' {
            reveal_strlit("'\"'\"'");
            let piece = e.push('\'').push('"').push('\'').push('"').push('\'');
            assert("'\"'\"'"@ =~= piece);
            assert(quote_body(s) == quote_body(front) + piece);
            lemma_read_from_concat((QuoteState::Single, out), quote_body(front), piece);
            lemma_read_push(mid, e, '\'');
            lemma_read_push(mid, e.push('\''), '"');
            lemma_read_push(mid, e.push('\'').push('"'), '\'');
            lemma_read_push(mid, e.push('\'').push('"').push('\''), '"');
            lemma_read_push(mid, e.push('\'').push('"').push('\'').push('"'), '\'');
        } else {
            let piece = e.push(c);
            assert(quote_body(s) == quote_body(front) + piece);
            lemma_read_from_concat((QuoteState::Single, out), quote_body(front), piece);
            lemma_read_push(mid, e, c);
        }
        assert((out + front).push(c) =~= out + s);
    }
}

/// A word that `shell_escape` puts in quotes reads back as the text it
/// was made from, with every quote closed.
pub proof fn law_quoted_word_reads_back(s: Seq<char>)
    requires
        needs_quotes(s),
    ensures
        shell_reads(shell_word(s)) == (QuoteState::Bare, s),
{
    reveal_strlit("'");
    let e = Seq::<char>::empty();
    let q = e.push('\'');
    assert("'"@ =~= q);
    let start = (QuoteState::Bare, e);
    lemma_read_from_concat(start, q + quote_body(s), q);
    lemma_read_from_concat(start, q, quote_body(s));
    lemma_read_push(start, e, '\'');
    lemma_read_quote_body(s, e);
    assert(e + s =~= s);
    lemma_read_push((QuoteState::Single, s), e, '\'');
}


/// The picker's search text is the label, a space, then the raw source,
/// whatever the kind of source: a file's search text ends with its whole
/// path, a container's with `name (image)`, a unit's with its name. So a
/// filter that matches the raw source finds the log.
pub proof fn law_search_text_is_label_then_source(s: SourceView)
    ensures
        has_prefix(search_text_of(s), display_text(s) + " "@),
        match s {
            SourceView::File { path } => {
                &&& has_suffix(search_text_of(s), path)
                &&& search_text_of(s).len() == display_text(s).len() + 1 + path.len()
            },
            SourceView::Docker { container, image } => {
                &&& has_suffix(search_text_of(s), container + " ("@ + image + ")"@)
                &&& search_text_of(s).len() == display_text(s).len() + 1 + (container + " ("@
                    + image + ")"@).len()
            },
            SourceView::Journal { unit } => {
                &&& has_suffix(search_text_of(s), unit)
                &&& search_text_of(s).len() == display_text(s).len() + 1 + unit.len()
            },
        },
{
    reveal_strlit(" ");
    let head = display_text(s) + " "@;
    let raw = match s {
        SourceView::File { path } => path,
        SourceView::Docker { container, image } => container + " ("@ + image + ")"@,
        SourceView::Journal { unit } => unit,
    };
    assert(search_text_of(s) == head + raw);
    assert((head + raw).take(head.len() as int) =~= head);
    assert((head + raw).skip((head + raw).len() - raw.len()) =~= raw);
}

proof fn lemma_in_dedup(t: Seq<SourceView>, x: SourceView)
    requires
        t.contains(x),
    ensures
        dedup(t).contains(x),
    decreases t.len(),
{
    let d = t.drop_last();
    let r = dedup(d);
    if x == t.last() {
        if r.len() > 0 && r.last() == t.last() {
            assert(dedup(t)[r.len() - 1] == x);
        } else {
            assert(dedup(t)[r.len() as int] == x);
        }
    } else {
        let i = choose|i: int| 0 <= i < t.len() && t[i] == x;
        assert(d[i] == x);
        lemma_in_dedup(d, x);
        let j = choose|j: int| 0 <= j < r.len() && r[j] == x;
        assert(dedup(t)[j] == x);
    }
}

proof fn lemma_in_four(a: Seq<SourceView>, b: Seq<SourceView>, c: Seq<SourceView>, d: Seq<SourceView>, x: SourceView)
    ensures
        (a + b + c + d).contains(x) <==> (a.contains(x) || b.contains(x) || c.contains(x)
            || d.contains(x)),
{
    let s = a + b + c + d;
    if s.contains(x) {
        let i = choose|i: int| 0 <= i < s.len() && s[i] == x;
        if i < a.len() {
            assert(a[i] == x);
        } else if i < a.len() + b.len() {
            assert(b[i - a.len()] == x);
        } else if i < a.len() + b.len() + c.len() {
            assert(c[i - a.len() - b.len()] == x);
        } else {
            assert(d[i - a.len() - b.len() - c.len()] == x);
        }
    }
    if a.contains(x) {
        let i = choose|i: int| 0 <= i < a.len() && a[i] == x;
        assert(s[i] == x);
    }
    if b.contains(x) {
        let i = choose|i: int| 0 <= i < b.len() && b[i] == x;
        assert(s[a.len() + i] == x);
    }
    if c.contains(x) {
        let i = choose|i: int| 0 <= i < c.len() && c[i] == x;
        assert(s[a.len() + b.len() + i] == x);
    }
    if d.contains(x) {
        let i = choose|i: int| 0 <= i < d.len() && d[i] == x;
        assert(s[a.len() + b.len() + c.len() + i] == x);
    }
}

/// Discovery loses no log and makes none up: after the stable sort and
/// the removal of neighbouring duplicates, a source is in the result
/// exactly when one of the four steps (system logs, containers, /opt logs,
/// units) found it.
pub proof fn law_discovery_keeps_every_found_source(
    system: Result<Vec<crate::discovery::LogSource>, String>,
    docker: Result<Vec<crate::discovery::LogSource>, String>,
    opt: Result<Vec<crate::discovery::LogSource>, String>,
    journal: Result<Vec<crate::discovery::LogSource>, String>,
    t: Seq<SourceView>,
)
    requires
        stably_sorted(all_found(system, docker, opt, journal), t),
    ensures
        forall|x: SourceView|
            #![trigger dedup(t).contains(x)]
            #![trigger found_sources(system).contains(x)]
            #![trigger found_sources(docker).contains(x)]
            #![trigger found_sources(opt).contains(x)]
            #![trigger found_sources(journal).contains(x)]
            dedup(t).contains(x) <==> (found_sources(system).contains(x) || found_sources(
                docker,
            ).contains(x) || found_sources(opt).contains(x) || found_sources(journal).contains(x)),
{
    let s = all_found(system, docker, opt, journal);
    lemma_dedup_from(t);
    assert forall|x: SourceView|
        dedup(t).contains(x) <==> (found_sources(system).contains(x) || found_sources(
            docker,
        ).contains(x) || found_sources(opt).contains(x) || found_sources(journal).contains(x)) by {
        lemma_in_four(
            found_sources(system),
            found_sources(docker),
            found_sources(opt),
            found_sources(journal),
            x,
        );
        let p = has_key(sort_key_of(x));
        assert(t.filter(p) == s.filter(p));
        if dedup(t).contains(x) {
            let i = choose|i: int| 0 <= i < dedup(t).len() && dedup(t)[i] == x;
            assert(t.contains(dedup(t)[i]));
            let j = choose|j: int| 0 <= j < t.len() && t[j] == x;
            t.lemma_filter_contains(p, j);
            s.lemma_filter_contains_rev(p, x);
        }
        if s.contains(x) {
            let j = choose|j: int| 0 <= j < s.len() && s[j] == x;
            s.lemma_filter_contains(p, j);
            t.lemma_filter_contains_rev(p, x);
            lemma_in_dedup(t, x);
        }
    }
}

/// A paused view keeps its line when a line arrives: the view stays on the
/// same line, one place up when the oldest line was dropped to make room;
/// only when the line it was on is the one dropped does it stay at the top.
pub proof fn law_paused_view_keeps_its_line(b: BufferState, line: String, max_lines: int)
    requires
        !b.live,
        !has_prefix(line@, stderr_marker()),
        0 <= b.scroll < b.lines.len(),
    ensures
        !receive(b, line, max_lines).live,
        b.lines.len() < max_lines ==> receive(b, line, max_lines).scroll == b.scroll,
        b.lines.len() >= max_lines && b.scroll > 0 ==> receive(b, line, max_lines).scroll
            == b.scroll - 1,
        b.lines.len() >= max_lines && b.scroll == 0 ==> receive(b, line, max_lines).scroll == 0,
        !(b.lines.len() >= max_lines && b.scroll == 0) ==> {
            let a = receive(b, line, max_lines);
            &&& 0 <= a.scroll < a.lines.len()
            &&& a.lines[a.scroll] == b.lines[b.scroll]
        },
{
}

/// On the picker the up keys undo the down keys: pressing Down (or `j`)
/// and then Up (or `k`), or the other way round, brings the selection back
/// to the entry it was on.
pub proof fn law_picker_up_undoes_down(
    a: App,
    b: App,
    c: App,
    has_viewer: bool,
    first: KeyInput,
    second: KeyInput,
)
    requires
        a.screen == Screen::Picker,
        0 <= a.selected_index < a.filtered_indices@.len(),
        (first.key == Key::Down || first.key == Key::Char('j')) && (second.key == Key::Up
            || second.key == Key::Char('k')) || (first.key == Key::Up || first.key == Key::Char('k'))
            && (second.key == Key::Down || second.key == Key::Char('j')),
        command_effect(&a, &b, command_spec(a.screen, has_viewer, first)),
        command_effect(&b, &c, command_spec(b.screen, has_viewer, second)),
    ensures
        c.selected_index == a.selected_index,
        c.screen == Screen::Picker,
        c.filtered_indices == a.filtered_indices,
{
    assert(a.filtered_indices.len() == a.filtered_indices@.len());
    law_selection_moves_undo(a.selected_index as int, a.filtered_indices@.len() as int);
}

/// `host()` skips the separate value of each of ssh's value-taking options
/// `-p -P -i -l -F -o -W -D -L -R -J -c -m -Q -w -b -e -E`: the option and
/// its value in front of the other arguments change nothing, so in
/// `["-o", value, host]` the host is `host`, whatever the value.
pub proof fn law_host_skips_option_values(c: char, value: Seq<char>, rest: Seq<Seq<char>>)
    requires
        c == 'p' || c == 'P' || c == 'i' || c == 'l' || c == 'F' || c == 'o' || c == 'W' || c
            == 'D' || c == 'L' || c == 'R' || c == 'J' || c == 'c' || c == 'm' || c == 'Q' || c
            == 'w' || c == 'b' || c == 'e' || c == 'E',
    ensures
        host_arg(seq![seq!['-', c], value] + rest) == host_arg(rest),
        rest.len() > 0 && !(rest[0].len() > 0 && rest[0][0] == '-') ==> host_arg(
            seq![seq!['-', c], value] + rest,
        ) == Some(rest[0]),
{
    reveal_strlit("-");
    let args = seq![seq!['-', c], value] + rest;
    assert(args[0] == seq!['-', c]);
    assert(args[0].take(1) =~= "-"@);
    assert(args.skip(2) =~= rest);
    if rest.len() > 0 && !(rest[0].len() > 0 && rest[0][0] == '-') {
        assert(!has_prefix(rest[0], "-"@)) by {
            if rest[0].len() > 0 {
                assert(rest[0].take(1)[0] == rest[0][0]);
            }
        }
    }
}

} // verus!
