use regex::{Regex, RegexBuilder};
use vstd::prelude::*;

use crate::text::string_views;

verus! {

#[verifier::external_type_specification]
#[verifier::external_body]
pub struct ExRegex(Regex);

/// Whether `RegexBuilder::new(pattern).case_insensitive(true).build()`
/// accepts `pattern` (the regex crate's syntax and size limits decide).
pub uninterp spec fn regex_builds(pattern: Seq<char>) -> bool;

/// Whether the case-insensitive regex built from `pattern` matches
/// somewhere in `haystack`, as `Regex::is_match` reports it.
pub uninterp spec fn regex_is_match(pattern: Seq<char>, haystack: Seq<char>) -> bool;

/// The characters that `regex::escape` protects with a backslash
/// (`regex_syntax::is_meta_character`).
pub open spec fn is_meta(c: char) -> bool {
    ||| c == '\\'
    ||| c == '.'
    ||| c == '+'
    ||| c == '*'
    ||| c == '?'
    ||| c == '('
    ||| c == ')'
    ||| c == '|'
    ||| c == '['
    ||| c == ']'
    ||| c == '{'
    ||| c == '}'
    ||| c == '^'
    ||| c == '$'
    ||| c == '#'
    ||| c == '&'
    ||| c == '-'
    ||| c == '~'
}

/// `s` with a backslash put before each meta character: a pattern that
/// matches `s` literally.
pub open spec fn escaped(s: Seq<char>) -> Seq<char>
    decreases s.len(),
{
    if s.len() == 0 {
        Seq::empty()
    } else if is_meta(s.last()) {
        escaped(s.drop_last()).push('\\').push(s.last())
    } else {
        escaped(s.drop_last()).push(s.last())
    }
}

/// `regex::escape`: the source pushes `'\\'` before every meta character
/// and copies every character, which is what `escaped` states.
#[verifier::external_body]
fn regex_escape(s: &str) -> (r: String)
    ensures
        r@ == escaped(s@),
{
    regex::escape(s)
}

/// A case-insensitive regex together with the pattern it was built from.
/// Values are made only by [`LineRegex::build`].
pub struct LineRegex {
    re: Regex,
    pattern: Ghost<Seq<char>>,
}

impl LineRegex {
    /// The pattern this regex was built from.
    pub closed spec fn pattern(&self) -> Seq<char> {
        self.pattern@
    }

    /// `RegexBuilder::new(pattern).case_insensitive(true).build()`:
    /// trusted to succeed exactly when `regex_builds(pattern)`; the regex
    /// is kept beside the pattern it came from.
    #[verifier::external_body]
    fn build(pattern: &str) -> (r: Option<LineRegex>)
        ensures
            r is Some <==> regex_builds(pattern@),
            r matches Some(re) ==> re.pattern() == pattern@,
    {
        match RegexBuilder::new(pattern).case_insensitive(true).build() {
            Ok(re) => Some(LineRegex { re, pattern: Ghost(pattern@) }),
            Err(_) => None,
        }
    }

    /// `Regex::is_match` on the held regex: trusted to be
    /// `regex_is_match` of the pattern the regex was built from.
    #[verifier::external_body]
    pub(crate) fn is_match(&self, haystack: &str) -> (r: bool)
        ensures
            r == regex_is_match(self.pattern(), haystack@),
    {
        self.re.is_match(haystack)
    }
}

/// A search over log lines: a query, taken as a regex or as literal text,
/// always matched without regard to case.
#[derive(Debug, Clone)]
pub struct SearchState {
    pub query: String,
    pub is_regex: bool,
}

impl Default for SearchState {
    fn default() -> (r: Self)
        ensures
            r.query@ == Seq::<char>::empty(),
            r.is_regex,
    {
        SearchState { query: String::new(), is_regex: true }
    }
}

/// Position `k` steps forward from `start` in a ring of `len` slots.
pub open spec fn ring_forward(start: int, k: int, len: int) -> int {
    if start + k < len {
        start + k
    } else {
        start + k - len
    }
}

/// Position `k` steps backward from `start` in a ring of `len` slots.
pub open spec fn ring_backward(start: int, k: int, len: int) -> int {
    if k <= start {
        start - k
    } else {
        start - k + len
    }
}

impl SearchState {
    /// The regex source for the query: the query itself, or its escaped
    /// form when the query is literal text.
    pub open spec fn pattern_text(self) -> Seq<char> {
        if self.is_regex {
            self.query@
        } else {
            escaped(self.query@)
        }
    }

    /// Whether the query is active: not empty, and its pattern builds.
    pub open spec fn compiles(self) -> bool {
        self.query@.len() > 0 && regex_builds(self.pattern_text())
    }

    /// Whether `line` passes the search: every line does when the query
    /// is inactive.
    pub open spec fn accepts(self, line: Seq<char>) -> bool {
        if self.compiles() {
            regex_is_match(self.pattern_text(), line)
        } else {
            true
        }
    }

    /// Where a forward search from `from` starts in `len` lines.
    pub open spec fn forward_start(from: int, len: int) -> int {
        if from + 1 >= len {
            0
        } else {
            from + 1
        }
    }

    /// Where a backward search from `from` starts in `len` lines.
    pub open spec fn backward_start(from: int, len: int) -> int {
        if from == 0 {
            len - 1
        } else {
            from - 1
        }
    }

    /// Whether `k` is the first step, going forward from `from` around
    /// `lines`, that reaches a line the search accepts.
    pub open spec fn forward_hit(self, lines: Seq<Seq<char>>, from: int, k: int) -> bool {
        let len = lines.len() as int;
        let start = Self::forward_start(from, len);
        &&& 0 <= k < len
        &&& self.accepts(lines[ring_forward(start, k, len)])
        &&& forall|j: int| 0 <= j < k ==> !self.accepts(#[trigger] lines[ring_forward(start, j, len)])
    }

    /// The line that a forward search from `from` lands on: none when the
    /// query is inactive or no line matches.
    pub open spec fn next_match_index(self, lines: Seq<Seq<char>>, from: int) -> Option<int> {
        let len = lines.len() as int;
        if self.compiles() && exists|k: int| self.forward_hit(lines, from, k) {
            Some(
                ring_forward(
                    Self::forward_start(from, len),
                    choose|k: int| self.forward_hit(lines, from, k),
                    len,
                ),
            )
        } else {
            None
        }
    }

    /// Whether `k` is the first step, going backward from `from` around
    /// `lines`, that reaches a line the search accepts.
    pub open spec fn backward_hit(self, lines: Seq<Seq<char>>, from: int, k: int) -> bool {
        let len = lines.len() as int;
        let start = Self::backward_start(from, len);
        &&& 0 <= k < len
        &&& self.accepts(lines[ring_backward(start, k, len)])
        &&& forall|j: int| 0 <= j < k ==> !self.accepts(#[trigger] lines[ring_backward(start, j, len)])
    }

    /// The line that a backward search from `from` lands on: none when the
    /// query is inactive or no line matches.
    pub open spec fn prev_match_index(self, lines: Seq<Seq<char>>, from: int) -> Option<int> {
        let len = lines.len() as int;
        if self.compiles() && exists|k: int| self.backward_hit(lines, from, k) {
            Some(
                ring_backward(
                    Self::backward_start(from, len),
                    choose|k: int| self.backward_hit(lines, from, k),
                    len,
                ),
            )
        } else {
            None
        }
    }

    proof fn lemma_forward_hit_unique(self, lines: Seq<Seq<char>>, from: int, k1: int, k2: int)
        requires
            self.forward_hit(lines, from, k1),
            self.forward_hit(lines, from, k2),
        ensures
            k1 == k2,
    {
    }

    proof fn lemma_backward_hit_unique(self, lines: Seq<Seq<char>>, from: int, k1: int, k2: int)
        requires
            self.backward_hit(lines, from, k1),
            self.backward_hit(lines, from, k2),
        ensures
            k1 == k2,
    {
    }

    /// Builds the regex for the query: none for an empty query or a
    /// pattern that does not build.
    pub fn compile(&self) -> (r: Option<LineRegex>)
        ensures
            r is Some <==> self.compiles(),
            r matches Some(re) ==> re.pattern() == self.pattern_text(),
    {
        if self.query.as_str().is_empty() {
            return None;
        }
        let pattern = if self.is_regex {
            self.query.clone()
        } else {
            regex_escape(self.query.as_str())
        };
        LineRegex::build(pattern.as_str())
    }

    /// Whether `line` passes the search (see [`SearchState::accepts`]).
    pub fn matches(&self, line: &str) -> (r: bool)
        ensures
            r == self.accepts(line@),
    {
        match self.compile() {
            Some(re) => re.is_match(line),
            None => true,
        }
    }

    /// The first matching line going forward from just after `from`,
    /// wrapping around once; none when the query is inactive or no line
    /// matches.
    pub fn next_match(&self, lines: &[String], from: usize) -> (r: Option<usize>)
        requires
            self.compiles() ==> lines@.len() > 0 && from < usize::MAX,
        ensures
            match r {
                Some(i) => self.next_match_index(string_views(lines@), from as int) == Some(
                    i as int,
                ),
                None => self.next_match_index(string_views(lines@), from as int) is None,
            },
    {
        let ghost ls = string_views(lines@);
        let re = match self.compile() {
            Some(re) => re,
            None => return None,
        };
        let len = lines.len();
        let ghost ilen = len as int;
        let mut idx = from + 1;
        if idx >= len {
            idx = 0;
        }
        let start = idx;
        let mut k: usize = 0;
        while k < len
            invariant
                len == lines@.len(),
                ls == string_views(lines@),
                ilen == len as int,
                len > 0,
                start == Self::forward_start(from as int, ilen),
                start < len,
                k <= len,
                k < len ==> idx < len,
                idx == ring_forward(start as int, k as int, ilen),
                self.compiles(),
                re.pattern() == self.pattern_text(),
                forall|j: int|
                    0 <= j < k ==> !self.accepts(#[trigger] ls[ring_forward(start as int, j, ilen)]),
            decreases len - k,
        {
            if re.is_match(lines[idx].as_str()) {
                proof {
                    assert(ls[idx as int] == lines@[idx as int]@);
                    assert(self.forward_hit(ls, from as int, k as int));
                    let c = choose|c: int| self.forward_hit(ls, from as int, c);
                    self.lemma_forward_hit_unique(ls, from as int, k as int, c);
                }
                return Some(idx);
            }
            assert(ls[idx as int] == lines@[idx as int]@);
            idx = idx + 1;
            if idx == len {
                idx = 0;
            }
            k = k + 1;
        }
        assert forall|c: int| !self.forward_hit(ls, from as int, c) by {
            if 0 <= c < ilen {
                assert(!self.accepts(ls[ring_forward(start as int, c, ilen)]));
            }
        }
        None
    }

    /// The first matching line going backward from just before `from`,
    /// wrapping around once; none when the query is inactive, there are
    /// no lines, or no line matches.
    pub fn prev_match(&self, lines: &[String], from: usize) -> (r: Option<usize>)
        requires
            self.compiles() ==> lines@.len() == 0 || from <= lines@.len(),
        ensures
            match r {
                Some(i) => self.prev_match_index(string_views(lines@), from as int) == Some(
                    i as int,
                ),
                None => self.prev_match_index(string_views(lines@), from as int) is None,
            },
    {
        let ghost ls = string_views(lines@);
        let re = match self.compile() {
            Some(re) => re,
            None => return None,
        };
        let len = lines.len();
        if len == 0 {
            return None;
        }
        let ghost ilen = len as int;
        let mut idx = if from == 0 {
            len - 1
        } else {
            from - 1
        };
        let start = idx;
        let mut k: usize = 0;
        while k < len
            invariant
                len == lines@.len(),
                ls == string_views(lines@),
                ilen == len as int,
                len > 0,
                start == Self::backward_start(from as int, ilen),
                start < len,
                k <= len,
                k < len ==> idx < len,
                idx == ring_backward(start as int, k as int, ilen),
                self.compiles(),
                re.pattern() == self.pattern_text(),
                forall|j: int|
                    0 <= j < k ==> !self.accepts(#[trigger] ls[ring_backward(start as int, j, ilen)]),
            decreases len - k,
        {
            if re.is_match(lines[idx].as_str()) {
                proof {
                    assert(ls[idx as int] == lines@[idx as int]@);
                    assert(self.backward_hit(ls, from as int, k as int));
                    let c = choose|c: int| self.backward_hit(ls, from as int, c);
                    self.lemma_backward_hit_unique(ls, from as int, k as int, c);
                }
                return Some(idx);
            }
            assert(ls[idx as int] == lines@[idx as int]@);
            if idx == 0 {
                idx = len - 1;
            } else {
                idx = idx - 1;
            }
            k = k + 1;
        }
        assert forall|c: int| !self.backward_hit(ls, from as int, c) by {
            if 0 <= c < ilen {
                assert(!self.accepts(ls[ring_backward(start as int, c, ilen)]));
            }
        }
        None
    }
}

} // verus!
