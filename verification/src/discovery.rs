use vstd::prelude::*;

use crate::text::{
    chars_equal, chars_of, contains_char, ends_with, first_word, first_word_of, has_prefix,
    has_suffix, lines, lines_of, push_str, split, split_on, starts_with,
    string_of, trim, trim_chars, views, decode_lossy, utf8_lossy, lex_le, lex_le_chars,
    lemma_lex_le_refl, lemma_lex_le_total, lemma_lex_le_trans, string_views,
};

verus! {

broadcast use vstd::string::group_string_axioms;

/// Where a log comes from on the remote machine.
#[derive(Debug, Clone, PartialEq, Eq, Hash)]
pub enum LogSource {
    File { path: String },
    Docker { container: String, image: String },
    Journal { unit: String },
}

/// A log source as plain text values.
pub enum SourceView {
    File { path: Seq<char> },
    Docker { container: Seq<char>, image: Seq<char> },
    Journal { unit: Seq<char> },
}

impl View for LogSource {
    type V = SourceView;

    open spec fn view(&self) -> SourceView {
        match self {
            LogSource::File { path } => SourceView::File { path: path@ },
            LogSource::Docker { container, image } => SourceView::Docker {
                container: container@,
                image: image@,
            },
            LogSource::Journal { unit } => SourceView::Journal { unit: unit@ },
        }
    }
}

/// The contents of each log source.
pub open spec fn source_views(v: Seq<LogSource>) -> Seq<SourceView> {
    v.map_values(|s: LogSource| s@)
}

/// The last component of `path`, as `Path::file_name` gives it (none for a
/// path that ends in `..` or is a root or prefix).
pub uninterp spec fn path_file_name(path: Seq<char>) -> Option<Seq<char>>;

/// `path` without its last component, as `Path::parent` gives it (none for
/// a root, a prefix or an empty path).
pub uninterp spec fn path_parent(path: Seq<char>) -> Option<Seq<char>>;

/// `Path::file_name` on `path`, read back as text. On Unix the name is a
/// slice of the given `&str`, so the conversion loses nothing.
#[verifier::external_body]
fn file_name_of(path: &str) -> (r: Option<String>)
    ensures
        r matches Some(n) ==> path_file_name(path@) == Some(n@),
        r is None ==> path_file_name(path@) is None,
{
    match std::path::Path::new(path).file_name() {
        Some(name) => Some(name.to_string_lossy().into_owned()),
        None => None,
    }
}

/// `Path::parent` on `path`, read back as text. On Unix the parent is a
/// slice of the given `&str`, so the conversion loses nothing.
#[verifier::external_body]
fn parent_of(path: &str) -> (r: Option<String>)
    ensures
        r matches Some(p) ==> path_parent(path@) == Some(p@),
        r is None ==> path_parent(path@) is None,
{
    match std::path::Path::new(path).parent() {
        Some(parent) => Some(parent.to_string_lossy().into_owned()),
        None => None,
    }
}

/// The category a source is grouped under in the picker.
pub open spec fn category_text(s: SourceView) -> Seq<char> {
    match s {
        SourceView::File { path } => if has_prefix(path, "/opt/"@) {
            "opt"@
        } else if has_prefix(path, "/var/log/"@) {
            "system"@
        } else {
            "other"@
        },
        SourceView::Docker { .. } => "docker"@,
        SourceView::Journal { .. } => "journal"@,
    }
}

/// The label shown for a source in the picker.
pub open spec fn display_text(s: SourceView) -> Seq<char> {
    match s {
        SourceView::File { path } => {
            let base = match path_file_name(path) {
                Some(b) => b,
                None => path,
            };
            match path_parent(path) {
                Some(p) => if p == "/var/log"@ {
                    base + " (system)"@
                } else if has_prefix(p, "/var/log/"@) || has_prefix(p, "/opt/"@) {
                    base + " ("@ + p + ")"@
                } else {
                    base + " ("@ + path + ")"@
                },
                None => base + " ("@ + path + ")"@,
            }
        },
        SourceView::Docker { container, image } => container + " (docker: "@ + image + ")"@,
        SourceView::Journal { unit } => unit + " (journal)"@,
    }
}

/// The raw name of a source: its path, `container (image)`, or its unit.
pub open spec fn source_text(s: SourceView) -> Seq<char> {
    match s {
        SourceView::File { path } => path,
        SourceView::Docker { container, image } => container + " ("@ + image + ")"@,
        SourceView::Journal { unit } => unit,
    }
}

/// The text that the picker's fuzzy filter scores: label and raw name.
pub open spec fn search_text_of(s: SourceView) -> Seq<char> {
    display_text(s) + " "@ + source_text(s)
}

/// The key the discovered sources are sorted by: category, then label.
pub open spec fn sort_key_of(s: SourceView) -> Seq<char> {
    category_text(s) + ":"@ + display_text(s)
}

fn str_has_prefix(s: &str, p: &str) -> (r: bool)
    ensures
        r == has_prefix(s@, p@),
{
    let sc = chars_of(s);
    let pc = chars_of(p);
    starts_with(sc.as_slice(), pc.as_slice())
}

fn str_equal(a: &str, b: &str) -> (r: bool)
    ensures
        r == (a@ == b@),
{
    let ac = chars_of(a);
    let bc = chars_of(b);
    chars_equal(ac.as_slice(), bc.as_slice())
}

impl LogSource {
    /// A copy of this source with the same contents.
    pub fn duplicate(&self) -> (r: LogSource)
        ensures
            r@ == self@,
    {
        match self {
            LogSource::File { path } => LogSource::File { path: path.clone() },
            LogSource::Docker { container, image } => LogSource::Docker {
                container: container.clone(),
                image: image.clone(),
            },
            LogSource::Journal { unit } => LogSource::Journal { unit: unit.clone() },
        }
    }

    /// Whether two sources are the same source.
    pub fn same_as(&self, other: &LogSource) -> (r: bool)
        ensures
            r == (self@ == other@),
    {
        match (self, other) {
            (LogSource::File { path: a }, LogSource::File { path: b }) => str_equal(
                a.as_str(),
                b.as_str(),
            ),
            (
                LogSource::Docker { container: c1, image: i1 },
                LogSource::Docker { container: c2, image: i2 },
            ) => str_equal(c1.as_str(), c2.as_str()) && str_equal(i1.as_str(), i2.as_str()),
            (LogSource::Journal { unit: a }, LogSource::Journal { unit: b }) => str_equal(
                a.as_str(),
                b.as_str(),
            ),
            _ => false,
        }
    }

    /// The category: `opt` or `system` for files under `/opt/` or
    /// `/var/log/`, `other` for other files, `docker`, or `journal`.
    pub fn category(&self) -> (r: &'static str)
        ensures
            r@ == category_text(self@),
    {
        match self {
            LogSource::File { path } => {
                if str_has_prefix(path.as_str(), "/opt/") {
                    "opt"
                } else if str_has_prefix(path.as_str(), "/var/log/") {
                    "system"
                } else {
                    "other"
                }
            },
            LogSource::Docker { .. } => "docker",
            LogSource::Journal { .. } => "journal",
        }
    }

    /// Human-readable label shown in the log picker.
    pub fn display_name(&self) -> (r: String)
        ensures
            r@ == display_text(self@),
    {
        match self {
            LogSource::File { path } => {
                let base = match file_name_of(path.as_str()) {
                    Some(b) => b,
                    None => path.clone(),
                };
                let mut out = base;
                match parent_of(path.as_str()) {
                    Some(parent) => {
                        if str_equal(parent.as_str(), "/var/log") {
                            push_str(&mut out, " (system)");
                            return out;
                        } else if str_has_prefix(parent.as_str(), "/var/log/") || str_has_prefix(
                            parent.as_str(),
                            "/opt/",
                        ) {
                            push_str(&mut out, " (");
                            push_str(&mut out, parent.as_str());
                            push_str(&mut out, ")");
                            return out;
                        }
                    },
                    None => {},
                }
                push_str(&mut out, " (");
                push_str(&mut out, path.as_str());
                push_str(&mut out, ")");
                out
            },
            LogSource::Docker { container, image } => {
                let mut out = container.clone();
                push_str(&mut out, " (docker: ");
                push_str(&mut out, image.as_str());
                push_str(&mut out, ")");
                out
            },
            LogSource::Journal { unit } => {
                let mut out = unit.clone();
                push_str(&mut out, " (journal)");
                out
            },
        }
    }

    /// The raw name of a source: its path, `container (image)`, or its unit.
    pub fn to_string(&self) -> (r: String)
        ensures
            r@ == source_text(self@),
    {
        match self {
            LogSource::File { path } => path.clone(),
            LogSource::Docker { container, image } => {
                let mut out = container.clone();
                push_str(&mut out, " (");
                push_str(&mut out, image.as_str());
                push_str(&mut out, ")");
                out
            },
            LogSource::Journal { unit } => unit.clone(),
        }
    }

    /// Text used for fuzzy searching (label + raw source).
    pub fn search_text(&self) -> (r: String)
        ensures
            r@ == search_text_of(self@),
    {
        let mut out = self.display_name();
        push_str(&mut out, " ");
        let raw = self.to_string();
        push_str(&mut out, raw.as_str());
        out
    }

    /// The key sources are sorted by: `category:label`.
    pub fn sort_key(&self) -> (r: String)
        ensures
            r@ == sort_key_of(self@),
    {
        let mut out = String::new();
        push_str(&mut out, self.category());
        push_str(&mut out, ":");
        let name = self.display_name();
        push_str(&mut out, name.as_str());
        out
    }
}


/// Whether a shell word must be put in single quotes.
pub open spec fn needs_quotes(s: Seq<char>) -> bool {
    s.contains(' ') || s.contains('"') || s.contains('\\') || s.contains('\'')
}

/// `s` with each single quote written as `'"'"'` (close the quotes, a
/// quote in double quotes, reopen).
pub open spec fn quote_body(s: Seq<char>) -> Seq<char>
    decreases s.len(),
{
    if s.len() == 0 {
        Seq::empty()
    } else if s.last() == '\'' {
        quote_body(s.drop_last()) + "'\"'\"'"@
    } else {
        quote_body(s.drop_last()).push(s.last())
    }
}

/// `s` as one word for a POSIX shell.
pub open spec fn shell_word(s: Seq<char>) -> Seq<char> {
    if needs_quotes(s) {
        "'"@ + quote_body(s) + "'"@
    } else {
        s
    }
}

/// Quotes `s` for the remote shell when it holds a space, a quote or a
/// backslash.
pub fn shell_escape(s: &str) -> (r: String)
    ensures
        r@ == shell_word(s@),
{
    let cs = chars_of(s);
    let quote = contains_char(cs.as_slice(), ' ') || contains_char(cs.as_slice(), '"')
        || contains_char(cs.as_slice(), '\\') || contains_char(cs.as_slice(), '\'');
    if !quote {
        return string_of(cs.as_slice());
    }
    let mut out = String::new();
    push_str(&mut out, "'");
    let ghost start = out@;
    for i in 0..cs.len()
        invariant
            out@ == start + quote_body(cs@.take(i as int)),
    {
        assert(cs@.take(i + 1).drop_last() == cs@.take(i as int));
        if cs[i] == '\'' {
            push_str(&mut out, "'\"'\"'");
        } else {
            crate::text::push_char(&mut out, cs[i]);
        }
    }
    assert(cs@.take(cs@.len() as int) == cs@);
    push_str(&mut out, "'");
    out
}

/// The file sources named by lines of `find` output: each line trimmed,
/// blank lines skipped.
pub open spec fn file_entries(ls: Seq<Seq<char>>) -> Seq<SourceView>
    decreases ls.len(),
{
    if ls.len() == 0 {
        Seq::empty()
    } else {
        let rest = file_entries(ls.drop_last());
        let p = trim(ls.last());
        if p.len() > 0 {
            rest.push(SourceView::File { path: p })
        } else {
            rest
        }
    }
}

/// The containers named by lines of `docker ps` output: lines with at
/// least two tab-separated fields give name and image, each trimmed.
pub open spec fn docker_entries(ls: Seq<Seq<char>>) -> Seq<SourceView>
    decreases ls.len(),
{
    if ls.len() == 0 {
        Seq::empty()
    } else {
        let rest = docker_entries(ls.drop_last());
        let parts = split(ls.last(), '\t');
        if parts.len() >= 2 {
            rest.push(SourceView::Docker { container: trim(parts[0]), image: trim(parts[1]) })
        } else {
            rest
        }
    }
}

/// The units named by lines of `systemctl list-units` output: the first
/// word of a line, when it ends in `.service`.
pub open spec fn journal_entries(ls: Seq<Seq<char>>) -> Seq<SourceView>
    decreases ls.len(),
{
    if ls.len() == 0 {
        Seq::empty()
    } else {
        let rest = journal_entries(ls.drop_last());
        match first_word(ls.last()) {
            Some(u) => if has_suffix(u, ".service"@) {
                rest.push(SourceView::Journal { unit: u })
            } else {
                rest
            },
            None => rest,
        }
    }
}

/// The file sources listed in `text`, one path per line.
pub fn parse_file_list(text: &str) -> (r: Vec<LogSource>)
    ensures
        source_views(r@) == file_entries(lines(text@)),
{
    let cs = chars_of(text);
    let ls = lines_of(cs.as_slice());
    let mut out: Vec<LogSource> = Vec::new();
    for i in 0..ls.len()
        invariant
            views(ls@) == lines(cs@),
            source_views(out@) == file_entries(views(ls@).take(i as int)),
    {
        let ghost pre = views(ls@).take(i + 1);
        assert(pre.drop_last() == views(ls@).take(i as int));
        assert(pre.last() == ls@[i as int]@);
        let p = trim_chars(ls[i].as_slice());
        if p.len() > 0 {
            let ghost before = out@;
            out.push(LogSource::File { path: string_of(p.as_slice()) });
            assert(source_views(out@) =~= source_views(before).push(out@.last()@));
        }
    }
    assert(views(ls@).take(ls@.len() as int) == views(ls@));
    out
}

/// The containers listed in `text`, one `name<TAB>image` per line.
pub fn parse_docker_list(text: &str) -> (r: Vec<LogSource>)
    ensures
        source_views(r@) == docker_entries(lines(text@)),
{
    let cs = chars_of(text);
    let ls = lines_of(cs.as_slice());
    let mut out: Vec<LogSource> = Vec::new();
    for i in 0..ls.len()
        invariant
            views(ls@) == lines(cs@),
            source_views(out@) == docker_entries(views(ls@).take(i as int)),
    {
        let ghost pre = views(ls@).take(i + 1);
        assert(pre.drop_last() == views(ls@).take(i as int));
        assert(pre.last() == ls@[i as int]@);
        let parts = split_on(ls[i].as_slice(), '\t');
        if parts.len() >= 2 {
            assert(views(parts@)[0] == parts@[0]@ && views(parts@)[1] == parts@[1]@);
            let name = trim_chars(parts[0].as_slice());
            let image = trim_chars(parts[1].as_slice());
            let ghost before = out@;
            out.push(
                LogSource::Docker {
                    container: string_of(name.as_slice()),
                    image: string_of(image.as_slice()),
                },
            );
            assert(source_views(out@) =~= source_views(before).push(out@.last()@));
        }
    }
    assert(views(ls@).take(ls@.len() as int) == views(ls@));
    out
}

/// The service units listed in `text`, one unit first on each line.
pub fn parse_journal_units(text: &str) -> (r: Vec<LogSource>)
    ensures
        source_views(r@) == journal_entries(lines(text@)),
{
    let cs = chars_of(text);
    let ls = lines_of(cs.as_slice());
    let suffix = chars_of(".service");
    let mut out: Vec<LogSource> = Vec::new();
    for i in 0..ls.len()
        invariant
            views(ls@) == lines(cs@),
            suffix@ == ".service"@,
            source_views(out@) == journal_entries(views(ls@).take(i as int)),
    {
        let ghost pre = views(ls@).take(i + 1);
        assert(pre.drop_last() == views(ls@).take(i as int));
        assert(pre.last() == ls@[i as int]@);
        match first_word_of(ls[i].as_slice()) {
            Some(unit) => {
                if ends_with(unit.as_slice(), suffix.as_slice()) {
                    let ghost before = out@;
                    out.push(LogSource::Journal { unit: string_of(unit.as_slice()) });
                    assert(source_views(out@) =~= source_views(before).push(out@.last()@));
                }
            },
            None => {},
        }
    }
    assert(views(ls@).take(ls@.len() as int) == views(ls@));
    out
}


/// The listing of regular files under `/var/log`, at most three levels
/// deep, first 200 paths, errors silenced.
pub open spec fn system_logs_command_text() -> Seq<char> {
    "find /var/log -maxdepth 3 -type f 2>/dev/null | head -n 200"@
}

/// The listing of running containers, one `name<TAB>image` per line,
/// first 200, errors silenced.
pub open spec fn docker_command_text() -> Seq<char> {
    "docker ps --format '{{.Names}}\\t{{.Image}}' 2>/dev/null | head -n 200"@
}

/// The listing of running service units without its header line, first
/// 100, errors silenced.
pub open spec fn journal_command_text() -> Seq<char> {
    "systemctl list-units --type=service --state=running --no-pager --plain 2>/dev/null | tail -n +2 | head -n 100"@
}

/// The command that lists files under `/var/log`.
pub fn system_logs_command() -> (r: &'static str)
    ensures
        r@ == system_logs_command_text(),
{
    "find /var/log -maxdepth 3 -type f 2>/dev/null | head -n 200"
}

/// The command that lists running containers as `name<TAB>image`.
pub fn docker_command() -> (r: &'static str)
    ensures
        r@ == docker_command_text(),
{
    "docker ps --format '{{.Names}}\\t{{.Image}}' 2>/dev/null | head -n 200"
}

/// The command that lists running service units.
pub fn journal_command() -> (r: &'static str)
    ensures
        r@ == journal_command_text(),
{
    "systemctl list-units --type=service --state=running --no-pager --plain 2>/dev/null | tail -n +2 | head -n 100"
}

/// `words` quoted for the shell and joined by single spaces.
pub open spec fn shell_words(words: Seq<Seq<char>>) -> Seq<char>
    decreases words.len(),
{
    if words.len() == 0 {
        Seq::empty()
    } else if words.len() == 1 {
        shell_word(words[0])
    } else {
        shell_words(words.drop_last()) + " "@ + shell_word(words.last())
    }
}

/// The directories searched for application logs: `/opt`, then the
/// configured extra paths.
pub open spec fn opt_search_dirs(extra: Seq<String>) -> Seq<Seq<char>> {
    seq!["/opt"@] + extra.map_values(|p: String| p@)
}

/// The `find` command that lists `*.log` and compose files under `dirs`.
pub open spec fn opt_logs_command_text(dirs: Seq<Seq<char>>) -> Seq<char> {
    "find "@ + shell_words(dirs)
        + " -maxdepth 3 -type f \\( -name '*.log' -o -name 'docker-compose.yml' -o -name 'compose.yml' \\) 2>/dev/null | head -n 200"@
}

/// The command that lists log and compose files under `/opt` and the
/// extra paths.
pub fn opt_logs_command(extra_paths: &[String]) -> (r: String)
    ensures
        r@ == opt_logs_command_text(opt_search_dirs(extra_paths@)),
{
    let ghost dirs = opt_search_dirs(extra_paths@);
    let mut out = String::new();
    push_str(&mut out, "find ");
    let first = shell_escape("/opt");
    push_str(&mut out, first.as_str());
    assert(dirs.take(1) =~= seq!["/opt"@]);
    assert(shell_words(dirs.take(1)) == shell_word("/opt"@));
    for i in 0..extra_paths.len()
        invariant
            dirs == opt_search_dirs(extra_paths@),
            dirs.len() == extra_paths@.len() + 1,
            out@ == "find "@ + shell_words(dirs.take(i + 1)),
    {
        assert(dirs.take(i + 2).drop_last() == dirs.take(i + 1));
        assert(dirs.take(i + 2).last() == extra_paths@[i as int]@);
        push_str(&mut out, " ");
        let w = shell_escape(extra_paths[i].as_str());
        push_str(&mut out, w.as_str());
        assert(out@ =~= "find "@ + shell_words(dirs.take(i + 2)));
    }
    assert(dirs.take(extra_paths@.len() + 1int) == dirs);
    push_str(
        &mut out,
        " -maxdepth 3 -type f \\( -name '*.log' -o -name 'docker-compose.yml' -o -name 'compose.yml' \\) 2>/dev/null | head -n 200",
    );
    out
}

/// The file sources named in the output of the `/var/log` listing.
pub fn system_logs_from_output(out: &[u8]) -> (r: Vec<LogSource>)
    ensures
        source_views(r@) == file_entries(lines(utf8_lossy(out@))),
{
    let text = decode_lossy(out);
    parse_file_list(text.as_str())
}

/// The containers named in the output of the container listing.
pub fn docker_from_output(out: &[u8]) -> (r: Vec<LogSource>)
    ensures
        source_views(r@) == docker_entries(lines(utf8_lossy(out@))),
{
    let text = decode_lossy(out);
    parse_docker_list(text.as_str())
}

/// The file sources named in the output of the `/opt` listing.
pub fn opt_logs_from_output(out: &[u8]) -> (r: Vec<LogSource>)
    ensures
        source_views(r@) == file_entries(lines(utf8_lossy(out@))),
{
    let text = decode_lossy(out);
    parse_file_list(text.as_str())
}

/// The service units named in the output of the unit listing.
pub fn journal_from_output(out: &[u8]) -> (r: Vec<LogSource>)
    ensures
        source_views(r@) == journal_entries(lines(utf8_lossy(out@))),
{
    let text = decode_lossy(out);
    parse_journal_units(text.as_str())
}


/// `t` is in order of sort key.
pub open spec fn sorted_by_key(t: Seq<SourceView>) -> bool {
    forall|i: int, j: int|
        0 <= i < j < t.len() ==> lex_le(sort_key_of(#[trigger] t[i]), sort_key_of(#[trigger] t[j]))
}

/// Whether a source has sort key `k`.
pub open spec fn has_key(k: Seq<char>) -> spec_fn(SourceView) -> bool {
    |x: SourceView| sort_key_of(x) == k
}

/// `t` is `s` sorted by sort key, stably: in key order, and for every key
/// the sources with that key appear in `t` as they do in `s`.
pub open spec fn stably_sorted(s: Seq<SourceView>, t: Seq<SourceView>) -> bool {
    &&& sorted_by_key(t)
    &&& forall|k: Seq<char>| #[trigger] t.filter(has_key(k)) == s.filter(has_key(k))
}

proof fn lemma_filter_none<A>(s: Seq<A>, p: spec_fn(A) -> bool)
    requires
        forall|i: int| 0 <= i < s.len() ==> !p(#[trigger] s[i]),
    ensures
        s.filter(p) == Seq::<A>::empty(),
    decreases s.len(),
{
    reveal(Seq::filter);
    if s.len() > 0 {
        lemma_filter_none(s.drop_last(), p);
    }
}

proof fn lemma_filter_single<A>(x: A, p: spec_fn(A) -> bool)
    ensures
        seq![x].filter(p) == (if p(x) {
            seq![x]
        } else {
            Seq::<A>::empty()
        }),
{
    reveal(Seq::filter);
    assert(seq![x].drop_last() =~= Seq::<A>::empty());
    reveal_with_fuel(Seq::filter, 2);
}

proof fn lemma_filter_push<A>(s: Seq<A>, x: A, p: spec_fn(A) -> bool)
    ensures
        s.push(x).filter(p) == (if p(x) {
            s.filter(p).push(x)
        } else {
            s.filter(p)
        }),
{
    reveal(Seq::filter);
    assert(s.push(x).drop_last() =~= s);
}

/// Sorts `v` by sort key, keeping the order of sources with equal keys
/// (what `sort_by_key` does).
pub fn sort_sources(v: &Vec<LogSource>) -> (r: Vec<LogSource>)
    ensures
        stably_sorted(source_views(v@), source_views(r@)),
{
    let mut out: Vec<LogSource> = Vec::new();
    let mut keys: Vec<Vec<char>> = Vec::new();
    let ghost sv = source_views(v@);
    for i in 0..v.len()
        invariant
            sv == source_views(v@),
            keys@.len() == out@.len(),
            forall|j: int| 0 <= j < keys@.len() ==> #[trigger] keys@[j]@ == sort_key_of(out@[j]@),
            sorted_by_key(source_views(out@)),
            forall|k: Seq<char>|
                #[trigger] source_views(out@).filter(has_key(k)) == sv.take(i as int).filter(
                    has_key(k),
                ),
    {
        let x = v[i].duplicate();
        let ks = x.sort_key();
        let kx = chars_of(ks.as_str());
        let mut pos: usize = 0;
        while pos < keys.len() && lex_le_chars(keys[pos].as_slice(), kx.as_slice())
            invariant
                pos <= keys@.len(),
                keys@.len() == out@.len(),
                forall|j: int| 0 <= j < pos ==> lex_le(#[trigger] keys@[j]@, kx@),
            decreases keys@.len() - pos,
        {
            pos = pos + 1;
        }
        let ghost old_out = source_views(out@);
        let ghost kxs = kx@;
        proof {
            assert forall|j: int| pos <= j < old_out.len() implies !lex_le(
                sort_key_of(#[trigger] old_out[j]),
                kxs,
            ) && sort_key_of(old_out[j]) != kxs by {
                assert(keys@[pos as int]@ == sort_key_of(old_out[pos as int]));
                assert(!lex_le(sort_key_of(old_out[pos as int]), kxs));
                lemma_lex_le_total(sort_key_of(old_out[pos as int]), kxs);
                if j > pos {
                    if lex_le(sort_key_of(old_out[j]), kxs) {
                        lemma_lex_le_trans(
                            sort_key_of(old_out[pos as int]),
                            sort_key_of(old_out[j]),
                            kxs,
                        );
                    }
                }
                if sort_key_of(old_out[j]) == kxs {
                    lemma_lex_le_refl(kxs);
                }
            }
        }
        out.insert(pos, x);
        keys.insert(pos, kx);
        proof {
            let nv = source_views(out@);
            let xv = nv[pos as int];
            assert(nv =~= old_out.take(pos as int) + seq![xv] + old_out.skip(pos as int));
            assert(xv == sv[i as int]);
            assert(sort_key_of(xv) == kxs);
            assert forall|a: int, b: int| 0 <= a < b < nv.len() implies lex_le(
                sort_key_of(#[trigger] nv[a]),
                sort_key_of(#[trigger] nv[b]),
            ) by {
                if b < pos {
                } else if b == pos {
                    assert(nv[a] == old_out[a]);
                    assert(keys@[a]@ == sort_key_of(out@[a]@));
                } else if a < pos {
                    assert(nv[a] == old_out[a]);
                    assert(nv[b] == old_out[b - 1]);
                } else if a == pos {
                    assert(nv[b] == old_out[b - 1]);
                    lemma_lex_le_total(sort_key_of(old_out[b - 1]), kxs);
                } else {
                    assert(nv[a] == old_out[a - 1]);
                    assert(nv[b] == old_out[b - 1]);
                }
            }
            assert(sv.take(i + 1) =~= sv.take(i as int).push(xv));
            assert forall|k: Seq<char>| #[trigger] nv.filter(has_key(k)) == sv.take(i + 1).filter(
                has_key(k),
            ) by {
                let p = has_key(k);
                let pre = old_out.take(pos as int);
                let post = old_out.skip(pos as int);
                Seq::filter_distributes_over_add(pre + seq![xv], post, p);
                Seq::filter_distributes_over_add(pre, seq![xv], p);
                Seq::filter_distributes_over_add(pre, post, p);
                assert(old_out =~= pre + post);
                lemma_filter_single(xv, p);
                lemma_filter_push(sv.take(i as int), xv, p);
                if k == kxs {
                    assert forall|j: int| 0 <= j < post.len() implies !p(#[trigger] post[j]) by {
                        assert(post[j] == old_out[pos + j]);
                    }
                    lemma_filter_none(post, p);
                    assert(pre.filter(p) + seq![xv] + Seq::<SourceView>::empty() =~= pre.filter(
                        p,
                    ).push(xv));
                    assert(pre.filter(p) + Seq::<SourceView>::empty() =~= pre.filter(p));
                } else {
                    assert(pre.filter(p) + Seq::<SourceView>::empty() =~= pre.filter(p));
                }
            }
            assert forall|j: int| 0 <= j < keys@.len() implies #[trigger] keys@[j]@ == sort_key_of(
                out@[j]@,
            ) by {
                if j < pos {
                } else if j == pos {
                } else {
                }
            }
        }
    }
    assert(sv.take(v@.len() as int) == sv);
    out
}

/// `s` with each run of equal neighbours cut down to its first element
/// (what `Vec::dedup` does).
pub open spec fn dedup(s: Seq<SourceView>) -> Seq<SourceView>
    decreases s.len(),
{
    if s.len() == 0 {
        Seq::empty()
    } else {
        let r = dedup(s.drop_last());
        if r.len() > 0 && r.last() == s.last() {
            r
        } else {
            r.push(s.last())
        }
    }
}

/// Removes neighbouring duplicates (see [`dedup`]).
pub fn dedup_sources(v: &Vec<LogSource>) -> (r: Vec<LogSource>)
    ensures
        source_views(r@) == dedup(source_views(v@)),
{
    let mut out: Vec<LogSource> = Vec::new();
    let ghost sv = source_views(v@);
    for i in 0..v.len()
        invariant
            sv == source_views(v@),
            source_views(out@) == dedup(sv.take(i as int)),
    {
        assert(sv.take(i + 1).drop_last() == sv.take(i as int));
        assert(sv.take(i + 1).last() == v@[i as int]@);
        let n = out.len();
        if n == 0 || !out[n - 1].same_as(&v[i]) {
            let ghost before = out@;
            out.push(v[i].duplicate());
            assert(source_views(out@) =~= source_views(before).push(out@.last()@));
        } else {
            assert(source_views(out@).last() == out@[n - 1]@);
        }
    }
    assert(sv.take(v@.len() as int) == sv);
    out
}

/// What one discovery step found: its sources, or none when it failed.
pub open spec fn found_sources(outcome: Result<Vec<LogSource>, String>) -> Seq<SourceView> {
    match outcome {
        Ok(items) => source_views(items@),
        Err(_) => Seq::empty(),
    }
}

/// The error line of one discovery step: none when it succeeded.
pub open spec fn failure_line(label: Seq<char>, outcome: Result<Vec<LogSource>, String>) -> Seq<
    Seq<char>,
> {
    match outcome {
        Ok(_) => Seq::empty(),
        Err(e) => seq![label + ": "@ + e@],
    }
}

/// What all discovery steps found, in the order system, docker, /opt, journal.
pub open spec fn all_found(
    system: Result<Vec<LogSource>, String>,
    docker: Result<Vec<LogSource>, String>,
    opt: Result<Vec<LogSource>, String>,
    journal: Result<Vec<LogSource>, String>,
) -> Seq<SourceView> {
    found_sources(system) + found_sources(docker) + found_sources(opt) + found_sources(journal)
}

/// The error lines of all discovery steps, in the same order.
pub open spec fn all_failures(
    system: Result<Vec<LogSource>, String>,
    docker: Result<Vec<LogSource>, String>,
    opt: Result<Vec<LogSource>, String>,
    journal: Result<Vec<LogSource>, String>,
) -> Seq<Seq<char>> {
    failure_line("system logs"@, system) + failure_line("docker"@, docker) + failure_line(
        "/opt logs"@,
        opt,
    ) + failure_line("journal"@, journal)
}

/// The sources and errors found on the remote machine.
pub struct DiscoveryResult {
    pub sources: Vec<LogSource>,
    pub errors: Vec<String>,
}

fn add_outcome(
    sources: &mut Vec<LogSource>,
    errors: &mut Vec<String>,
    label: &str,
    outcome: Result<Vec<LogSource>, String>,
)
    ensures
        source_views(final(sources)@) == source_views(old(sources)@) + found_sources(outcome),
        string_views(final(errors)@) == string_views(old(errors)@) + failure_line(label@, outcome),
{
    match outcome {
        Ok(items) => {
            let ghost before = sources@;
            for j in 0..items.len()
                invariant
                    source_views(sources@) == source_views(before) + source_views(items@).take(
                        j as int,
                    ),
            {
                let ghost mid = sources@;
                sources.push(items[j].duplicate());
                assert(source_views(sources@) =~= source_views(mid).push(items@[j as int]@));
                assert(source_views(items@).take(j + 1) =~= source_views(items@).take(
                    j as int,
                ).push(items@[j as int]@));
            }
            assert(source_views(items@).take(items@.len() as int) == source_views(items@));
            assert(string_views(errors@) =~= string_views(errors@) + Seq::<Seq<char>>::empty());
        },
        Err(e) => {
            let mut line = String::new();
            push_str(&mut line, label);
            push_str(&mut line, ": ");
            push_str(&mut line, e.as_str());
            let ghost before = errors@;
            errors.push(line);
            assert(string_views(errors@) =~= string_views(before) + seq![label@ + ": "@ + e@]);
            assert(source_views(sources@) =~= source_views(sources@) + Seq::<SourceView>::empty());
        },
    }
}

/// Puts the outcomes of the four discovery steps together: the sources
/// found, sorted stably by sort key with neighbouring duplicates removed,
/// and one error line per failed step.
pub fn collect_discovery(
    system: Result<Vec<LogSource>, String>,
    docker: Result<Vec<LogSource>, String>,
    opt: Result<Vec<LogSource>, String>,
    journal: Result<Vec<LogSource>, String>,
) -> (r: DiscoveryResult)
    ensures
        exists|t: Seq<SourceView>|
            stably_sorted(all_found(system, docker, opt, journal), t) && source_views(r.sources@)
                == dedup(t),
        string_views(r.errors@) == all_failures(system, docker, opt, journal),
        forall|x: SourceView|
            #![trigger source_views(r.sources@).contains(x)]
            #![trigger found_sources(system).contains(x)]
            #![trigger found_sources(docker).contains(x)]
            #![trigger found_sources(opt).contains(x)]
            #![trigger found_sources(journal).contains(x)]
            source_views(r.sources@).contains(x) <==> (found_sources(system).contains(x)
                || found_sources(docker).contains(x) || found_sources(opt).contains(x)
                || found_sources(journal).contains(x)),
{
    let ghost outcomes = (system, docker, opt, journal);
    let ghost found = all_found(system, docker, opt, journal);
    let ghost failures = all_failures(system, docker, opt, journal);
    let mut sources: Vec<LogSource> = Vec::new();
    let mut errors: Vec<String> = Vec::new();
    assert(source_views(sources@) =~= Seq::<SourceView>::empty());
    assert(string_views(errors@) =~= Seq::<Seq<char>>::empty());
    add_outcome(&mut sources, &mut errors, "system logs", system);
    add_outcome(&mut sources, &mut errors, "docker", docker);
    add_outcome(&mut sources, &mut errors, "/opt logs", opt);
    add_outcome(&mut sources, &mut errors, "journal", journal);
    assert(source_views(sources@) =~= found);
    assert(string_views(errors@) =~= failures);
    let sorted = sort_sources(&sources);
    let unique = dedup_sources(&sorted);
    proof {
        crate::laws::law_discovery_keeps_every_found_source(
            outcomes.0,
            outcomes.1,
            outcomes.2,
            outcomes.3,
            source_views(sorted@),
        );
    }
    DiscoveryResult { sources: unique, errors }
}

} // verus!
