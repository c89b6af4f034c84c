//! Bounded grep and glob search over the portable relative paths of a table directory.
use vstd::prelude::*;
use crate::text::{join, str_eq};
use crate::text_edit::{breaks, chars_of, line_boundary, line_count, line_breaks, lemma_breaks_bounds, positions};

verus! {

#[verifier::external_type_specification]
#[verifier::external_body]
pub struct ExGlobSet(globset::GlobSet);

#[verifier::external_type_specification]
#[verifier::external_body]
pub struct ExRegex(regex::Regex);

/// What building the one-glob set of `pattern` reports (`GlobBuilder::build`
/// with a literal `/` separator and backslash escapes, then
/// `GlobSetBuilder::build`), on a target whose `usize` has `bits` bits (the
/// compiled size limit counts memory): `None` when it builds, else the display
/// text of its error.
pub uninterp spec fn glob_refusal(pattern: Seq<char>, bits: u32) -> Option<Seq<char>>;

/// Whether the set built from `pattern` accepts `path` (`GlobSet::is_match`)
/// on a target where `\` is a path separator exactly when
/// `backslash_separator`: there the crate first rewrites each `\` of the
/// path to `/`, elsewhere the path's bytes are matched as they are.
pub uninterp spec fn glob_matches(pattern: Seq<char>, backslash_separator: bool, path: Seq<char>) -> bool;

/// What `Regex::new` reports for `pattern` on a target whose `usize` has
/// `bits` bits (the compiled size limit counts memory): `None` when it
/// compiles, else the display text of its error.
pub uninterp spec fn regex_refusal(pattern: Seq<char>, bits: u32) -> Option<Seq<char>>;

/// Whether the regular expression `pattern` matches somewhere in `haystack`
/// (`Regex::is_match`).
pub uninterp spec fn regex_matches(pattern: Seq<char>, haystack: Seq<char>) -> bool;

/// A compiled glob over `/`-separated relative paths, in which `*` and `?`
/// never cross a separator.
pub struct PathGlob {
    pattern: String,
    set: globset::GlobSet,
    backslash_separator: bool,
}

/// A compiled regular expression matched against single lines.
pub struct LinePattern {
    pattern: String,
    regex: regex::Regex,
}

impl PathGlob {
    /// The source pattern of the glob.
    pub closed spec fn source(&self) -> Seq<char> {
        self.pattern@
    }

    /// Whether `\` separates paths on the host the glob was built on.
    pub closed spec fn backslash_separator(&self) -> bool {
        self.backslash_separator
    }
}

impl LinePattern {
    /// The source of the regular expression.
    pub closed spec fn source(&self) -> Seq<char> {
        self.pattern@
    }
}

/// `globset::GlobBuilder::new(pattern)` with a literal separator and
/// backslash escapes, then `build`, and a `GlobSetBuilder` of that one glob,
/// then `build`; each build reports its errors rather than panicking. The
/// contract claims that both builds succeed exactly when `glob_refusal` is
/// `None`, and that the error otherwise displays as that text.
#[verifier::external_body]
fn build_glob(pattern: &str) -> (r: Result<globset::GlobSet, String>)
    ensures
        match glob_refusal(pattern@, usize::BITS) {
            None => r is Ok,
            Some(m) => r matches Err(e) && e@ == m,
        },
{
    match globset::GlobBuilder::new(pattern).literal_separator(true).backslash_escape(true).build() {
        Ok(glob) => match globset::GlobSetBuilder::new().add(glob).build() {
            Ok(set) => Ok(set),
            Err(error) => Err(error.to_string()),
        },
        Err(error) => Err(error.to_string()),
    }
}

/// `std::path::is_separator('\\')`: whether the host separates paths by a
/// backslash. Nothing is stated of it; it depends on the host.
#[verifier::external_body]
fn backslash_is_separator() -> (r: bool)
{
    std::path::is_separator('\\')
}

/// `GlobSet::is_match` on the set that `PathGlob::new` built from the glob's
/// source on this host; the contract claims the answer is `glob_matches`.
#[verifier::external_body]
fn glob_accepts(glob: &PathGlob, path: &str) -> (r: bool)
    ensures
        r == glob_matches(glob.source(), glob.backslash_separator(), path@),
{
    glob.set.is_match(path)
}

/// `regex::Regex::new(pattern)`. The contract claims that it compiles exactly
/// when `regex_refusal` is `None`, and that the error otherwise displays as
/// that text.
#[verifier::external_body]
fn build_regex(pattern: &str) -> (r: Result<LinePattern, String>)
    ensures
        match regex_refusal(pattern@, usize::BITS) {
            None => r matches Ok(p) && p.source() == pattern@,
            Some(m) => r matches Err(e) && e@ == m,
        },
{
    match regex::Regex::new(pattern) {
        Ok(regex) => Ok(LinePattern { pattern: pattern.to_owned(), regex }),
        Err(error) => Err(error.to_string()),
    }
}

/// `Regex::is_match` on the expression that `build_regex` compiled from the
/// pattern's source; the contract claims the answer is `regex_matches`.
#[verifier::external_body]
fn regex_accepts(pattern: &LinePattern, line: &str) -> (r: bool)
    ensures
        r == regex_matches(pattern.source(), line@),
{
    pattern.regex.is_match(line)
}

/// `detail` behind a fixed refusal prefix.
fn refusal(prefix: &str, detail: &str) -> (r: String)
    ensures
        r@ == prefix@ + detail@,
{
    let mut out = String::from_str(prefix);
    out.append(detail);
    out
}

impl PathGlob {
    /// Compiles `pattern`; a pattern that does not build is refused with
    /// `table/fs: glob ` and the error's text.
    pub fn new(pattern: &str) -> (r: Result<PathGlob, String>)
        ensures
            match glob_refusal(pattern@, usize::BITS) {
                None => r matches Ok(g) && g.source() == pattern@,
                Some(m) => r matches Err(e) && e@ == "table/fs: glob "@ + m,
            },
    {
        match build_glob(pattern) {
            Ok(set) => Ok(PathGlob {
                pattern: pattern.to_owned(),
                set,
                backslash_separator: backslash_is_separator(),
            }),
            Err(detail) => Err(refusal("table/fs: glob ", detail.as_str())),
        }
    }
}

impl LinePattern {
    /// Compiles `pattern`; an expression that does not compile is refused
    /// with `table/fs: regex ` and the error's text.
    pub fn new(pattern: &str) -> (r: Result<LinePattern, String>)
        ensures
            match regex_refusal(pattern@, usize::BITS) {
                None => r matches Ok(p) && p.source() == pattern@,
                Some(m) => r matches Err(e) && e@ == "table/fs: regex "@ + m,
            },
    {
        match build_regex(pattern) {
            Ok(p) => Ok(p),
            Err(detail) => Err(refusal("table/fs: regex ", detail.as_str())),
        }
    }
}

/// The segments of a path as character sequences.
pub open spec fn segments(path: Seq<String>) -> Seq<Seq<char>> {
    path.map_values(|s: String| s@)
}

/// The portable relative form of a path: its segments joined by `/`.
pub open spec fn relative(path: Seq<String>) -> Seq<char> {
    join(segments(path), "/"@)
}

/// Joins the segments of `path` with `/`.
pub fn relative_path(path: &Vec<String>) -> (r: String)
    ensures
        r@ == relative(path@),
{
    let ghost all = segments(path@);
    let mut out = String::new();
    for i in 0..path.len()
        invariant
            all == segments(path@),
            out@ == join(all.take(i as int), "/"@),
    {
        assert(all.take(i + 1).drop_last() =~= all.take(i as int));
        if i != 0 {
            out.append("/");
        } else {
            assert(all.take(0) =~= Seq::<Seq<char>>::empty());
        }
        out.append(path[i].as_str());
    }
    assert(all.take(path@.len() as int) =~= all);
    out
}

/// Whether a walk visits an entry named `name`: hidden names, those that
/// start with `.`, are skipped with everything below them.
pub fn is_visible(name: &str) -> (r: bool)
    ensures
        r == !(name@.len() > 0 && name@[0] == '.'),
{
    let t = chars_of(name);
    !(t.len() > 0 && t[0] == '.')
}

/// The first `max` of `hits`, and whether any were left out.
pub open spec fn bounded<T>(hits: Seq<T>, max: nat) -> (Seq<T>, bool) {
    if hits.len() > max {
        (hits.take(max as int), true)
    } else {
        (hits, false)
    }
}

/// Bounded glob result.
#[derive(Clone, Debug, PartialEq, Eq)]
pub struct FindGlobResult {
    /// Retained paths.
    pub paths: Vec<String>,
    /// Whether more paths existed.
    pub truncated: bool,
}

impl View for FindGlobResult {
    type V = (Seq<Seq<char>>, bool);

    open spec fn view(&self) -> (Seq<Seq<char>>, bool) {
        (self.paths@.map_values(|s: String| s@), self.truncated)
    }
}

/// The relative forms of the paths that `pattern` accepts, in order, on a
/// host where `\` separates paths exactly when `backslash_separator`.
pub open spec fn glob_hits(pattern: Seq<char>, backslash_separator: bool, paths: Seq<Vec<String>>) -> Seq<Seq<char>>
    decreases paths.len(),
{
    if paths.len() == 0 {
        Seq::empty()
    } else {
        let rest = glob_hits(pattern, backslash_separator, paths.drop_last());
        let rel = relative(paths.last()@);
        if glob_matches(pattern, backslash_separator, rel) {
            rest.push(rel)
        } else {
            rest
        }
    }
}

proof fn lemma_glob_hits_prefix(pattern: Seq<char>, sep: bool, paths: Seq<Vec<String>>, j: int)
    requires
        0 <= j <= paths.len(),
    ensures
        glob_hits(pattern, sep, paths.take(j)).len() <= glob_hits(pattern, sep, paths).len(),
        glob_hits(pattern, sep, paths.take(j)) =~= glob_hits(pattern, sep, paths).take(
            glob_hits(pattern, sep, paths.take(j)).len() as int,
        ),
    decreases paths.len(),
{
    if j == paths.len() {
        assert(paths.take(j) =~= paths);
    } else {
        let rest = paths.drop_last();
        assert(rest.take(j) =~= paths.take(j));
        lemma_glob_hits_prefix(pattern, sep, rest, j);
    }
}

/// The paths among `paths` (walked in order) whose relative form the glob
/// accepts, bounded by `max`.
pub fn find_glob(glob: &PathGlob, paths: &Vec<Vec<String>>, max: usize) -> (r: FindGlobResult)
    ensures
        r@ == bounded(glob_hits(glob.source(), glob.backslash_separator(), paths@), max as nat),
{
    let mut out: Vec<String> = Vec::new();
    for i in 0..paths.len()
        invariant
            out@.map_values(|s: String| s@) == glob_hits(glob.source(), glob.backslash_separator(), paths@.take(i as int)),
            out@.len() <= max,
    {
        let ghost before = paths@.take(i as int);
        assert(paths@.take(i + 1).drop_last() =~= before);
        let rel = relative_path(&paths[i]);
        if glob_accepts(glob, rel.as_str()) {
            if out.len() >= max {
                proof {
                    let hits = glob_hits(glob.source(), glob.backslash_separator(), paths@.take(i + 1));
                    lemma_glob_hits_prefix(glob.source(), glob.backslash_separator(), paths@, i + 1);
                    assert(hits.take(max as int) =~= out@.map_values(|s: String| s@));
                    let all = glob_hits(glob.source(), glob.backslash_separator(), paths@);
                    assert(all.take(max as int) =~= hits.take(max as int));
                }
                return FindGlobResult { paths: out, truncated: true };
            }
            let ghost old_out = out@;
            out.push(rel);
            assert(out@.map_values(|s: String| s@) =~= old_out.map_values(|s: String| s@).push(
                rel@,
            ));
        }
    }
    assert(paths@.take(paths@.len() as int) =~= paths@);
    FindGlobResult { paths: out, truncated: false }
}

/// One text match of a grep.
#[derive(Clone, Debug, PartialEq, Eq)]
pub struct FindMatch {
    /// Relative portable path.
    pub path: String,
    /// One-based line number.
    pub line: u32,
    /// Matching line without its terminator.
    pub text: String,
}

/// Mathematical form of a [`FindMatch`].
pub struct MatchView {
    pub path: Seq<char>,
    pub line: u32,
    pub text: Seq<char>,
}

impl View for FindMatch {
    type V = MatchView;

    open spec fn view(&self) -> MatchView {
        MatchView { path: self.path@, line: self.line, text: self.text@ }
    }
}

/// The views of `matches`.
pub open spec fn matches_view(matches: Seq<FindMatch>) -> Seq<MatchView> {
    matches.map_values(|m: FindMatch| m@)
}

/// Bounded grep result.
#[derive(Clone, Debug, PartialEq, Eq)]
pub struct FindGrepResult {
    /// Retained matches.
    pub matches: Vec<FindMatch>,
    /// Whether more matches existed.
    pub truncated: bool,
}

impl View for FindGrepResult {
    type V = (Seq<MatchView>, bool);

    open spec fn view(&self) -> (Seq<MatchView>, bool) {
        (matches_view(self.matches@), self.truncated)
    }
}

/// Line `k` (from 0) of `text` as `str::lines` yields it: without its `\n`,
/// and without a `\r` that stood just before that `\n`.
pub open spec fn line_at(text: Seq<char>, k: nat) -> Seq<char> {
    let start = line_boundary(text, k);
    if k < breaks(text).len() {
        let seg = text.subrange(start, breaks(text)[k as int]);
        if seg.len() > 0 && seg.last() == '\r' {
            seg.drop_last()
        } else {
            seg
        }
    } else {
        text.subrange(start, text.len() as int)
    }
}

/// The one-based number of line `k`, saturated at `u32::MAX`.
pub open spec fn line_number(k: nat) -> u32 {
    if k + 1 <= u32::MAX {
        (k + 1) as u32
    } else {
        u32::MAX
    }
}

/// The matches among the first `n` lines of `text`, in order.
pub open spec fn line_hits(pattern: Seq<char>, rel: Seq<char>, text: Seq<char>, n: nat) -> Seq<
    MatchView,
>
    decreases n,
{
    if n == 0 {
        Seq::empty()
    } else {
        let rest = line_hits(pattern, rel, text, (n - 1) as nat);
        let line = line_at(text, (n - 1) as nat);
        if regex_matches(pattern, line) {
            rest.push(MatchView { path: rel, line: line_number((n - 1) as nat), text: line })
        } else {
            rest
        }
    }
}

/// Every match of `pattern` among the lines of `text`, in order.
pub open spec fn text_hits(pattern: Seq<char>, rel: Seq<char>, text: Seq<char>) -> Seq<MatchView> {
    line_hits(pattern, rel, text, line_count(text))
}

proof fn lemma_line_hits_prefix(pattern: Seq<char>, rel: Seq<char>, text: Seq<char>, j: nat, n: nat)
    requires
        j <= n,
    ensures
        line_hits(pattern, rel, text, j).len() <= line_hits(pattern, rel, text, n).len(),
        line_hits(pattern, rel, text, j) =~= line_hits(pattern, rel, text, n).take(
            line_hits(pattern, rel, text, j).len() as int,
        ),
    decreases n,
{
    if j < n {
        lemma_line_hits_prefix(pattern, rel, text, j, (n - 1) as nat);
    }
}

/// A bounded result after more hits arrive: once truncated it stays as it is;
/// otherwise the hits are appended and the whole is bounded by `max`.
pub open spec fn absorb<T>(found: Seq<T>, truncated: bool, hits: Seq<T>, max: nat) -> (Seq<T>, bool) {
    if truncated {
        (found, true)
    } else {
        bounded(found + hits, max)
    }
}

/// Feeding a bounded result two batches of hits in turn leaves it as feeding
/// it both batches at once; and a fresh result fed hits is their bounded
/// prefix. So a search fed file by file reports the first `max` hits of all
/// the files, and whether there were more.
pub proof fn law_feeding_in_turn_is_feeding_at_once<T>(
    found: Seq<T>,
    truncated: bool,
    a: Seq<T>,
    b: Seq<T>,
    max: nat,
)
    requires
        found.len() <= max,
    ensures
        absorb(absorb(found, truncated, a, max).0, absorb(found, truncated, a, max).1, b, max)
            == absorb(found, truncated, a + b, max),
        absorb(Seq::<T>::empty(), false, a, max) == bounded(a, max),
{
    assert(Seq::<T>::empty() + a =~= a);
    if !truncated {
        let all1 = found + a;
        assert(found + (a + b) =~= all1 + b);
        if all1.len() > max {
            assert((all1 + b).take(max as int) =~= all1.take(max as int));
        }
    }
}

/// A grep in progress over the leaves of a directory: the decisions of a
/// search whose walking and reading happen elsewhere.
pub struct GrepSearch {
    pattern: LinePattern,
    glob: Option<PathGlob>,
    max: usize,
    found: Vec<FindMatch>,
    truncated: bool,
}

/// Mathematical form of a [`GrepSearch`].
pub struct GrepView {
    pub pattern: Seq<char>,
    pub glob: Option<(Seq<char>, bool)>,
    pub max: nat,
    pub found: Seq<MatchView>,
    pub truncated: bool,
}

impl View for GrepSearch {
    type V = GrepView;

    closed spec fn view(&self) -> GrepView {
        GrepView {
            pattern: self.pattern.source(),
            glob: match self.glob {
                Some(g) => Some((g.source(), g.backslash_separator())),
                None => None,
            },
            max: self.max as nat,
            found: matches_view(self.found@),
            truncated: self.truncated,
        }
    }
}

/// The position of the last `.` in `name`, if any.
pub open spec fn last_dot(name: Seq<char>) -> Option<int>
    decreases name.len(),
{
    if name.len() == 0 {
        None
    } else if name.last() == '.' {
        Some(name.len() - 1)
    } else {
        last_dot(name.drop_last())
    }
}

proof fn lemma_last_dot_bounds(name: Seq<char>)
    ensures
        last_dot(name) matches Some(i) ==> 0 <= i < name.len(),
    decreases name.len(),
{
    if name.len() > 0 && name.last() != '.' {
        lemma_last_dot_bounds(name.drop_last());
    }
}

/// What follows the last `.` of `name` (`str::rsplit_once('.')`).
pub open spec fn extension(name: Seq<char>) -> Option<Seq<char>> {
    match last_dot(name) {
        Some(i) => Some(name.subrange(i + 1, name.len() as int)),
        None => None,
    }
}

/// The known extension of the last segment of `path`, if it has one.
pub open spec fn known_extension(path: Seq<String>, known: Seq<Seq<char>>) -> Option<Seq<char>> {
    if path.len() == 0 {
        None
    } else {
        match extension(path.last()@) {
            Some(e) => if known.contains(e) {
                Some(e)
            } else {
                None
            },
            None => None,
        }
    }
}

/// Whether a search reads the leaf at `path`, and with which extension: the
/// path passes the glob, if there is one, and its name ends in a known
/// extension.
pub open spec fn grep_candidate(glob: Option<(Seq<char>, bool)>, path: Seq<String>, known: Seq<Seq<char>>) -> Option<
    Seq<char>,
> {
    let passes = match glob {
        None => true,
        Some(g) => glob_matches(g.0, g.1, relative(path)),
    };
    if passes {
        known_extension(path, known)
    } else {
        None
    }
}

fn extension_of(name: &str) -> (r: Option<String>)
    ensures
        match extension(name@) {
            None => r is None,
            Some(e) => r matches Some(s) && s@ == e,
        },
{
    let t = chars_of(name);
    let mut dot: Option<usize> = None;
    for i in 0..t.len()
        invariant
            t@ == name@,
            match last_dot(name@.take(i as int)) {
                None => dot is None,
                Some(k) => dot == Some(k as usize) && 0 <= k < i,
            },
    {
        assert(name@.take(i + 1).drop_last() =~= name@.take(i as int));
        if t[i] == '.' {
            dot = Some(i);
        }
    }
    assert(name@.take(t@.len() as int) =~= name@);
    match dot {
        Some(k) => Some(name.substring_char(k + 1, t.len()).to_owned()),
        None => None,
    }
}

fn find_known(e: &str, known: &Vec<String>) -> (r: Option<String>)
    ensures
        if segments(known@).contains(e@) {
            r matches Some(s) && s@ == e@
        } else {
            r is None
        },
{
    for i in 0..known.len()
        invariant
            forall|j: int| 0 <= j < i ==> known@[j]@ != e@,
    {
        if str_eq(known[i].as_str(), e) {
            assert(segments(known@)[i as int] == e@);
            return Some(known[i].clone());
        }
    }
    assert forall|j: int| 0 <= j < segments(known@).len() implies segments(known@)[j] != e@ by {
        assert(segments(known@)[j] == known@[j]@);
    }
    None
}

impl GrepSearch {
    #[verifier::type_invariant]
    spec fn within_bound(&self) -> bool {
        self.found.len() <= self.max
    }

    /// Starts a search for lines matching `pattern`, among the leaves whose
    /// relative path passes `glob` when one is given, retaining at most `max`
    /// matches. The expression is compiled first, then the glob; a refusal
    /// of either is returned as its error.
    pub fn new(pattern: &str, glob: Option<&str>, max: usize) -> (r: Result<GrepSearch, String>)
        ensures
            match regex_refusal(pattern@, usize::BITS) {
                Some(m) => r matches Err(e) && e@ == "table/fs: regex "@ + m,
                None => match glob {
                    Some(g) => match glob_refusal(g@, usize::BITS) {
                        Some(m) => r matches Err(e) && e@ == "table/fs: glob "@ + m,
                        None => r matches Ok(s) && (s@.glob matches Some(gv) && gv.0 == g@) && s@ == (
                        GrepView {
                            pattern: pattern@,
                            glob: s@.glob,
                            max: max as nat,
                            found: Seq::empty(),
                            truncated: false,
                        }),
                    },
                    None => r matches Ok(s) && s@ == (GrepView {
                        pattern: pattern@,
                        glob: None,
                        max: max as nat,
                        found: Seq::empty(),
                        truncated: false,
                    }),
                },
            },
    {
        let compiled = match LinePattern::new(pattern) {
            Ok(p) => p,
            Err(e) => return Err(e),
        };
        let glob = match glob {
            Some(g) => match PathGlob::new(g) {
                Ok(g) => Some(g),
                Err(e) => return Err(e),
            },
            None => None,
        };
        let s = GrepSearch { pattern: compiled, glob, max, found: Vec::new(), truncated: false };
        assert(matches_view(s.found@) =~= Seq::<MatchView>::empty());
        Ok(s)
    }

    /// Whether the search already holds `max` matches and knows of more.
    pub fn is_finished(&self) -> (r: bool)
        ensures
            r == self@.truncated,
    {
        self.truncated
    }

    /// Whether the leaf at `path` is to be read, and with which of the
    /// `known` extensions.
    pub fn wants(&self, path: &Vec<String>, known: &Vec<String>) -> (r: Option<String>)
        ensures
            match grep_candidate(self@.glob, path@, segments(known@)) {
                None => r is None,
                Some(e) => r matches Some(s) && s@ == e,
            },
    {
        match &self.glob {
            Some(g) => {
                let rel = relative_path(path);
                if !glob_accepts(g, rel.as_str()) {
                    return None;
                }
            },
            None => {},
        }
        if path.len() == 0 {
            return None;
        }
        match extension_of(path[path.len() - 1].as_str()) {
            Some(e) => find_known(e.as_str(), known),
            None => None,
        }
    }

    /// Scans the text of the leaf at `path` line by line and keeps the
    /// matching lines, up to the bound.
    pub fn feed(&mut self, path: &Vec<String>, text: &str)
        ensures
            final(self)@.pattern == old(self)@.pattern,
            final(self)@.glob == old(self)@.glob,
            final(self)@.max == old(self)@.max,
            (final(self)@.found, final(self)@.truncated) == absorb(
                old(self)@.found,
                old(self)@.truncated,
                text_hits(old(self)@.pattern, relative(path@), text@),
                old(self)@.max,
            ),
    {
        proof {
            use_type_invariant(&*self);
        }
        if self.truncated {
            return;
        }
        let ghost src = self.pattern.source();
        let ghost start_found = matches_view(self.found@);
        let rel = relative_path(path);
        let t = chars_of(text);
        let b = line_breaks(&t);
        proof {
            lemma_breaks_bounds(t@);
        }
        let count = if t.len() > 0 && t[t.len() - 1] != '\n' {
            b.len() + 1
        } else {
            b.len()
        };
        let max = self.max;
        let mut found: Vec<FindMatch> = Vec::new();
        let mut kept = self.found.len();
        let ghost total = start_found + text_hits(src, rel@, text@);
        proof {
            assert(count == line_count(text@));
        }
        let n = t.len();
        let mut k: usize = 0;
        while k < count
            invariant
                n == t@.len(),
                t@ == text@,
                rel@ == relative(path@),
                positions(b@) == breaks(text@),
                count == line_count(text@),
                b@.len() <= t@.len(),
                forall|i: int| 0 <= i < breaks(text@).len() ==> 0 <= #[trigger] breaks(text@)[i] < text@.len(),
                forall|i: int, j: int|
                    0 <= i < j < breaks(text@).len() ==> #[trigger] breaks(text@)[i] < #[trigger] breaks(text@)[j],
                k <= count,
                kept == start_found.len() + found@.len(),
                kept <= max,
                matches_view(found@) == line_hits(src, rel@, text@, k as nat),
                src == self.pattern.source(),
                total == start_found + text_hits(src, rel@, text@),
                start_found == matches_view(self.found@),
                max == self.max,
                !self.truncated,
                *self == *old(self),
            decreases count - k,
        {
            proof {
                if k > 0 {
                    assert(positions(b@)[k - 1] == b@[k - 1] as int);
                    assert(breaks(text@)[k - 1] < text@.len());
                    assert(b@[k - 1] < t@.len());
                }
                if k < b@.len() {
                    assert(positions(b@)[k as int] == b@[k as int] as int);
                }
            }
            let from = if k == 0 {
                0
            } else {
                b[k - 1] + 1
            };
            proof {
                assert(from == line_boundary(text@, k as nat));
                if k > 0 && k <= b@.len() {
                    assert(b@[k - 1] as int == breaks(text@)[k - 1]);
                }
            }
            let line: &str = if k < b.len() {
                let to = b[k];
                proof {
                    assert(to as int == breaks(text@)[k as int]);
                    if k > 0 {
                        assert(breaks(text@)[k - 1] < breaks(text@)[k as int]);
                    }
                }
                if to > from && t[to - 1] == '\r' {
                    text.substring_char(from, to - 1)
                } else {
                    text.substring_char(from, to)
                }
            } else {
                proof {
                    if k > 0 {
                        assert(breaks(text@)[k - 1] < text@.len());
                    }
                }
                text.substring_char(from, t.len())
            };
            proof {
                assert(line@ =~= line_at(text@, k as nat));
            }
            if regex_accepts(&self.pattern, line) {
                if kept >= max {
                    proof {
                        let upto = start_found + line_hits(src, rel@, text@, (k + 1) as nat);
                        lemma_line_hits_prefix(src, rel@, text@, (k + 1) as nat, line_count(text@));
                        assert(upto.len() > max);
                        assert(total.take(max as int) =~= upto.take(max as int));
                        assert(upto.take(max as int) =~= start_found + matches_view(found@));
                    }
                    let ghost fv = found@;
                    let mut all: Vec<FindMatch> = Vec::new();
                    std::mem::swap(&mut all, &mut self.found);
                    all.append(&mut found);
                    assert(matches_view(all@) =~= start_found + matches_view(fv));
                    self.found = all;
                    self.truncated = true;
                    return;
                }
                let number: u32 = if k < u32::MAX as usize {
                    (k + 1) as u32
                } else {
                    u32::MAX
                };
                let ghost before = found@;
                found.push(FindMatch { path: rel.clone(), line: number, text: line.to_owned() });
                assert(matches_view(found@) =~= matches_view(before).push(
                    MatchView { path: rel@, line: line_number(k as nat), text: line@ },
                ));
                kept = kept + 1;
            }
            k = k + 1;
        }
        proof {
            assert(total.len() <= max);
        }
        let ghost fv = found@;
        let mut all: Vec<FindMatch> = Vec::new();
        std::mem::swap(&mut all, &mut self.found);
        all.append(&mut found);
        assert(matches_view(all@) =~= start_found + matches_view(fv));
        self.found = all;
        self.truncated = false;
    }

    /// The matches kept so far and whether more existed.
    pub fn finish(self) -> (r: FindGrepResult)
        ensures
            r@ == (self@.found, self@.truncated),
    {
        FindGrepResult { matches: self.found, truncated: self.truncated }
    }
}

} // verus!
