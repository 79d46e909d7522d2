//! Path normalization and include/ignore filtering.

use vstd::prelude::*;

use crate::config::WatchSpec;
use crate::gitignore::{
    directories_above, directories_from_root_to_parent, file_of, files_view, level, nearest,
    nothing_outside_is_consulted, only_files_above_have_a_say, repository_ignores, repository_of,
    what_a_repository_ignores, GitignoreRules, IgnoreFile, IgnoreModel, Verdict,
};
use crate::globs::{
    any_matches, build_set, glob_compiles, glob_matches, glob_matches_alone, glob_parses,
    glob_refusal, globs_view, set_builds, set_refusal, GlobPattern, GlobSetError, PatternSet,
};
use crate::path::{
    bytes_of, copy_paths, is_rooted, joined, lies_in, parts_of, path_reads_back, paths_view,
    well_formed, FilePath, Part, PathPart,
};
use crate::text::{
    before_special, begins_with, chars_of, copy_strings, end_without_slashes, ends_with,
    first_special, has_special, is_special, literals_end_at_the_first_wildcard, lossy, lossy_text,
    start_without_dot_slashes, start_without_slashes, string_of, strings_view, trim_end_slashes,
    trim_start_dot_slashes, trim_start_slashes, trimming_takes_slashes_at_the_end,
    trimming_takes_slashes_in_front,
};

verus! {

/// Whether an event path represents a file or a broad directory notification.
#[derive(Clone, Copy, Debug, PartialEq, Eq, Structural)]
pub enum PathKind {
    File,
    Directory,
}

/// `path` with `.` left out and each `..` resolved against the name before it,
/// or `None` when a `..` has no name before it or the path leads from the root.
pub open spec fn resolved(path: Seq<Part>) -> Option<Seq<Part>>
    decreases path.len(),
{
    if path.len() == 0 {
        Some(Seq::empty())
    } else {
        match (resolved(path.drop_last()), path.last()) {
            (None, _) => None,
            (Some(names), Part::CurDir) => Some(names),
            (Some(names), Part::Normal(name)) => Some(names.push(Part::Normal(name))),
            (Some(names), Part::ParentDir) => if names.len() > 0 {
                Some(names.drop_last())
            } else {
                None
            },
            (Some(names), Part::RootDir) => None,
        }
    }
}

/// The name of `path` relative to `cwd`, if it has one.
pub open spec fn relative_name(cwd: Seq<Part>, path: Seq<Part>) -> Option<Seq<Part>> {
    let absolute = joined(cwd, path);
    if lies_in(absolute, cwd) {
        resolved(absolute.skip(cwd.len() as int))
    } else {
        None
    }
}

/// Whether `parts` are names only.
pub open spec fn only_names(parts: Seq<Part>) -> bool {
    forall|i: int| 0 <= i < parts.len() ==> #[trigger] parts[i] is Normal
}

/// A resolved path is made of names only, and they are names of the path.
pub proof fn resolved_has_only_names(path: Seq<Part>)
    ensures
        resolved(path) matches Some(names) ==> {
            &&& only_names(names)
            &&& names.len() <= path.len()
            &&& well_formed(path) ==> well_formed(names)
        },
    decreases path.len(),
{
    if path.len() > 0 {
        let init = path.drop_last();
        resolved_has_only_names(init);
        if well_formed(path) {
            crate::path::subrange_is_well_formed(path, 0, path.len() - 1);
            assert(init =~= path.subrange(0, path.len() - 1));
            assert(path[path.len() - 1] == path.last());
            if let Some(names) = resolved(init) {
                crate::path::subrange_is_well_formed(names, 0, names.len() as int);
                if names.len() > 0 {
                    crate::path::subrange_is_well_formed(names, 0, names.len() - 1);
                    assert(names.drop_last() =~= names.subrange(0, names.len() - 1));
                }
            }
        }
    }
}

/// Resolving a path of names changes nothing, so resolving twice is resolving
/// once.
pub proof fn resolving_names_changes_nothing(names: Seq<Part>)
    requires
        only_names(names),
    ensures
        resolved(names) == Some(names),
    decreases names.len(),
{
    if names.len() > 0 {
        assert(names[names.len() - 1] is Normal);
        assert(only_names(names.drop_last())) by {
            assert forall|i: int| 0 <= i < names.len() - 1 implies #[trigger] names.drop_last()[i] is Normal by {
                assert(names[i] is Normal);
            }
        }
        resolving_names_changes_nothing(names.drop_last());
        assert(names.drop_last().push(names.last()) =~= names);
    } else {
        assert(names =~= Seq::<Part>::empty());
    }
}

fn lexical_normalize(path: &FilePath) -> (normalized: Option<FilePath>)
    ensures
        match normalized {
            Some(normalized) => resolved(path@) == Some(normalized@),
            None => resolved(path@) is None,
        },
{
    let mut normalized = FilePath::empty();
    let mut i: usize = 0;
    let n: usize = path.len();
    assert(path@.take(0) =~= Seq::<Part>::empty());
    while i < n
        invariant
            i <= n == path@.len(),
            resolved(path@.take(i as int)) == Some(normalized@),
        decreases n - i,
    {
        let ghost upto = path@.take(i + 1);
        proof {
            assert(upto.drop_last() =~= path@.take(i as int));
            assert(upto.last() == path@[i as int]);
            resolved_prefix_decides(path@, i + 1);
        }
        match path.part(i) {
            PathPart::CurDir => {},
            PathPart::Normal(name) => {
                proof {
                    use_type_invariant(path);
                    crate::path::subrange_is_well_formed(path@, 0, i + 1);
                    assert(upto =~= path@.subrange(0, i + 1));
                    resolved_has_only_names(upto);
                }
                normalized.push(path.part(i));
            },
            PathPart::ParentDir => {
                proof {
                    resolved_has_only_names(path@.take(i as int));
                    if normalized@.len() > 0 {
                        assert(normalized@[normalized@.len() - 1] is Normal);
                    }
                }
                if !normalized.pop() {
                    return None;
                }
            },
            PathPart::RootDir => {
                return None;
            },
        }
        i = i + 1;
    }
    assert(path@.take(i as int) =~= path@);
    Some(normalized)
}

proof fn resolved_prefix_decides(path: Seq<Part>, n: int)
    requires
        0 <= n <= path.len(),
    ensures
        resolved(path.take(n)) is None ==> resolved(path) is None,
    decreases path.len(),
{
    if n < path.len() {
        resolved_prefix_decides(path.drop_last(), n);
        assert(path.drop_last().take(n) =~= path.take(n));
    } else {
        assert(path.take(n) =~= path);
    }
}

/// Normalize a possibly-relative event path against `cwd` and return its
/// relative form. It deliberately does not ask the disk: rename and remove
/// events often refer to paths that no longer exist.
pub fn normalize_path(cwd: &FilePath, path: &FilePath) -> (name: Option<FilePath>)
    ensures
        match name {
            Some(name) => relative_name(cwd@, path@) == Some(name@),
            None => relative_name(cwd@, path@) is None,
        },
{
    let absolute = cwd.join(path);
    match absolute.strip_prefix(cwd) {
        Some(relative) => lexical_normalize(&relative),
        None => None,
    }
}

/// The names of `path` as text, with slashes between them.
pub open spec fn text_of(path: Seq<Part>) -> Seq<char>
    decreases path.len(),
{
    if path.len() == 0 {
        Seq::empty()
    } else {
        let before = text_of(path.drop_last());
        match path.last() {
            Part::Normal(name) => if has_name(path.drop_last()) {
                before.push('/') + lossy_text(name)
            } else {
                lossy_text(name)
            },
            _ => before,
        }
    }
}

/// Whether `path` holds a name.
pub open spec fn has_name(path: Seq<Part>) -> bool {
    exists|i: int| 0 <= i < path.len() && #[trigger] path[i] is Normal
}

/// Whether `ancestor` is the text of `descendant` or of a directory above it.
pub open spec fn is_same_or_ancestor(ancestor: Seq<char>, descendant: Seq<char>) -> bool {
    ||| ancestor == descendant
    ||| ancestor.len() > 0 && ancestor.len() < descendant.len() && descendant.take(
        ancestor.len() as int,
    ) == ancestor && descendant[ancestor.len() as int] == '/'
}

/// `pattern` without `./` and slashes in front and slashes at its end.
pub open spec fn trimmed_pattern(pattern: Seq<char>) -> Seq<char> {
    trim_end_slashes(trim_start_slashes(trim_start_dot_slashes(pattern)))
}

/// What every text that `pattern` matches begins with: what stands before its
/// first wildcard or escape, with one slash for several at its end.
pub open spec fn literal_prefix(pattern: Seq<char>) -> Seq<char> {
    let literal = before_special(trimmed_pattern(pattern));
    if literal.len() > 0 && literal.last() == '/' {
        trim_end_slashes(literal).push('/')
    } else {
        literal
    }
}

/// Whether `text` begins as everything that `pattern` matches does: with its
/// literal prefix, and that as a whole path if the pattern has no wildcard and so
/// matches nothing but itself.
pub open spec fn literal_fits(pattern: Seq<char>, text: Seq<char>) -> bool {
    if has_special(trimmed_pattern(pattern)) {
        literal_prefix(pattern).is_prefix_of(text)
    } else {
        is_same_or_ancestor(literal_prefix(pattern), text)
    }
}

/// Whether something below the directory whose text is `directory` may match
/// `pattern`: when the pattern has no literal prefix, and when the prefix and
/// the texts below the directory can begin alike.
pub open spec fn may_match_below(pattern: Seq<char>, directory: Seq<char>) -> bool {
    let literal = literal_prefix(pattern);
    let below = directory + "/"@;
    ||| literal.len() == 0
    ||| if has_special(trimmed_pattern(pattern)) {
        literal.is_prefix_of(below) || below.is_prefix_of(literal)
    } else {
        is_same_or_ancestor(directory, literal) || is_same_or_ancestor(literal, directory)
    }
}

/// The suffix of a pattern that matches everything below a directory.
pub open spec fn everything_below() -> Seq<char> {
    seq!['/', '*', '*']
}

/// The pattern of the directories below which `pattern` matches everything, if
/// it is of that kind.
pub open spec fn ignored_directory(pattern: Seq<char>) -> Option<Seq<char>> {
    let trimmed = trimmed_pattern(pattern);
    if ends_with(trimmed, everything_below()) {
        Some(trimmed.take(trimmed.len() - 3))
    } else {
        None
    }
}

/// Whether `pattern` matches everything below the directory whose bytes are
/// `directory`.
pub open spec fn ignores_all_below(pattern: Seq<char>, directory: Seq<u8>) -> bool {
    match ignored_directory(pattern) {
        None => false,
        Some(prefix) => {
            &&& glob_parses(prefix)
            &&& glob_compiles(prefix)
            &&& glob_matches_alone(prefix, directory)
        },
    }
}

fn path_text(path: &FilePath) -> (text: String)
    ensures
        text@ == text_of(path@),
{
    let mut text = String::new();
    let mut named: bool = false;
    let mut i: usize = 0;
    let n: usize = path.len();
    assert(path@.take(0) =~= Seq::<Part>::empty());
    while i < n
        invariant
            i <= n == path@.len(),
            text@ == text_of(path@.take(i as int)),
            named == has_name(path@.take(i as int)),
            !named ==> text@.len() == 0,
        decreases n - i,
    {
        let ghost upto = path@.take(i + 1);
        proof {
            assert(upto.drop_last() =~= path@.take(i as int));
            assert(upto.last() == path@[i as int]);
            assert forall|j: int| 0 <= j < i implies #[trigger] upto[j] == path@.take(i as int)[j] by {
            }
        }
        match path.part(i) {
            PathPart::Normal(name) => {
                if named {
                    text.push('/');
                }
                let ghost before = text@;
                let part = lossy(name.as_slice());
                text.append(part.as_str());
                proof {
                    assert(upto[i as int] is Normal);
                    assert(text@ =~= text_of(upto));
                }
                named = true;
            },
            _ => {
                proof {
                    if has_name(upto) {
                        let j = choose|j: int| 0 <= j < upto.len() && #[trigger] upto[j] is Normal;
                        assert(path@.take(i as int)[j] is Normal);
                    }
                    if named {
                        let j = choose|j: int|
                            0 <= j < i && #[trigger] path@.take(i as int)[j] is Normal;
                        assert(upto[j] is Normal);
                    }
                }
            },
        }
        i = i + 1;
    }
    assert(path@.take(i as int) =~= path@);
    text
}

fn same_or_ancestor(ancestor: &str, descendant: &str) -> (same: bool)
    ensures
        same == is_same_or_ancestor(ancestor@, descendant@),
{
    let a = chars_of(ancestor);
    let d = chars_of(descendant);
    if a.len() > d.len() {
        return false;
    }
    let mut i: usize = 0;
    while i < a.len()
        invariant
            i <= a@.len() <= d@.len(),
            a@ == ancestor@,
            d@ == descendant@,
            forall|j: int| 0 <= j < i ==> a@[j] == d@[j],
        decreases a@.len() - i,
    {
        if a[i] != d[i] {
            assert(d@.take(a@.len() as int)[i as int] != a@[i as int]);
            assert(a@ != d@);
            return false;
        }
        i = i + 1;
    }
    assert(d@.take(a@.len() as int) =~= a@);
    if a.len() == d.len() {
        assert(a@ =~= d@);
        true
    } else {
        a.len() > 0 && d[a.len()] == '/'
    }
}

/// The characters of a pattern, and where they begin and end when it is trimmed.
fn trim_pattern(pattern: &str) -> (trimmed: (Vec<char>, usize, usize))
    ensures
        trimmed.0@ == pattern@,
        trimmed.1 <= trimmed.2 <= pattern@.len(),
        pattern@.subrange(trimmed.1 as int, trimmed.2 as int) == trimmed_pattern(pattern@),
{
    let chars = chars_of(pattern);
    let undotted: usize = start_without_dot_slashes(&chars);
    let start: usize = start_without_slashes(&chars, undotted);
    let end: usize = end_without_slashes(&chars, start, chars.len());
    assert(chars@.skip(start as int) =~= chars@.subrange(start as int, chars@.len() as int));
    (chars, start, end)
}

/// Whether something below `directory` may match `pattern`.
pub fn pattern_may_match_below(pattern: &str, directory: &FilePath) -> (may: bool)
    ensures
        may == may_match_below(pattern@, text_of(directory@)),
{
    let directory = path_text(directory);
    let (chars, start, end) = trim_pattern(pattern);
    let special: usize = first_special(&chars, start, end);
    let literal_end: usize = end_without_slashes(&chars, start, special);
    let mut literal = string_of(&chars, start, literal_end);
    proof {
        let all = chars@.subrange(start as int, special as int);
        trimming_slashes_at_the_end(all);
        if all.len() > 0 && all.last() == '/' {
            trimming_slashes_at_the_end(all.drop_last());
        }
    }
    if literal_end < special {
        literal.push('/');
    }
    // A wildcard before any path segment can match below every directory.
    if literal.as_str().is_empty() {
        return true;
    }
    if special == end {
        return same_or_ancestor(directory.as_str(), literal.as_str()) || same_or_ancestor(
            literal.as_str(),
            directory.as_str(),
        );
    }
    // The literal may end within a name, so compare it with what the texts below
    // the directory begin with.
    let mut below = directory;
    below.append("/");
    begins_with(below.as_str(), literal.as_str()) || begins_with(literal.as_str(), below.as_str())
}

/// Whether `pattern` matches everything below the directory whose bytes are
/// `directory`.
pub fn pattern_ignores_all_below(pattern: &str, directory: &[u8]) -> (ignores: bool)
    ensures
        ignores == ignores_all_below(pattern@, directory@),
{
    let (chars, start, end) = trim_pattern(pattern);
    let ghost trimmed = trimmed_pattern(pattern@);
    if end - start < 3 || chars[end - 3] != '/' || chars[end - 2] != '*' || chars[end - 1] != '*' {
        proof {
            if ends_with(trimmed, everything_below()) {
                let tail = trimmed.skip(trimmed.len() - 3);
                assert(tail[0] == '/' && tail[1] == '*' && tail[2] == '*');
                assert(tail[0] == chars@[end - 3]);
                assert(tail[1] == chars@[end - 2]);
                assert(tail[2] == chars@[end - 1]);
            }
        }
        return false;
    }
    let prefix = string_of(&chars, start, end - 3);
    proof {
        assert(trimmed.skip(trimmed.len() - 3) =~= everything_below());
        assert(prefix@ =~= trimmed.take(trimmed.len() - 3));
    }
    match GlobPattern::new(prefix.as_str()) {
        Err(_) => false,
        Ok(glob) => glob.is_match(directory),
    }
}

/// What the include and ignore rules say of one path.
#[derive(Clone, Copy, Debug, PartialEq, Eq, Structural)]
pub struct RuleMatches {
    /// An ignore pattern matches the path.
    pub ignored: bool,
    /// An ignore pattern matches everything below the path.
    pub fully_ignored: bool,
    /// There are no include patterns.
    pub no_includes: bool,
    /// An include pattern matches the path.
    pub included: bool,
    /// An include pattern may match something below the path.
    pub may_contain_include: bool,
}

impl RuleMatches {
    /// Whether a path of `kind` schedules a run: ignores win over includes, and
    /// a directory counts for what may lie below it.
    pub open spec fn admits(self, kind: PathKind) -> bool {
        &&& !self.ignored
        &&& kind == PathKind::Directory ==> !self.fully_ignored
        &&& {
            ||| self.no_includes
            ||| self.included
            ||| kind == PathKind::Directory && self.may_contain_include
        }
    }

    /// Decides by what the rules say of a path whether it schedules a run.
    pub fn decide(self, kind: PathKind) -> (admitted: bool)
        ensures
            admitted == self.admits(kind),
    {
        if self.ignored || (kind == PathKind::Directory && self.fully_ignored) {
            return false;
        }
        if self.no_includes || self.included {
            return true;
        }
        kind == PathKind::Directory && self.may_contain_include
    }
}

/// Matches normalized event paths against the configured include and ignore rules.
#[derive(Debug)]
pub struct PathFilter {
    cwd: FilePath,
    roots: Option<Vec<FilePath>>,
    includes: PatternSet,
    ignores: PatternSet,
    include_patterns: Vec<String>,
    ignore_patterns: Vec<String>,
    gitignore: Option<GitignoreRules>,
}

/// What a filter goes by.
pub ghost struct FilterModel {
    /// The directory that patterns are relative to.
    pub cwd: Seq<Part>,
    /// The watched paths, if only events below them count.
    pub roots: Option<Seq<Seq<Part>>>,
    /// The include patterns that are matched.
    pub includes: Seq<Seq<char>>,
    /// The ignore patterns that are matched.
    pub ignores: Seq<Seq<char>>,
    /// The include patterns by which directories are judged.
    pub include_patterns: Seq<Seq<char>>,
    /// The ignore patterns by which directories are judged.
    pub ignore_patterns: Seq<Seq<char>>,
    /// The root of the repository whose ignore rules apply.
    pub repository: Option<Seq<Part>>,
}

impl FilterModel {
    /// Whether `path` is watched: it lies in a watched path, or is a directory
    /// that a watched path lies in.
    pub open spec fn watches(self, path: Seq<Part>, kind: PathKind) -> bool {
        match self.roots {
            None => true,
            Some(roots) => exists|i: int|
                0 <= i < roots.len() && is_watched_by(
                    #[trigger] roots[i],
                    joined(self.cwd, path),
                    kind,
                ),
        }
    }

    /// Whether an include pattern may match something below the directory whose
    /// bytes are `directory`. The working directory holds everything, and without
    /// the text of the patterns every directory may.
    pub open spec fn may_contain_include(self, directory: Seq<u8>) -> bool {
        ||| directory.len() == 0
        ||| self.include_patterns.len() == 0
        ||| exists|i: int|
            0 <= i < self.include_patterns.len() && may_match_below(
                #[trigger] self.include_patterns[i],
                text_of(parts_of(directory)),
            )
    }

    /// Whether an ignore pattern matches everything below the directory whose
    /// bytes are `directory`.
    pub open spec fn fully_ignores(self, directory: Seq<u8>) -> bool {
        exists|i: int|
            0 <= i < self.ignore_patterns.len() && ignores_all_below(
                #[trigger] self.ignore_patterns[i],
                directory,
            )
    }

    /// What the patterns say of the path whose bytes, relative to the working
    /// directory, are `name`.
    pub open spec fn rule_matches(self, name: Seq<u8>) -> RuleMatches {
        RuleMatches {
            ignored: any_matches(self.ignores, name),
            fully_ignored: self.fully_ignores(name),
            no_includes: self.includes.len() == 0,
            included: any_matches(self.includes, name),
            may_contain_include: self.may_contain_include(name),
        }
    }

    /// Whether the repository's rules, as far as there is a repository, ignore
    /// the path `name`, relative to the working directory.
    pub open spec fn repository_ignores(
        self,
        name: Seq<Part>,
        kind: PathKind,
        files: Seq<IgnoreModel>,
    ) -> bool {
        self.repository matches Some(root) && repository_ignores(
            root,
            files,
            joined(self.cwd, name),
            kind == PathKind::Directory,
        )
    }

    /// Whether an event for `path` schedules a run. A watched path outside the
    /// working directory has no name that patterns or repository rules could
    /// speak of, so it does.
    pub open spec fn accepts(
        self,
        path: Seq<Part>,
        kind: PathKind,
        files: Seq<IgnoreModel>,
    ) -> bool {
        &&& self.watches(path, kind)
        &&& match relative_name(self.cwd, path) {
            None => true,
            Some(name) => !self.repository_ignores(name, kind, files) && self.rule_matches(
                bytes_of(name),
            ).admits(kind),
        }
    }

    /// The directories whose ignore files have a say on `path`.
    pub open spec fn consulted(self, path: Seq<Part>) -> Seq<Seq<Part>> {
        match (self.repository, relative_name(self.cwd, path)) {
            (Some(root), Some(name)) => directories_above(root, joined(self.cwd, name)),
            _ => Seq::empty(),
        }
    }
}

/// Whether an event for `path` concerns the watched path `root`.
pub open spec fn is_watched_by(root: Seq<Part>, path: Seq<Part>, kind: PathKind) -> bool {
    ||| lies_in(path, root)
    ||| kind == PathKind::Directory && lies_in(root, path)
}

/// Whether a filter with these patterns may be refused for the reason that `text`
/// tells: that of the include patterns if they make no set, and otherwise that of
/// the ignore patterns.
pub open spec fn sets_refusal(
    includes: Seq<Seq<char>>,
    ignores: Seq<Seq<char>>,
    text: Seq<char>,
) -> bool {
    if !set_builds(includes) {
        set_refusal(includes, text)
    } else {
        !set_builds(ignores) && set_refusal(ignores, text)
    }
}

impl View for PathFilter {
    type V = FilterModel;

    closed spec fn view(&self) -> FilterModel {
        FilterModel {
            cwd: self.cwd@,
            roots: match self.roots {
                Some(roots) => Some(paths_view(roots@)),
                None => None,
            },
            includes: self.includes@,
            ignores: self.ignores@,
            include_patterns: strings_view(self.include_patterns@),
            ignore_patterns: strings_view(self.ignore_patterns@),
            repository: match self.gitignore {
                Some(rules) => Some(rules@),
                None => None,
            },
        }
    }
}

impl PathFilter {
    /// Build the filter of a watch specification. The rules of the repository
    /// that `cwd` is in apply if `use_gitignore` says so; `has_git` tells of
    /// each directory that may be its root whether it holds a `.git` directory
    /// or file.
    pub fn from_watch_spec(
        cwd: FilePath,
        watch: &WatchSpec,
        use_gitignore: bool,
        has_git: &Vec<bool>,
    ) -> (result: Result<PathFilter, GlobSetError>)
        ensures
            match result {
                Ok(filter) => {
                    &&& set_builds(globs_view(watch.includes@))
                    &&& set_builds(globs_view(watch.ignores@))
                    &&& filter@ == (FilterModel {
                        cwd: cwd@,
                        roots: Some(paths_view(watch.roots@)),
                        includes: globs_view(watch.includes@),
                        ignores: globs_view(watch.ignores@),
                        include_patterns: strings_view(watch.include_patterns@),
                        ignore_patterns: strings_view(watch.ignore_patterns@),
                        repository: if use_gitignore {
                            repository_of(cwd@, has_git@)
                        } else {
                            None
                        },
                    })
                },
                Err(error) => sets_refusal(
                    globs_view(watch.includes@),
                    globs_view(watch.ignores@),
                    error.reason_text(),
                ),
            },
            watch.includes@.len() == 0 && watch.ignores@.len() == 0 ==> result is Ok,
    {
        let gitignore = if use_gitignore {
            GitignoreRules::discover(&cwd, has_git)
        } else {
            None
        };
        PathFilter::new_with_patterns(
            cwd,
            &watch.includes,
            &watch.ignores,
            copy_strings(&watch.include_patterns),
            copy_strings(&watch.ignore_patterns),
            Some(copy_paths(&watch.roots)),
            gitignore,
        )
    }

    /// Build a filter from compiled globs. Directory events stay conservative
    /// when original pattern text is unavailable.
    pub fn new(cwd: FilePath, includes: &Vec<GlobPattern>, ignores: &Vec<GlobPattern>) -> (result:
        Result<PathFilter, GlobSetError>)
        ensures
            match result {
                Ok(filter) => {
                    &&& set_builds(globs_view(includes@))
                    &&& set_builds(globs_view(ignores@))
                    &&& filter@ == (FilterModel {
                        cwd: cwd@,
                        roots: None,
                        includes: globs_view(includes@),
                        ignores: globs_view(ignores@),
                        include_patterns: Seq::empty(),
                        ignore_patterns: Seq::empty(),
                        repository: None,
                    })
                },
                Err(error) => sets_refusal(
                    globs_view(includes@),
                    globs_view(ignores@),
                    error.reason_text(),
                ),
            },
            includes@.len() == 0 && ignores@.len() == 0 ==> result is Ok,
    {
        let include_patterns: Vec<String> = Vec::new();
        let ignore_patterns: Vec<String> = Vec::new();
        assert(strings_view(include_patterns@) =~= Seq::<Seq<char>>::empty());
        assert(strings_view(ignore_patterns@) =~= Seq::<Seq<char>>::empty());
        PathFilter::new_with_patterns(
            cwd,
            includes,
            ignores,
            include_patterns,
            ignore_patterns,
            None,
            None,
        )
    }

    /// Build a filter from compiled globs, their text, the watched paths and the
    /// repository rules.
    pub fn new_with_patterns(
        cwd: FilePath,
        includes: &Vec<GlobPattern>,
        ignores: &Vec<GlobPattern>,
        include_patterns: Vec<String>,
        ignore_patterns: Vec<String>,
        roots: Option<Vec<FilePath>>,
        gitignore: Option<GitignoreRules>,
    ) -> (result: Result<PathFilter, GlobSetError>)
        ensures
            match result {
                Ok(filter) => {
                    &&& set_builds(globs_view(includes@))
                    &&& set_builds(globs_view(ignores@))
                    &&& filter@ == (FilterModel {
                        cwd: cwd@,
                        roots: match roots {
                            Some(roots) => Some(paths_view(roots@)),
                            None => None,
                        },
                        includes: globs_view(includes@),
                        ignores: globs_view(ignores@),
                        include_patterns: strings_view(include_patterns@),
                        ignore_patterns: strings_view(ignore_patterns@),
                        repository: match gitignore {
                            Some(rules) => Some(rules@),
                            None => None,
                        },
                    })
                },
                Err(error) => sets_refusal(
                    globs_view(includes@),
                    globs_view(ignores@),
                    error.reason_text(),
                ),
            },
            includes@.len() == 0 && ignores@.len() == 0 ==> result is Ok,
    {
        let includes = match build_set(includes) {
            Ok(set) => set,
            Err(error) => {
                return Err(error);
            },
        };
        let ignores = match build_set(ignores) {
            Ok(set) => set,
            Err(error) => {
                return Err(error);
            },
        };
        Ok(
            PathFilter {
                cwd,
                roots,
                includes,
                ignores,
                include_patterns,
                ignore_patterns,
                gitignore,
            },
        )
    }

    /// Return a path relative to `cwd`, without requiring that the path still
    /// exists. Events for paths outside `cwd` do not have a CWD-relative name.
    pub fn normalize(&self, path: &FilePath) -> (name: Option<FilePath>)
        ensures
            match name {
                Some(name) => relative_name(self@.cwd, path@) == Some(name@),
                None => relative_name(self@.cwd, path@) is None,
            },
    {
        normalize_path(&self.cwd, path)
    }

    /// The directories whose ignore files have a say on `path`.
    pub fn consulted_directories(&self, path: &FilePath) -> (directories: Vec<FilePath>)
        ensures
            paths_view(directories@) == self@.consulted(path@),
    {
        match (&self.gitignore, self.normalize(path)) {
            (Some(rules), Some(name)) => rules.gitignore_directories(&self.cwd.join(&name)),
            _ => {
                let none: Vec<FilePath> = Vec::new();
                assert(paths_view(none@) =~= Seq::<Seq<Part>>::empty());
                none
            },
        }
    }

    /// Decide whether an event should schedule a run, where `files` are the
    /// ignore files that exist in the consulted directories.
    pub fn accepts(&self, path: &FilePath, kind: PathKind, files: &Vec<IgnoreFile>) -> (accepted:
        bool)
        ensures
            accepted == self@.accepts(path@, kind, files_view(files@)),
    {
        if !self.is_under_watch_root(path, kind) {
            return false;
        }
        match self.normalize(path) {
            // Include and explicit ignore globs are defined relative to the
            // working directory, as are repository .gitignore rules. An external
            // watch root has no meaningful name in that namespace, so accepting
            // it here makes `--watch /other/path` useful without accidentally
            // applying the CWD repository's rules to it.
            None => true,
            Some(name) => {
                match &self.gitignore {
                    Some(rules) => {
                        if rules.is_ignored(
                            &self.cwd.join(&name),
                            kind == PathKind::Directory,
                            files,
                        ) {
                            return false;
                        }
                    },
                    None => {},
                }
                let bytes = name.to_bytes();
                self.accepts_normalized(bytes.as_slice(), kind)
            },
        }
    }

    fn is_under_watch_root(&self, path: &FilePath, kind: PathKind) -> (watched: bool)
        ensures
            watched == self@.watches(path@, kind),
    {
        let roots = match &self.roots {
            None => {
                return true;
            },
            Some(roots) => roots,
        };
        let absolute = self.cwd.join(path);
        let mut i: usize = 0;
        while i < roots.len()
            invariant
                i <= roots@.len(),
                absolute@ == joined(self@.cwd, path@),
                self@.roots == Some(paths_view(roots@)),
                forall|j: int|
                    0 <= j < i ==> !is_watched_by(
                        #[trigger] paths_view(roots@)[j],
                        absolute@,
                        kind,
                    ),
            decreases roots@.len() - i,
        {
            // A broad parent event can describe a changed configured root.
            let watched: bool = absolute.starts_with(&roots[i]) || (kind == PathKind::Directory
                && roots[i].starts_with(&absolute));
            assert(paths_view(roots@)[i as int] == roots@[i as int]@);
            if watched {
                proof {
                    let watched_roots = self@.roots->0;
                    assert(0 <= i < watched_roots.len());
                    assert(is_watched_by(watched_roots[i as int], absolute@, kind));
                }
                return true;
            }
            i = i + 1;
        }
        assert(paths_view(roots@).len() == roots@.len());
        false
    }

    /// Decide whether a path already relative to `cwd` should schedule a run.
    /// Patterns are matched against the path's bytes as they are given.
    pub fn accepts_normalized(&self, path: &[u8], kind: PathKind) -> (accepted: bool)
        ensures
            accepted == self@.rule_matches(path@).admits(kind),
    {
        let directory: bool = kind == PathKind::Directory;
        let matches = RuleMatches {
            ignored: self.ignores.is_match(path),
            fully_ignored: directory && self.directory_is_fully_ignored(path),
            no_includes: self.includes.is_empty(),
            included: self.includes.is_match(path),
            may_contain_include: directory && self.directory_may_contain_include(path),
        };
        matches.decide(kind)
    }

    fn directory_may_contain_include(&self, directory: &[u8]) -> (may: bool)
        ensures
            may == self@.may_contain_include(directory@),
    {
        // A broad event for the working-directory root can contain every
        // configured include. FSEvents commonly reports this shape.
        if directory.len() == 0 {
            return true;
        }
        // A filter created from only compiled globs has no safe way to inspect
        // their prefixes. Accepting broad events is correct, if less selective.
        if self.include_patterns.len() == 0 {
            assert(self@.include_patterns.len() == 0);
            return true;
        }
        let path = FilePath::from_bytes(directory);
        let mut i: usize = 0;
        while i < self.include_patterns.len()
            invariant
                i <= self.include_patterns@.len(),
                path@ == parts_of(directory@),
                self@.include_patterns == strings_view(self.include_patterns@),
                forall|j: int|
                    0 <= j < i ==> !may_match_below(
                        #[trigger] self@.include_patterns[j],
                        text_of(path@),
                    ),
            decreases self.include_patterns@.len() - i,
        {
            let may = pattern_may_match_below(self.include_patterns[i].as_str(), &path);
            assert(self@.include_patterns[i as int] == self.include_patterns@[i as int]@);
            if may {
                return true;
            }
            i = i + 1;
        }
        assert(self@.include_patterns.len() == self.include_patterns@.len());
        false
    }

    fn directory_is_fully_ignored(&self, directory: &[u8]) -> (ignored: bool)
        ensures
            ignored == self@.fully_ignores(directory@),
    {
        let mut i: usize = 0;
        while i < self.ignore_patterns.len()
            invariant
                i <= self.ignore_patterns@.len(),
                self@.ignore_patterns == strings_view(self.ignore_patterns@),
                forall|j: int|
                    0 <= j < i ==> !ignores_all_below(
                        #[trigger] self@.ignore_patterns[j],
                        directory@,
                    ),
            decreases self.ignore_patterns@.len() - i,
        {
            let ignores = pattern_ignores_all_below(self.ignore_patterns[i].as_str(), directory);
            assert(self@.ignore_patterns[i as int] == self.ignore_patterns@[i as int]@);
            if ignores {
                return true;
            }
            i = i + 1;
        }
        assert(self@.ignore_patterns.len() == self.ignore_patterns@.len());
        false
    }
}

/// A relative name is made of names only, lies below the working directory, and
/// is its own relative name.
pub proof fn relative_name_is_stable(cwd: Seq<Part>, path: Seq<Part>)
    ensures
        relative_name(cwd, path) matches Some(name) ==> {
            &&& only_names(name)
            &&& lies_in(joined(cwd, name), cwd)
            &&& relative_name(cwd, name) == Some(name)
        },
{
    if let Some(name) = relative_name(cwd, path) {
        resolved_has_only_names(joined(cwd, path).skip(cwd.len() as int));
        if name.len() > 0 {
            assert(name[0] is Normal);
        }
        let absolute = joined(cwd, name);
        assert(absolute == cwd + name);
        assert(absolute.take(cwd.len() as int) =~= cwd);
        assert(absolute.skip(cwd.len() as int) =~= name);
        resolving_names_changes_nothing(name);
    }
}

proof fn relative_name_is_well_formed(cwd: Seq<Part>, path: Seq<Part>)
    requires
        well_formed(cwd),
        well_formed(path),
    ensures
        relative_name(cwd, path) matches Some(name) ==> well_formed(name),
{
    let absolute = joined(cwd, path);
    crate::path::joined_is_well_formed(cwd, path);
    if lies_in(absolute, cwd) {
        let rest = absolute.skip(cwd.len() as int);
        assert(rest =~= absolute.subrange(cwd.len() as int, absolute.len() as int));
        crate::path::subrange_is_well_formed(absolute, cwd.len() as int, absolute.len() as int);
        resolved_has_only_names(rest);
    }
}

/// More ignore patterns accept less: of two filters that differ only in them,
/// the one that holds all those of the other accepts nothing that the other
/// refuses.
pub proof fn more_ignores_accept_less(
    fewer: FilterModel,
    more: FilterModel,
    name: Seq<u8>,
    path: Seq<Part>,
    kind: PathKind,
    files: Seq<IgnoreModel>,
)
    requires
        all_among(fewer.ignores, more.ignores),
        all_among(fewer.ignore_patterns, more.ignore_patterns),
        more == (FilterModel {
            ignores: more.ignores,
            ignore_patterns: more.ignore_patterns,
            ..fewer
        }),
    ensures
        more.rule_matches(name).admits(kind) ==> fewer.rule_matches(name).admits(kind),
        more.accepts(path, kind, files) ==> fewer.accepts(path, kind, files),
{
    more_ignores_admit_less(fewer, more, name, kind);
    if let Some(relative) = relative_name(fewer.cwd, path) {
        more_ignores_admit_less(fewer, more, bytes_of(relative), kind);
    }
}

proof fn more_ignores_admit_less(
    fewer: FilterModel,
    more: FilterModel,
    name: Seq<u8>,
    kind: PathKind,
)
    requires
        all_among(fewer.ignores, more.ignores),
        all_among(fewer.ignore_patterns, more.ignore_patterns),
        more == (FilterModel {
            ignores: more.ignores,
            ignore_patterns: more.ignore_patterns,
            ..fewer
        }),
    ensures
        more.rule_matches(name).admits(kind) ==> fewer.rule_matches(name).admits(kind),
{
    more_patterns_match_more(fewer.ignores, more.ignores, name);
    if fewer.fully_ignores(name) {
        let i = choose|i: int|
            0 <= i < fewer.ignore_patterns.len() && ignores_all_below(
                #[trigger] fewer.ignore_patterns[i],
                name,
            );
        assert(more.ignore_patterns.contains(fewer.ignore_patterns[i]));
        let j = choose|j: int|
            0 <= j < more.ignore_patterns.len() && more.ignore_patterns[j]
                == fewer.ignore_patterns[i];
        assert(ignores_all_below(more.ignore_patterns[j], name));
    }
}

/// More include patterns accept more: of two filters that differ only in them,
/// and have some, the one that holds all those of the other accepts everything
/// that the other accepts. For directories, text of the patterns that is unknown
/// stays so, since every directory counts without it.
pub proof fn more_includes_accept_more(
    fewer: FilterModel,
    more: FilterModel,
    name: Seq<u8>,
    path: Seq<Part>,
    kind: PathKind,
    files: Seq<IgnoreModel>,
)
    requires
        fewer.includes.len() > 0,
        all_among(fewer.includes, more.includes),
        all_among(fewer.include_patterns, more.include_patterns),
        kind == PathKind::Directory && fewer.include_patterns.len() == 0
            ==> more.include_patterns.len() == 0,
        more == (FilterModel {
            includes: more.includes,
            include_patterns: more.include_patterns,
            ..fewer
        }),
    ensures
        fewer.rule_matches(name).admits(kind) ==> more.rule_matches(name).admits(kind),
        fewer.accepts(path, kind, files) ==> more.accepts(path, kind, files),
{
    more_includes_admit_more(fewer, more, name, kind);
    if let Some(relative) = relative_name(fewer.cwd, path) {
        more_includes_admit_more(fewer, more, bytes_of(relative), kind);
    }
}

proof fn more_includes_admit_more(
    fewer: FilterModel,
    more: FilterModel,
    name: Seq<u8>,
    kind: PathKind,
)
    requires
        fewer.includes.len() > 0,
        all_among(fewer.includes, more.includes),
        all_among(fewer.include_patterns, more.include_patterns),
        kind == PathKind::Directory && fewer.include_patterns.len() == 0
            ==> more.include_patterns.len() == 0,
        more == (FilterModel {
            includes: more.includes,
            include_patterns: more.include_patterns,
            ..fewer
        }),
    ensures
        fewer.rule_matches(name).admits(kind) ==> more.rule_matches(name).admits(kind),
{
    more_patterns_match_more(fewer.includes, more.includes, name);
    let text = text_of(parts_of(name));
    if exists|i: int|
        0 <= i < fewer.include_patterns.len() && may_match_below(
            #[trigger] fewer.include_patterns[i],
            text,
        ) {
        let i = choose|i: int|
            0 <= i < fewer.include_patterns.len() && may_match_below(
                #[trigger] fewer.include_patterns[i],
                text,
            );
        assert(more.include_patterns.contains(fewer.include_patterns[i]));
        let j = choose|j: int|
            0 <= j < more.include_patterns.len() && more.include_patterns[j]
                == fewer.include_patterns[i];
        assert(may_match_below(more.include_patterns[j], text));
    }
}

/// Whether each of `some` is among `all`.
pub open spec fn all_among(some: Seq<Seq<char>>, all: Seq<Seq<char>>) -> bool {
    forall|i: int| 0 <= i < some.len() ==> all.contains(#[trigger] some[i])
}

proof fn more_patterns_match_more(fewer: Seq<Seq<char>>, more: Seq<Seq<char>>, path: Seq<u8>)
    requires
        all_among(fewer, more),
    ensures
        any_matches(fewer, path) ==> any_matches(more, path),
{
    if any_matches(fewer, path) {
        let i = choose|i: int| 0 <= i < fewer.len() && glob_matches(#[trigger] fewer[i], path);
        assert(more.contains(fewer[i]));
        let j = choose|j: int| 0 <= j < more.len() && more[j] == fewer[i];
        assert(glob_matches(more[j], path));
    }
}

/// Ignores win over includes: a path that an ignore pattern matches never
/// schedules a run, whatever its kind and whatever else is so.
pub proof fn ignores_win_over_includes(
    m: FilterModel,
    path: Seq<Part>,
    name: Seq<Part>,
    kind: PathKind,
    files: Seq<IgnoreModel>,
)
    requires
        relative_name(m.cwd, path) == Some(name),
        any_matches(m.ignores, bytes_of(name)),
    ensures
        !m.rule_matches(bytes_of(name)).admits(kind),
        !m.accepts(path, kind, files),
{
}

/// Without include patterns every watched path schedules a run that neither an
/// ignore pattern nor the repository rules out.
pub proof fn without_includes_only_ignores_matter(
    m: FilterModel,
    path: Seq<Part>,
    name: Seq<Part>,
    kind: PathKind,
    files: Seq<IgnoreModel>,
)
    requires
        m.includes.len() == 0,
        m.watches(path, kind),
        relative_name(m.cwd, path) == Some(name),
    ensures
        m.accepts(path, kind, files) <==> {
            &&& !m.repository_ignores(name, kind, files)
            &&& !any_matches(m.ignores, bytes_of(name))
            &&& kind == PathKind::Directory ==> !m.fully_ignores(bytes_of(name))
        },
{
}

/// With include patterns a file schedules a run only if one of them matches it.
pub proof fn includes_select_files(
    m: FilterModel,
    path: Seq<Part>,
    name: Seq<Part>,
    files: Seq<IgnoreModel>,
)
    requires
        m.includes.len() > 0,
        relative_name(m.cwd, path) == Some(name),
        m.accepts(path, PathKind::File, files),
    ensures
        any_matches(m.includes, bytes_of(name)),
{
}

/// A watched path outside the working directory schedules a run whatever the
/// patterns and the repository's rules are.
pub proof fn external_watched_paths_bypass_rules(
    m: FilterModel,
    path: Seq<Part>,
    kind: PathKind,
    files: Seq<IgnoreModel>,
)
    requires
        m.watches(path, kind),
        relative_name(m.cwd, path) is None,
    ensures
        m.accepts(path, kind, files),
{
}

/// A path that is not watched never schedules a run.
pub proof fn unwatched_paths_are_refused(
    m: FilterModel,
    path: Seq<Part>,
    kind: PathKind,
    files: Seq<IgnoreModel>,
)
    requires
        !m.watches(path, kind),
    ensures
        !m.accepts(path, kind, files),
{
}

/// A file is watched only below a watched path; a directory also when a watched
/// path lies below it.
pub proof fn broad_events_reach_up(m: FilterModel, path: Seq<Part>, root: Seq<Part>, i: int)
    requires
        m.roots matches Some(roots) && 0 <= i < roots.len() && roots[i] == root,
    ensures
        lies_in(joined(m.cwd, path), root) ==> m.watches(path, PathKind::File),
        lies_in(root, joined(m.cwd, path)) ==> m.watches(path, PathKind::Directory),
        m.watches(path, PathKind::File) ==> m.watches(path, PathKind::Directory),
{
    let roots = m.roots->0;
    let absolute = joined(m.cwd, path);
    if lies_in(absolute, root) {
        assert(is_watched_by(roots[i], absolute, PathKind::File));
    }
    if lies_in(root, absolute) {
        assert(is_watched_by(roots[i], absolute, PathKind::Directory));
    }
    if m.watches(path, PathKind::File) {
        let j = choose|j: int|
            0 <= j < roots.len() && is_watched_by(#[trigger] roots[j], absolute, PathKind::File);
        assert(is_watched_by(roots[j], absolute, PathKind::Directory));
    }
}

/// Only the ignore files of the consulted directories have a say on a path, and
/// without a repository none has.
pub proof fn only_consulted_files_have_a_say(
    m: FilterModel,
    path: Seq<Part>,
    kind: PathKind,
    files: Seq<IgnoreModel>,
    others: Seq<IgnoreModel>,
)
    requires
        well_formed(m.cwd),
        well_formed(path),
        forall|i: int|
            0 <= i < m.consulted(path).len() ==> file_of(files, #[trigger] m.consulted(path)[i])
                == file_of(others, m.consulted(path)[i]),
    ensures
        m.accepts(path, kind, files) == m.accepts(path, kind, others),
{
    if let (Some(root), Some(name)) = (m.repository, relative_name(m.cwd, path)) {
        let absolute = joined(m.cwd, name);
        assert(m.consulted(path) == directories_above(root, absolute));
        relative_name_is_well_formed(m.cwd, path);
        crate::path::joined_is_well_formed(m.cwd, name);
        only_files_above_have_a_say(root, files, others, absolute, kind == PathKind::Directory);
    }
}

/// A broad event for the working directory itself may concern every include
/// pattern.
pub proof fn working_directory_may_contain_includes(m: FilterModel, files: Seq<IgnoreModel>)
    requires
        m.watches(m.cwd, PathKind::Directory),
        is_rooted(m.cwd),
        !m.repository_ignores(Seq::empty(), PathKind::Directory, files),
        !any_matches(m.ignores, Seq::empty()),
        !m.fully_ignores(Seq::empty()),
    ensures
        m.accepts(m.cwd, PathKind::Directory, files),
{
    assert(joined(m.cwd, m.cwd) == m.cwd);
    assert(m.cwd.take(m.cwd.len() as int) =~= m.cwd);
    assert(m.cwd.skip(m.cwd.len() as int) =~= Seq::<Part>::empty());
    assert(bytes_of(Seq::<Part>::empty()) =~= Seq::<u8>::empty());
}

/// The directory test is conservative: a directory that may hold a text which
/// fits a pattern's literal prefix is never ruled out.
pub proof fn directories_on_the_way_may_match(
    pattern: Seq<char>,
    directory: Seq<char>,
    text: Seq<char>,
)
    requires
        (directory + "/"@).is_prefix_of(text),
        literal_fits(pattern, text),
    ensures
        may_match_below(pattern, directory),
{
    reveal_strlit("/");
    let literal = literal_prefix(pattern);
    let below = directory + "/"@;
    if has_special(trimmed_pattern(pattern)) {
        if literal.len() <= below.len() {
            assert(literal =~= below.subrange(0, literal.len() as int));
        } else {
            assert(below =~= literal.subrange(0, below.len() as int));
        }
    } else if literal.len() > 0 {
        assert(text.take(text.len() as int) =~= text);
        assert(text.take(literal.len() as int) =~= literal);
        assert(text.take(directory.len() as int) =~= directory);
        assert(text[directory.len() as int] == '/') by {
            assert(below[directory.len() as int] == '/');
        }
        trimmed_begins_without_slash(pattern);
        if directory.len() < literal.len() {
            assert(literal.take(directory.len() as int) =~= directory);
            assert(literal[directory.len() as int] == text[directory.len() as int]);
            trimming_slashes_at_the_end(before_special(trimmed_pattern(pattern)));
            assert(literal[0] == trimmed_pattern(pattern)[0]);
        } else if directory.len() == literal.len() {
            assert(directory =~= literal);
        } else {
            assert(directory.take(literal.len() as int) =~= literal);
            assert(directory[literal.len() as int] == text[literal.len() as int]);
        }
    }
}

proof fn trimmed_begins_without_slash(pattern: Seq<char>)
    ensures
        trimmed_pattern(pattern).len() > 0 ==> trimmed_pattern(pattern)[0] != '/',
{
    let front = trim_start_slashes(trim_start_dot_slashes(pattern));
    trimming_slashes_in_front(trim_start_dot_slashes(pattern));
    trimming_slashes_at_the_end(front);
}

proof fn trimming_slashes_in_front(s: Seq<char>)
    ensures
        trim_start_slashes(s).len() > 0 ==> trim_start_slashes(s)[0] != '/',
    decreases s.len(),
{
    if s.len() > 0 && s[0] == '/' {
        trimming_slashes_in_front(s.drop_first());
    }
}

proof fn trimming_slashes_at_the_end(s: Seq<char>)
    ensures
        trim_end_slashes(s).is_prefix_of(s),
        s.len() > 0 && s[0] != '/' ==> trim_end_slashes(s).len() > 0,
    decreases s.len(),
{
    if s.len() > 0 && s.last() == '/' {
        trimming_slashes_at_the_end(s.drop_last());
    }
}

/// A directory that the repository's rules ignore, asked of it as a directory, is
/// refused, and so is a file that they ignore, asked of it as a file.
pub proof fn repository_rules_refuse_by_kind(
    m: FilterModel,
    path: Seq<Part>,
    name: Seq<Part>,
    root: Seq<Part>,
    files: Seq<IgnoreModel>,
)
    requires
        m.repository == Some(root),
        relative_name(m.cwd, path) == Some(name),
        lies_in(joined(m.cwd, name), root),
        joined(m.cwd, name).len() > root.len(),
    ensures
        nearest(level(root, files, joined(m.cwd, name), true)) == Verdict::Ignored ==> !m.accepts(
            path,
            PathKind::Directory,
            files,
        ),
        nearest(level(root, files, joined(m.cwd, name), false)) == Verdict::Ignored ==> !m.accepts(
            path,
            PathKind::File,
            files,
        ),
{
    let absolute = joined(m.cwd, name);
    assert(absolute.take(absolute.len() as int) =~= absolute);
    assert(absolute.take(absolute.len() as int) == absolute);
    what_a_repository_ignores(root, files, absolute, true);
    what_a_repository_ignores(root, files, absolute, false);
}

/// Everything below a directory that the repository's rules ignore is refused,
/// and so is everything in the repository's own directory.
pub proof fn ignored_directories_refuse_everything_below(
    m: FilterModel,
    path: Seq<Part>,
    name: Seq<Part>,
    root: Seq<Part>,
    files: Seq<IgnoreModel>,
    kind: PathKind,
    n: int,
)
    requires
        m.repository == Some(root),
        relative_name(m.cwd, path) == Some(name),
        ({
            let absolute = joined(m.cwd, name);
            ||| lies_in(absolute, root.push(Part::Normal(seq![46u8, 103u8, 105u8, 116u8])))
            ||| lies_in(absolute, root) && root.len() < n < absolute.len() && nearest(
                level(root, files, absolute.take(n), true),
            ) == Verdict::Ignored
        }),
    ensures
        !m.accepts(path, kind, files),
{
    what_a_repository_ignores(root, files, joined(m.cwd, name), kind == PathKind::Directory);
}

/// What the repository does not ignore it does not refuse: a filter with a
/// repository accepts such a path as one without would.
pub proof fn repositories_refuse_nothing_else(
    m: FilterModel,
    path: Seq<Part>,
    name: Seq<Part>,
    root: Seq<Part>,
    files: Seq<IgnoreModel>,
    kind: PathKind,
)
    requires
        m.repository == Some(root),
        relative_name(m.cwd, path) == Some(name),
        !repository_ignores(root, files, joined(m.cwd, name), kind == PathKind::Directory),
    ensures
        m.accepts(path, kind, files) == (FilterModel { repository: None, ..m }).accepts(
            path,
            kind,
            files,
        ),
{
    let without = FilterModel { repository: None, ..m };
    let bytes = bytes_of(name);
    if m.fully_ignores(bytes) {
        let i = choose|i: int|
            0 <= i < m.ignore_patterns.len() && ignores_all_below(
                #[trigger] m.ignore_patterns[i],
                bytes,
            );
        assert(ignores_all_below(without.ignore_patterns[i], bytes));
    }
    assert(without.fully_ignores(bytes) == m.fully_ignores(bytes));
    assert(without.may_contain_include(bytes) == m.may_contain_include(bytes));
    assert(without.watches(path, kind) == m.watches(path, kind));
}

/// Without a repository, a watched file with a relative name is accepted exactly
/// if no ignore pattern matches the name and, where there are include patterns,
/// one of them does.
pub proof fn what_files_are_accepted(
    m: FilterModel,
    path: Seq<Part>,
    name: Seq<Part>,
    files: Seq<IgnoreModel>,
)
    requires
        m.repository is None,
        m.watches(path, PathKind::File),
        relative_name(m.cwd, path) == Some(name),
    ensures
        m.accepts(path, PathKind::File, files) <==> {
            &&& forall|i: int|
                0 <= i < m.ignores.len() ==> !glob_matches(#[trigger] m.ignores[i], bytes_of(name))
            &&& m.includes.len() == 0 || exists|i: int|
                0 <= i < m.includes.len() && glob_matches(#[trigger] m.includes[i], bytes_of(name))
        },
{
}

/// Without a repository, a watched directory with a relative name is accepted
/// exactly if no ignore pattern matches the name or everything below it and, where
/// there are include patterns, one of them matches it or may match below it. The
/// working directory, and every directory where the text of the patterns is
/// unknown, may hold anything.
pub proof fn what_directories_are_accepted(
    m: FilterModel,
    path: Seq<Part>,
    name: Seq<Part>,
    files: Seq<IgnoreModel>,
)
    requires
        well_formed(m.cwd),
        well_formed(path),
        m.repository is None,
        m.watches(path, PathKind::Directory),
        relative_name(m.cwd, path) == Some(name),
    ensures
        m.accepts(path, PathKind::Directory, files) <==> {
            &&& forall|i: int|
                0 <= i < m.ignores.len() ==> !glob_matches(#[trigger] m.ignores[i], bytes_of(name))
            &&& forall|i: int|
                0 <= i < m.ignore_patterns.len() ==> !ignores_all_below(
                    #[trigger] m.ignore_patterns[i],
                    bytes_of(name),
                )
            &&& {
                ||| m.includes.len() == 0
                ||| exists|i: int|
                    0 <= i < m.includes.len() && glob_matches(
                        #[trigger] m.includes[i],
                        bytes_of(name),
                    )
                ||| name.len() == 0
                ||| m.include_patterns.len() == 0
                ||| exists|i: int|
                    0 <= i < m.include_patterns.len() && may_match_below(
                        #[trigger] m.include_patterns[i],
                        text_of(name),
                    )
            }
        },
{
    relative_name_is_well_formed(m.cwd, path);
    path_reads_back(name);
    if name.len() > 0 {
        crate::path::bytes_of_is_not_empty(name);
    } else {
        assert(bytes_of(name) =~= Seq::<u8>::empty());
    }
}

/// Without watched paths everything is watched; otherwise a file is watched
/// exactly if it is, or lies in, one of them, and a directory also if one of them
/// lies in it.
pub proof fn what_is_watched(m: FilterModel, path: Seq<Part>)
    ensures
        m.roots is None ==> m.watches(path, PathKind::File) && m.watches(path, PathKind::Directory),
        m.roots matches Some(roots) ==> (m.watches(path, PathKind::File) <==> exists|i: int|
            0 <= i < roots.len() && lies_in(joined(m.cwd, path), #[trigger] roots[i])),
        m.roots matches Some(roots) ==> (m.watches(path, PathKind::Directory) <==> exists|i: int|
            0 <= i < roots.len() && (lies_in(joined(m.cwd, path), #[trigger] roots[i]) || lies_in(
                roots[i],
                joined(m.cwd, path),
            ))),
{
    if let Some(roots) = m.roots {
        let absolute = joined(m.cwd, path);
        if exists|i: int| 0 <= i < roots.len() && lies_in(absolute, #[trigger] roots[i]) {
            let i = choose|i: int| 0 <= i < roots.len() && lies_in(absolute, #[trigger] roots[i]);
            assert(is_watched_by(roots[i], absolute, PathKind::File));
        }
        if exists|i: int|
            0 <= i < roots.len() && (lies_in(absolute, #[trigger] roots[i]) || lies_in(
                roots[i],
                absolute,
            )) {
            let i = choose|i: int|
                0 <= i < roots.len() && (lies_in(absolute, #[trigger] roots[i]) || lies_in(
                    roots[i],
                    absolute,
                ));
            assert(is_watched_by(roots[i], absolute, PathKind::Directory));
        }
    }
}

/// A name is resolved by itself, a dot to nothing, and two dots to the path
/// before the last name; two dots with no name before them, and a root, lead out.
pub proof fn resolving_goes_name_by_name(path: Seq<Part>, name: Seq<u8>)
    ensures
        resolved(Seq::empty()) == Some(Seq::<Part>::empty()),
        resolved(path) is None ==> resolved(path.push(Part::Normal(name))) is None && resolved(
            path.push(Part::ParentDir),
        ) is None && resolved(path.push(Part::CurDir)) is None,
        resolved(path) matches Some(names) ==> {
            &&& resolved(path.push(Part::Normal(name))) == Some(names.push(Part::Normal(name)))
            &&& resolved(path.push(Part::CurDir)) == Some(names)
            &&& names.len() > 0 ==> resolved(path.push(Part::ParentDir)) == Some(names.drop_last())
            &&& names.len() == 0 ==> resolved(path.push(Part::ParentDir)) is None
        },
        resolved(path.push(Part::RootDir)) is None,
{
    assert(path.push(Part::Normal(name)).drop_last() =~= path);
    assert(path.push(Part::CurDir).drop_last() =~= path);
    assert(path.push(Part::ParentDir).drop_last() =~= path);
    assert(path.push(Part::RootDir).drop_last() =~= path);
}

/// A path below the working directory, or relative to it, is named by what the
/// rest of it resolves to; an absolute path elsewhere has no such name.
pub proof fn paths_are_named_from_the_working_directory(
    cwd: Seq<Part>,
    rest: Seq<Part>,
    path: Seq<Part>,
)
    requires
        is_rooted(cwd),
    ensures
        !is_rooted(rest) ==> relative_name(cwd, rest) == resolved(rest),
        relative_name(cwd, cwd + rest) == resolved(rest),
        is_rooted(path) && !cwd.is_prefix_of(path) ==> relative_name(cwd, path) is None,
{
    let absolute = cwd + rest;
    assert(absolute[0] == cwd[0]);
    assert(joined(cwd, absolute) == absolute);
    assert(absolute.take(cwd.len() as int) =~= cwd);
    assert(absolute.skip(cwd.len() as int) =~= rest);
    if rest.len() > 0 && rest[0] is CurDir {
        let below = cwd + rest.skip(1);
        assert(below.take(cwd.len() as int) =~= cwd);
        assert(below.skip(cwd.len() as int) =~= rest.skip(1));
        leading_dots_mean_nothing(rest);
    }
    if lies_in(path, cwd) {
        assert(cwd =~= path.subrange(0, cwd.len() as int));
    }
}

proof fn leading_dots_mean_nothing(path: Seq<Part>)
    requires
        path.len() > 0,
        path[0] is CurDir,
    ensures
        resolved(path) == resolved(path.skip(1)),
    decreases path.len(),
{
    if path.len() == 1 {
        assert(path.drop_last() =~= Seq::<Part>::empty());
        assert(path.skip(1) =~= Seq::<Part>::empty());
    } else {
        leading_dots_mean_nothing(path.drop_last());
        assert(path.skip(1).drop_last() =~= path.drop_last().skip(1));
    }
}

/// The text of names has one slash between two of them.
pub proof fn names_are_joined_by_slashes(names: Seq<Part>, name: Seq<u8>)
    requires
        only_names(names),
    ensures
        text_of(Seq::empty()) == Seq::<char>::empty(),
        names.len() == 0 ==> text_of(names.push(Part::Normal(name))) == lossy_text(name),
        names.len() > 0 ==> text_of(names.push(Part::Normal(name))) == text_of(names) + seq!['/']
            + lossy_text(name),
{
    let all = names.push(Part::Normal(name));
    assert(all.drop_last() =~= names);
    if names.len() > 0 {
        assert(names[0] is Normal);
        assert(text_of(all) =~= text_of(names) + seq!['/'] + lossy_text(name));
    }
}

/// A directory's text is that of another path or of a directory above it exactly
/// if they are the same or the other begins with it and a slash.
pub proof fn ancestors_end_at_a_slash(ancestor: Seq<char>, text: Seq<char>)
    ensures
        is_same_or_ancestor(ancestor, text) <==> ancestor == text || (ancestor.len() > 0 && (
        ancestor.push('/')).is_prefix_of(text)),
{
    let begin = ancestor.push('/');
    if ancestor.len() < text.len() && text.take(ancestor.len() as int) == ancestor
        && text[ancestor.len() as int] == '/' {
        assert(begin =~= text.subrange(0, begin.len() as int));
    }
    if begin.is_prefix_of(text) {
        assert(text.take(ancestor.len() as int) =~= ancestor);
        assert(begin[ancestor.len() as int] == text[ancestor.len() as int]);
    }
}

/// A pattern with a wildcard may match below a directory exactly if nothing
/// stands before the wildcard, or that and the texts below the directory can begin
/// alike.
pub proof fn wildcards_may_match_where_texts_begin_alike(
    literal: Seq<char>,
    c: char,
    rest: Seq<char>,
    directory: Seq<char>,
)
    requires
        forall|i: int| 0 <= i < literal.len() ==> !is_special(#[trigger] literal[i]),
        is_special(c),
        literal.len() > 0 ==> literal[0] != '/',
        !(literal.len() >= 2 && literal[0] == '.' && literal[1] == '/'),
        !(literal.len() >= 2 && literal[literal.len() - 1] == '/' && literal[literal.len() - 2]
            == '/'),
    ensures
        may_match_below(literal.push(c) + rest, directory) <==> {
            ||| literal.len() == 0
            ||| literal.is_prefix_of(directory.push('/'))
            ||| directory.push('/').is_prefix_of(literal)
        },
{
    let pattern = literal.push(c) + rest;
    wildcard_pattern_is_trimmed_behind(literal, c, rest);
    let kept = trimmed_pattern(pattern).skip(literal.len() as int + 1);
    literals_end_at_the_first_wildcard(literal, c, kept);
    reveal_strlit("/");
    assert(directory + "/"@ =~= directory.push('/'));
    if literal.len() > 0 && literal.last() == '/' {
        let name = literal.drop_last();
        assert(name.push('/') =~= literal);
        trimming_takes_slashes_at_the_end(name);
        if name.len() > 0 {
            assert(name.last() == literal[literal.len() - 2]);
        }
    }
    assert(literal_prefix(pattern) == literal);
}

/// Several slashes before a wildcard count as one.
pub proof fn slashes_before_a_wildcard_count_once(
    literal: Seq<char>,
    c: char,
    rest: Seq<char>,
    directory: Seq<char>,
)
    requires
        forall|i: int| 0 <= i < literal.len() ==> !is_special(#[trigger] literal[i]),
        is_special(c),
        literal.len() > 0,
        literal[0] != '/',
        !(literal.len() >= 2 && literal[0] == '.' && literal[1] == '/'),
        literal.last() == '/',
    ensures
        may_match_below(literal.push('/').push(c) + rest, directory) == may_match_below(
            literal.push(c) + rest,
            directory,
        ),
{
    let longer = literal.push('/');
    assert forall|i: int| 0 <= i < longer.len() implies !is_special(#[trigger] longer[i]) by {
        if i < literal.len() {
            assert(longer[i] == literal[i]);
        }
    }
    wildcard_pattern_is_trimmed_behind(literal, c, rest);
    wildcard_pattern_is_trimmed_behind(longer, c, rest);
    literals_end_at_the_first_wildcard(
        literal,
        c,
        trimmed_pattern(literal.push(c) + rest).skip(literal.len() as int + 1),
    );
    literals_end_at_the_first_wildcard(
        longer,
        c,
        trimmed_pattern(longer.push(c) + rest).skip(longer.len() as int + 1),
    );
    trimming_takes_slashes_at_the_end(literal);
}

proof fn wildcard_pattern_is_trimmed_behind(literal: Seq<char>, c: char, rest: Seq<char>)
    requires
        is_special(c),
        literal.len() > 0 ==> literal[0] != '/',
        !(literal.len() >= 2 && literal[0] == '.' && literal[1] == '/'),
    ensures
        ({
            let trimmed = trimmed_pattern(literal.push(c) + rest);
            &&& trimmed.len() > literal.len()
            &&& trimmed == literal.push(c) + trimmed.skip(literal.len() as int + 1)
        }),
{
    let pattern = literal.push(c) + rest;
    let n = literal.len() as int;
    assert(pattern[n] == c);
    if n > 0 {
        assert(pattern[0] == literal[0]);
    }
    if n > 1 {
        assert(pattern[1] == literal[1]);
    }
    trimming_takes_slashes_in_front(pattern);
    trimming_slashes_at_the_end(pattern);
    trimming_stops_before_other_characters(pattern, n);
    let trimmed = trim_end_slashes(pattern);
    assert(trimmed == trimmed_pattern(pattern));
    assert(trimmed =~= literal.push(c) + trimmed.skip(n + 1));
}

proof fn trimming_stops_before_other_characters(s: Seq<char>, k: int)
    requires
        0 <= k < s.len(),
        s[k] != '/',
    ensures
        trim_end_slashes(s).len() > k,
    decreases s.len(),
{
    if s.last() == '/' {
        assert(s.drop_last()[k] == s[k]);
        trimming_stops_before_other_characters(s.drop_last(), k);
    }
}

/// A pattern without wildcards may match below a directory exactly if they are
/// the same, or one is a directory above the other.
pub proof fn plain_patterns_may_match_on_their_way(pattern: Seq<char>, directory: Seq<char>)
    requires
        pattern.len() > 0,
        forall|i: int| 0 <= i < pattern.len() ==> !is_special(#[trigger] pattern[i]),
        pattern[0] != '/',
        pattern.last() != '/',
        !(pattern.len() >= 2 && pattern[0] == '.' && pattern[1] == '/'),
    ensures
        may_match_below(pattern, directory) <==> {
            ||| directory == pattern
            ||| directory.len() > 0 && directory.push('/').is_prefix_of(pattern)
            ||| pattern.push('/').is_prefix_of(directory)
        },
{
    trimming_takes_slashes_in_front(pattern);
    trimming_takes_slashes_at_the_end(pattern);
    literals_end_at_the_first_wildcard(pattern, '*', Seq::empty());
    ancestors_end_at_a_slash(directory, pattern);
    ancestors_end_at_a_slash(pattern, directory);
}

/// A dot with a slash, and slashes, in front of a pattern, and slashes behind it,
/// mean nothing to the directory tests.
pub proof fn slashes_around_patterns_mean_nothing(pattern: Seq<char>)
    ensures
        trimmed_pattern(seq!['.', '/'] + pattern) == trimmed_pattern(pattern),
        !(pattern.len() >= 2 && pattern[0] == '.' && pattern[1] == '/') ==> trimmed_pattern(
            seq!['/'] + pattern,
        ) == trimmed_pattern(pattern),
        pattern.len() > 0 && pattern.last() != '.' ==> trimmed_pattern(pattern.push('/'))
            == trimmed_pattern(pattern),
{
    trimming_takes_slashes_in_front(pattern);
    let rooted = seq!['/'] + pattern;
    assert(rooted[0] == '/');
    trimming_takes_slashes_in_front(rooted);
    if pattern.len() > 0 && pattern.last() != '.' {
        dots_in_front_are_trimmed_alike(pattern);
        slashes_in_front_are_trimmed_alike(trim_start_dot_slashes(pattern));
    }
}

proof fn dots_in_front_are_trimmed_alike(s: Seq<char>)
    requires
        s.len() == 0 || s.last() != '.',
    ensures
        trim_start_dot_slashes(s.push('/')) == trim_start_dot_slashes(s).push('/'),
    decreases s.len(),
{
    if s.len() >= 2 && s[0] == '.' && s[1] == '/' {
        let rest = s.skip(2);
        if rest.len() > 0 {
            assert(rest.last() == s.last());
        }
        dots_in_front_are_trimmed_alike(rest);
        assert(s.push('/').skip(2) =~= rest.push('/'));
    } else if s.len() == 1 {
        assert(s.push('/')[0] == s.last());
    }
}

proof fn slashes_in_front_are_trimmed_alike(s: Seq<char>)
    ensures
        trim_end_slashes(trim_start_slashes(s.push('/'))) == trim_end_slashes(
            trim_start_slashes(s),
        ),
    decreases s.len(),
{
    if s.len() > 0 && s[0] == '/' {
        slashes_in_front_are_trimmed_alike(s.drop_first());
        assert(s.push('/').drop_first() =~= s.drop_first().push('/'));
    } else if s.len() > 0 {
        assert(s.push('/')[0] == s[0]);
        trimming_takes_slashes_at_the_end(s);
    } else {
        assert(s.push('/').drop_first() =~= s);
    }
}

/// A pattern for everything below what another pattern matches ignores exactly
/// the directories that the other matches.
pub proof fn directories_are_ignored_by_what_names_them(prefix: Seq<char>, directory: Seq<u8>)
    requires
        prefix.len() > 0,
        prefix[0] != '/',
        prefix != seq!['.'],
        !(prefix.len() >= 2 && prefix[0] == '.' && prefix[1] == '/'),
    ensures
        ignores_all_below(prefix + seq!['/', '*', '*'], directory) <==> {
            &&& glob_refusal(prefix) is None
            &&& glob_compiles(prefix)
            &&& glob_matches_alone(prefix, directory)
        },
{
    let whole = prefix + seq!['/', '*', '*'];
    assert(whole[0] == prefix[0]);
    if prefix.len() > 1 {
        assert(whole[1] == prefix[1]);
    } else {
        assert(prefix =~= seq![prefix[0]]);
    }
    assert(whole.last() == '*');
    trimming_takes_slashes_in_front(whole);
    trimming_takes_slashes_at_the_end(whole);
    assert(trimmed_pattern(whole) == whole);
    assert(whole.skip(whole.len() - 3) =~= everything_below());
    assert(whole.take(whole.len() - 3) =~= prefix);
}

/// No other pattern ignores a directory with everything below it.
pub proof fn other_patterns_ignore_no_directory(pattern: Seq<char>, directory: Seq<u8>)
    requires
        pattern.len() == 0 || pattern.last() != '/',
        !(pattern.len() >= 3 && pattern[pattern.len() - 3] == '/' && pattern[pattern.len() - 2]
            == '*' && pattern[pattern.len() - 1] == '*'),
    ensures
        !ignores_all_below(pattern, directory),
{
    let undotted = trim_start_dot_slashes(pattern);
    let front = trim_start_slashes(undotted);
    dots_in_front_leave_the_end(pattern);
    slashes_in_front_leave_the_end(undotted);
    if front.len() > 0 {
        assert(front.last() == pattern.last());
    }
    trimming_takes_slashes_at_the_end(front);
    if ends_with(front, everything_below()) {
        let tail = front.skip(front.len() - 3);
        assert(tail[0] == '/' && tail[1] == '*' && tail[2] == '*');
        assert(tail[0] == front[front.len() - 3]);
        assert(tail[1] == front[front.len() - 2]);
        assert(tail[2] == front[front.len() - 1]);
        assert(front.len() >= 3);
        assert(front[front.len() - 3] == pattern[pattern.len() - 3]);
        assert(front[front.len() - 2] == pattern[pattern.len() - 2]);
    }
}

proof fn dots_in_front_leave_the_end(s: Seq<char>)
    ensures
        ({
            let trimmed = trim_start_dot_slashes(s);
            &&& trimmed.len() <= s.len()
            &&& trimmed == s.skip(s.len() - trimmed.len())
        }),
    decreases s.len(),
{
    if s.len() >= 2 && s[0] == '.' && s[1] == '/' {
        dots_in_front_leave_the_end(s.skip(2));
        let trimmed = trim_start_dot_slashes(s);
        assert(s.skip(2).skip(s.len() - 2 - trimmed.len()) =~= s.skip(s.len() - trimmed.len()));
    } else {
        assert(s.skip(0) =~= s);
    }
}

proof fn slashes_in_front_leave_the_end(s: Seq<char>)
    ensures
        ({
            let trimmed = trim_start_slashes(s);
            &&& trimmed.len() <= s.len()
            &&& trimmed == s.skip(s.len() - trimmed.len())
        }),
    decreases s.len(),
{
    if s.len() > 0 && s[0] == '/' {
        let rest = s.drop_first();
        slashes_in_front_leave_the_end(rest);
        let trimmed = trim_start_slashes(s);
        assert(rest.skip(rest.len() - trimmed.len()) =~= s.skip(s.len() - trimmed.len()));
    } else {
        assert(s.skip(0) =~= s);
    }
}

/// For a path in the repository every directory from its root down to the one that
/// holds the path is consulted, in order; for others none is.
pub proof fn directories_down_to_a_path_are_consulted(
    m: FilterModel,
    path: Seq<Part>,
    name: Seq<Part>,
    root: Seq<Part>,
)
    requires
        well_formed(m.cwd),
        well_formed(path),
        is_rooted(m.cwd),
        root.len() > 0,
        relative_name(m.cwd, path) == Some(name),
        m.repository == Some(root),
    ensures
        lies_in(m.cwd + name, root) ==> m.consulted(path) == Seq::new(
            ((m.cwd + name).len() - root.len()) as nat,
            |i: int| (m.cwd + name).take(root.len() + i),
        ),
        !lies_in(m.cwd + name, root) ==> m.consulted(path) == Seq::<Seq<Part>>::empty(),
{
    let absolute = m.cwd + name;
    relative_name_is_stable(m.cwd, path);
    relative_name_is_well_formed(m.cwd, path);
    if name.len() > 0 {
        assert(name[0] is Normal);
    }
    assert(joined(m.cwd, name) =~= absolute);
    assert(well_formed(absolute)) by {
        assert forall|i: int| 0 <= i < absolute.len() implies (#[trigger] absolute[i]
            matches Part::Normal(n) ==> crate::path::is_name(n)) && (i > 0 ==> absolute[i]
            is ParentDir || absolute[i] is Normal) by {
            if i < m.cwd.len() {
                assert(absolute[i] == m.cwd[i]);
            } else {
                assert(absolute[i] == name[i - m.cwd.len()]);
                assert(name[i - m.cwd.len()] is Normal);
            }
        }
    }
    if lies_in(absolute, root) {
        directories_from_root_to_parent(root, absolute);
    } else {
        nothing_outside_is_consulted(root, absolute);
    }
}

/// Without a repository no directory is consulted, nor for a path that has no name
/// relative to the working directory.
pub proof fn nothing_else_is_consulted(m: FilterModel, path: Seq<Part>)
    requires
        m.repository is None || relative_name(m.cwd, path) is None,
    ensures
        m.consulted(path) == Seq::<Seq<Part>>::empty(),
{
}

/// Include patterns that make no set are refused first, ignore patterns only if
/// the include patterns make one, and nothing is refused where both do.
pub proof fn include_sets_are_refused_first(
    includes: Seq<Seq<char>>,
    ignores: Seq<Seq<char>>,
    text: Seq<char>,
)
    ensures
        !set_builds(includes) ==> sets_refusal(includes, ignores, text) == set_refusal(
            includes,
            text,
        ),
        set_builds(includes) && !set_builds(ignores) ==> sets_refusal(includes, ignores, text)
            == set_refusal(ignores, text),
        set_builds(includes) && set_builds(ignores) ==> !sets_refusal(includes, ignores, text),
{
}

} // verus!
