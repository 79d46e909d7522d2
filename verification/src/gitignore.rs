//! Repository ignore rules.

use vstd::prelude::*;

use crate::path::{
    bytes_of, is_name, is_rooted, lies_in, parent_of, paths_view, well_formed, FilePath,
    Part, PathPart, DOT, SLASH,
};

verus! {

/// `ignore::gitignore::Gitignore`, the compiled rules of one ignore file.
#[verifier::external_type_specification]
#[verifier::external_body]
pub struct ExGitignore(ignore::gitignore::Gitignore);

/// The directory that the rules are matched relative to, as bytes.
pub uninterp spec fn matcher_root(matcher: ignore::gitignore::Gitignore) -> Seq<u8>;

/// The compiled rules, in order, each with what it was compiled with.
pub uninterp spec fn matcher_rules(matcher: ignore::gitignore::Gitignore) -> Seq<Seq<char>>;

/// What `ignore::gitignore::Gitignore::matched` says of a path, by the rules and
/// the directory they are matched relative to.
pub uninterp spec fn gitignore_verdict(
    root: Seq<u8>,
    rules: Seq<Seq<char>>,
    path: Seq<u8>,
    is_directory: bool,
) -> Verdict;

/// What the rules of one ignore file say of a path.
#[derive(Clone, Copy, Debug, PartialEq, Eq, Structural)]
pub enum Verdict {
    Undecided,
    Ignored,
    Kept,
}

/// `ignore::gitignore::Gitignore::matched` says whether the last rule that
/// matches the path ignores or keeps it. `bstr::ByteSlice::to_path_lossy` makes
/// the path of its bytes, which on Unix stay as they are.
#[verifier::external_body]
fn matched(
    matcher: &ignore::gitignore::Gitignore,
    path: &Vec<u8>,
    is_directory: bool,
) -> (verdict: Verdict)
    ensures
        verdict == gitignore_verdict(
            matcher_root(*matcher),
            matcher_rules(*matcher),
            path@,
            is_directory,
        ),
{
    match matcher.matched(bstr::ByteSlice::to_path_lossy(path.as_slice()), is_directory) {
        ignore::Match::None => Verdict::Undecided,
        ignore::Match::Ignore(_) => Verdict::Ignored,
        ignore::Match::Whitelist(_) => Verdict::Kept,
    }
}

/// The ignore file of one directory.
#[derive(Debug)]
pub struct IgnoreFile {
    pub directory: FilePath,
    pub matcher: ignore::gitignore::Gitignore,
}

/// The ignore file of one directory: where it is, what its rules are matched
/// relative to, and the rules.
pub ghost struct IgnoreModel {
    pub directory: Seq<Part>,
    pub root: Seq<u8>,
    pub rules: Seq<Seq<char>>,
}

impl View for IgnoreFile {
    type V = IgnoreModel;

    open spec fn view(&self) -> IgnoreModel {
        IgnoreModel {
            directory: self.directory@,
            root: matcher_root(self.matcher),
            rules: matcher_rules(self.matcher),
        }
    }
}

/// The ignore files that a sequence of them holds.
pub open spec fn files_view(files: Seq<IgnoreFile>) -> Seq<IgnoreModel> {
    files.map_values(|file: IgnoreFile| file@)
}

impl IgnoreModel {
    /// What the file says of `path`.
    pub open spec fn verdict(self, path: Seq<Part>, is_directory: bool) -> Verdict {
        gitignore_verdict(self.root, self.rules, bytes_of(path), is_directory)
    }
}

/// The verdict of the last file that has one.
pub open spec fn nearest(verdicts: Seq<Verdict>) -> Verdict
    decreases verdicts.len(),
{
    if verdicts.len() == 0 {
        Verdict::Undecided
    } else if verdicts.last() != Verdict::Undecided {
        verdicts.last()
    } else {
        nearest(verdicts.drop_last())
    }
}

/// Whether a path is ignored, by what is said of each level down to it: it is,
/// if the nearest file that decides about some level ignores it.
pub open spec fn settles_on_ignoring(levels: Seq<Seq<Verdict>>) -> bool {
    exists|i: int| 0 <= i < levels.len() && nearest(#[trigger] levels[i]) == Verdict::Ignored
}

fn nearest_verdict(verdicts: &Vec<Verdict>) -> (verdict: Verdict)
    ensures
        verdict == nearest(verdicts@),
{
    let mut verdict = Verdict::Undecided;
    let mut i: usize = 0;
    assert(verdicts@.take(0) =~= Seq::<Verdict>::empty());
    while i < verdicts.len()
        invariant
            i <= verdicts@.len(),
            verdict == nearest(verdicts@.take(i as int)),
        decreases verdicts@.len() - i,
    {
        assert(verdicts@.take(i + 1).drop_last() =~= verdicts@.take(i as int));
        if verdicts[i] != Verdict::Undecided {
            verdict = verdicts[i];
        }
        i = i + 1;
    }
    assert(verdicts@.take(i as int) =~= verdicts@);
    verdict
}

/// Decides whether a path is ignored, where `levels` holds for each directory
/// above it, and for the path itself, what the files from the repository root
/// down say.
pub fn settle(levels: &Vec<Vec<Verdict>>) -> (ignored: bool)
    ensures
        ignored == exists|i: int|
            0 <= i < levels@.len() && nearest(#[trigger] levels@[i]@) == Verdict::Ignored,
{
    let mut i: usize = 0;
    while i < levels.len()
        invariant
            i <= levels@.len(),
            forall|j: int| 0 <= j < i ==> nearest(#[trigger] levels@[j]@) != Verdict::Ignored,
        decreases levels@.len() - i,
    {
        if nearest_verdict(&levels[i]) == Verdict::Ignored {
            assert(nearest(levels@[i as int]@) == Verdict::Ignored);
            return true;
        }
        i = i + 1;
    }
    false
}

/// The bytes of the name of a repository's own directory.
pub open spec fn git_name() -> Seq<u8> {
    seq![46, 103, 105, 116]
}

/// The directories from `root` down to the one that holds `path`, as far as
/// they lie in `root`.
pub open spec fn directories_above(root: Seq<Part>, path: Seq<Part>) -> Seq<Seq<Part>>
    decreases path.len(),
{
    match parent_of(path) {
        None => Seq::empty(),
        Some(directory) => {
            let here = if lies_in(directory, root) {
                seq![directory]
            } else {
                Seq::empty()
            };
            if directory == root {
                here
            } else {
                directories_above(root, directory) + here
            }
        },
    }
}

/// The ignore file of `directory` among `files`, if there is one.
pub open spec fn file_of(files: Seq<IgnoreModel>, directory: Seq<Part>) -> Option<IgnoreModel>
    decreases files.len(),
{
    if files.len() == 0 {
        None
    } else if files[0].directory == directory {
        Some(files[0])
    } else {
        file_of(files.drop_first(), directory)
    }
}

/// What the ignore files of `directories` say of `path`, in order.
pub open spec fn verdicts_of(
    files: Seq<IgnoreModel>,
    directories: Seq<Seq<Part>>,
    path: Seq<Part>,
    is_directory: bool,
) -> Seq<Verdict>
    decreases directories.len(),
{
    if directories.len() == 0 {
        Seq::empty()
    } else {
        let before = verdicts_of(files, directories.drop_last(), path, is_directory);
        match file_of(files, directories.last()) {
            Some(file) => before.push(file.verdict(path, is_directory)),
            None => before,
        }
    }
}

/// What the ignore files above `path`, from the repository root down, say of it.
pub open spec fn level(
    root: Seq<Part>,
    files: Seq<IgnoreModel>,
    path: Seq<Part>,
    is_directory: bool,
) -> Seq<Verdict> {
    verdicts_of(files, directories_above(root, path), path, is_directory)
}

/// What is said of each directory below `root` on the way to `path`, and of
/// `path` itself.
pub open spec fn levels_to(
    root: Seq<Part>,
    files: Seq<IgnoreModel>,
    path: Seq<Part>,
    is_directory: bool,
) -> Seq<Seq<Verdict>> {
    Seq::new(
        (path.len() - root.len()) as nat,
        |i: int|
            level(
                root,
                files,
                path.take(root.len() + 1 + i),
                root.len() + 1 + i < path.len() || is_directory,
            ),
    )
}

/// Whether the rules of the repository at `root` ignore `path`. The
/// repository's own directory is always ignored; nothing outside the repository
/// is.
pub open spec fn repository_ignores(
    root: Seq<Part>,
    files: Seq<IgnoreModel>,
    path: Seq<Part>,
    is_directory: bool,
) -> bool {
    ||| lies_in(path, root.push(Part::Normal(git_name())))
    ||| lies_in(path, root) && settles_on_ignoring(levels_to(root, files, path, is_directory))
}

/// The directories in which a repository root is looked for: `cwd` and then
/// each directory above it.
pub open spec fn search_path(cwd: Seq<Part>) -> Seq<Seq<Part>>
    decreases cwd.len(),
{
    match parent_of(cwd) {
        None => seq![cwd],
        Some(parent) => seq![cwd] + search_path(parent),
    }
}

/// The first of `directories` that `has_git` says holds a repository.
pub open spec fn first_marked(directories: Seq<Seq<Part>>, has_git: Seq<bool>) -> Option<Seq<Part>>
    decreases directories.len(),
{
    if directories.len() == 0 || has_git.len() == 0 {
        None
    } else if has_git[0] {
        Some(directories[0])
    } else {
        first_marked(directories.drop_first(), has_git.drop_first())
    }
}

/// The root of the repository that `cwd` is in, where `has_git` tells of each
/// directory of the search path whether it holds a `.git` directory or file: the
/// nearest one.
pub open spec fn repository_of(cwd: Seq<Part>, has_git: Seq<bool>) -> Option<Seq<Part>> {
    first_marked(search_path(cwd), has_git)
}

/// Matches .gitignore files from a repository root through an event's parent.
/// Rules nearer the event take precedence, mirroring Git's normal lookup.
#[derive(Debug)]
pub struct GitignoreRules {
    root: FilePath,
}

impl View for GitignoreRules {
    type V = Seq<Part>;

    closed spec fn view(&self) -> Seq<Part> {
        self.root@
    }
}

/// The place of the ignore file of `directory` among `files`.
fn find_file(files: &Vec<IgnoreFile>, directory: &FilePath) -> (place: Option<usize>)
    ensures
        match place {
            Some(i) => i < files@.len() && file_of(files_view(files@), directory@) == Some(
                files@[i as int]@,
            ),
            None => file_of(files_view(files@), directory@) is None,
        },
{
    let ghost models = files_view(files@);
    let mut i: usize = 0;
    assert(models.skip(0) =~= models);
    while i < files.len()
        invariant
            i <= files@.len(),
            models == files_view(files@),
            file_of(models, directory@) == file_of(models.skip(i as int), directory@),
        decreases files@.len() - i,
    {
        assert(models.skip(i as int)[0] == files@[i as int]@);
        if files[i].directory.same(directory) {
            return Some(i);
        }
        assert(models.skip(i as int).drop_first() =~= models.skip(i + 1));
        i = i + 1;
    }
    assert(models.skip(i as int) =~= Seq::<IgnoreModel>::empty());
    None
}

impl GitignoreRules {
    /// The directories in which a repository root is looked for.
    pub fn candidates(cwd: &FilePath) -> (directories: Vec<FilePath>)
        ensures
            paths_view(directories@) == search_path(cwd@),
    {
        let mut directories: Vec<FilePath> = Vec::new();
        let mut current = cwd.clone();
        assert(paths_view(directories@) =~= Seq::<Seq<Part>>::empty());
        assert(Seq::<Seq<Part>>::empty() + search_path(cwd@) =~= search_path(cwd@));
        loop
            invariant
                paths_view(directories@) + search_path(current@) == search_path(cwd@),
            decreases current@.len(),
        {
            let ghost before = paths_view(directories@);
            let ghost here = current@;
            match current.parent() {
                None => {
                    directories.push(current);
                    assert(paths_view(directories@) =~= before + seq![here]);
                    return directories;
                },
                Some(parent) => {
                    directories.push(current);
                    assert(paths_view(directories@) =~= before.push(here));
                    assert(before + (seq![here] + search_path(parent@)) =~= before.push(here)
                        + search_path(parent@));
                    current = parent;
                },
            }
        }
    }

    /// The repository that `cwd` is in, where `has_git` tells of each candidate
    /// directory whether it holds a `.git` directory or file: the nearest one.
    pub fn discover(cwd: &FilePath, has_git: &Vec<bool>) -> (rules: Option<GitignoreRules>)
        ensures
            match rules {
                Some(rules) => repository_of(cwd@, has_git@) == Some(rules@),
                None => repository_of(cwd@, has_git@) is None,
            },
    {
        let directories = GitignoreRules::candidates(cwd);
        let ghost dirs = search_path(cwd@);
        let mut i: usize = 0;
        assert(dirs.skip(0) =~= dirs);
        assert(has_git@.skip(0) =~= has_git@);
        while i < has_git.len() && i < directories.len()
            invariant
                i <= has_git@.len(),
                i <= directories@.len(),
                paths_view(directories@) == dirs,
                dirs == search_path(cwd@),
                first_marked(dirs.skip(i as int), has_git@.skip(i as int)) == repository_of(
                    cwd@,
                    has_git@,
                ),
            decreases has_git@.len() - i,
        {
            assert(dirs[i as int] == directories@[i as int]@);
            assert(dirs.skip(i as int)[0] == dirs[i as int]);
            assert(has_git@.skip(i as int)[0] == has_git@[i as int]);
            if has_git[i] {
                return Some(GitignoreRules { root: directories[i].clone() });
            }
            assert(dirs.skip(i as int).drop_first() =~= dirs.skip(i + 1));
            assert(has_git@.skip(i as int).drop_first() =~= has_git@.skip(i + 1));
            i = i + 1;
        }
        assert(dirs.len() == directories@.len());
        None
    }

    /// The directories whose ignore files have a say on `path`, from the
    /// repository root down.
    pub fn gitignore_directories(&self, path: &FilePath) -> (directories: Vec<FilePath>)
        ensures
            paths_view(directories@) == directories_above(self@, path@),
        decreases path@.len(),
    {
        match path.parent() {
            None => {
                let directories: Vec<FilePath> = Vec::new();
                assert(paths_view(directories@) =~= Seq::<Seq<Part>>::empty());
                directories
            },
            Some(current) => {
                let mut directories: Vec<FilePath> = if current.same(&self.root) {
                    Vec::new()
                } else {
                    self.gitignore_directories(&current)
                };
                let ghost before = paths_view(directories@);
                assert(current@ == self@ ==> before =~= Seq::<Seq<Part>>::empty());
                if current.starts_with(&self.root) {
                    let ghost here = current@;
                    directories.push(current);
                    assert(paths_view(directories@) =~= before + seq![here]);
                    assert(here == self@ ==> before + seq![here] =~= seq![here]);
                } else {
                    assert(before + Seq::<Seq<Part>>::empty() =~= before);
                }
                directories
            },
        }
    }

    /// Whether the repository's rules ignore `path`, where `files` are the
    /// ignore files that exist in the repository's directories.
    pub fn is_ignored(&self, path: &FilePath, is_directory: bool, files: &Vec<IgnoreFile>) -> (
    ignored: bool)
        ensures
            ignored == repository_ignores(self@, files_view(files@), path@, is_directory),
    {
        let git = PathPart::Normal(vec![46, 103, 105, 116]);
        let mut own = self.root.clone();
        proof {
            use_type_invariant(&self.root);
            assert(git@ == Part::Normal(git_name())) by {
                assert(git->Normal_0@ =~= git_name());
            }
            git_name_is_a_name();
            let with_git = self@.push(git@);
            assert forall|i: int| 0 <= i < with_git.len() implies (
            #[trigger] with_git[i] matches Part::Normal(name) ==> is_name(name)) by {
                if i < self@.len() {
                    assert(with_git[i] == self@[i]);
                }
            }
            assert forall|i: int| 0 < i < with_git.len() implies #[trigger] with_git[i] is ParentDir
                || with_git[i] is Normal by {
                if i < self@.len() {
                    assert(with_git[i] == self@[i]);
                }
            }
        }
        own.push(&git);
        if path.starts_with(&own) {
            return true;
        }
        if !path.starts_with(&self.root) {
            return false;
        }
        let ghost all = levels_to(self@, files_view(files@), path@, is_directory);
        let start: usize = self.root.len();
        let end: usize = path.len();
        let mut levels: Vec<Vec<Verdict>> = Vec::new();
        let mut n: usize = start;
        while n < end
            invariant
                start == self@.len(),
                end == path@.len(),
                start <= n <= end,
                all == levels_to(self@, files_view(files@), path@, is_directory),
                levels@.len() == n - start,
                forall|i: int| 0 <= i < n - start ==> (#[trigger] levels@[i])@ == all[i],
            decreases end - n,
        {
            let target = path.prefix(n + 1);
            let level = self.verdicts(&target, n + 1 < end || is_directory, files);
            assert(level@ == all[n - start]);
            levels.push(level);
            n = n + 1;
        }
        proof {
            if settles_on_ignoring(all) {
                let i = choose|i: int|
                    0 <= i < all.len() && nearest(#[trigger] all[i]) == Verdict::Ignored;
                assert(levels@[i]@ == all[i]);
            }
            assert forall|i: int| 0 <= i < levels@.len() implies #[trigger] levels@[i]@ == all[i] by {
            }
        }
        settle(&levels)
    }

    /// What the ignore files above `path`, from the repository root down, say of
    /// it, where `files` are those that exist.
    pub fn verdicts(&self, path: &FilePath, is_directory: bool, files: &Vec<IgnoreFile>) -> (
    verdicts: Vec<Verdict>)
        ensures
            verdicts@ == level(self@, files_view(files@), path@, is_directory),
    {
        let directories = self.gitignore_directories(path);
        let ghost dirs = directories_above(self@, path@);
        let ghost models = files_view(files@);
        let bytes = path.to_bytes();
        let mut verdicts: Vec<Verdict> = Vec::new();
        let mut i: usize = 0;
        assert(dirs.take(0) =~= Seq::<Seq<Part>>::empty());
        while i < directories.len()
            invariant
                i <= directories@.len(),
                paths_view(directories@) == dirs,
                models == files_view(files@),
                bytes@ == bytes_of(path@),
                verdicts@ == verdicts_of(models, dirs.take(i as int), path@, is_directory),
            decreases directories@.len() - i,
        {
            proof {
                assert(dirs[i as int] == directories@[i as int]@);
                assert(dirs.take(i + 1).drop_last() =~= dirs.take(i as int));
            }
            match find_file(files, &directories[i]) {
                Some(place) => {
                    verdicts.push(matched(&files[place].matcher, &bytes, is_directory));
                },
                None => {},
            }
            i = i + 1;
        }
        assert(dirs.take(i as int) =~= dirs);
        verdicts
    }
}

/// A repository's own directory, and everything in it, is always ignored.
pub proof fn own_directory_is_ignored(
    root: Seq<Part>,
    files: Seq<IgnoreModel>,
    path: Seq<Part>,
    is_directory: bool,
)
    requires
        lies_in(path, root.push(Part::Normal(git_name()))),
    ensures
        repository_ignores(root, files, path, is_directory),
{
}

/// Nothing outside a repository is ignored by its rules.
pub proof fn nothing_outside_is_ignored(
    root: Seq<Part>,
    files: Seq<IgnoreModel>,
    path: Seq<Part>,
    is_directory: bool,
)
    requires
        !lies_in(path, root),
    ensures
        !repository_ignores(root, files, path, is_directory),
{
    let own = root.push(Part::Normal(git_name()));
    if lies_in(path, own) {
        assert(path.take(root.len() as int) =~= own.take(root.len() as int));
        assert(own.take(root.len() as int) =~= root);
    }
}

/// Without ignore files a repository ignores its own directory only.
pub proof fn no_rules_ignore_nothing(root: Seq<Part>, path: Seq<Part>, is_directory: bool)
    ensures
        repository_ignores(root, Seq::empty(), path, is_directory) == lies_in(
            path,
            root.push(Part::Normal(git_name())),
        ),
{
    let levels = levels_to(root, Seq::empty(), path, is_directory);
    assert forall|i: int| 0 <= i < levels.len() implies nearest(#[trigger] levels[i])
        != Verdict::Ignored by {
        let target = path.take(root.len() + 1 + i);
        no_files_say_nothing(
            directories_above(root, target),
            target,
            root.len() + 1 + i < path.len() || is_directory,
        );
    }
}

proof fn no_files_say_nothing(directories: Seq<Seq<Part>>, path: Seq<Part>, is_directory: bool)
    ensures
        verdicts_of(Seq::empty(), directories, path, is_directory) == Seq::<Verdict>::empty(),
    decreases directories.len(),
{
    if directories.len() > 0 {
        no_files_say_nothing(directories.drop_last(), path, is_directory);
    }
}

/// The nearest file that decides about a level has its way, whatever the files
/// further up say.
pub proof fn nearest_verdict_wins(verdicts: Seq<Verdict>, i: int)
    requires
        0 <= i < verdicts.len(),
        verdicts[i] != Verdict::Undecided,
        forall|j: int| i < j < verdicts.len() ==> #[trigger] verdicts[j] == Verdict::Undecided,
    ensures
        nearest(verdicts) == verdicts[i],
    decreases verdicts.len(),
{
    if i < verdicts.len() - 1 {
        let init = verdicts.drop_last();
        assert(verdicts[verdicts.len() - 1] == Verdict::Undecided);
        assert forall|j: int| i < j < init.len() implies #[trigger] init[j]
            == Verdict::Undecided by {
            assert(verdicts[j] == Verdict::Undecided);
        }
        nearest_verdict_wins(init, i);
    }
}

/// A level that no file decides about is not ignored.
pub proof fn undecided_levels_are_kept(verdicts: Seq<Verdict>)
    requires
        forall|i: int| 0 <= i < verdicts.len() ==> #[trigger] verdicts[i] == Verdict::Undecided,
    ensures
        nearest(verdicts) == Verdict::Undecided,
    decreases verdicts.len(),
{
    if verdicts.len() > 0 {
        let init = verdicts.drop_last();
        assert(verdicts[verdicts.len() - 1] == Verdict::Undecided);
        assert forall|i: int| 0 <= i < init.len() implies #[trigger] init[i]
            == Verdict::Undecided by {
            assert(verdicts[i] == Verdict::Undecided);
        }
        undecided_levels_are_kept(init);
    }
}

/// A directory about which the nearest verdict is to ignore it makes everything
/// below it ignored, whatever any file says of what lies there.
pub proof fn ignored_directory_is_final(
    root: Seq<Part>,
    files: Seq<IgnoreModel>,
    directory: Seq<Part>,
    path: Seq<Part>,
    is_directory: bool,
)
    requires
        lies_in(directory, root),
        directory.len() > root.len(),
        nearest(level(root, files, directory, true)) == Verdict::Ignored,
        lies_in(path, directory),
        path.len() > directory.len(),
    ensures
        repository_ignores(root, files, path, is_directory),
{
    assert(path.take(root.len() as int) =~= directory.take(root.len() as int));
    let i = directory.len() - root.len() - 1;
    let levels = levels_to(root, files, path, is_directory);
    assert(path.take(root.len() + 1 + i) == directory);
    assert(nearest(levels[i]) == Verdict::Ignored);
}

/// A directory that is kept by the nearest file that decides about it is no
/// ignored parent: a path is ignored only by the nearest verdict on it or on a
/// directory above it.
pub proof fn kept_directories_ignore_nothing(
    root: Seq<Part>,
    files: Seq<IgnoreModel>,
    path: Seq<Part>,
    is_directory: bool,
)
    requires
        !lies_in(path, root.push(Part::Normal(git_name()))),
        forall|n: int|
            root.len() < n < path.len() ==> nearest(
                level(root, files, #[trigger] path.take(n), true),
            ) != Verdict::Ignored,
    ensures
        repository_ignores(root, files, path, is_directory) <==> lies_in(path, root) && path.len()
            > root.len() && nearest(level(root, files, path, is_directory)) == Verdict::Ignored,
{
    let levels = levels_to(root, files, path, is_directory);
    let last = path.len() - root.len() - 1;
    assert(path.take(path.len() as int) =~= path);
    if path.len() > root.len() {
        assert(levels[last] == level(root, files, path, is_directory));
    }
    assert forall|i: int| 0 <= i < last implies nearest(#[trigger] levels[i])
        != Verdict::Ignored by {
        let target = path.take(root.len() + 1 + i);
        assert(levels[i] == level(root, files, target, true));
    }
    if path.len() >= root.len() && settles_on_ignoring(levels) {
        let i = choose|i: int|
            0 <= i < levels.len() && nearest(#[trigger] levels[i]) == Verdict::Ignored;
        assert(i == last);
    }
}

/// The files that have a say on a path are those of every directory from the
/// repository root down to the one that holds the path.
pub proof fn directories_from_root_to_parent(root: Seq<Part>, path: Seq<Part>)
    requires
        root.len() > 0 || !is_rooted(path),
        well_formed(path),
        lies_in(path, root),
    ensures
        directories_above(root, path) == Seq::new(
            (path.len() - root.len()) as nat,
            |i: int| path.take(root.len() + i),
        ),
    decreases path.len(),
{
    let listed = Seq::new((path.len() - root.len()) as nat, |i: int| path.take(root.len() + i));
    if path.len() == root.len() {
        assert(path =~= path.take(root.len() as int));
        nothing_above_root(root, path);
        assert(directories_above(root, path) =~= listed);
    } else {
        assert(!(path[path.len() - 1] is RootDir));
        let directory = path.drop_last();
        assert(directory =~= path.subrange(0, path.len() - 1));
        crate::path::subrange_is_well_formed(path, 0, path.len() - 1);
        assert(directory.take(root.len() as int) =~= path.take(root.len() as int));
        directories_from_root_to_parent(root, directory);
        assert(path.take(path.len() - 1) =~= directory);
        if directory == root {
            assert(seq![directory] =~= listed);
        } else {
            assert(directory.len() > root.len()) by {
                if directory.len() == root.len() {
                    assert(directory =~= directory.take(root.len() as int));
                }
            }
            let above = directories_above(root, directory);
            assert forall|i: int| 0 <= i < listed.len() implies #[trigger] (above + seq![directory])[i]
                == listed[i] by {
                if i < above.len() {
                    assert(directory.take(root.len() + i) =~= path.take(root.len() + i));
                }
            }
            assert(above + seq![directory] =~= listed);
        }
    }
}

proof fn nothing_above_root(root: Seq<Part>, path: Seq<Part>)
    requires
        path.len() <= root.len(),
    ensures
        directories_above(root, path) == Seq::<Seq<Part>>::empty(),
    decreases path.len(),
{
    if let Some(directory) = parent_of(path) {
        nothing_above_root(root, directory);
        assert(directories_above(root, path) =~= Seq::<Seq<Part>>::empty());
    }
}

/// Only the ignore files of the directories from the repository root down to a
/// path have a say on it.
pub proof fn only_files_above_have_a_say(
    root: Seq<Part>,
    files: Seq<IgnoreModel>,
    others: Seq<IgnoreModel>,
    path: Seq<Part>,
    is_directory: bool,
)
    requires
        well_formed(path),
        forall|i: int|
            0 <= i < directories_above(root, path).len() ==> file_of(
                files,
                #[trigger] directories_above(root, path)[i],
            ) == file_of(others, directories_above(root, path)[i]),
    ensures
        repository_ignores(root, files, path, is_directory) == repository_ignores(
            root,
            others,
            path,
            is_directory,
        ),
{
    if lies_in(path, root) {
        let levels = levels_to(root, files, path, is_directory);
        let same = levels_to(root, others, path, is_directory);
        assert forall|i: int| 0 <= i < levels.len() implies #[trigger] levels[i] == same[i] by {
            let n = root.len() + 1 + i;
            let target = path.take(n);
            let above = directories_above(root, target);
            assert forall|j: int| 0 <= j < above.len() implies file_of(files, #[trigger] above[j])
                == file_of(others, above[j]) by {
                directories_above_are_shared(root, path, n, j);
                let k = choose|k: int|
                    0 <= k < directories_above(root, path).len() && directories_above(root, path)[k]
                        == above[j];
                assert(file_of(files, directories_above(root, path)[k]) == file_of(
                    others,
                    directories_above(root, path)[k],
                ));
            }
            same_files_speak_alike(files, others, above, target, n < path.len() || is_directory);
        }
        assert(levels =~= same);
    }
}

proof fn directories_above_are_shared(root: Seq<Part>, path: Seq<Part>, n: int, j: int)
    requires
        well_formed(path),
        root.len() < n <= path.len(),
        0 <= j < directories_above(root, path.take(n)).len(),
    ensures
        directories_above(root, path).contains(directories_above(root, path.take(n))[j]),
    decreases path.len(),
{
    let wanted = directories_above(root, path.take(n))[j];
    if n == path.len() {
        assert(path.take(n) =~= path);
    } else {
        let directory = path.drop_last();
        assert(path[path.len() - 1] is ParentDir || path[path.len() - 1] is Normal);
        assert(directory =~= path.subrange(0, path.len() - 1));
        crate::path::subrange_is_well_formed(path, 0, path.len() - 1);
        assert(directory.take(n) =~= path.take(n));
        directories_above_are_shared(root, directory, n, j);
        let above = directories_above(root, directory);
        let k = choose|k: int| 0 <= k < above.len() && above[k] == wanted;
        assert(directories_above(root, path)[k] == wanted);
    }
}

proof fn same_files_speak_alike(
    files: Seq<IgnoreModel>,
    others: Seq<IgnoreModel>,
    directories: Seq<Seq<Part>>,
    path: Seq<Part>,
    is_directory: bool,
)
    requires
        forall|i: int|
            0 <= i < directories.len() ==> file_of(files, #[trigger] directories[i]) == file_of(
                others,
                directories[i],
            ),
    ensures
        verdicts_of(files, directories, path, is_directory) == verdicts_of(
            others,
            directories,
            path,
            is_directory,
        ),
    decreases directories.len(),
{
    if directories.len() > 0 {
        let init = directories.drop_last();
        assert(file_of(files, directories[directories.len() - 1]) == file_of(
            others,
            directories[directories.len() - 1],
        ));
        assert forall|i: int| 0 <= i < init.len() implies file_of(files, #[trigger] init[i])
            == file_of(others, init[i]) by {
            assert(init[i] == directories[i]);
        }
        same_files_speak_alike(files, others, init, path, is_directory);
    }
}

proof fn git_name_is_a_name()
    ensures
        is_name(git_name()),
{
    assert(git_name().len() == 4);
    assert(!git_name().contains(SLASH));
    assert(seq![DOT].len() == 1);
    assert(seq![DOT, DOT].len() == 2);
}

/// The ignore file of a directory is the first that is said to be its.
pub proof fn files_are_found_by_their_directory(files: Seq<IgnoreModel>, directory: Seq<Part>)
    ensures
        match file_of(files, directory) {
            Some(file) => exists|i: int|
                {
                    &&& 0 <= i < files.len()
                    &&& #[trigger] files[i] == file
                    &&& file.directory == directory
                    &&& forall|j: int| 0 <= j < i ==> (#[trigger] files[j]).directory != directory
                },
            None => forall|i: int|
                0 <= i < files.len() ==> (#[trigger] files[i]).directory != directory,
        },
    decreases files.len(),
{
    if files.len() > 0 && files[0].directory != directory {
        let rest = files.drop_first();
        files_are_found_by_their_directory(rest, directory);
        match file_of(files, directory) {
            Some(file) => {
                let i = choose|i: int|
                    {
                        &&& 0 <= i < rest.len()
                        &&& #[trigger] rest[i] == file
                        &&& file.directory == directory
                        &&& forall|j: int|
                            0 <= j < i ==> (#[trigger] rest[j]).directory != directory
                    };
                assert(files[i + 1] == file);
                assert forall|j: int| 0 <= j < i + 1 implies (#[trigger] files[j]).directory
                    != directory by {
                    if j > 0 {
                        assert(rest[j - 1].directory != directory);
                    }
                }
            },
            None => {
                assert forall|i: int| 0 <= i < files.len() implies (#[trigger] files[i]).directory
                    != directory by {
                    if i > 0 {
                        assert(rest[i - 1].directory != directory);
                    }
                }
            },
        }
    } else if files.len() > 0 {
        assert(files[0] == file_of(files, directory)->0);
    }
}

/// What the ignore file of `directory`, if there is one, says of `path`.
pub open spec fn said_in(
    files: Seq<IgnoreModel>,
    directory: Seq<Part>,
    path: Seq<Part>,
    is_directory: bool,
) -> Verdict {
    match file_of(files, directory) {
        Some(file) => gitignore_verdict(file.root, file.rules, bytes_of(path), is_directory),
        None => Verdict::Undecided,
    }
}

/// What decides about a path is the file in the nearest directory above it, down
/// from the repository root, that says anything of it. It is asked about the path
/// as what it is, a directory or not.
pub proof fn nearest_file_decides(
    root: Seq<Part>,
    files: Seq<IgnoreModel>,
    path: Seq<Part>,
    is_directory: bool,
    k: int,
)
    requires
        root.len() > 0 || !is_rooted(path),
        well_formed(path),
        lies_in(path, root),
        root.len() <= k < path.len(),
        said_in(files, path.take(k), path, is_directory) != Verdict::Undecided,
        forall|j: int|
            k < j < path.len() ==> said_in(files, #[trigger] path.take(j), path, is_directory)
                == Verdict::Undecided,
    ensures
        nearest(level(root, files, path, is_directory)) == said_in(
            files,
            path.take(k),
            path,
            is_directory,
        ),
{
    let directories = directories_above(root, path);
    directories_from_root_to_parent(root, path);
    let i = k - root.len();
    assert(directories[i] == path.take(k));
    assert forall|j: int| i < j < directories.len() implies said_in(
        files,
        #[trigger] directories[j],
        path,
        is_directory,
    ) == Verdict::Undecided by {
        assert(directories[j] == path.take(root.len() + j));
    }
    last_saying_file_decides(files, directories, path, is_directory, i);
}

/// A path of which no file above it says anything is not decided about.
pub proof fn silent_files_decide_nothing(
    root: Seq<Part>,
    files: Seq<IgnoreModel>,
    path: Seq<Part>,
    is_directory: bool,
)
    requires
        root.len() > 0 || !is_rooted(path),
        well_formed(path),
        lies_in(path, root),
        forall|j: int|
            root.len() <= j < path.len() ==> said_in(
                files,
                #[trigger] path.take(j),
                path,
                is_directory,
            ) == Verdict::Undecided,
    ensures
        nearest(level(root, files, path, is_directory)) == Verdict::Undecided,
{
    let directories = directories_above(root, path);
    directories_from_root_to_parent(root, path);
    assert forall|j: int| 0 <= j < directories.len() implies said_in(
        files,
        #[trigger] directories[j],
        path,
        is_directory,
    ) == Verdict::Undecided by {
        assert(directories[j] == path.take(root.len() + j));
    }
    silent_directories_decide_nothing(files, directories, path, is_directory);
}

proof fn last_saying_file_decides(
    files: Seq<IgnoreModel>,
    directories: Seq<Seq<Part>>,
    path: Seq<Part>,
    is_directory: bool,
    i: int,
)
    requires
        0 <= i < directories.len(),
        said_in(files, directories[i], path, is_directory) != Verdict::Undecided,
        forall|j: int|
            i < j < directories.len() ==> said_in(
                files,
                #[trigger] directories[j],
                path,
                is_directory,
            ) == Verdict::Undecided,
    ensures
        nearest(verdicts_of(files, directories, path, is_directory)) == said_in(
            files,
            directories[i],
            path,
            is_directory,
        ),
    decreases directories.len(),
{
    let init = directories.drop_last();
    let last = directories.len() - 1;
    let before = verdicts_of(files, init, path, is_directory);
    let said = said_in(files, directories[last], path, is_directory);
    assert(before.push(said).drop_last() =~= before);
    if i < last {
        assert forall|j: int| i < j < init.len() implies said_in(
            files,
            #[trigger] init[j],
            path,
            is_directory,
        ) == Verdict::Undecided by {
            assert(init[j] == directories[j]);
        }
        last_saying_file_decides(files, init, path, is_directory, i);
        assert(said == Verdict::Undecided);
    }
}

proof fn silent_directories_decide_nothing(
    files: Seq<IgnoreModel>,
    directories: Seq<Seq<Part>>,
    path: Seq<Part>,
    is_directory: bool,
)
    requires
        forall|j: int|
            0 <= j < directories.len() ==> said_in(
                files,
                #[trigger] directories[j],
                path,
                is_directory,
            ) == Verdict::Undecided,
    ensures
        nearest(verdicts_of(files, directories, path, is_directory)) == Verdict::Undecided,
    decreases directories.len(),
{
    if directories.len() > 0 {
        let init = directories.drop_last();
        let before = verdicts_of(files, init, path, is_directory);
        assert forall|j: int| 0 <= j < init.len() implies said_in(
            files,
            #[trigger] init[j],
            path,
            is_directory,
        ) == Verdict::Undecided by {
            assert(init[j] == directories[j]);
        }
        silent_directories_decide_nothing(files, init, path, is_directory);
        let said = said_in(files, directories[directories.len() - 1], path, is_directory);
        assert(said == Verdict::Undecided);
        assert(before.push(said).drop_last() =~= before);
    }
}

/// A path is ignored exactly if it is the repository's own directory or lies in
/// it, or if it lies in the repository and the nearest verdict on it, or on a
/// directory between it and the root, is to ignore it. The directories are asked
/// about as directories, the path as what it is.
pub proof fn what_a_repository_ignores(
    root: Seq<Part>,
    files: Seq<IgnoreModel>,
    path: Seq<Part>,
    is_directory: bool,
)
    ensures
        repository_ignores(root, files, path, is_directory) <==> {
            ||| lies_in(path, root.push(Part::Normal(seq![46u8, 103u8, 105u8, 116u8])))
            ||| lies_in(path, root) && exists|n: int|
                root.len() < n <= path.len() && nearest(
                    level(root, files, #[trigger] path.take(n), n < path.len() || is_directory),
                ) == Verdict::Ignored
        },
{
    if lies_in(path, root) {
        let levels = levels_to(root, files, path, is_directory);
        if settles_on_ignoring(levels) {
            let i = choose|i: int|
                0 <= i < levels.len() && nearest(#[trigger] levels[i]) == Verdict::Ignored;
            let n = root.len() + 1 + i;
            assert(nearest(
                level(root, files, path.take(n), n < path.len() || is_directory),
            ) == Verdict::Ignored);
        }
        if exists|n: int|
            root.len() < n <= path.len() && nearest(
                level(root, files, #[trigger] path.take(n), n < path.len() || is_directory),
            ) == Verdict::Ignored {
            let n = choose|n: int|
                root.len() < n <= path.len() && nearest(
                    level(root, files, #[trigger] path.take(n), n < path.len() || is_directory),
                ) == Verdict::Ignored;
            assert(nearest(levels[n - root.len() - 1]) == Verdict::Ignored);
        }
    }
}

/// The repository that a directory is in is the nearest one: the search goes from
/// the directory upwards, one step at a time, and ends at the first that holds
/// one.
pub proof fn the_nearest_repository_is_found(cwd: Seq<Part>, has_git: Seq<bool>)
    requires
        well_formed(cwd),
        is_rooted(cwd),
    ensures
        search_path(cwd) == Seq::new(cwd.len(), |i: int| cwd.take(cwd.len() - i)),
        match repository_of(cwd, has_git) {
            Some(root) => exists|i: int|
                {
                    &&& 0 <= i < has_git.len() && i < cwd.len()
                    &&& #[trigger] has_git[i]
                    &&& root == cwd.take(cwd.len() - i)
                    &&& forall|j: int| 0 <= j < i ==> !#[trigger] has_git[j]
                },
            None => forall|i: int|
                0 <= i < has_git.len() && i < cwd.len() ==> !#[trigger] has_git[i],
        },
{
    searching_goes_upwards(cwd);
    first_marked_is_first(search_path(cwd), has_git);
}

proof fn searching_goes_upwards(cwd: Seq<Part>)
    requires
        well_formed(cwd),
        is_rooted(cwd),
    ensures
        search_path(cwd) == Seq::new(cwd.len(), |i: int| cwd.take(cwd.len() - i)),
    decreases cwd.len(),
{
    let listed = Seq::new(cwd.len(), |i: int| cwd.take(cwd.len() - i));
    assert(cwd.take(cwd.len() as int) =~= cwd);
    if cwd.len() > 1 {
        let parent = cwd.drop_last();
        assert(cwd[cwd.len() - 1] is ParentDir || cwd[cwd.len() - 1] is Normal);
        assert(parent =~= cwd.subrange(0, cwd.len() - 1));
        crate::path::subrange_is_well_formed(cwd, 0, cwd.len() - 1);
        assert(parent[0] == cwd[0]);
        searching_goes_upwards(parent);
        let above = search_path(parent);
        assert forall|i: int| 0 <= i < listed.len() implies #[trigger] (seq![cwd] + above)[i]
            == listed[i] by {
            if i > 0 {
                assert(above[i - 1] == parent.take(parent.len() - (i - 1)));
                assert(parent.take(parent.len() - (i - 1)) =~= cwd.take(cwd.len() - i));
            }
        }
        assert(seq![cwd] + above =~= listed);
    } else {
        assert(seq![cwd] =~= listed);
    }
}

proof fn first_marked_is_first(directories: Seq<Seq<Part>>, has_git: Seq<bool>)
    ensures
        match first_marked(directories, has_git) {
            Some(root) => exists|i: int|
                {
                    &&& 0 <= i < has_git.len() && i < directories.len()
                    &&& #[trigger] has_git[i]
                    &&& root == directories[i]
                    &&& forall|j: int| 0 <= j < i ==> !#[trigger] has_git[j]
                },
            None => forall|i: int|
                0 <= i < has_git.len() && i < directories.len() ==> !#[trigger] has_git[i],
        },
    decreases directories.len(),
{
    if directories.len() > 0 && has_git.len() > 0 && !has_git[0] {
        let rest = has_git.drop_first();
        first_marked_is_first(directories.drop_first(), rest);
        match first_marked(directories, has_git) {
            Some(root) => {
                let i = choose|i: int|
                    {
                        &&& 0 <= i < rest.len() && i < directories.drop_first().len()
                        &&& #[trigger] rest[i]
                        &&& root == directories.drop_first()[i]
                        &&& forall|j: int| 0 <= j < i ==> !#[trigger] rest[j]
                    };
                assert(has_git[i + 1]);
                assert forall|j: int| 0 <= j < i + 1 implies !#[trigger] has_git[j] by {
                    if j > 0 {
                        assert(!rest[j - 1]);
                    }
                }
            },
            None => {
                assert forall|i: int|
                    0 <= i < has_git.len() && i < directories.len() implies !#[trigger] has_git[i] by {
                    if i > 0 {
                        assert(!rest[i - 1]);
                    }
                }
            },
        }
    } else if directories.len() > 0 && has_git.len() > 0 {
        assert(has_git[0]);
    }
}

/// The model of a list of ignore files holds each of them, by its directory and
/// its matcher.
pub proof fn every_ignore_file_is_seen(files: Seq<IgnoreFile>, i: int)
    requires
        0 <= i < files.len(),
    ensures
        files_view(files).len() == files.len(),
        files_view(files)[i].directory == files[i].directory@,
        files_view(files)[i].root == matcher_root(files[i].matcher),
        files_view(files)[i].rules == matcher_rules(files[i].matcher),
{
}

/// No directory above a path outside the repository has a say on it.
pub proof fn nothing_outside_is_consulted(root: Seq<Part>, path: Seq<Part>)
    requires
        !lies_in(path, root),
    ensures
        directories_above(root, path) == Seq::<Seq<Part>>::empty(),
    decreases path.len(),
{
    if let Some(directory) = parent_of(path) {
        if lies_in(directory, root) {
            assert(path.take(root.len() as int) =~= directory.take(root.len() as int));
        }
        assert(directory != root) by {
            assert(root.take(root.len() as int) =~= root);
        }
        nothing_outside_is_consulted(root, directory);
        assert(directories_above(root, path) =~= Seq::<Seq<Part>>::empty());
    }
}

} // verus!
