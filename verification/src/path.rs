//! Paths as sequences of components.
//!
//! A path is read from the raw bytes by which the operating system names it:
//! components are separated by slashes, repeated and trailing slashes and `.`
//! components other than a leading one mean nothing, and a leading slash is the
//! root. Two paths are the same when their components are.

use vstd::prelude::*;

verus! {

pub const SLASH: u8 = 47;

pub const DOT: u8 = 46;

/// One component of a path.
#[derive(Debug, PartialEq, Eq)]
pub enum PathPart {
    RootDir,
    CurDir,
    ParentDir,
    Normal(Vec<u8>),
}

/// One component of a path, with the name as a sequence of bytes.
pub ghost enum Part {
    RootDir,
    CurDir,
    ParentDir,
    Normal(Seq<u8>),
}

impl View for PathPart {
    type V = Part;

    open spec fn view(&self) -> Part {
        match self {
            PathPart::RootDir => Part::RootDir,
            PathPart::CurDir => Part::CurDir,
            PathPart::ParentDir => Part::ParentDir,
            PathPart::Normal(name) => Part::Normal(name@),
        }
    }
}

/// Whether `bytes` can be the name of a directory entry.
pub open spec fn is_name(bytes: Seq<u8>) -> bool {
    &&& bytes.len() > 0
    &&& !bytes.contains(SLASH)
    &&& bytes != seq![DOT]
    &&& bytes != seq![DOT, DOT]
}

/// Whether `parts` are the components of some path: the root and `.` stand only
/// in front, and names are names.
pub open spec fn well_formed(parts: Seq<Part>) -> bool {
    &&& forall|i: int|
        0 <= i < parts.len() ==> (#[trigger] parts[i] matches Part::Normal(name) ==> is_name(name))
    &&& forall|i: int|
        0 < i < parts.len() ==> #[trigger] parts[i] is ParentDir || parts[i] is Normal
}

/// Where the first component of `bytes` ends.
pub open spec fn segment_end(bytes: Seq<u8>) -> nat
    decreases bytes.len(),
{
    if bytes.len() == 0 || bytes[0] == SLASH {
        0
    } else {
        1 + segment_end(bytes.drop_first())
    }
}

/// The component that the text between two slashes stands for, if any. Only
/// the first text of a relative path stands for the current directory.
pub open spec fn segment_part(segment: Seq<u8>, leading: bool) -> Seq<Part> {
    if segment.len() == 0 {
        Seq::empty()
    } else if segment == seq![DOT] {
        if leading {
            seq![Part::CurDir]
        } else {
            Seq::empty()
        }
    } else if segment == seq![DOT, DOT] {
        seq![Part::ParentDir]
    } else {
        seq![Part::Normal(segment)]
    }
}

/// The components of `bytes` after the root.
pub open spec fn relative_parts(bytes: Seq<u8>, leading: bool) -> Seq<Part>
    decreases bytes.len(),
{
    let end = segment_end(bytes) as int;
    let first = segment_part(bytes.take(end), leading);
    if end < bytes.len() {
        first + relative_parts(bytes.skip(end + 1), false)
    } else {
        first
    }
}

/// The components that `bytes` name.
pub open spec fn parts_of(bytes: Seq<u8>) -> Seq<Part> {
    if bytes.len() > 0 && bytes[0] == SLASH {
        seq![Part::RootDir] + relative_parts(bytes.skip(1), false)
    } else {
        relative_parts(bytes, true)
    }
}

/// The bytes of one component.
pub open spec fn part_bytes(part: Part) -> Seq<u8> {
    match part {
        Part::RootDir => seq![SLASH],
        Part::CurDir => seq![DOT],
        Part::ParentDir => seq![DOT, DOT],
        Part::Normal(name) => name,
    }
}

/// The shortest bytes that name `parts`.
pub open spec fn bytes_of(parts: Seq<Part>) -> Seq<u8>
    decreases parts.len(),
{
    if parts.len() == 0 {
        Seq::empty()
    } else {
        let init = parts.drop_last();
        let last = part_bytes(parts.last());
        if init.len() == 0 || init.last() is RootDir {
            bytes_of(init) + last
        } else {
            bytes_of(init).push(SLASH) + last
        }
    }
}

/// Whether the path leads from the root.
pub open spec fn is_rooted(parts: Seq<Part>) -> bool {
    parts.len() > 0 && parts[0] is RootDir
}

/// `path` as seen from `base`: itself when it leads from the root, and below
/// `base` otherwise.
pub open spec fn joined(base: Seq<Part>, path: Seq<Part>) -> Seq<Part> {
    if is_rooted(path) {
        path
    } else if base.len() > 0 && path.len() > 0 && path[0] is CurDir {
        base + path.skip(1)
    } else {
        base + path
    }
}

/// Whether `path` is `base` or lies below it.
pub open spec fn lies_in(path: Seq<Part>, base: Seq<Part>) -> bool {
    base.len() <= path.len() && path.take(base.len() as int) == base
}

/// The directory that holds the last component, if the path has one that is
/// not the root.
pub open spec fn parent_of(path: Seq<Part>) -> Option<Seq<Part>> {
    if path.len() == 0 || path.last() is RootDir {
        None
    } else {
        Some(path.drop_last())
    }
}

proof fn segment_end_is_first_slash(bytes: Seq<u8>, end: int)
    requires
        0 <= end <= bytes.len(),
        forall|i: int| 0 <= i < end ==> #[trigger] bytes[i] != SLASH,
        end < bytes.len() ==> bytes[end] == SLASH,
    ensures
        segment_end(bytes) == end,
    decreases bytes.len(),
{
    if end > 0 {
        assert(bytes[0] != SLASH);
        segment_end_is_first_slash(bytes.drop_first(), end - 1);
    }
}

proof fn segment_end_bounds(bytes: Seq<u8>)
    ensures
        segment_end(bytes) <= bytes.len(),
        forall|i: int| 0 <= i < segment_end(bytes) ==> #[trigger] bytes[i] != SLASH,
        segment_end(bytes) < bytes.len() ==> bytes[segment_end(bytes) as int] == SLASH,
    decreases bytes.len(),
{
    if bytes.len() > 0 && bytes[0] != SLASH {
        let rest = bytes.drop_first();
        segment_end_bounds(rest);
        assert forall|i: int| 0 <= i < segment_end(bytes) implies #[trigger] bytes[i] != SLASH by {
            if i > 0 {
                assert(rest[i - 1] != SLASH);
            }
        }
    }
}

proof fn relative_parts_are_well_formed(bytes: Seq<u8>, leading: bool)
    ensures
        well_formed(relative_parts(bytes, leading)),
        !leading ==> forall|i: int|
            0 <= i < relative_parts(bytes, leading).len() ==> #[trigger] relative_parts(
                bytes,
                leading,
            )[i] is ParentDir || relative_parts(bytes, leading)[i] is Normal,
        relative_parts(bytes, leading).len() > 0 ==> !(relative_parts(
            bytes,
            leading,
        )[0] is RootDir),
    decreases bytes.len(),
{
    segment_end_bounds(bytes);
    let end = segment_end(bytes) as int;
    let segment = bytes.take(end);
    assert(!segment.contains(SLASH)) by {
        if segment.contains(SLASH) {
            let i = choose|i: int| 0 <= i < segment.len() && segment[i] == SLASH;
            assert(bytes[i] != SLASH);
        }
    }
    if end < bytes.len() {
        relative_parts_are_well_formed(bytes.skip(end + 1), false);
    }
}

/// The components that bytes name are those of a path.
pub proof fn parts_of_bytes_are_well_formed(bytes: Seq<u8>)
    ensures
        well_formed(parts_of(bytes)),
{
    if bytes.len() > 0 && bytes[0] == SLASH {
        relative_parts_are_well_formed(bytes.skip(1), false);
    } else {
        relative_parts_are_well_formed(bytes, true);
    }
}

proof fn relative_parts_of_one_segment(segment: Seq<u8>, leading: bool)
    requires
        !segment.contains(SLASH),
    ensures
        relative_parts(segment, leading) == segment_part(segment, leading),
{
    assert forall|i: int| 0 <= i < segment.len() implies #[trigger] segment[i] != SLASH by {
        if segment[i] == SLASH {
            assert(segment.contains(SLASH));
        }
    }
    segment_end_is_first_slash(segment, segment.len() as int);
    assert(segment.take(segment.len() as int) =~= segment);
}

proof fn relative_parts_append(bytes: Seq<u8>, segment: Seq<u8>, leading: bool)
    requires
        !segment.contains(SLASH),
    ensures
        relative_parts(bytes.push(SLASH) + segment, leading) == relative_parts(bytes, leading)
            + segment_part(segment, false),
    decreases bytes.len(),
{
    let all = bytes.push(SLASH) + segment;
    segment_end_bounds(bytes);
    let end = segment_end(bytes) as int;
    assert forall|i: int| 0 <= i < end implies #[trigger] all[i] != SLASH by {
        assert(bytes[i] != SLASH);
    }
    segment_end_is_first_slash(all, end);
    assert(all.take(end) =~= bytes.take(end));
    if end < bytes.len() {
        relative_parts_append(bytes.skip(end + 1), segment, false);
        assert(all.skip(end + 1) =~= bytes.skip(end + 1).push(SLASH) + segment);
    } else {
        assert(all.skip(end + 1) =~= segment);
        relative_parts_of_one_segment(segment, false);
    }
    assert(relative_parts(all, leading) =~= relative_parts(bytes, leading) + segment_part(
        segment,
        false,
    ));
}

/// The bytes of a path name that path: reading them back gives its components.
pub proof fn path_reads_back(parts: Seq<Part>)
    requires
        well_formed(parts),
    ensures
        parts_of(bytes_of(parts)) == parts,
    decreases parts.len(),
{
    if parts.len() == 0 {
        relative_parts_of_one_segment(Seq::empty(), true);
        assert(parts_of(bytes_of(parts)) =~= parts);
    } else {
        let init = parts.drop_last();
        let last = parts.last();
        let segment = part_bytes(last);
        assert(well_formed(init)) by {
            assert forall|i: int| 0 <= i < init.len() implies (#[trigger] init[i] matches Part::Normal(
                name,
            ) ==> is_name(name)) by {
                assert(init[i] == parts[i]);
            }
            assert forall|i: int| 0 < i < init.len() implies #[trigger] init[i] is ParentDir
                || init[i] is Normal by {
                assert(init[i] == parts[i]);
            }
        }
        path_reads_back(init);
        assert(bytes_of(Seq::<Part>::empty()) =~= Seq::<u8>::empty());
        if last is RootDir {
            assert(parts.len() == 1) by {
                if parts.len() > 1 {
                    assert(parts[parts.len() - 1] is ParentDir || parts[parts.len() - 1] is Normal);
                }
            }
            assert(bytes_of(parts) =~= seq![SLASH]);
            assert(bytes_of(parts).skip(1) =~= Seq::<u8>::empty());
            relative_parts_of_one_segment(Seq::empty(), false);
            assert(parts_of(bytes_of(parts)) =~= parts);
        } else {
            assert(!segment.contains(SLASH)) by {
                assert(seq![DOT][0] == DOT);
                assert(parts[parts.len() - 1] == last);
            }
            assert(last is CurDir ==> parts.len() == 1) by {
                if parts.len() > 1 {
                    assert(parts[parts.len() - 1] is ParentDir || parts[parts.len() - 1] is Normal);
                }
            }
            assert(segment_part(segment, parts.len() == 1) =~= seq![last]) by {
                assert(parts[parts.len() - 1] == last);
                assert(seq![DOT].len() == 1);
                assert(seq![DOT, DOT].len() == 2);
            }
            assert(segment.len() > 0 && segment[0] != SLASH) by {
                assert(parts[parts.len() - 1] == last);
                if segment[0] == SLASH {
                    assert(segment.contains(SLASH));
                }
            }
            if init.len() == 0 {
                assert(bytes_of(parts) =~= segment);
                relative_parts_of_one_segment(segment, true);
                assert(parts_of(bytes_of(parts)) =~= parts);
            } else if init.last() is RootDir {
                assert(init.len() == 1) by {
                    if init.len() > 1 {
                        assert(parts[init.len() - 1] == init.last());
                    }
                }
                assert(init.drop_last() =~= Seq::<Part>::empty());
                assert(bytes_of(init) =~= seq![SLASH]);
                assert(bytes_of(parts).skip(1) =~= segment);
                relative_parts_of_one_segment(segment, false);
                assert(parts_of(bytes_of(parts)) =~= parts);
            } else {
                let before = bytes_of(init);
                bytes_of_is_not_empty(init);
                let all = bytes_of(parts);
                assert(all == before.push(SLASH) + segment);
                assert(all[0] == before[0]);
                if before[0] == SLASH {
                    relative_parts_append(before.skip(1), segment, false);
                    assert(all.skip(1) =~= before.skip(1).push(SLASH) + segment);
                } else {
                    relative_parts_append(before, segment, true);
                }
                assert(segment_part(segment, false) == seq![last]);
                assert(parts_of(all) =~= parts_of(before) + seq![last]);
                assert(parts =~= init + seq![last]);
            }
        }
    }
}

pub(crate) proof fn bytes_of_is_not_empty(parts: Seq<Part>)
    requires
        well_formed(parts),
        parts.len() > 0,
    ensures
        bytes_of(parts).len() > 0,
{
    assert(parts[parts.len() - 1] == parts.last());
}

/// The components that a vector of them holds.
pub open spec fn parts_view(parts: Seq<PathPart>) -> Seq<Part> {
    parts.map_values(|part: PathPart| part@)
}

/// A path.
#[derive(Debug, PartialEq, Eq)]
pub struct FilePath {
    parts: Vec<PathPart>,
}

impl View for FilePath {
    type V = Seq<Part>;

    closed spec fn view(&self) -> Seq<Part> {
        parts_view(self.parts@)
    }
}

/// The paths that a sequence of them holds.
pub open spec fn paths_view(paths: Seq<FilePath>) -> Seq<Seq<Part>> {
    paths.map_values(|path: FilePath| path@)
}

/// Whether two byte strings are equal.
pub(crate) fn same_bytes(a: &Vec<u8>, b: &Vec<u8>) -> (same: bool)
    ensures
        same == (a@ == b@),
{
    if a.len() != b.len() {
        return false;
    }
    let mut i: usize = 0;
    while i < a.len()
        invariant
            i <= a@.len() == b@.len(),
            forall|j: int| 0 <= j < i ==> a@[j] == b@[j],
        decreases a@.len() - i,
    {
        if a[i] != b[i] {
            return false;
        }
        i = i + 1;
    }
    assert(a@ =~= b@);
    true
}

/// The bytes from `start` to before `end`.
pub(crate) fn copy_bytes(bytes: &[u8], start: usize, end: usize) -> (copy: Vec<u8>)
    requires
        start <= end <= bytes@.len(),
    ensures
        copy@ == bytes@.subrange(start as int, end as int),
{
    let mut copy: Vec<u8> = Vec::new();
    let mut i: usize = start;
    while i < end
        invariant
            start <= i <= end <= bytes@.len(),
            copy@ == bytes@.subrange(start as int, i as int),
        decreases end - i,
    {
        copy.push(bytes[i]);
        i = i + 1;
        assert(copy@ =~= bytes@.subrange(start as int, i as int));
    }
    copy
}

impl Clone for PathPart {
    fn clone(&self) -> (copy: PathPart)
        ensures
            copy@ == self@,
    {
        match self {
            PathPart::RootDir => PathPart::RootDir,
            PathPart::CurDir => PathPart::CurDir,
            PathPart::ParentDir => PathPart::ParentDir,
            PathPart::Normal(name) => {
                let copy = copy_bytes(name.as_slice(), 0, name.len());
                assert(copy@ =~= name@);
                PathPart::Normal(copy)
            },
        }
    }
}

impl PathPart {
    /// Whether two components are the same.
    pub fn same(&self, other: &PathPart) -> (same: bool)
        ensures
            same == (self@ == other@),
    {
        match (self, other) {
            (PathPart::RootDir, PathPart::RootDir) => true,
            (PathPart::CurDir, PathPart::CurDir) => true,
            (PathPart::ParentDir, PathPart::ParentDir) => true,
            (PathPart::Normal(name), PathPart::Normal(other_name)) => same_bytes(name, other_name),
            _ => false,
        }
    }
}

impl Clone for FilePath {
    fn clone(&self) -> (copy: FilePath)
        ensures
            copy@ == self@,
    {
        self.prefix(self.len())
    }
}

impl FilePath {
    /// The components are those of some path.
    #[verifier::type_invariant]
    pub open spec fn is_path(self) -> bool {
        well_formed(self@)
    }

    /// The path without components, which is the directory that relative paths
    /// start from.
    pub fn empty() -> (path: FilePath)
        ensures
            path@ == Seq::<Part>::empty(),
    {
        let path = FilePath { parts: Vec::new() };
        assert(path@ =~= Seq::<Part>::empty());
        path
    }

    /// Reads the path that `bytes` name.
    pub fn from_bytes(bytes: &[u8]) -> (path: FilePath)
        ensures
            path@ == parts_of(bytes@),
    {
        let mut parts: Vec<PathPart> = Vec::new();
        let n: usize = bytes.len();
        let mut start: usize = 0;
        let mut leading: bool = true;
        let mut done: bool = false;
        if n > 0 && bytes[0] == SLASH {
            parts.push(PathPart::RootDir);
            start = 1;
            leading = false;
            assert(parts_view(parts@) =~= seq![Part::RootDir]);
        } else {
            assert(bytes@.skip(0) =~= bytes@);
            assert(parts_view(parts@) =~= Seq::<Part>::empty());
            assert(parts_of(bytes@) =~= Seq::<Part>::empty() + relative_parts(bytes@, true));
        }
        while !done
            invariant
                start <= n == bytes@.len(),
                done ==> parts_view(parts@) == parts_of(bytes@),
                !done ==> parts_view(parts@) + relative_parts(bytes@.skip(start as int), leading)
                    == parts_of(bytes@),
            decreases
                n - start,
                if done {
                    0int
                } else {
                    1int
                },
        {
            let ghost rest = bytes@.skip(start as int);
            let ghost before = parts_view(parts@);
            let mut end: usize = start;
            while end < n && bytes[end] != SLASH
                invariant
                    start <= end <= n == bytes@.len(),
                    rest == bytes@.skip(start as int),
                    forall|i: int| 0 <= i < end - start ==> #[trigger] rest[i] != SLASH,
                decreases n - end,
            {
                assert(rest[end - start] == bytes@[end as int]);
                end = end + 1;
            }
            let segment = copy_bytes(bytes, start, end);
            proof {
                if end < n {
                    assert(rest[end - start] == bytes@[end as int]);
                }
                segment_end_is_first_slash(rest, end - start);
                assert(rest.take(end - start) =~= segment@);
                if end < n {
                    assert(rest.skip(end - start + 1) =~= bytes@.skip(end + 1));
                }
            }
            let ghost found = segment_part(segment@, leading);
            let dots: bool = segment.len() <= 2 && segment.len() >= 1 && segment[0] == DOT && (
            segment.len() == 1 || segment[1] == DOT);
            if segment.len() == 0 {
                assert(parts_view(parts@) =~= before + found);
            } else if dots && segment.len() == 1 {
                assert(segment@ =~= seq![DOT]);
                if leading {
                    parts.push(PathPart::CurDir);
                }
                assert(parts_view(parts@) =~= before + found);
            } else if dots {
                assert(segment@ =~= seq![DOT, DOT]);
                assert(seq![DOT].len() == 1);
                parts.push(PathPart::ParentDir);
                assert(parts_view(parts@) =~= before + found);
            } else {
                assert(segment@ != seq![DOT]) by {
                    assert(seq![DOT][0] == DOT);
                }
                assert(segment@ != seq![DOT, DOT]) by {
                    assert(seq![DOT, DOT][0] == DOT && seq![DOT, DOT][1] == DOT);
                }
                parts.push(PathPart::Normal(segment));
                assert(parts_view(parts@) =~= before + found);
            }
            if end < n {
                assert(before + (found + relative_parts(bytes@.skip(end + 1), false)) =~= (before
                    + found) + relative_parts(bytes@.skip(end + 1), false));
                start = end + 1;
                leading = false;
            } else {
                done = true;
            }
        }
        proof {
            parts_of_bytes_are_well_formed(bytes@);
        }
        FilePath { parts }
    }

    /// The shortest bytes that name the path.
    pub fn to_bytes(&self) -> (bytes: Vec<u8>)
        ensures
            bytes@ == bytes_of(self@),
    {
        let mut bytes: Vec<u8> = Vec::new();
        let mut i: usize = 0;
        assert(self@.take(0) =~= Seq::<Part>::empty());
        while i < self.parts.len()
            invariant
                i <= self.parts@.len() == self@.len(),
                self@ == parts_view(self.parts@),
                bytes@ == bytes_of(self@.take(i as int)),
            decreases self.parts@.len() - i,
        {
            let ghost upto = self@.take(i + 1);
            proof {
                assert(upto.drop_last() =~= self@.take(i as int));
                assert(upto.last() == self.parts@[i as int]@);
                if i > 0 {
                    assert(self@.take(i as int).last() == self.parts@[i - 1]@);
                }
            }
            let separate: bool = if i == 0 {
                false
            } else {
                match &self.parts[i - 1] {
                    PathPart::RootDir => false,
                    _ => true,
                }
            };
            if separate {
                bytes.push(SLASH);
            }
            let ghost before = bytes@;
            match &self.parts[i] {
                PathPart::RootDir => {
                    bytes.push(SLASH);
                    assert(bytes@ =~= before + part_bytes(upto.last()));
                },
                PathPart::CurDir => {
                    bytes.push(DOT);
                    assert(bytes@ =~= before + part_bytes(upto.last()));
                },
                PathPart::ParentDir => {
                    bytes.push(DOT);
                    bytes.push(DOT);
                    assert(bytes@ =~= before + part_bytes(upto.last()));
                },
                PathPart::Normal(name) => {
                    let mut copy = copy_bytes(name.as_slice(), 0, name.len());
                    bytes.append(&mut copy);
                    assert(bytes@ =~= before + part_bytes(upto.last()));
                },
            }
            i = i + 1;
        }
        assert(self@.take(self@.len() as int) =~= self@);
        bytes
    }

    /// The number of components.
    pub fn len(&self) -> (len: usize)
        ensures
            len == self@.len(),
    {
        self.parts.len()
    }

    /// One component, by its place.
    pub fn part(&self, i: usize) -> (part: &PathPart)
        requires
            i < self@.len(),
        ensures
            part@ == self@[i as int],
    {
        &self.parts[i]
    }

    /// The path made of the first `n` components.
    pub fn prefix(&self, n: usize) -> (path: FilePath)
        requires
            n <= self@.len(),
        ensures
            path@ == self@.take(n as int),
    {
        proof {
            use_type_invariant(self);
        }
        let path = FilePath { parts: self.copy_parts(0, n) };
        assert(path@ =~= self@.take(n as int));
        path
    }

    fn copy_parts(&self, start: usize, end: usize) -> (parts: Vec<PathPart>)
        requires
            start <= end <= self@.len(),
        ensures
            parts_view(parts@) == self@.subrange(start as int, end as int),
            well_formed(self@) ==> well_formed(parts_view(parts@)),
    {
        let mut parts: Vec<PathPart> = Vec::new();
        let mut i: usize = start;
        while i < end
            invariant
                start <= i <= end <= self@.len(),
                self@ == parts_view(self.parts@),
                parts_view(parts@) == self@.subrange(start as int, i as int),
            decreases end - i,
        {
            let ghost before = parts_view(parts@);
            parts.push(self.parts[i].clone());
            i = i + 1;
            assert(parts_view(parts@) =~= before.push(self@[i - 1]));
            assert(parts_view(parts@) =~= self@.subrange(start as int, i as int));
        }
        proof {
            subrange_is_well_formed(self@, start as int, end as int);
        }
        parts
    }

    /// Whether two paths are the same.
    pub fn same(&self, other: &FilePath) -> (same: bool)
        ensures
            same == (self@ == other@),
    {
        self.len() == other.len() && self.starts_with(other)
    }

    /// Whether the path leads from the root.
    pub fn is_absolute(&self) -> (absolute: bool)
        ensures
            absolute == is_rooted(self@),
    {
        self.parts.len() > 0 && match &self.parts[0] {
            PathPart::RootDir => true,
            _ => false,
        }
    }

    /// Whether the path is `base` or lies below it.
    pub fn starts_with(&self, base: &FilePath) -> (below: bool)
        ensures
            below == lies_in(self@, base@),
            self@.len() == base@.len() ==> below == (self@ == base@),
    {
        if self.parts.len() < base.parts.len() {
            return false;
        }
        let mut i: usize = 0;
        while i < base.parts.len()
            invariant
                i <= base@.len() <= self@.len(),
                self@ == parts_view(self.parts@),
                base@ == parts_view(base.parts@),
                forall|j: int| 0 <= j < i ==> self@[j] == base@[j],
            decreases base@.len() - i,
        {
            if !self.parts[i].same(&base.parts[i]) {
                assert(self@.take(base@.len() as int)[i as int] != base@[i as int]);
                return false;
            }
            assert(self@[i as int] == base@[i as int]);
            i = i + 1;
        }
        assert(self@.take(base@.len() as int) =~= base@);
        assert(self@.len() == base@.len() ==> self@ =~= base@);
        true
    }

    /// The rest of the path below `base`, if it lies there.
    pub fn strip_prefix(&self, base: &FilePath) -> (rest: Option<FilePath>)
        ensures
            match rest {
                Some(rest) => lies_in(self@, base@) && rest@ == self@.skip(base@.len() as int),
                None => !lies_in(self@, base@),
            },
    {
        if self.starts_with(base) {
            proof {
                use_type_invariant(self);
            }
            let path = FilePath { parts: self.copy_parts(base.len(), self.len()) };
            assert(path@ =~= self@.skip(base@.len() as int));
            Some(path)
        } else {
            None
        }
    }

    /// `path` as seen from this one: itself when it leads from the root, and
    /// below this one otherwise.
    pub fn join(&self, path: &FilePath) -> (result: FilePath)
        ensures
            result@ == joined(self@, path@),
    {
        proof {
            use_type_invariant(self);
            use_type_invariant(path);
        }
        if path.is_absolute() {
            return path.clone();
        }
        let skip_current: bool = self.len() > 0 && path.len() > 0 && match &path.parts[0] {
            PathPart::CurDir => true,
            _ => false,
        };
        let start: usize = if skip_current {
            1
        } else {
            0
        };
        let mut parts = self.copy_parts(0, self.len());
        let mut rest = path.copy_parts(start, path.len());
        let ghost head = parts_view(parts@);
        let ghost tail = parts_view(rest@);
        parts.append(&mut rest);
        proof {
            assert(parts_view(parts@) =~= head + tail);
            assert(head =~= self@);
            assert(path@.skip(1) =~= path@.subrange(1, path@.len() as int) || path@.len() == 0);
            assert(path@ =~= path@.subrange(0, path@.len() as int));
            assert(parts_view(parts@) =~= joined(self@, path@));
            joined_is_well_formed(self@, path@);
        }
        FilePath { parts }
    }

    /// The directory that holds the last component, if the path has one that
    /// is not the root.
    pub fn parent(&self) -> (parent: Option<FilePath>)
        ensures
            match parent {
                Some(parent) => parent_of(self@) == Some(parent@),
                None => parent_of(self@) is None,
            },
    {
        if self.parts.len() == 0 {
            return None;
        }
        let n: usize = self.parts.len();
        match &self.parts[n - 1] {
            PathPart::RootDir => None,
            _ => {
                let parent = self.prefix(n - 1);
                assert(self@.take(n - 1) =~= self@.drop_last());
                Some(parent)
            },
        }
    }

    /// Appends one component.
    pub fn push(&mut self, part: &PathPart)
        requires
            well_formed(old(self)@.push(part@)),
        ensures
            final(self)@ == old(self)@.push(part@),
    {
        let mut parts = self.copy_parts(0, self.len());
        let ghost before = parts_view(parts@);
        parts.push(part.clone());
        assert(parts_view(parts@) =~= before.push(part@));
        assert(before =~= old(self)@);
        *self = FilePath { parts };
    }

    /// Removes the last component and says whether there was one to remove.
    pub fn pop(&mut self) -> (popped: bool)
        ensures
            match parent_of(old(self)@) {
                Some(parent) => popped && final(self)@ == parent,
                None => !popped && final(self)@ == old(self)@,
            },
    {
        match self.parent() {
            Some(parent) => {
                *self = parent;
                true
            },
            None => false,
        }
    }
}

pub(crate) proof fn subrange_is_well_formed(parts: Seq<Part>, start: int, end: int)
    requires
        0 <= start <= end <= parts.len(),
    ensures
        well_formed(parts) ==> well_formed(parts.subrange(start, end)),
{
    if well_formed(parts) {
        let sub = parts.subrange(start, end);
        assert forall|i: int| 0 <= i < sub.len() implies (#[trigger] sub[i] matches Part::Normal(
            name,
        ) ==> is_name(name)) by {
            assert(sub[i] == parts[start + i]);
        }
        assert forall|i: int| 0 < i < sub.len() implies #[trigger] sub[i] is ParentDir
            || sub[i] is Normal by {
            assert(sub[i] == parts[start + i]);
        }
    }
}

/// Joining two paths makes a path.
pub proof fn joined_is_well_formed(base: Seq<Part>, path: Seq<Part>)
    requires
        well_formed(base),
        well_formed(path),
    ensures
        well_formed(joined(base, path)),
{
    let result = joined(base, path);
    assert forall|i: int| 0 <= i < result.len() implies (#[trigger] result[i] matches Part::Normal(
        name,
    ) ==> is_name(name)) by {
        if !is_rooted(path) {
            if i < base.len() {
                assert(result[i] == base[i]);
            } else {
                assert(result[i] == path[path.len() - result.len() + i]);
            }
        }
    }
    assert forall|i: int| 0 < i < result.len() implies #[trigger] result[i] is ParentDir
        || result[i] is Normal by {
        if !is_rooted(path) {
            if i < base.len() {
                assert(result[i] == base[i]);
            } else {
                let j = path.len() - result.len() + i;
                assert(result[i] == path[j]);
            }
        }
    }
}

/// What is joined to a path can be stripped from it again.
pub proof fn stripping_undoes_joining(base: Seq<Part>, path: Seq<Part>)
    requires
        !is_rooted(path),
        path.len() > 0 ==> !(path[0] is CurDir),
    ensures
        lies_in(joined(base, path), base),
        joined(base, path).skip(base.len() as int) == path,
{
    assert(joined(base, path).take(base.len() as int) =~= base);
    assert(joined(base, path).skip(base.len() as int) =~= path);
}

/// What is stripped from a path can be joined to it again.
pub proof fn joining_undoes_stripping(path: Seq<Part>, base: Seq<Part>)
    requires
        well_formed(path),
        base.len() > 0,
        lies_in(path, base),
    ensures
        joined(base, path.skip(base.len() as int)) == path,
{
    let rest = path.skip(base.len() as int);
    if rest.len() > 0 {
        assert(rest[0] == path[base.len() as int]);
    }
    assert(base + rest =~= path);
}

/// Lying in a directory is an order on paths.
pub proof fn lying_in_is_an_order(a: Seq<Part>, b: Seq<Part>, c: Seq<Part>)
    ensures
        lies_in(a, a),
        lies_in(a, b) && lies_in(b, a) ==> a == b,
        lies_in(a, b) && lies_in(b, c) ==> lies_in(a, c),
{
    assert(a.take(a.len() as int) =~= a);
    if lies_in(a, b) && lies_in(b, c) {
        assert(a.take(c.len() as int) =~= b.take(c.len() as int));
    }
}

/// A copy of a vector of paths.
pub(crate) fn copy_paths(paths: &Vec<FilePath>) -> (copy: Vec<FilePath>)
    ensures
        paths_view(copy@) == paths_view(paths@),
{
    let mut copy: Vec<FilePath> = Vec::new();
    let mut i: usize = 0;
    while i < paths.len()
        invariant
            i <= paths@.len(),
            copy@.len() == i,
            forall|j: int| 0 <= j < i ==> (#[trigger] copy@[j])@ == paths@[j]@,
        decreases paths@.len() - i,
    {
        copy.push(paths[i].clone());
        i = i + 1;
    }
    assert(paths_view(copy@) =~= paths_view(paths@));
    copy
}

/// Reading goes name by name: a slash and what follows it up to the next one add
/// one component, unless that is empty or a dot, which add none.
pub proof fn reading_goes_name_by_name(bytes: Seq<u8>, segment: Seq<u8>)
    requires
        bytes.len() > 0,
        !segment.contains(47u8),
    ensures
        parts_of(bytes.push(47u8) + segment) == parts_of(bytes) + if segment.len() == 0 || segment
            == seq![46u8] {
            Seq::<Part>::empty()
        } else if segment == seq![46u8, 46u8] {
            seq![Part::ParentDir]
        } else {
            seq![Part::Normal(segment)]
        },
{
    let all = bytes.push(47u8) + segment;
    assert(all[0] == bytes[0]);
    assert(seq![46u8, 46u8].len() == 2);
    if bytes[0] == SLASH {
        relative_parts_append(bytes.skip(1), segment, false);
        assert(all.skip(1) =~= bytes.skip(1).push(SLASH) + segment);
        assert(parts_of(all) =~= parts_of(bytes) + segment_part(segment, false));
    } else {
        relative_parts_append(bytes, segment, true);
    }
}

/// The first name of a path is a component, a dot in front is the current
/// directory, and a slash in front is the root.
pub proof fn reading_begins_with_the_first_name(segment: Seq<u8>)
    requires
        !segment.contains(47u8),
    ensures
        parts_of(segment) == if segment.len() == 0 {
            Seq::<Part>::empty()
        } else if segment == seq![46u8] {
            seq![Part::CurDir]
        } else if segment == seq![46u8, 46u8] {
            seq![Part::ParentDir]
        } else {
            seq![Part::Normal(segment)]
        },
        parts_of(seq![47u8]) == seq![Part::RootDir],
{
    assert(seq![46u8, 46u8].len() == 2);
    relative_parts_of_one_segment(segment, true);
    if segment.len() > 0 && segment[0] == SLASH {
        assert(segment.contains(SLASH));
    }
    assert(seq![47u8].skip(1) =~= Seq::<u8>::empty());
    assert(!Seq::<u8>::empty().contains(SLASH));
    relative_parts_of_one_segment(Seq::empty(), false);
    assert(parts_of(seq![47u8]) =~= seq![Part::RootDir]);
}

/// The bytes of a path are those of its components, with one slash between two of
/// them, but for the root, which is its own.
pub proof fn bytes_are_joined_by_slashes(path: Seq<Part>, part: Part)
    ensures
        bytes_of(Seq::empty()) == Seq::<u8>::empty(),
        bytes_of(path.push(part)) == bytes_of(path) + (if path.len() == 0
            || path.last() is RootDir {
            Seq::<u8>::empty()
        } else {
            seq![47u8]
        }) + (match part {
            Part::RootDir => seq![47u8],
            Part::CurDir => seq![46u8],
            Part::ParentDir => seq![46u8, 46u8],
            Part::Normal(name) => name,
        }),
{
    assert(path.push(part).drop_last() =~= path);
    assert(bytes_of(path.push(part)) =~= bytes_of(path) + (if path.len() == 0
        || path.last() is RootDir {
        Seq::<u8>::empty()
    } else {
        seq![47u8]
    }) + part_bytes(part));
}

/// A path lies in another exactly if the other's components are its first.
pub proof fn lying_in_is_beginning_with(path: Seq<Part>, base: Seq<Part>, rest: Seq<Part>)
    ensures
        lies_in(path, base) <==> base.is_prefix_of(path),
        lies_in(base + rest, base),
{
    assert((base + rest).take(base.len() as int) =~= base);
    if lies_in(path, base) {
        assert(base =~= path.subrange(0, base.len() as int));
    }
    if base.is_prefix_of(path) {
        assert(path.take(base.len() as int) =~= base);
    }
}

/// Joining puts a path below another, unless it leads from the root and so stands
/// for itself; a dot in front of it then means nothing.
pub proof fn joining_puts_relative_paths_below(base: Seq<Part>, path: Seq<Part>)
    ensures
        path.len() > 0 && path[0] is RootDir ==> joined(base, path) == path,
        path.len() == 0 ==> joined(base, path) == base,
        path.len() > 0 && (path[0] is Normal || path[0] is ParentDir) ==> joined(base, path) == base
            + path,
        path.len() > 0 && path[0] is CurDir && base.len() > 0 ==> joined(base, path) == base
            + path.drop_first(),
{
    if path.len() == 0 {
        assert(base + path =~= base);
    } else {
        assert(path.skip(1) =~= path.drop_first());
    }
}

/// The directory that holds a path is the path without its last component; the
/// root and the path without components have none.
pub proof fn parents_lack_the_last_component(path: Seq<Part>, part: Part)
    ensures
        !(part is RootDir) ==> parent_of(path.push(part)) == Some(path),
        parent_of(path.push(Part::RootDir)) is None,
        parent_of(Seq::empty()) is None,
{
    assert(path.push(part).drop_last() =~= path);
}

/// The model of a list of paths holds each of them.
pub proof fn every_path_is_seen(paths: Seq<FilePath>, i: int)
    requires
        0 <= i < paths.len(),
    ensures
        paths_view(paths).len() == paths.len(),
        paths_view(paths)[i] == paths[i]@,
{
}

} // verus!
