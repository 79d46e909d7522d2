//! Glob patterns and sets of them.

use vstd::prelude::*;

verus! {

/// `globset::Glob`, one parsed pattern.
#[verifier::external_type_specification]
#[verifier::external_body]
pub struct ExGlob(globset::Glob);

/// `globset::GlobSetBuilder`, the patterns collected for a set.
#[verifier::external_type_specification]
#[verifier::external_body]
pub struct ExGlobSetBuilder(globset::GlobSetBuilder);

/// `globset::GlobSet`, a set of patterns that are matched together.
#[verifier::external_type_specification]
#[verifier::external_body]
pub struct ExGlobSet(globset::GlobSet);

/// `globset::Error`, why a pattern or a set was refused.
#[verifier::external_type_specification]
#[verifier::external_body]
pub struct ExGlobsetError(globset::Error);

/// The text of the error for which `globset::Glob::new` refuses `pattern`, if it
/// does. A backslash escapes in it, as it does wherever it does not separate the
/// names of a path.
pub uninterp spec fn glob_refusal(pattern: Seq<char>) -> Option<Seq<char>>;

/// Whether `globset::Glob::new` accepts `pattern`.
pub open spec fn glob_parses(pattern: Seq<char>) -> bool {
    glob_refusal(pattern) is None
}

/// The text by which a `globset::Error` is displayed.
pub uninterp spec fn error_text(error: globset::Error) -> Seq<char>;

/// The pattern that `globset::Glob::new` read the glob from, if it was made
/// that way and not with options of its own.
pub uninterp spec fn glob_source(glob: globset::Glob) -> Option<Seq<char>>;

/// The patterns collected so far, in order, if `globset::Glob::new` read all of
/// them.
pub uninterp spec fn builder_globs(builder: globset::GlobSetBuilder) -> Option<Seq<Seq<char>>>;

/// The patterns of the set, in order, if `globset::Glob::new` read all of them.
pub uninterp spec fn set_globs(set: globset::GlobSet) -> Option<Seq<Seq<char>>>;

/// Whether `globset::GlobSetBuilder::build` makes a set of `patterns`.
pub uninterp spec fn set_builds(patterns: Seq<Seq<char>>) -> bool;

/// Whether `globset::GlobSetBuilder::build` may refuse `patterns` with the error
/// of this text. There may be several, of which any can come.
pub uninterp spec fn set_refusal(patterns: Seq<Seq<char>>, text: Seq<char>) -> bool;

/// Whether `pattern`, as a member of a `globset::GlobSet`, matches the path
/// whose bytes are `path`.
pub uninterp spec fn glob_matches(pattern: Seq<char>, path: Seq<u8>) -> bool;

/// Whether the regular expression of the glob that `globset::Glob::new` makes of
/// `pattern` can be compiled.
pub uninterp spec fn glob_compiles(pattern: Seq<char>) -> bool;

/// Whether `pattern`, as a `globset::GlobMatcher` of its own, matches the path
/// whose bytes are `path`.
pub uninterp spec fn glob_matches_alone(pattern: Seq<char>, path: Seq<u8>) -> bool;

/// `globset::Glob::new` parses a pattern with the default options, and accepts
/// or refuses it by the pattern alone.
#[verifier::external_body]
fn parse_glob(pattern: &str) -> (result: Result<globset::Glob, globset::Error>)
    ensures
        match result {
            Ok(glob) => glob_refusal(pattern@) is None && glob_source(glob) == Some(pattern@),
            Err(error) => glob_refusal(pattern@) == Some(error_text(error)),
        },
{
    globset::Glob::new(pattern)
}

/// `globset::Error` tells by its `Display` what was refused and why.
#[verifier::external_body]
fn describe_error(error: &globset::Error) -> (text: String)
    ensures
        text@ == error_text(*error),
{
    error.to_string()
}

/// `regex_automata::meta::Builder::build` says whether the regular expression
/// that `globset::Glob::regex` gives can be compiled, with the settings that
/// `globset::Glob::compile_matcher` compiles it with.
#[verifier::external_body]
fn regex_compiles(glob: &globset::Glob) -> (compiles: bool)
    requires
        glob_source(*glob) is Some,
    ensures
        compiles == glob_compiles(glob_source(*glob)->0),
{
    let syntax = regex_automata::util::syntax::Config::new()
        .utf8(false)
        .dot_matches_new_line(true);
    let config = regex_automata::meta::Config::new()
        .utf8_empty(false)
        .nfa_size_limit(Some(10_485_760))
        .hybrid_cache_capacity(10_485_760);
    let mut builder = regex_automata::meta::Regex::builder();
    builder.syntax(syntax).configure(config).build(glob.regex()).is_ok()
}

/// `globset::GlobMatcher::is_match_candidate`, of the matcher that
/// `globset::Glob::compile_matcher` makes and on the candidate that
/// `globset::Candidate::from_bytes` makes of the path's bytes, says whether the
/// pattern matches. Making the matcher panics if the regular expression does not
/// compile.
#[verifier::external_body]
fn matches_alone(glob: &globset::Glob, path: &[u8]) -> (matched: bool)
    requires
        glob_source(*glob) is Some,
        glob_compiles(glob_source(*glob)->0),
    ensures
        matched == glob_matches_alone(glob_source(*glob)->0, path@),
{
    glob.compile_matcher().is_match_candidate(&globset::Candidate::from_bytes(path))
}

/// `globset::GlobSetBuilder::new` starts without patterns.
#[verifier::external_body]
fn new_builder() -> (builder: globset::GlobSetBuilder)
    ensures
        builder_globs(builder) == Some(Seq::<Seq<char>>::empty()),
{
    globset::GlobSetBuilder::new()
}

/// `globset::GlobSetBuilder::add` puts one glob behind those before it.
#[verifier::external_body]
fn add_glob(builder: &mut globset::GlobSetBuilder, glob: &globset::Glob)
    requires
        builder_globs(*old(builder)) is Some,
        glob_source(*glob) is Some,
    ensures
        builder_globs(*final(builder)) == Some(
            builder_globs(*old(builder))->0.push(glob_source(*glob)->0),
        ),
{
    builder.add(glob.clone());
}

/// `globset::GlobSetBuilder::build` makes a set of the patterns collected, or
/// refuses them by the patterns alone; no patterns at all make an empty set. Which
/// of several errors it gives depends on the order in which a hash map is walked.
#[verifier::external_body]
fn build_globs(builder: &globset::GlobSetBuilder) -> (result: Result<
    globset::GlobSet,
    globset::Error,
>)
    requires
        builder_globs(*builder) is Some,
    ensures
        match result {
            Ok(set) => set_builds(builder_globs(*builder)->0) && set_globs(set) == builder_globs(
                *builder,
            ),
            Err(error) => {
                &&& !set_builds(builder_globs(*builder)->0)
                &&& (builder_globs(*builder)->0).len() > 0
                &&& set_refusal(builder_globs(*builder)->0, error_text(error))
            },
        },
{
    builder.build()
}

/// `globset::GlobSet::is_match_candidate`, on the candidate that
/// `globset::Candidate::from_bytes` makes of the path's bytes, says whether any
/// pattern of the set matches.
#[verifier::external_body]
fn set_matches(set: &globset::GlobSet, path: &[u8]) -> (matched: bool)
    requires
        set_globs(*set) is Some,
    ensures
        matched == (exists|i: int|
            (0 <= i < (set_globs(*set)->0).len() && glob_matches(
                #[trigger] set_globs(*set)->0[i],
                path@,
            ))),
{
    set.is_match_candidate(&globset::Candidate::from_bytes(path))
}

/// `globset::GlobSet::is_empty` says whether the set has no patterns.
#[verifier::external_body]
fn set_is_empty(set: &globset::GlobSet) -> (empty: bool)
    requires
        set_globs(*set) is Some,
    ensures
        empty == (set_globs(*set)->0.len() == 0),
{
    set.is_empty()
}

/// A pattern that was refused, and why.
#[derive(Debug)]
pub struct GlobError {
    pub pattern: String,
    pub cause: globset::Error,
}

/// A set of patterns that cannot be matched together, and why.
#[derive(Debug)]
pub struct GlobSetError {
    pub cause: globset::Error,
}

impl GlobError {
    /// Why the pattern was refused.
    pub open spec fn reason_text(self) -> Seq<char> {
        error_text(self.cause)
    }

    /// Why the pattern was refused.
    pub fn reason(&self) -> (text: String)
        ensures
            text@ == self.reason_text(),
    {
        describe_error(&self.cause)
    }
}

impl GlobSetError {
    /// Why the patterns were refused.
    pub open spec fn reason_text(self) -> Seq<char> {
        error_text(self.cause)
    }

    /// Why the patterns were refused.
    pub fn reason(&self) -> (text: String)
        ensures
            text@ == self.reason_text(),
    {
        describe_error(&self.cause)
    }
}

/// One parsed pattern.
#[derive(Debug)]
pub struct GlobPattern {
    pattern: String,
    parsed: globset::Glob,
}

impl View for GlobPattern {
    type V = Seq<char>;

    closed spec fn view(&self) -> Seq<char> {
        self.pattern@
    }
}

/// The patterns that a sequence of globs holds.
pub open spec fn globs_view(globs: Seq<GlobPattern>) -> Seq<Seq<char>> {
    globs.map_values(|glob: GlobPattern| glob@)
}

/// Whether any of `patterns` matches the path whose bytes are `path`.
pub open spec fn any_matches(patterns: Seq<Seq<char>>, path: Seq<u8>) -> bool {
    exists|i: int| 0 <= i < patterns.len() && glob_matches(#[trigger] patterns[i], path)
}

impl GlobPattern {
    #[verifier::type_invariant]
    spec fn parsed_from_pattern(self) -> bool {
        glob_source(self.parsed) == Some(self.pattern@)
    }

    /// Parses one pattern.
    pub fn new(pattern: &str) -> (result: Result<GlobPattern, GlobError>)
        ensures
            match result {
                Ok(glob) => glob_parses(pattern@) && glob@ == pattern@,
                Err(error) => error.pattern@ == pattern@ && glob_refusal(pattern@) == Some(
                    error.reason_text(),
                ),
            },
    {
        match parse_glob(pattern) {
            Ok(parsed) => Ok(GlobPattern { pattern: pattern.to_owned(), parsed }),
            Err(cause) => Err(GlobError { pattern: pattern.to_owned(), cause }),
        }
    }

    /// The text of the pattern.
    pub fn glob(&self) -> (pattern: &str)
        ensures
            pattern@ == self@,
    {
        self.pattern.as_str()
    }

    /// Whether the pattern matches the path whose bytes are `path`. One that
    /// cannot be compiled matches nothing.
    pub fn is_match(&self, path: &[u8]) -> (matched: bool)
        ensures
            matched == (glob_compiles(self@) && glob_matches_alone(self@, path@)),
    {
        proof {
            use_type_invariant(self);
        }
        regex_compiles(&self.parsed) && matches_alone(&self.parsed, path)
    }
}

/// Patterns that are matched together.
#[derive(Debug)]
pub struct PatternSet {
    set: globset::GlobSet,
}

impl View for PatternSet {
    type V = Seq<Seq<char>>;

    closed spec fn view(&self) -> Seq<Seq<char>> {
        set_globs(self.set)->0
    }
}

impl PatternSet {
    #[verifier::type_invariant]
    spec fn patterns_known(self) -> bool {
        set_globs(self.set) is Some
    }

    /// Whether no pattern is in the set.
    pub fn is_empty(&self) -> (empty: bool)
        ensures
            empty == (self@.len() == 0),
    {
        proof {
            use_type_invariant(self);
        }
        set_is_empty(&self.set)
    }

    /// Whether any pattern of the set matches the path whose bytes are `path`.
    pub fn is_match(&self, path: &[u8]) -> (matched: bool)
        ensures
            matched == any_matches(self@, path@),
    {
        proof {
            use_type_invariant(self);
        }
        set_matches(&self.set, path)
    }
}

/// Collects patterns into a set.
pub fn build_set(globs: &Vec<GlobPattern>) -> (result: Result<PatternSet, GlobSetError>)
    ensures
        match result {
            Ok(set) => set_builds(globs_view(globs@)) && set@ == globs_view(globs@),
            Err(error) => !set_builds(globs_view(globs@)) && set_refusal(
                globs_view(globs@),
                error.reason_text(),
            ),
        },
        globs@.len() == 0 ==> result is Ok,
{
    let mut builder = new_builder();
    let mut i: usize = 0;
    assert(globs_view(globs@).take(0) =~= Seq::<Seq<char>>::empty());
    while i < globs.len()
        invariant
            i <= globs@.len(),
            builder_globs(builder) == Some(globs_view(globs@).take(i as int)),
        decreases globs@.len() - i,
    {
        let glob = &globs[i];
        proof {
            use_type_invariant(glob);
        }
        add_glob(&mut builder, &glob.parsed);
        i = i + 1;
        assert(globs_view(globs@).take(i as int) =~= globs_view(globs@).take(i - 1).push(
            globs@[i - 1]@,
        ));
    }
    assert(globs_view(globs@).take(i as int) =~= globs_view(globs@));
    match build_globs(&builder) {
        Ok(set) => Ok(PatternSet { set }),
        Err(cause) => Err(GlobSetError { cause }),
    }
}

/// Patterns match a path exactly if one of them does.
pub proof fn one_match_is_enough(patterns: Seq<Seq<char>>, path: Seq<u8>)
    ensures
        any_matches(patterns, path) <==> exists|i: int|
            0 <= i < patterns.len() && glob_matches(#[trigger] patterns[i], path),
        any_matches(Seq::empty(), path) == false,
{
}

/// The model of a list of globs holds the pattern of each.
pub proof fn every_glob_is_seen(globs: Seq<GlobPattern>, i: int)
    requires
        0 <= i < globs.len(),
    ensures
        globs_view(globs).len() == globs.len(),
        globs_view(globs)[i] == globs[i]@,
{
}

} // verus!
