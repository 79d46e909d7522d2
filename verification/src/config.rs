//! Validated runtime configuration.

use vstd::prelude::*;

use crate::globs::{glob_parses, glob_refusal, globs_view, GlobError, GlobPattern};
use crate::output;
use crate::path::{copy_bytes, paths_view, FilePath, Part};
use crate::text::{
    all_digits, are_digits, chars_of, decimal, decimal_value, decimal_value_of_decimal,
    end_without_slashes, has_wildcard, holds_wildcard, is_digit, parse_digits, string_of,
    strings_view, trim_end_slashes, trimming_takes_slashes_at_the_end,
};
use crate::time::{Duration, NANOS_PER_MILLI, NANOS_PER_SEC};
use crate::{bytes_view, copy_words, CommandId, CommandModel, CommandSpec};

verus! {

/// Command line arguments before glob validation, but for the paths, which are
/// resolved on disk.
#[derive(Debug)]
pub struct Cli {
    /// Relevant path globs, relative to the working directory.
    pub includes: Vec<String>,
    /// Ignored path globs, relative to the working directory.
    pub ignores: Vec<String>,
    /// The quiet period before a rerun.
    pub debounce: Duration,
    /// Wait for the first relevant filesystem event before running.
    pub no_initial_run: bool,
    /// Frame each run with Stalker marker lines.
    pub markers: bool,
    /// Write accepted filesystem events to stderr.
    pub print_events: bool,
    /// Do not apply repository .gitignore rules.
    pub no_gitignore: bool,
    /// Exit after the first run that succeeds.
    pub until_success: bool,
    /// Let children write to Stalker's own terminal.
    pub raw_output: bool,
    /// The command to run: a program and its arguments.
    pub command: Vec<Vec<u8>>,
}

/// Validated configuration used by the runner.
#[derive(Debug)]
pub struct Config {
    pub commands: Vec<CommandSpec>,
    pub watch: WatchSpec,
    pub output: OutputMode,
    pub initial_run: bool,
    pub print_events: bool,
    pub gitignore: bool,
    /// Exit after the first run that succeeds.
    pub until_success: bool,
    /// Let children write to Stalker's own terminal.
    pub raw_output: bool,
}

#[derive(Clone, Copy, Debug, PartialEq, Eq, Structural)]
pub enum OutputMode {
    Passthrough,
    Markers,
}

impl OutputMode {
    /// The format that the renderer calls by the same name.
    pub open spec fn rendered_as(self) -> output::OutputMode {
        match self {
            OutputMode::Passthrough => output::OutputMode::Passthrough,
            OutputMode::Markers => output::OutputMode::Markers,
        }
    }

    /// The format that the renderer calls by the same name.
    pub fn render_mode(self) -> (mode: output::OutputMode)
        ensures
            mode == self.rendered_as(),
    {
        match self {
            OutputMode::Passthrough => output::OutputMode::Passthrough,
            OutputMode::Markers => output::OutputMode::Markers,
        }
    }
}

/// Filesystem roots and matching rules shared by all commands.
#[derive(Debug)]
pub struct WatchSpec {
    /// Existing, canonical roots passed to the native watcher.
    pub roots: Vec<FilePath>,
    /// Compiled include patterns, relative to `cwd`.
    pub includes: Vec<GlobPattern>,
    /// Compiled ignore patterns, relative to `cwd`.
    pub ignores: Vec<GlobPattern>,
    /// Original include text, retained for conservative directory matching.
    pub include_patterns: Vec<String>,
    /// Original ignore text, retained for conservative directory matching.
    pub ignore_patterns: Vec<String>,
    pub debounce: Duration,
}

/// What a glob is for.
#[derive(Clone, Copy, Debug, PartialEq, Eq, Structural)]
pub enum GlobRole {
    Include,
    Ignore,
}

/// A glob that was refused, and what it was for.
#[derive(Debug)]
pub struct ConfigError {
    pub role: GlobRole,
    pub error: GlobError,
}

/// Filesystem roots and matching rules.
pub ghost struct WatchSpecModel {
    pub roots: Seq<Seq<Part>>,
    pub includes: Seq<Seq<char>>,
    pub ignores: Seq<Seq<char>>,
    pub include_patterns: Seq<Seq<char>>,
    pub ignore_patterns: Seq<Seq<char>>,
    pub debounce: Duration,
}

impl View for WatchSpec {
    type V = WatchSpecModel;

    open spec fn view(&self) -> WatchSpecModel {
        WatchSpecModel {
            roots: paths_view(self.roots@),
            includes: globs_view(self.includes@),
            ignores: globs_view(self.ignores@),
            include_patterns: strings_view(self.include_patterns@),
            ignore_patterns: strings_view(self.ignore_patterns@),
            debounce: self.debounce,
        }
    }
}

/// Whether `pattern` is the plain name of a directory: no wildcard is in it, and
/// it is more than slashes.
pub open spec fn is_plain_name(pattern: Seq<char>) -> bool {
    let directory = trim_end_slashes(pattern);
    directory.len() > 0 && !has_wildcard(directory)
}

/// The pattern of everything below the plain directory `pattern`.
pub open spec fn below_plain_name(pattern: Seq<char>) -> Seq<char> {
    trim_end_slashes(pattern) + seq!['/', '*', '*']
}

/// The globs that one ignore pattern stands for: itself and, for a plain name,
/// everything below the directory of that name.
pub open spec fn expanded_ignore(pattern: Seq<char>) -> Seq<Seq<char>> {
    if is_plain_name(pattern) {
        seq![pattern, below_plain_name(pattern)]
    } else {
        seq![pattern]
    }
}

/// The globs that ignore patterns stand for, in order.
pub open spec fn expanded_ignores(patterns: Seq<Seq<char>>) -> Seq<Seq<char>>
    decreases patterns.len(),
{
    if patterns.len() == 0 {
        Seq::empty()
    } else {
        expanded_ignores(patterns.drop_last()) + expanded_ignore(patterns.last())
    }
}

/// The first of `patterns` that is no glob.
pub open spec fn first_refused(patterns: Seq<Seq<char>>) -> Option<Seq<char>>
    decreases patterns.len(),
{
    if patterns.len() == 0 {
        None
    } else if !glob_parses(patterns[0]) {
        Some(patterns[0])
    } else {
        first_refused(patterns.drop_first())
    }
}

/// The command that the words of a command line stand for.
pub open spec fn command_of(words: Seq<Seq<u8>>, cwd: Seq<Part>) -> CommandModel {
    CommandModel { id: "default"@, program: words[0], args: words.skip(1), cwd }
}

impl Config {
    /// Validates the globs of a command line, where `cwd` is the child's working
    /// directory and `roots` are the watched paths, both canonical. An invalid
    /// include glob is reported before an invalid ignore glob.
    pub fn from_cli(cli: Cli, cwd: FilePath, roots: Vec<FilePath>) -> (result: Result<
        Config,
        ConfigError,
    >)
        requires
            cli.command@.len() > 0,
        ensures
            ({
                let includes = strings_view(cli.includes@);
                let ignores = expanded_ignores(strings_view(cli.ignores@));
                match (first_refused(includes), first_refused(ignores)) {
                    (Some(pattern), _) => {
                        &&& result matches Err(error)
                        &&& error.role == GlobRole::Include
                        &&& error.error.pattern@ == pattern
                        &&& glob_refusal(pattern) == Some(error.error.reason_text())
                    },
                    (None, Some(pattern)) => {
                        &&& result matches Err(error)
                        &&& error.role == GlobRole::Ignore
                        &&& error.error.pattern@ == pattern
                        &&& glob_refusal(pattern) == Some(error.error.reason_text())
                    },
                    (None, None) => {
                        &&& result matches Ok(config)
                        &&& config.commands@.len() == 1
                        &&& config.commands@[0]@ == command_of(bytes_view(cli.command@), cwd@)
                        &&& config.watch@ == (WatchSpecModel {
                            roots: paths_view(roots@),
                            includes,
                            ignores,
                            include_patterns: includes,
                            ignore_patterns: strings_view(cli.ignores@),
                            debounce: cli.debounce,
                        })
                        &&& config.output == if cli.markers {
                            OutputMode::Markers
                        } else {
                            OutputMode::Passthrough
                        }
                        &&& config.initial_run == !cli.no_initial_run
                        &&& config.print_events == cli.print_events
                        &&& config.gitignore == !cli.no_gitignore
                        &&& config.until_success == cli.until_success
                        &&& config.raw_output == cli.raw_output
                    },
                }
            }),
    {
        let includes = match compile_globs(&cli.includes) {
            Ok(globs) => globs,
            Err(error) => {
                return Err(ConfigError { role: GlobRole::Include, error });
            },
        };
        let ignores = match compile_ignore_globs(&cli.ignores) {
            Ok(globs) => globs,
            Err(error) => {
                return Err(ConfigError { role: GlobRole::Ignore, error });
            },
        };
        let program = copy_bytes(cli.command[0].as_slice(), 0, cli.command[0].len());
        let command = CommandSpec {
            id: CommandId("default".to_owned()),
            program,
            args: copy_words(&cli.command, 1),
            cwd,
        };
        assert(command@.program =~= bytes_view(cli.command@)[0]);
        let mut commands: Vec<CommandSpec> = Vec::new();
        commands.push(command);
        Ok(
            Config {
                commands,
                watch: WatchSpec {
                    roots,
                    includes,
                    ignores,
                    include_patterns: cli.includes,
                    ignore_patterns: cli.ignores,
                    debounce: cli.debounce,
                },
                output: if cli.markers {
                    OutputMode::Markers
                } else {
                    OutputMode::Passthrough
                },
                initial_run: !cli.no_initial_run,
                print_events: cli.print_events,
                gitignore: !cli.no_gitignore,
                until_success: cli.until_success,
                raw_output: cli.raw_output,
            },
        )
    }
}

fn compile_globs(patterns: &Vec<String>) -> (result: Result<Vec<GlobPattern>, GlobError>)
    ensures
        match first_refused(strings_view(patterns@)) {
            None => result matches Ok(globs) && globs_view(globs@) == strings_view(patterns@),
            Some(pattern) => result matches Err(error) && error.pattern@ == pattern
                && glob_refusal(pattern) == Some(error.reason_text()),
        },
{
    let ghost all = strings_view(patterns@);
    let mut globs: Vec<GlobPattern> = Vec::new();
    let mut i: usize = 0;
    assert(all.skip(0) =~= all);
    while i < patterns.len()
        invariant
            i <= patterns@.len(),
            all == strings_view(patterns@),
            globs@.len() == i,
            forall|j: int| 0 <= j < i ==> (#[trigger] globs@[j])@ == patterns@[j]@,
            first_refused(all) == first_refused(all.skip(i as int)),
        decreases patterns@.len() - i,
    {
        assert(all.skip(i as int)[0] == patterns@[i as int]@);
        match GlobPattern::new(patterns[i].as_str()) {
            Ok(glob) => {
                globs.push(glob);
            },
            Err(error) => {
                return Err(error);
            },
        }
        assert(all.skip(i as int).drop_first() =~= all.skip(i + 1));
        i = i + 1;
    }
    assert(globs_view(globs@) =~= all);
    Ok(globs)
}

/// A plain directory name is the common spelling for ignoring that directory.
/// Keep its exact match and add descendants so `--ignore target` behaves like
/// `--ignore target/**` for file events.
fn compile_ignore_globs(patterns: &Vec<String>) -> (result: Result<Vec<GlobPattern>, GlobError>)
    ensures
        match first_refused(expanded_ignores(strings_view(patterns@))) {
            None => result matches Ok(globs) && globs_view(globs@) == expanded_ignores(
                strings_view(patterns@),
            ),
            Some(pattern) => result matches Err(error) && error.pattern@ == pattern
                && glob_refusal(pattern) == Some(error.reason_text()),
        },
{
    let ghost all = strings_view(patterns@);
    let mut expanded: Vec<String> = Vec::new();
    let mut i: usize = 0;
    assert(all.take(0) =~= Seq::<Seq<char>>::empty());
    assert(strings_view(expanded@) =~= Seq::<Seq<char>>::empty());
    while i < patterns.len()
        invariant
            i <= patterns@.len(),
            all == strings_view(patterns@),
            strings_view(expanded@) == expanded_ignores(all.take(i as int)),
        decreases patterns@.len() - i,
    {
        let ghost before = strings_view(expanded@);
        let ghost pattern = all[i as int];
        proof {
            assert(pattern == patterns@[i as int]@);
            assert(all.take(i + 1).drop_last() =~= all.take(i as int));
            assert(all.take(i + 1).last() == pattern);
        }
        expanded.push(patterns[i].clone());
        assert(strings_view(expanded@) =~= before.push(pattern));
        let chars = chars_of(patterns[i].as_str());
        let end: usize = end_without_slashes(&chars, 0, chars.len());
        assert(chars@.subrange(0, chars@.len() as int) =~= pattern);
        assert(chars@.subrange(0, end as int) =~= chars@.take(end as int));
        if end > 0 && !holds_wildcard(&chars, end) {
            let mut below = string_of(&chars, 0, end);
            below.push('/');
            below.push('*');
            below.push('*');
            assert(below@ =~= below_plain_name(pattern));
            expanded.push(below);
            assert(strings_view(expanded@) =~= before + seq![pattern, below_plain_name(pattern)]);
        } else {
            assert(strings_view(expanded@) =~= before + seq![pattern]);
        }
        i = i + 1;
    }
    assert(all.take(i as int) =~= all);
    compile_globs(&expanded)
}

/// Why a duration was refused.
pub ghost enum DurationError {
    NoUnit,
    NotWhole,
    TooLarge,
}

impl DurationError {
    /// The text that tells the user.
    pub open spec fn message(self) -> Seq<char> {
        match self {
            DurationError::NoUnit => {
                "duration must end in ms, s, m, or h (for example, 150ms)"@
            },
            DurationError::NotWhole => "duration must be a non-negative whole number"@,
            DurationError::TooLarge => "duration is too large"@,
        }
    }
}

/// A unit of time: the nanoseconds of its base, which is a millisecond or a
/// second, and how many of those make one unit.
pub ghost struct TimeUnit {
    pub base: nat,
    pub count: nat,
}

/// The number and the unit that `value` is made of, if it ends in a unit.
pub open spec fn number_and_unit(value: Seq<char>) -> Option<(Seq<char>, TimeUnit)> {
    let n = value.len() as int;
    if n >= 2 && value[n - 2] == 'm' && value[n - 1] == 's' {
        Some((value.take(n - 2), TimeUnit { base: NANOS_PER_MILLI as nat, count: 1 }))
    } else if n >= 1 && value[n - 1] == 's' {
        Some((value.take(n - 1), TimeUnit { base: NANOS_PER_SEC as nat, count: 1 }))
    } else if n >= 1 && value[n - 1] == 'm' {
        Some((value.take(n - 1), TimeUnit { base: NANOS_PER_SEC as nat, count: 60 }))
    } else if n >= 1 && value[n - 1] == 'h' {
        Some((value.take(n - 1), TimeUnit { base: NANOS_PER_SEC as nat, count: 3600 }))
    } else {
        None
    }
}

/// The nanoseconds that `value` stands for: a whole number and a unit, where
/// the number of base units fits in 64 bits.
pub open spec fn duration_of(value: Seq<char>) -> Result<nat, DurationError> {
    match number_and_unit(value) {
        None => Err(DurationError::NoUnit),
        Some((number, unit)) => if number.len() == 0 || !all_digits(number) {
            Err(DurationError::NotWhole)
        } else if decimal_value(number) * unit.count > u64::MAX {
            Err(DurationError::TooLarge)
        } else {
            Ok(decimal_value(number) * unit.count * unit.base)
        },
    }
}

/// Parse the duration syntax of the command line.
pub fn parse_duration(value: &str) -> (result: Result<Duration, String>)
    ensures
        match duration_of(value@) {
            Ok(nanos) => result matches Ok(span) && span.nanos == nanos,
            Err(error) => result matches Err(text) && text@ == error.message(),
        },
{
    let chars = chars_of(value);
    let n: usize = chars.len();
    let millis: bool;
    let count: u64;
    let end: usize;
    if n >= 2 && chars[n - 2] == 'm' && chars[n - 1] == 's' {
        millis = true;
        count = 1;
        end = n - 2;
    } else if n >= 1 && chars[n - 1] == 's' {
        millis = false;
        count = 1;
        end = n - 1;
    } else if n >= 1 && chars[n - 1] == 'm' {
        millis = false;
        count = 60;
        end = n - 1;
    } else if n >= 1 && chars[n - 1] == 'h' {
        millis = false;
        count = 60 * 60;
        end = n - 1;
    } else {
        return Err("duration must end in ms, s, m, or h (for example, 150ms)".to_owned());
    }
    if end == 0 || !are_digits(&chars, end) {
        return Err("duration must be a non-negative whole number".to_owned());
    }
    let number: u64 = match parse_digits(&chars, end) {
        Some(number) => number,
        None => {
            assert(decimal_value(chars@.take(end as int)) * count > u64::MAX) by (nonlinear_arith)
                requires
                    decimal_value(chars@.take(end as int)) > u64::MAX,
                    count >= 1,
            ;
            return Err("duration is too large".to_owned());
        },
    };
    match number.checked_mul(count) {
        Some(units) => if millis {
            Ok(Duration::from_millis(units))
        } else {
            Ok(Duration::from_secs(units))
        },
        None => Err("duration is too large".to_owned()),
    }
}

/// A number in decimal and a unit are read back as that many units, as far as
/// they fit.
pub proof fn durations_read_back(n: nat)
    ensures
        n <= u64::MAX ==> duration_of(decimal(n) + "ms"@) == Ok::<nat, DurationError>(
            n * 1_000_000,
        ),
        n <= u64::MAX ==> duration_of(decimal(n) + "s"@) == Ok::<nat, DurationError>(
            n * 1_000_000_000,
        ),
        n * 60 <= u64::MAX ==> duration_of(decimal(n) + "m"@) == Ok::<nat, DurationError>(
            n * 60 * 1_000_000_000,
        ),
        n * 3600 <= u64::MAX ==> duration_of(decimal(n) + "h"@) == Ok::<nat, DurationError>(
            n * 3600 * 1_000_000_000,
        ),
{
    let digits = decimal(n);
    decimal_value_of_decimal(n);
    reveal_strlit("ms");
    reveal_strlit("s");
    reveal_strlit("m");
    reveal_strlit("h");
    assert((digits + "ms"@).take(digits.len() as int) =~= digits);
    assert((digits + "s"@).take(digits.len() as int) =~= digits);
    assert((digits + "m"@).take(digits.len() as int) =~= digits);
    assert((digits + "h"@).take(digits.len() as int) =~= digits);
    assert(is_digit(digits[digits.len() - 1]));
    assert(n * 1 == n);
    assert(number_and_unit(digits + "ms"@) == Some(
        (digits, TimeUnit { base: NANOS_PER_MILLI as nat, count: 1 }),
    ));
    assert((digits + "s"@)[digits.len() - 1] != 'm');
    assert(number_and_unit(digits + "s"@) == Some(
        (digits, TimeUnit { base: NANOS_PER_SEC as nat, count: 1 }),
    ));
}

/// A plain name among the ignore patterns ignores the directory of that name and
/// everything below it.
pub proof fn plain_ignores_cover_descendants(patterns: Seq<Seq<char>>, i: int)
    requires
        0 <= i < patterns.len(),
    ensures
        expanded_ignores(patterns).contains(patterns[i]),
        is_plain_name(patterns[i]) ==> expanded_ignores(patterns).contains(
            below_plain_name(patterns[i]),
        ),
    decreases patterns.len(),
{
    let init = patterns.drop_last();
    let before = expanded_ignores(init);
    let all = expanded_ignores(patterns);
    let last = expanded_ignore(patterns.last());
    if i == patterns.len() - 1 {
        assert(last[0] == patterns[i]);
        assert(all[before.len() as int] == patterns[i]);
        if is_plain_name(patterns[i]) {
            assert(last[1] == below_plain_name(patterns[i]));
            assert(all[before.len() as int + 1] == below_plain_name(patterns[i]));
        }
    } else {
        plain_ignores_cover_descendants(init, i);
        assert(init[i] == patterns[i]);
        let j = choose|j: int| 0 <= j < before.len() && before[j] == patterns[i];
        assert(all[j] == patterns[i]);
        if is_plain_name(patterns[i]) {
            let k = choose|k: int|
                0 <= k < before.len() && before[k] == below_plain_name(patterns[i]);
            assert(all[k] == below_plain_name(patterns[i]));
        }
    }
}

/// A configuration is refused exactly if some glob is, and the first such glob
/// is named.
pub proof fn refused_glob_is_the_first(patterns: Seq<Seq<char>>)
    ensures
        match first_refused(patterns) {
            Some(pattern) => exists|i: int|
                {
                    &&& 0 <= i < patterns.len()
                    &&& #[trigger] patterns[i] == pattern
                    &&& !glob_parses(pattern)
                    &&& forall|j: int| 0 <= j < i ==> glob_parses(#[trigger] patterns[j])
                },
            None => forall|i: int| 0 <= i < patterns.len() ==> glob_parses(#[trigger] patterns[i]),
        },
    decreases patterns.len(),
{
    if patterns.len() > 0 && glob_parses(patterns[0]) {
        let rest = patterns.drop_first();
        refused_glob_is_the_first(rest);
        match first_refused(patterns) {
            Some(pattern) => {
                let i = choose|i: int|
                    {
                        &&& 0 <= i < rest.len()
                        &&& #[trigger] rest[i] == pattern
                        &&& !glob_parses(pattern)
                        &&& forall|j: int| 0 <= j < i ==> glob_parses(#[trigger] rest[j])
                    };
                assert(patterns[i + 1] == pattern);
                assert forall|j: int| 0 <= j < i + 1 implies glob_parses(#[trigger] patterns[j]) by {
                    if j > 0 {
                        assert(glob_parses(rest[j - 1]));
                    }
                }
            },
            None => {
                assert forall|i: int| 0 <= i < patterns.len() implies glob_parses(
                    #[trigger] patterns[i],
                ) by {
                    if i > 0 {
                        assert(glob_parses(rest[i - 1]));
                    }
                }
            },
        }
    } else if patterns.len() > 0 {
        assert(patterns[0] == first_refused(patterns)->0);
    }
}

/// Any row of digits and a unit stand for that many units, leading zeros or not,
/// and are too large exactly if their milliseconds or seconds do not fit in 64
/// bits.
pub proof fn digits_and_a_unit_are_a_duration(digits: Seq<char>)
    requires
        digits.len() > 0,
        forall|i: int| 0 <= i < digits.len() ==> '0' <= #[trigger] digits[i] <= '9',
    ensures
        ({
            let n = decimal_value(digits);
            &&& duration_of(digits + seq!['m', 's']) == if n <= u64::MAX {
                Ok::<nat, DurationError>(n * 1_000_000)
            } else {
                Err(DurationError::TooLarge)
            }
            &&& duration_of(digits + seq!['s']) == if n <= u64::MAX {
                Ok::<nat, DurationError>(n * 1_000_000_000)
            } else {
                Err(DurationError::TooLarge)
            }
            &&& duration_of(digits + seq!['m']) == if n * 60 <= u64::MAX {
                Ok::<nat, DurationError>(n * 60 * 1_000_000_000)
            } else {
                Err(DurationError::TooLarge)
            }
            &&& duration_of(digits + seq!['h']) == if n * 3600 <= u64::MAX {
                Ok::<nat, DurationError>(n * 3600 * 1_000_000_000)
            } else {
                Err(DurationError::TooLarge)
            }
        }),
{
    let n = decimal_value(digits);
    let count = digits.len() as int;
    assert(all_digits(digits));
    assert('0' <= digits[count - 1] <= '9');
    assert((digits + seq!['m', 's']).take(count) =~= digits);
    assert((digits + seq!['s']).take(count) =~= digits);
    assert((digits + seq!['m']).take(count) =~= digits);
    assert((digits + seq!['h']).take(count) =~= digits);
    assert(n * 1 == n);
    assert((digits + seq!['s'])[count - 1] == digits[count - 1]);
}

/// What does not end in a unit is refused for that.
pub proof fn durations_need_a_unit(value: Seq<char>)
    requires
        value.len() == 0 || (value.last() != 's' && value.last() != 'm' && value.last() != 'h'),
    ensures
        duration_of(value) == Err::<nat, DurationError>(DurationError::NoUnit),
{
}

/// A unit behind anything but a row of digits is refused for that.
pub proof fn durations_need_a_whole_number(number: Seq<char>, i: int)
    requires
        number.len() == 0 || (0 <= i < number.len() && !('0' <= number[i] <= '9')),
    ensures
        duration_of(number + seq!['m', 's']) == Err::<nat, DurationError>(DurationError::NotWhole),
        number.len() == 0 || number.last() != 'm' ==> duration_of(number + seq!['s']) == Err::<
            nat,
            DurationError,
        >(DurationError::NotWhole),
        duration_of(number + seq!['m']) == Err::<nat, DurationError>(DurationError::NotWhole),
        duration_of(number + seq!['h']) == Err::<nat, DurationError>(DurationError::NotWhole),
{
    let count = number.len() as int;
    assert((number + seq!['m', 's']).take(count) =~= number);
    assert((number + seq!['s']).take(count) =~= number);
    assert((number + seq!['m']).take(count) =~= number);
    assert((number + seq!['h']).take(count) =~= number);
    if count > 0 {
        assert(!is_digit(number[i]));
        assert((number + seq!['s'])[count - 1] == number[count - 1]);
    }
}

/// Each refusal of a duration has a text of its own.
pub proof fn refused_durations_are_explained()
    ensures
        DurationError::NoUnit.message()
            == "duration must end in ms, s, m, or h (for example, 150ms)"@,
        DurationError::NotWhole.message() == "duration must be a non-negative whole number"@,
        DurationError::TooLarge.message() == "duration is too large"@,
{
}

/// A plain name, with slashes behind it or not, stands for itself and everything
/// below.
pub proof fn plain_names_ignore_all_below(name: Seq<char>)
    requires
        name.len() > 0,
        name.last() != '/',
        forall|i: int|
            0 <= i < name.len() ==> {
                &&& #[trigger] name[i] != '*'
                &&& name[i] != '?'
                &&& name[i] != '['
                &&& name[i] != '{'
            },
    ensures
        expanded_ignore(name) == seq![name, name + seq!['/', '*', '*']],
        expanded_ignore(name.push('/')) == seq![name.push('/'), name + seq!['/', '*', '*']],
{
    trimming_takes_slashes_at_the_end(name);
}

/// A pattern with a wildcard stands for itself alone, and so do mere slashes.
pub proof fn other_patterns_stand_for_themselves(pattern: Seq<char>, i: int)
    requires
        ({
            ||| 0 <= i < pattern.len() && (pattern[i] == '*' || pattern[i] == '?' || pattern[i]
                == '[' || pattern[i] == '{')
            ||| forall|j: int| 0 <= j < pattern.len() ==> #[trigger] pattern[j] == '/'
        }),
    ensures
        expanded_ignore(pattern) == seq![pattern],
{
    if 0 <= i < pattern.len() && (pattern[i] == '*' || pattern[i] == '?' || pattern[i] == '['
        || pattern[i] == '{') {
        trimming_keeps_other_characters(pattern, i);
        assert(crate::text::is_wildcard(trim_end_slashes(pattern)[i]));
    } else {
        slashes_are_all_trimmed(pattern);
    }
}

proof fn trimming_keeps_other_characters(s: Seq<char>, i: int)
    requires
        0 <= i < s.len(),
        s[i] != '/',
    ensures
        trim_end_slashes(s).len() > i,
        trim_end_slashes(s)[i] == s[i],
    decreases s.len(),
{
    if s.last() == '/' {
        trimming_keeps_other_characters(s.drop_last(), i);
    }
}

proof fn slashes_are_all_trimmed(s: Seq<char>)
    requires
        forall|j: int| 0 <= j < s.len() ==> #[trigger] s[j] == '/',
    ensures
        trim_end_slashes(s).len() == 0,
    decreases s.len(),
{
    if s.len() > 0 {
        assert(s[s.len() - 1] == '/');
        assert forall|j: int| 0 <= j < s.drop_last().len() implies #[trigger] s.drop_last()[j]
            == '/' by {
            assert(s[j] == '/');
        }
        slashes_are_all_trimmed(s.drop_last());
    }
}

/// Ignore patterns are expanded one by one, in order.
pub proof fn patterns_are_expanded_in_order(patterns: Seq<Seq<char>>, pattern: Seq<char>)
    ensures
        expanded_ignores(Seq::empty()) == Seq::<Seq<char>>::empty(),
        expanded_ignores(patterns.push(pattern)) == expanded_ignores(patterns) + expanded_ignore(
            pattern,
        ),
{
    assert(patterns.push(pattern).drop_last() =~= patterns);
}

/// The first word of a command line is the program and the others are its
/// arguments, in order.
pub proof fn commands_are_a_program_and_arguments(
    program: Seq<u8>,
    args: Seq<Seq<u8>>,
    cwd: Seq<Part>,
)
    ensures
        command_of(seq![program] + args, cwd) == (CommandModel {
            id: "default"@,
            program,
            args,
            cwd,
        }),
{
    assert((seq![program] + args).skip(1) =~= args);
}

/// Each format is rendered as the one of the same name.
pub proof fn formats_are_rendered_by_name()
    ensures
        OutputMode::Passthrough.rendered_as() == output::OutputMode::Passthrough,
        OutputMode::Markers.rendered_as() == output::OutputMode::Markers,
{
}

} // verus!
