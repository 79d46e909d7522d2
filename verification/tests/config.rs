use stalker::config::{parse_duration, Cli, Config, GlobRole, OutputMode};
use stalker::filter::{PathFilter, PathKind};
use stalker::gitignore::IgnoreFile;
use stalker::output;
use stalker::path::FilePath;
use stalker::time::Duration;

fn path(text: &str) -> FilePath {
    FilePath::from_bytes(text.as_bytes())
}

fn cli(command: &[&str]) -> Cli {
    Cli {
        includes: Vec::new(),
        ignores: Vec::new(),
        debounce: Duration::from_millis(150),
        no_initial_run: false,
        markers: false,
        print_events: false,
        no_gitignore: false,
        until_success: false,
        raw_output: false,
        command: command.iter().map(|word| word.as_bytes().to_vec()).collect(),
    }
}

fn config(cli: Cli) -> Config {
    Config::from_cli(cli, path("/work"), vec![path("/work")]).unwrap()
}

fn filter(config: &Config, has_git: bool) -> PathFilter {
    PathFilter::from_watch_spec(
        config.commands[0].cwd.clone(),
        &config.watch,
        config.gitignore,
        &vec![has_git],
    )
    .unwrap()
}

#[test]
fn duration_parser_accepts_mvp_units() {
    assert_eq!(parse_duration("150ms").unwrap(), Duration::from_millis(150));
    assert_eq!(parse_duration("2m").unwrap(), Duration::from_secs(120));
    assert!(parse_duration("150").is_err());
    assert!(parse_duration("1.5s").is_err());
}

#[test]
fn config_defaults_to_an_initial_run() {
    let config = config(cli(&["echo", "hello"]));

    assert!(config.initial_run);
    assert_eq!(config.commands[0].program, b"echo");
    assert_eq!(config.commands[0].args, [b"hello".to_vec()]);
}

#[test]
fn no_initial_run_disables_startup_run() {
    let config = config(Cli {
        no_initial_run: true,
        ..cli(&["echo"])
    });

    assert!(!config.initial_run);
}

#[test]
fn plain_ignore_matches_descendant_events() {
    let config = config(Cli {
        ignores: vec!["target".to_owned()],
        ..cli(&["echo"])
    });
    let filter = filter(&config, false);

    assert!(!filter.accepts(&path("/work/target/output.o"), PathKind::File, &Vec::new()));
    assert!(!filter.accepts(&path("/work/target"), PathKind::Directory, &Vec::new()));
    assert!(filter.accepts(&path("/work/targets"), PathKind::File, &Vec::new()));
}

#[test]
fn no_gitignore_opt_out_keeps_gitignored_paths_relevant() {
    let mut builder = ignore::gitignore::GitignoreBuilder::new("/work");
    builder.add_line(None, "target/").unwrap();
    let files = vec![IgnoreFile {
        directory: path("/work"),
        matcher: builder.build().unwrap(),
    }];
    let opted_out = config(Cli {
        no_gitignore: true,
        ..cli(&["echo"])
    });
    let filter_out = filter(&opted_out, true);
    let event_path = opted_out.commands[0].cwd.join(&path("target/output.o"));

    assert!(!opted_out.gitignore);
    assert_eq!(
        filter_out.normalize(&event_path),
        Some(path("target/output.o"))
    );
    assert!(filter_out.accepts_normalized(b"target/output.o", PathKind::File));
    assert!(filter_out.accepts(&event_path, PathKind::File, &files));

    let usual = config(cli(&["echo"]));
    assert!(!filter(&usual, true).accepts(&event_path, PathKind::File, &files));
}

#[test]
fn durations_have_four_units() {
    for (text, millis) in [
        ("0ms", 0),
        ("1ms", 1),
        ("007s", 7_000),
        ("1m", 60_000),
        ("2h", 7_200_000),
    ] {
        assert_eq!(parse_duration(text), Ok(Duration::from_millis(millis)));
    }
    assert_eq!(
        parse_duration("18446744073709551615ms"),
        Ok(Duration::from_millis(u64::MAX))
    );
    assert_eq!(
        parse_duration("18446744073709551615s"),
        Ok(Duration::from_secs(u64::MAX))
    );
}

#[test]
fn refused_durations_say_why() {
    for text in ["", "150", "1d", "1S"] {
        assert_eq!(
            parse_duration(text).unwrap_err(),
            "duration must end in ms, s, m, or h (for example, 150ms)"
        );
    }
    for text in ["ms", "s", "-1s", "+1s", "1.5s", " 1s", "1 s", "1mms", "\u{663}s"] {
        assert_eq!(
            parse_duration(text).unwrap_err(),
            "duration must be a non-negative whole number"
        );
    }
    for text in [
        "18446744073709551616ms",
        "307445734561825861m",
        "5124095576030432h",
        "99999999999999999999999999s",
    ] {
        assert_eq!(parse_duration(text).unwrap_err(), "duration is too large");
    }
}

#[test]
fn flags_become_settings() {
    let plain = config(cli(&["make"]));
    assert_eq!(plain.output, OutputMode::Passthrough);
    assert!(plain.gitignore);
    assert!(!plain.print_events && !plain.until_success && !plain.raw_output);
    assert_eq!(plain.commands[0].id.0, "default");
    assert_eq!(plain.commands[0].cwd, path("/work"));
    assert!(plain.commands[0].args.is_empty());

    let set = config(Cli {
        markers: true,
        print_events: true,
        no_gitignore: true,
        until_success: true,
        raw_output: true,
        debounce: Duration::from_secs(3),
        ..cli(&["make", "-j", "4"])
    });
    assert_eq!(set.output, OutputMode::Markers);
    assert!(!set.gitignore);
    assert!(set.print_events && set.until_success && set.raw_output);
    assert_eq!(set.watch.debounce, Duration::from_secs(3));
    assert_eq!(set.commands.len(), 1);
    assert_eq!(set.commands[0].args, [b"-j".to_vec(), b"4".to_vec()]);
    assert_eq!(set.commands[0].clone(), set.commands[0]);
}

#[test]
fn plain_ignores_are_expanded() {
    let ignores = ["target", "out/", "*.o", "a/b", "gen/**", "/", ""];
    let config = config(Cli {
        ignores: ignores.iter().map(|text| text.to_string()).collect(),
        includes: vec!["**".to_owned()],
        ..cli(&["make"])
    });
    let expanded: Vec<&str> = config.watch.ignores.iter().map(|glob| glob.glob()).collect();
    assert_eq!(
        expanded,
        vec![
            "target", "target/**", "out/", "out/**", "*.o", "a/b", "a/b/**", "gen/**", "/", ""
        ]
    );
    assert_eq!(config.watch.ignore_patterns, ignores);
    assert_eq!(config.watch.include_patterns, ["**"]);
    assert_eq!(config.watch.includes[0].glob(), "**");
}

#[test]
fn the_first_invalid_glob_is_named() {
    let both = Cli {
        includes: vec!["ok".to_owned(), "[a".to_owned(), "{b".to_owned()],
        ignores: vec!["[c".to_owned()],
        ..cli(&["make"])
    };
    let error = Config::from_cli(both, path("/work"), Vec::new()).unwrap_err();
    assert_eq!(error.role, GlobRole::Include);
    assert_eq!(error.error.pattern, "[a");
    assert_eq!(
        error.error.reason(),
        "error parsing glob '[a': unclosed character class; missing ']'"
    );

    let ignore_only = Cli {
        ignores: vec!["ok".to_owned(), "[c".to_owned()],
        ..cli(&["make"])
    };
    let error = Config::from_cli(ignore_only, path("/work"), Vec::new()).unwrap_err();
    assert_eq!(error.role, GlobRole::Ignore);
    assert_eq!(error.error.pattern, "[c");
}

#[test]
fn output_modes_carry_over() {
    assert_eq!(
        OutputMode::Markers.render_mode(),
        output::OutputMode::Markers
    );
    assert_eq!(
        OutputMode::Passthrough.render_mode(),
        output::OutputMode::Passthrough
    );
}
