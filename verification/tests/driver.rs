use sd::driver::{select_source, App, Options, Source};
use sd::flags::parse_flags;
use sd::outcome::{aggregate_outcomes, Error};
use sd::replacer::Replacer;

#[test]
fn empty_glob_list_means_stdin() {
    assert!(matches!(select_source(vec![]), Source::Stdin));
}

#[test]
fn globs_name_the_file_source() {
    let src = select_source(vec!["*.txt".to_string()]);
    match src {
        Source::Files(globs) => assert_eq!(globs, vec!["*.txt".to_string()]),
        Source::Stdin => panic!("expected a file source"),
    }
}

#[test]
fn app_shares_one_replacer() {
    let replacer =
        Replacer::new("abc\\d+".to_string(), "".to_string(), false, None, None).unwrap();
    let app = App::new(select_source(vec![]), replacer);
    let out = app.replacer().replace("abc123def".as_bytes());
    assert_eq!(out.as_slice(), b"def");
    assert!(matches!(app.source(), Source::Stdin));
}

#[test]
fn empty_batch_aggregates_to_success() {
    assert!(aggregate_outcomes(vec![], vec![]).is_ok());
}

#[test]
fn one_missing_path_is_the_only_failure_reported() {
    // Of several target paths exactly one failed: the aggregate names exactly
    // the failing path, once.
    let jobs = vec![(
        "missing.txt".to_string(),
        Error::Io(Some("missing.txt".to_string()), "no such file".to_string()),
    )];
    let outcome = aggregate_outcomes(vec![], jobs);
    match outcome {
        Err(Error::FailedProcessing(failed)) => {
            assert_eq!(failed.0.len(), 1);
            assert_eq!(failed.0[0].0.as_deref(), Some("missing.txt"));
        }
        _ => panic!("expected an aggregate failure"),
    }
}

#[test]
fn enumeration_failures_come_before_job_failures() {
    let enumeration = vec![Error::Enumeration("bad glob".to_string())];
    let jobs = vec![(
        "a.txt".to_string(),
        Error::Io(Some("a.txt".to_string()), "denied".to_string()),
    )];
    let outcome = aggregate_outcomes(enumeration, jobs);
    match outcome {
        Err(Error::FailedProcessing(failed)) => {
            assert_eq!(failed.0.len(), 2);
            assert!(failed.0[0].0.is_none());
            assert!(matches!(failed.0[0].1, Error::Enumeration(_)));
            assert_eq!(failed.0[1].0.as_deref(), Some("a.txt"));
        }
        _ => panic!("expected an aggregate failure"),
    }
}

#[test]
fn flag_string_folds_left_to_right() {
    let f = parse_flags(&Some("icms".to_string()));
    assert!(!f.case_insensitive);
    assert!(f.multi_line);
    assert!(f.dot_matches_newline);
    assert!(!f.whole_word);
    let d = parse_flags(&None);
    assert!(!d.case_insensitive && !d.multi_line && !d.dot_matches_newline && !d.whole_word);
    let w = parse_flags(&Some("w".to_string()));
    assert!(w.whole_word);
}

#[test]
fn debug_assert() {
    // The options a command line fills in hold together as plain data.
    let options = Options {
        preview: false,
        literal_mode: false,
        replacements: None,
        flags: Some("w".to_string()),
        find: "cat".to_string(),
        replace_with: "dog".to_string(),
        globs: vec![],
    };
    let replacer = Replacer::new(
        options.find,
        options.replace_with,
        options.literal_mode,
        options.flags,
        options.replacements,
    )
    .unwrap();
    let app = App::new(select_source(options.globs), replacer);
    assert!(matches!(app.source(), Source::Stdin));
}
