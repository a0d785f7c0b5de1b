use xloc::Parser;

#[test]
fn new_parser() {
    let parser = Parser::new();
    assert_eq!(parser.njobs, 1);
    assert_eq!(parser.paths, vec!["."]);
    assert_eq!(parser.words, false);
}

#[test]
fn mut_parser() {
    let mut parser = Parser::new();
    parser.njobs = 3;
    parser.paths = vec!["tests/data".to_owned()];
    parser.words = true;

    assert_eq!(parser.njobs, 3);
    assert_eq!(parser.paths, vec!["tests/data"]);
    assert_eq!(parser.words, true);
}

#[test]
fn resolve_jobs_plain_numbers() {
    assert_eq!(xloc::resolve_jobs("1"), 1);
    assert_eq!(xloc::resolve_jobs("4"), 4);
    assert_eq!(xloc::resolve_jobs("42"), 42);
    assert_eq!(xloc::resolve_jobs("007"), 7);
    assert_eq!(xloc::resolve_jobs("+6"), 6);
}

#[test]
fn resolve_jobs_defaults_to_one() {
    // Absent, malformed, zero or out-of-range arguments all resolve to
    // one job.
    assert_eq!(xloc::resolve_jobs(""), 1);
    assert_eq!(xloc::resolve_jobs("0"), 1);
    assert_eq!(xloc::resolve_jobs("+"), 1);
    assert_eq!(xloc::resolve_jobs("-2"), 1);
    assert_eq!(xloc::resolve_jobs("two"), 1);
    assert_eq!(xloc::resolve_jobs("4x"), 1);
    assert_eq!(xloc::resolve_jobs(" 4"), 1);
    assert_eq!(xloc::resolve_jobs("99999999999999999999999999"), 1);
}
