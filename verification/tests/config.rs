use crawler::config::{parse_budget, Startup, StartupError, DEFAULT_BUDGET};

#[test]
fn budget_is_a_decimal_number() {
    assert_eq!(parse_budget("0"), Ok(0));
    assert_eq!(parse_budget("7"), Ok(7));
    assert_eq!(parse_budget("0010"), Ok(10));
    assert_eq!(parse_budget("+25"), Ok(25));
    assert_eq!(parse_budget("1024"), Ok(1024));
    assert_eq!(parse_budget(&usize::MAX.to_string()), Ok(usize::MAX));
}

#[test]
fn budget_rejects_everything_else() {
    for bad in ["", "+", "-1", "1.5", " 3", "3 ", "1_000", "ten", "0x10", "++1", "1+", "\u{664}\u{662}", "4\u{e9}"] {
        assert_eq!(parse_budget(bad), Err(StartupError::BadBudget), "{:?}", bad);
    }
    let too_large = format!("{}0", usize::MAX);
    assert_eq!(parse_budget(&too_large), Err(StartupError::BadBudget));
    assert_eq!(parse_budget("99999999999999999999999999999999999999999"), Err(StartupError::BadBudget));
}

#[test]
fn budget_agrees_with_the_standard_parser() {
    for s in ["0", "18446744073709551615", "18446744073709551616", "+0", "+", "00", "12a", "a12", "-0", "٣"] {
        assert_eq!(parse_budget(s).ok(), s.parse::<usize>().ok(), "{:?}", s);
    }
}

#[test]
fn startup_defaults_the_budget() {
    let startup = Startup::from_args(Some("http://root.test"), None).ok().unwrap();
    assert_eq!(startup.seed.as_str(), "http://root.test/");
    assert_eq!(startup.budget, 10);
    assert_eq!(DEFAULT_BUDGET, 10);
}

#[test]
fn startup_reads_both_arguments() {
    let startup = Startup::from_args(Some("http://root.test/x"), Some("2")).ok().unwrap();
    assert_eq!(startup.seed.as_str(), "http://root.test/x");
    assert_eq!(startup.budget, 2);
}

#[test]
fn startup_fails_on_bad_arguments() {
    assert_eq!(Startup::from_args(None, None).err(), Some(StartupError::MissingSeed));
    assert_eq!(Startup::from_args(None, Some("x")).err(), Some(StartupError::MissingSeed));
    assert_eq!(Startup::from_args(Some("http://root.test/"), Some("many")).err(), Some(StartupError::BadBudget));
    assert_eq!(Startup::from_args(Some("not a url"), Some("many")).err(), Some(StartupError::BadBudget));
    assert_eq!(Startup::from_args(Some("not a url"), Some("3")).err(), Some(StartupError::BadSeed));
    assert_eq!(Startup::from_args(Some("/relative"), None).err(), Some(StartupError::BadSeed));
}
