use catr::config::{parse_args, ArgError, ArgSwitch, Command};

fn args(list: &[&str]) -> Vec<String> {
    list.iter().map(|s| s.to_string()).collect()
}

fn run_of(list: &[&str]) -> (ArgSwitch, Vec<String>) {
    match parse_args(&args(list)) {
        Ok(Command::Run(sw, paths)) => (sw, paths),
        other => panic!("unexpected outcome: {:?}", other),
    }
}

#[test]
fn unknown_long_flag_is_an_error() {
    assert_eq!(
        parse_args(&args(&["catr", "--bogus"])),
        Err(ArgError::UnknownLong("--bogus".to_string()))
    );
}

#[test]
fn unknown_short_letter_is_an_error() {
    assert_eq!(parse_args(&args(&["catr", "-nx"])), Err(ArgError::UnknownShort('x')));
    assert_eq!(parse_args(&args(&["catr", "--"])), Err(ArgError::UnknownShort('-')));
}

#[test]
fn help_and_version_stop_parsing() {
    assert_eq!(parse_args(&args(&["catr", "--help", "--bogus"])), Ok(Command::Help));
    assert_eq!(parse_args(&args(&["catr", "-n", "--version"])), Ok(Command::Version));
    assert_eq!(
        parse_args(&args(&["catr", "--bogus", "--help"])),
        Err(ArgError::UnknownLong("--bogus".to_string()))
    );
}

#[test]
fn no_arguments_gives_defaults() {
    let (sw, paths) = run_of(&["catr"]);
    assert_eq!(sw, ArgSwitch::new());
    assert!(paths.is_empty());
    assert_eq!(parse_args(&[]), Ok(Command::Run(ArgSwitch::new(), Vec::new())));
}

#[test]
fn paths_keep_their_order() {
    let (sw, paths) = run_of(&["catr", "f", "-", "g", "-n"]);
    assert_eq!(paths, args(&["f", "-", "g"]));
    assert!(sw.number);
}

#[test]
fn short_cluster_letters() {
    let (sw, _) = run_of(&["catr", "-A"]);
    assert!(sw.show_ends && sw.show_nonprinting && sw.show_tabs);
    assert!(!sw.number && !sw.number_nonblank && !sw.squeeze_blank);
    let (sw, _) = run_of(&["catr", "-bsu"]);
    assert!(sw.number_nonblank && sw.squeeze_blank && !sw.u);
    let (sw, _) = run_of(&["catr", "-e"]);
    assert!(sw.show_ends && sw.show_nonprinting && !sw.show_tabs);
    let (sw, _) = run_of(&["catr", "-t"]);
    assert!(sw.show_tabs && sw.show_nonprinting && !sw.show_ends);
    let (sw, _) = run_of(&["catr", "-ETv"]);
    assert!(sw.show_ends && sw.show_tabs && sw.show_nonprinting);
}

#[test]
fn long_flags() {
    let (sw, paths) = run_of(&[
        "catr",
        "--number-nonblank",
        "--show-ends",
        "--number",
        "--squeeze-blank",
        "--show-tabs",
        "--show-nonprinting",
        "file",
    ]);
    assert!(sw.number_nonblank && sw.show_ends && sw.number && sw.squeeze_blank);
    assert!(sw.show_tabs && sw.show_nonprinting && !sw.u);
    assert_eq!(paths, args(&["file"]));
    let (sw, _) = run_of(&["catr", "--show-all"]);
    assert!(sw.show_ends && sw.show_nonprinting && sw.show_tabs);
}
