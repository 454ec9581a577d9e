use mls::args::{args_init, args_parser};
use mls::ext::flarg::{ArgParser, Error};

fn strings(v: &[&str]) -> Vec<String> {
    v.iter().map(|s| s.to_string()).collect()
}

fn sample() -> ArgParser {
    ArgParser::new()
        .helptext("  Usage: t  \n")
        .flag_with("a all", "All entries.")
        .flag_with("v", "Verbose.")
        .option_with("T depth", "9", "Depth.")
}

#[test]
fn flags_options_and_positionals() {
    let mut p = sample();
    assert!(p.parse(strings(&["-a", "x", "--T=3", "--", "-v", "y"])).is_ok());
    assert!(p.found("a"));
    assert!(p.found("all"));
    assert!(!p.found("v"));
    assert_eq!(p.value("T"), "3");
    assert_eq!(p.value("depth"), "3");
    assert_eq!(p.positional(), &strings(&["x", "-v", "y"]));
}

#[test]
fn repeated_flags_are_counted() {
    let mut p = sample();
    assert!(p.parse(strings(&["-aa", "--all", "-av"])).is_ok());
    assert_eq!(p.count("a"), 4);
    assert_eq!(p.count("v"), 1);
    assert_eq!(p.count("T"), 0);
}

#[test]
fn last_value_wins_and_default_otherwise() {
    let mut p = sample();
    assert_eq!(p.value("T"), "9");
    assert!(p.parse(strings(&["-T", "4", "--depth", "5"])).is_ok());
    assert_eq!(p.value("T"), "5");
    assert_eq!(p.count("depth"), 2);
}

#[test]
fn lone_dash_is_positional() {
    let mut p = sample();
    assert!(p.parse(strings(&["-"])).is_ok());
    assert_eq!(p.positional(), &strings(&["-"]));
}

#[test]
fn parsing_leaves_registrations_alone() {
    let mut p = sample();
    assert!(p.parse(strings(&["-a", "f"])).is_ok());
    assert!(p.is_registered("all"));
    assert!(p.has_option("depth"));
    assert!(!p.is_registered("f"));
}

fn error_text(p: &mut ArgParser, args: &[&str]) -> String {
    match p.parse(strings(args)) {
        Err(e) => e.message(),
        Ok(()) => panic!("expected an error"),
    }
}

#[test]
fn unknown_short_flag() {
    let mut p = sample();
    assert_eq!(error_text(&mut p, &["-z"]), "Error: -z is not a recognised flag or option name");
}

#[test]
fn unknown_flag_in_a_group() {
    let mut p = sample();
    assert_eq!(
        error_text(&mut p, &["-az"]),
        "Error: 'z' in -az is not a recognised flag or option name"
    );
}

#[test]
fn unknown_long_flag() {
    let mut p = sample();
    assert_eq!(
        error_text(&mut p, &["--zz"]),
        "Error: --zz is not a recognised flag or option name"
    );
}

#[test]
fn unknown_option_with_value() {
    let mut p = sample();
    assert_eq!(error_text(&mut p, &["--zz=1"]), "Error: --zz is not a recognised option name");
}

#[test]
fn missing_values() {
    let mut p = sample();
    assert_eq!(error_text(&mut p, &["--T"]), "Error: missing value for --T");
    let mut p = sample();
    assert_eq!(error_text(&mut p, &["-T"]), "Error: missing value for -T");
    let mut p = sample();
    assert_eq!(error_text(&mut p, &["-aT"]), "Error: missing value for 'T' in -aT");
    let mut p = sample();
    assert_eq!(error_text(&mut p, &["--T="]), "Error: missing value for --T");
}

#[test]
fn error_kinds() {
    let mut p = sample();
    assert!(matches!(p.parse(strings(&["-q"])), Err(Error::InvalidName(_))));
    let mut p = sample();
    assert!(matches!(p.parse(strings(&["--depth"])), Err(Error::MissingValue(_))));
    assert_eq!(Error::InvalidUnicode.message(), "Error: arguments are not valid unicode strings");
}

#[test]
fn help_lists_flags_then_options() {
    let p = sample();
    assert_eq!(
        p.help(),
        "Usage: t\n  -a, --all\n         All entries.\n  -v\n         Verbose.\n  -T, --depth=9\n         Depth. (default: 9)\n"
    );
}

fn init(args: &[&str], app: Option<&str>) -> (mls::args::Flags, Vec<String>) {
    let mut p = args_parser();
    p.set_app_path(app.map(|s| s.to_string()));
    assert!(p.parse(strings(args)).is_ok());
    args_init(&p)
}

#[test]
fn defaults_list_the_current_directory() {
    let (fl, dirs) = init(&[], None);
    assert_eq!(dirs, strings(&["."]));
    assert!(!fl.list_format && !fl.tree_format && !fl.all);
    assert_eq!(fl.lvl, 9);
}

#[test]
fn long_format_and_paths() {
    let (fl, dirs) = init(&["-l", "src", "docs"], None);
    assert!(fl.long && fl.list_format);
    assert_eq!(dirs, strings(&["src", "docs"]));
}

#[test]
fn columns_flag_cancels_long_sorts() {
    let (fl, _) = init(&["-S", "-t", "-C"], None);
    assert!(!fl.list_format && !fl.size_sort && !fl.time_sort);
    let (fl, _) = init(&["-S"], None);
    assert!(fl.list_format && fl.size_sort);
}

#[test]
fn tree_depths() {
    let (fl, _) = init(&["-2"], None);
    assert!(fl.tree_format);
    assert_eq!(fl.lvl, 2);
    let (fl, _) = init(&["-3"], None);
    assert_eq!(fl.lvl, 3);
    let (fl, _) = init(&["-T", "5"], None);
    assert!(fl.tree_format);
    assert_eq!(fl.lvl, 5);
    let (fl, _) = init(&["-T", "deep"], None);
    assert_eq!(fl.lvl, 9);
}

#[test]
fn aliases_of_bytes_flag() {
    let (fl, _) = init(&["-h"], None);
    assert!(fl.bytes && fl.list_format);
}

#[test]
fn program_name_switches() {
    let (fl, _) = init(&[], Some("/usr/local/bin/ll"));
    assert!(fl.long && fl.list_format);
    let (fl, _) = init(&[], Some("lla"));
    assert!(fl.long && fl.all);
    let (fl, _) = init(&[], Some("./tree"));
    assert!(fl.tree_format && !fl.long);
    let (fl, _) = init(&[], Some("llt"));
    assert!(fl.tree_format && fl.long);
    let (fl, _) = init(&[], Some("lsd"));
    assert!(fl.dir_only);
    let (fl, _) = init(&[], Some("mls"));
    assert!(!fl.long && !fl.all && !fl.tree_format && !fl.dir_only);
}

#[test]
fn failed_parse_keeps_what_came_before() {
    let mut p = ArgParser::new().flag_with("a", "");
    let r = p.parse(strings(&["-a", "y", "-z", "w"]));
    assert!(matches!(r, Err(Error::InvalidName(_))));
    assert_eq!(p.count("a"), 1);
    assert_eq!(p.positional(), &strings(&["y"]));
}

#[test]
fn failed_group_keeps_earlier_characters() {
    let mut p = ArgParser::new().flag_with("a", "");
    assert!(p.parse(strings(&["-az"])).is_err());
    assert_eq!(p.count("a"), 1);
}

#[test]
fn failed_long_and_equals_change_nothing() {
    let mut p = sample();
    assert!(p.parse(strings(&["--depth"])).is_err());
    assert_eq!(p.count("depth"), 0);
    let mut p = sample();
    assert!(p.parse(strings(&["--T="])).is_err());
    assert_eq!(p.value("T"), "9");
    let mut p = sample();
    assert!(p.parse(strings(&["--v=1"])).is_err());
    assert_eq!(p.count("v"), 0);
}

#[test]
fn double_dash_takes_the_rest_verbatim() {
    let mut p = ArgParser::new().flag_with("a", "").flag_with("b", "");
    assert!(p.parse(strings(&["x", "-a", "--", "-b", "--c", "-"])).is_ok());
    assert_eq!(p.positional(), &strings(&["x", "-b", "--c", "-"]));
    assert_eq!(p.count("a"), 1);
    assert_eq!(p.count("b"), 0);
}
