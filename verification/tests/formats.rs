use mls::color::{
    colorise, permissions_fmt, size_fmt, BLACK_H, BLUE_L, CYAN, DAY1, GREEN, GREEN_H, GREEN_L, RED,
    RED_L, WHITE, YEAR, YELLOW, YELLOW_L,
};
use mls::datetime::{date_time_fmt, seconds_to_datetime};
use mls::display::spaces;
use mls::text::{decimal, octal, parse_usize, split_whitespace, trim};

#[test]
fn colorise_by_kind_and_group() {
    assert_eq!(colorise("main", "rs", 0, false, false, false), format!("{WHITE}main"));
    assert_eq!(colorise("run", "exe", 0, false, false, false), format!("{GREEN_H}run"));
    assert_eq!(colorise("src", "", 0, true, false, false), format!("{BLUE_L}src"));
    assert_eq!(colorise("ln", "", 0, true, true, true), format!("{CYAN}ln"));
    assert_eq!(colorise("tool", "", 0, false, true, false), format!("{GREEN_H}tool"));
    assert_eq!(colorise("a.tar", "tar", 2, false, false, false), format!("{YELLOW}a.tar"));
    assert_eq!(colorise("odd", "x", 8, false, false, false), format!("{WHITE}odd"));
}

fn column(num: &str, unit: &str) -> String {
    format!("{GREEN_L}{:>w$}{GREEN}{}", num, unit, w = 12 - unit.len())
}

#[test]
fn size_column_units() {
    assert_eq!(size_fmt(0), column("0", ""));
    assert_eq!(size_fmt(5), column("5", ""));
    assert_eq!(size_fmt(1023), column("1023", ""));
    assert_eq!(size_fmt(1536), column("1.5", "k"));
    assert_eq!(size_fmt(2048), column("2", "k"));
    assert_eq!(size_fmt(150 * 1024 + 10), column("150", "k"));
    assert_eq!(size_fmt(3 * 1048576 + 1), column("3.1", "M"));
    assert_eq!(size_fmt(1073741824), column("1", "G"));
    assert_eq!(size_fmt(u64::MAX), format!("{GREEN_L}17179869183{GREEN}G"));
}

#[test]
fn permission_bits_coloured() {
    let p = permissions_fmt(0o755);
    let expected = format!(
        "{YELLOW_L}r{RED_L}w{GREEN_L}x{YELLOW}r{BLACK_H}-{GREEN}x{YELLOW}r{BLACK_H}-{GREEN}x"
    );
    assert_eq!(p, expected);
    let none = permissions_fmt(0);
    assert_eq!(none, format!("{BLACK_H}-").repeat(9));
    let _ = RED;
}

#[test]
fn epoch_is_first_of_january_1970() {
    assert_eq!(seconds_to_datetime(0), (1, 0, 1970, 0, 0, 0));
}

#[test]
fn leap_day_2000() {
    assert_eq!(seconds_to_datetime(951782400), (29, 1, 2000, 0, 0, 0));
}

#[test]
fn calendar_dates() {
    assert_eq!(seconds_to_datetime(1700000000), (14, 10, 2023, 22, 13, 20));
    assert_eq!(seconds_to_datetime(4102444799), (31, 11, 2099, 23, 59, 59));
    assert_eq!(seconds_to_datetime(253402300799), (31, 11, 9999, 23, 59, 59));
}

#[test]
fn distinct_times_give_distinct_dates() {
    let a = seconds_to_datetime(1700000000);
    let b = seconds_to_datetime(1700000001);
    assert_ne!(a, b);
}

#[test]
fn recent_date_shows_time_of_day() {
    let t = 1700000000;
    assert_eq!(date_time_fmt(t, t), format!("{DAY1}14 Nov 22:13"));
}

#[test]
fn old_date_shows_year() {
    assert_eq!(date_time_fmt(0, 1700000000), format!("{YEAR} 1 Jan  1970"));
}

#[test]
fn numerals() {
    assert_eq!(decimal(0), "0");
    assert_eq!(decimal(1234567890), "1234567890");
    assert_eq!(decimal(u64::MAX), u64::MAX.to_string());
    assert_eq!(octal(0o755), "755");
    assert_eq!(octal(0), "0");
}

#[test]
fn spaces_and_words() {
    assert_eq!(spaces(3), "   ");
    assert_eq!(spaces(0), "");
    assert_eq!(trim("  a b \n"), "a b");
    assert_eq!(split_whitespace(" b  h "), vec!["b".to_string(), "h".to_string()]);
    assert_eq!(parse_usize("42"), Some(42));
    assert_eq!(parse_usize("x"), None);
    assert_eq!(parse_usize(""), None);
}
