use dtg_lib::{list_zones, run, tz, Format, Zone};

const SECONDS: &str = "1606314757";
const NANOSECONDS: &str = "191168200";
const RFC3339: &str = "2020-11-25T14:32:37Z";
const UTC: &str = "Wed 25 Nov 2020 14:32:37 UTC";
const EST: &str = "Wed 25 Nov 2020 09:32:37 EST";
const CST: &str = "Wed 25 Nov 2020 08:32:37 CST";
const MST: &str = "Wed 25 Nov 2020 07:32:37 MST";
const PST: &str = "Wed 25 Nov 2020 06:32:37 PST";
const MONTH: &str = "November";
const DOW: &str = "Wednesday";
const X: &str = "XeAOEWb";
const BCD: &str = "⠄⠄|⣀|⢔|⡐|⡤|⣴";
const BCD_EST: &str = "⠄⠄|⣀|⢔|⢈|⡤|⣴";
const BCD_MST: &str = "⠄⠄|⣀|⢔|⢰|⡤|⣴";
const COMPACT_DATE: &str = "20201125";
const COMPACT_TIME: &str = "143237";
const COMPACT_TIME_EST: &str = "093237";
const COMPACT_TIME_MST: &str = "073237";
const MAX: &str = "+262143-12-31T23:59:59Z";
const MAX_SECONDS: &str = "8210298412799";
const MAX_X: &str = "1Cn3BUNxx";
const OVERFLOW_SECONDS: &str = "8210298412800";
const OVERFLOW_X: &str = "1Cn400000";

fn nanoseconds() -> String {
    format!("{}.{}", SECONDS, NANOSECONDS)
}

fn zones(names: &[&str]) -> Vec<Option<Zone>> {
    names.iter().map(|n| Some(tz(n).unwrap())).collect()
}

fn custom(p: &str) -> Option<Format> {
    Some(Format::custom(p))
}

fn output(args: &[&str], formats: Vec<Option<Format>>, zone_names: &[&str], sep: &str, from_x: bool) -> String {
    let args: Vec<String> = args.iter().map(|a| a.to_string()).collect();
    run(&args, &formats, &zones(zone_names), sep, from_x).unwrap().join("\n")
}

fn pass(args: &[&str], formats: Vec<Option<Format>>, zone_names: &[&str], want: &str) {
    assert_eq!(output(args, formats, zone_names, "\n", false), want);
}

fn pass_x(args: &[&str], formats: Vec<Option<Format>>, zone_names: &[&str], want: &str) {
    assert_eq!(output(args, formats, zone_names, "\n", true), want);
}

fn fail(args: &[&str], from_x: bool, code: usize, msg: &str) {
    let args: Vec<String> = args.iter().map(|a| a.to_string()).collect();
    let e = run(&args, &vec![Some(Format::rfc_3339())], &zones(&["UTC"]), "\n", from_x).unwrap_err();
    assert_eq!(e.code, code);
    assert_eq!(e.message, msg);
}

#[test]
fn epoch_seconds() {
    pass(&[SECONDS], vec![Some(Format::rfc_3339())], &["UTC"], RFC3339);
}

#[test]
fn epoch_subsecond() {
    pass(
        &[&nanoseconds()],
        vec![custom("%Y-%m-%dT%H:%M:%S.%fZ")],
        &["UTC"],
        &RFC3339.replace('Z', &format!(".{}Z", NANOSECONDS)),
    );
}

#[test]
fn zone_utc() {
    pass(&[&nanoseconds()], vec![Some(Format::default())], &["UTC"], UTC);
}

#[test]
fn zone_est() {
    pass(&[&nanoseconds()], vec![Some(Format::default())], &["EST5EDT"], EST);
}

#[test]
fn zone_cst() {
    pass(&[&nanoseconds()], vec![Some(Format::default())], &["CST6CDT"], CST);
}

#[test]
fn zone_mst() {
    pass(&[&nanoseconds()], vec![Some(Format::default())], &["MST7MDT"], MST);
}

#[test]
fn zone_pst() {
    pass(&[&nanoseconds()], vec![Some(Format::default())], &["PST8PDT"], PST);
}

#[test]
fn zone_multi() {
    pass(
        &[&nanoseconds()],
        vec![Some(Format::default())],
        &["UTC", "EST5EDT", "CST6CDT", "MST7MDT", "PST8PDT"],
        &[UTC, EST, CST, MST, PST].join("\n"),
    );
}

#[test]
fn format_custom_day_of_week() {
    pass(&[&nanoseconds()], vec![custom("%A")], &["UTC"], DOW);
}

#[test]
fn format_a() {
    let want = format!("{}.{}\n{}\n{}\n{}", SECONDS, NANOSECONDS, RFC3339, UTC, EST);
    pass(&[&nanoseconds()], vec![Some(Format::A)], &["EST"], &want);
}

#[test]
fn format_x() {
    let ns = nanoseconds();
    pass(&[&ns], vec![Some(Format::X)], &["UTC"], X);
    pass_x(&[X], vec![Some(Format::rfc_3339())], &["UTC"], RFC3339);
    pass_x(&[X], vec![custom("%s")], &["UTC"], SECONDS);
    pass_x(&[X], vec![custom("%a %d %b %Y %H:%M:%S %Z")], &["UTC"], UTC);
    pass_x(&[X], vec![custom("%a %d %b %Y %H:%M:%S %Z")], &["EST"], EST);
}

#[test]
fn format_ax() {
    let want = format!("{}.{}\n{}\n{}\n{}\n{}", SECONDS, NANOSECONDS, RFC3339, UTC, EST, X);
    pass(&[&nanoseconds()], vec![Some(Format::A), Some(Format::X)], &["EST"], &want);
}

#[test]
fn mulitple_f_options() {
    let want = format!("{}\n{}", MONTH, DOW);
    pass(&[&nanoseconds()], vec![custom("%B"), custom("%A")], &["EST"], &want);
}

#[test]
fn timezone_list() {
    let all = list_zones(None).unwrap();
    assert!(all.len() > 400);
    assert!(all.iter().any(|z| z == "America/New_York"));
}

#[test]
fn timezone_search() {
    assert_eq!(
        list_zones(Some("new_")).unwrap().join("\n"),
        "America/New_York\nAmerica/North_Dakota/New_Salem"
    );
}

#[test]
fn max_seconds() {
    pass(&[MAX_SECONDS], vec![Some(Format::rfc_3339())], &["UTC"], MAX);
}

#[test]
fn max_x() {
    pass_x(&[MAX_X], vec![Some(Format::rfc_3339())], &["UTC"], MAX);
}

#[test]
fn named_format_all() {
    let want = format!("{}.{}\n{}\n{}\n{}", SECONDS, NANOSECONDS, RFC3339, UTC, UTC);
    let want_est = format!("{}.{}\n{}\n{}\n{}", SECONDS, NANOSECONDS, RFC3339, UTC, EST);
    let want_mst = format!("{}.{}\n{}\n{}\n{}", SECONDS, NANOSECONDS, RFC3339, UTC, MST);
    let ns = nanoseconds();
    for i in ["a", "all"] {
        pass(&[&ns], vec![Some(Format::named(i))], &["UTC"], &want);
        pass(&[&ns], vec![Some(Format::named(i))], &["EST5EDT"], &want_est);
        pass(&[&ns], vec![Some(Format::named(i))], &["MST7MDT"], &want_mst);
    }
}

#[test]
fn named_format_bcd() {
    let ns = nanoseconds();
    pass(&[&ns], vec![Some(Format::named("bcd"))], &["UTC"], BCD);
    pass(&[&ns], vec![Some(Format::named("bcd"))], &["EST5EDT"], BCD_EST);
    pass(&[&ns], vec![Some(Format::named("bcd"))], &["MST7MDT"], BCD_MST);
}

#[test]
fn named_format_compact_date() {
    let ns = nanoseconds();
    for i in ["cd", "compact-date"] {
        pass(&[&ns], vec![Some(Format::named(i))], &["UTC"], COMPACT_DATE);
        pass(&[&ns], vec![Some(Format::named(i))], &["EST5EDT"], COMPACT_DATE);
        pass(&[&ns], vec![Some(Format::named(i))], &["EST5EDT"], COMPACT_DATE);
    }
}

#[test]
fn named_format_compact_date_time() {
    let ns = nanoseconds();
    let want = format!("{COMPACT_DATE}-{COMPACT_TIME}");
    let want_est = format!("{COMPACT_DATE}-{COMPACT_TIME_EST}");
    let want_mst = format!("{COMPACT_DATE}-{COMPACT_TIME_MST}");
    for i in ["cdt", "compact-date-time"] {
        pass(&[&ns], vec![Some(Format::named(i))], &["UTC"], &want);
        pass(&[&ns], vec![Some(Format::named(i))], &["EST5EDT"], &want_est);
        pass(&[&ns], vec![Some(Format::named(i))], &["MST7MDT"], &want_mst);
    }
}

#[test]
fn named_format_compact_time() {
    let ns = nanoseconds();
    for i in ["ct", "compact-time"] {
        pass(&[&ns], vec![Some(Format::named(i))], &["UTC"], COMPACT_TIME);
        pass(&[&ns], vec![Some(Format::named(i))], &["EST5EDT"], COMPACT_TIME_EST);
        pass(&[&ns], vec![Some(Format::named(i))], &["MST7MDT"], COMPACT_TIME_MST);
    }
}

#[test]
fn named_format_default() {
    let ns = nanoseconds();
    for i in ["d", "default"] {
        pass(&[&ns], vec![Some(Format::named(i))], &["UTC"], UTC);
        pass(&[&ns], vec![Some(Format::named(i))], &["EST5EDT"], EST);
        pass(&[&ns], vec![Some(Format::named(i))], &["MST7MDT"], MST);
    }
}

#[test]
fn named_format_rfc_3339() {
    let ns = nanoseconds();
    for i in ["i", "r", "rfc", "rfc-3339"] {
        pass(&[&ns], vec![Some(Format::named(i))], &["UTC"], RFC3339);
        pass(&[&ns], vec![Some(Format::named(i))], &["EST5EDT"], RFC3339);
        pass(&[&ns], vec![Some(Format::named(i))], &["MST7MDT"], RFC3339);
    }
}

#[test]
fn timezone_search_found_zero() {
    let e = list_zones(Some("blah")).unwrap_err();
    assert_eq!(e.code, 104);
    assert_eq!(e.message, "Zero timezones found matching `blah`");
}

#[test]
fn invalid_argument() {
    fail(&["blah"], false, 101, "Invalid timestamp: `blah`");
}

#[test]
fn invalid_time_zone() {
    let e = tz("Z").unwrap_err();
    assert_eq!(e.code, 102);
    assert_eq!(e.message, "Invalid timezone: `Z`");
}

#[test]
fn overflow_seconds() {
    fail(&[OVERFLOW_SECONDS], false, 101, &format!("Invalid timestamp: `{}`", OVERFLOW_SECONDS));
}

#[test]
fn overflow_x() {
    fail(&[OVERFLOW_X], true, 101, &format!("Invalid timestamp: `{}`", OVERFLOW_X));
}

#[test]
fn separator() {
    let sep = " | ";
    assert_eq!(
        output(
            &[&nanoseconds()],
            vec![Some(Format::default())],
            &["UTC", "EST5EDT", "CST6CDT", "MST7MDT", "PST8PDT"],
            sep,
            false,
        ),
        [UTC, EST, CST, MST, PST].join(sep)
    );
}

#[test]
fn cli_epoch_seconds() {
    pass(&[SECONDS], vec![Some(Format::rfc_3339())], &["UTC"], RFC3339);
}

#[test]
fn cli_epoch_subsecond() {
    pass(
        &[&nanoseconds()],
        vec![custom("%Y-%m-%dT%H:%M:%S.%fZ")],
        &["UTC"],
        &RFC3339.replace('Z', &format!(".{}Z", NANOSECONDS)),
    );
}

#[test]
fn cli_zone_utc() {
    pass(&[&nanoseconds()], vec![Some(Format::default())], &["UTC"], UTC);
}

#[test]
fn cli_zone_est() {
    pass(&[&nanoseconds()], vec![Some(Format::default())], &["EST"], EST);
}

#[test]
fn cli_format_custom_day_of_week() {
    pass(&[&nanoseconds()], vec![custom("%A")], &["UTC"], DOW);
}

#[test]
fn cli_format_a() {
    let want = format!("{}.{}\n{}\n{}\n{}", SECONDS, NANOSECONDS, RFC3339, UTC, EST);
    pass(&[&nanoseconds()], vec![Some(Format::A)], &["EST"], &want);
}

#[test]
fn cli_format_x() {
    let ns = nanoseconds();
    pass(&[&ns], vec![Some(Format::X)], &["UTC"], X);
    pass_x(&[X], vec![Some(Format::rfc_3339())], &["UTC"], RFC3339);
    pass_x(&[X], vec![custom("%s")], &["UTC"], SECONDS);
    pass_x(&[X], vec![custom("%a %d %b %Y %H:%M:%S %Z")], &["UTC"], UTC);
    pass_x(&[X], vec![custom("%a %d %b %Y %H:%M:%S %Z")], &["EST"], EST);
}

#[test]
fn cli_format_ax() {
    let want = format!("{}.{}\n{}\n{}\n{}\n{}", SECONDS, NANOSECONDS, RFC3339, UTC, EST, X);
    pass(&[&nanoseconds()], vec![Some(Format::A), Some(Format::X)], &["EST"], &want);
}

#[test]
fn cli_mulitple_f_options() {
    let want = format!("{}\n{}", MONTH, DOW);
    pass(&[&nanoseconds()], vec![custom("%B"), custom("%A")], &["EST"], &want);
}

#[test]
fn cli_timezone_list() {
    assert!(!list_zones(None).unwrap().is_empty());
}

#[test]
fn cli_timezone_search() {
    assert_eq!(
        list_zones(Some("new_")).unwrap().join("\n"),
        "America/New_York\nAmerica/North_Dakota/New_Salem"
    );
}

#[test]
fn cli_timezone_search_found_zero() {
    let e = list_zones(Some("blah")).unwrap_err();
    assert_eq!(e.message, "Zero timezones found matching `blah`");
}

#[test]
fn cli_invalid_argument() {
    fail(&["blah"], false, 101, "Invalid timestamp: `blah`");
}

#[test]
fn cli_invalid_time_zone() {
    let e = tz("Z").unwrap_err();
    assert_eq!(e.message, "Invalid timezone: `Z`");
}
