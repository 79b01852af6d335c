use dtg_lib::base60::{digit_symbol, symbol_digit};
use dtg_lib::text::contains_text;
use dtg_lib::{
    bcd_braille, parse_timestamp, resolve_local, run_at, search_zones, tz, Dtg, DtgError, Format,
};

fn text(d: &Dtg, p: &str) -> String {
    d.format(&Some(Format::custom(p)), &None).unwrap()
}

#[test]
fn alphabet_is_a_bijection() {
    let alphabet = "0123456789ABCDEFGHIJKLMNOPQRSTUVWXYZabcdefghijklmnopqrstuvwx";
    for (d, c) in alphabet.chars().enumerate() {
        assert_eq!(digit_symbol(d as u32), c);
        assert_eq!(symbol_digit(c), Some(d as u32));
    }
    assert_eq!(symbol_digit('y'), None);
    assert_eq!(symbol_digit('-'), None);
}

#[test]
fn x_round_trip_of_a_whole_second() {
    let d = Dtg::from("1658448142").unwrap();
    assert_eq!(d.x_format(), "Xg6L02M");
    assert_eq!(Dtg::from_x(&d.x_format()).unwrap(), d);
    let zero = Dtg::from_x("000000").unwrap();
    assert_eq!(zero.x_format(), "000000");
    assert_eq!(Dtg::from_x("0000000").unwrap(), zero);
    assert_eq!(zero.rfc_3339(), "0000-01-01T00:00:00Z");
}

#[test]
fn decimal_round_trip_of_the_epoch_line() {
    let d = Dtg::from("-1.5").unwrap();
    let a = d.a_format(&None).unwrap();
    let first = a.lines().next().unwrap();
    assert_eq!(first, "-1.500000000");
    assert_eq!(Dtg::from(first).unwrap(), d);
    assert_eq!(text(&d, "%s.%f"), first);
}

#[test]
fn decimal_fraction_is_padded_and_cut() {
    assert_eq!(Dtg::from("1.5").unwrap(), Dtg::from_timestamp(1, 500_000_000).unwrap());
    assert_eq!(Dtg::from("1.").unwrap(), Dtg::from_timestamp(1, 0).unwrap());
    assert_eq!(Dtg::from("1.1234567891").unwrap(), Dtg::from_timestamp(1, 123_456_789).unwrap());
    assert_eq!(Dtg::from("+7").unwrap(), Dtg::from_timestamp(7, 0).unwrap());
    assert_eq!(Dtg::from("1.+5").unwrap(), Dtg::from_timestamp(1, 50_000_000).unwrap());
}

#[test]
fn decimal_rejections() {
    for s in ["", ".", "-", "+", "1.2.3", "1.x", "12a", "1.-5", "-8334632851201"] {
        let e = Dtg::from(s).unwrap_err();
        assert_eq!(e, DtgError::new(&format!("Invalid timestamp: `{s}`"), 101));
    }
    assert!(Dtg::from("-8334632851200").is_ok());
    assert_eq!(Dtg::from("-8334632851200").unwrap().rfc_3339(), "-262144-01-01T00:00:00Z");
}

#[test]
fn x_rejections() {
    for s in ["", "AOEWb", "XeAO", "Xe?OEWb", "XeCOEWb", "XeAOOWb", "Xe1UEWb"] {
        if s == "AOEWb" {
            assert!(Dtg::from_x(s).is_ok());
            continue;
        }
        assert_eq!(Dtg::from_x(s).unwrap_err().code, 101);
    }
}

#[test]
fn year_boundary_of_x_text() {
    let max = Dtg::from_x("1Cn3BUNxx").unwrap();
    assert_eq!(max, Dtg::from("8210298412799").unwrap());
    assert_eq!(max.x_format(), "1Cn3BUNxx");
    assert!(Dtg::from_x("1Cn400000").is_err());
}

#[test]
fn parse_timestamp_picks_the_reader() {
    assert_eq!(
        parse_timestamp("XeAOEWb", true).unwrap(),
        parse_timestamp("1606314757", false).unwrap()
    );
    assert!(parse_timestamp("XeAOEWb", false).is_err());
}

#[test]
fn braille_cells() {
    assert_eq!(bcd_braille(0), '\u{2800}');
    assert_eq!(bcd_braille(99), char::from_u32(0x2800 + 0x41 + 0x88).unwrap());
    assert_eq!(bcd_braille(20), '⠄');
    assert_eq!(bcd_braille(11), '⣀');
}

#[test]
fn bcd_of_negative_and_large_years() {
    let d = Dtg::from_x("0000000").unwrap();
    assert_eq!(d.bcd_format(), "⠀⠀|⢀|⢀|⠀|⠀|⠀");
    let before = Dtg::from("-62167219201").unwrap();
    assert_eq!(before.format(&Some(Format::BCD), &None).unwrap(), "-⠀⢀|⡠|⣄|⢤|⣊|⣊");
    let far = Dtg::from("253402300800").unwrap();
    assert!(!far.can_format(&Some(Format::BCD), &None));
    assert!(before.can_format(&Some(Format::BCD), &None));
    assert!(far.can_format(&Some(Format::X), &None));
}

#[test]
fn bcd_follows_the_zone() {
    let d = Dtg::from("1606314757").unwrap();
    assert_eq!(d.format(&Some(Format::BCD), &Some(tz("EST5EDT").unwrap())).unwrap(), "⠄⠄|⣀|⢔|⢈|⡤|⣴");
}

#[test]
fn default_and_rfc_formats() {
    let d = Dtg::from("1658448142").unwrap();
    assert_eq!(d.default(&None).unwrap(), "Fri 22 Jul 2022 00:02:22 UTC");
    assert_eq!(d.default(&Some(tz("MST7MDT").unwrap())).unwrap(), "Thu 21 Jul 2022 18:02:22 MDT");
    assert_eq!(d.rfc_3339(), "2022-07-22T00:02:22Z");
    assert_eq!(d.format(&None, &Some(tz("MST7MDT").unwrap())).unwrap(), "2022-07-22T00:02:22Z");
    assert_eq!(d.format(&Some(Format::custom("%A")), &Some(tz("MST7MDT").unwrap())).unwrap(), "Thursday");
    assert_eq!(d.bcd_format(), "⠄⠤|⢰|⠤|⠀|⠠|⠤");
}

#[test]
fn a_format_in_a_zone() {
    let d = Dtg::from("1658448142").unwrap();
    assert_eq!(
        d.a_format(&Some(tz("MST7MDT").unwrap())).unwrap(),
        "1658448142.000000000\n2022-07-22T00:02:22Z\nFri 22 Jul 2022 00:02:22 UTC\nThu 21 Jul 2022 18:02:22 MDT"
    );
}

#[test]
fn zone_clock_beyond_the_range() {
    let max = Dtg::from("8210298412799").unwrap();
    let tokyo = Some(tz("Asia/Tokyo").unwrap());
    assert_eq!(max.default(&tokyo), None);
    assert_eq!(max.a_format(&tokyo), None);
    assert_eq!(max.default(&None).unwrap(), "Tue 31 Dec +262143 23:59:59 UTC");
}

#[test]
fn rejected_pattern() {
    let d = Dtg::from("0").unwrap();
    assert_eq!(d.format(&Some(Format::custom("%Q")), &None), None);
    assert_eq!(d.format(&Some(Format::custom("100%")), &None), None);
    assert_eq!(text(&d, "100%%"), "100%");
}

#[test]
fn leap_second() {
    assert!(Dtg::from_timestamp(59, 1_500_000_000).is_some());
    assert!(Dtg::from_timestamp(58, 1_500_000_000).is_none());
    assert!(Dtg::from_timestamp(-1, 1_000_000_000).is_some());
    assert!(Dtg::from_timestamp(0, 2_000_000_000).is_none());
    assert!(Dtg::from_timestamp(8210298412800, 0).is_none());
    let leap = Dtg::from_timestamp(59, 1_500_000_000).unwrap();
    assert_eq!(text(&leap, "%S"), "60");
    assert_eq!(text(&leap, "%s.%f"), "59.500000000");
}

#[test]
fn now_is_current() {
    let now = Dtg::now().unwrap();
    let secs: i64 = text(&now, "%s").parse().unwrap();
    assert!(secs > 1_600_000_000);
}

#[test]
fn zones_by_name() {
    assert_eq!(tz("America/New_York").unwrap().name(), "America/New_York");
    assert_eq!(tz("EST5EDT").unwrap().name(), "EST5EDT");
    assert_eq!(tz("nonexistent").unwrap_err(), DtgError::new("Invalid timezone: `nonexistent`", 102));
    match tz("local") {
        Ok(z) => assert!(tz(z.name()).is_ok()),
        Err(e) => assert!(e.code == 103 || e.code == 102),
    }
}

#[test]
fn local_zone_resolution() {
    assert_eq!(resolve_local(None).unwrap_err(), DtgError::new("Failed to get local timezone", 103));
    assert_eq!(resolve_local(Some("Europe/Paris")).unwrap().name(), "Europe/Paris");
    assert_eq!(resolve_local(Some("Mars/Olympus")).unwrap_err().code, 102);
}

#[test]
fn zone_search_ignores_case_and_hidden_zones() {
    let names: Vec<String> = ["right/UTC", "Factory", "posixrules", "America/New_York", "Europe/Berlin"]
        .iter()
        .map(|s| s.to_string())
        .collect();
    assert_eq!(search_zones(&names, Some("NEW_")).unwrap(), vec!["America/New_York".to_string()]);
    assert_eq!(
        search_zones(&names, None).unwrap(),
        vec!["America/New_York".to_string(), "Europe/Berlin".to_string()]
    );
    assert_eq!(search_zones(&names, Some("")).unwrap().len(), 2);
    assert_eq!(search_zones(&names, Some("utc")).unwrap_err().code, 104);
    assert_eq!(dtg_lib::list_zones(Some("NEW_")).unwrap().len(), 2);
}

#[test]
fn substring_search() {
    assert!(contains_text("america/new_york", "new_"));
    assert!(contains_text("abc", ""));
    assert!(!contains_text("ab", "abc"));
    assert!(!contains_text("abc", "ac"));
}

#[test]
fn combinator_is_format_major() {
    let d = Dtg::from("1606314757").unwrap();
    let formats = vec![Some(Format::custom("%H")), Some(Format::custom("%M"))];
    let zones = vec![Some(tz("UTC").unwrap()), Some(tz("EST5EDT").unwrap())];
    let args = vec!["1606314757".to_string()];
    let lines = run_at(&args, &formats, &zones, ",", false, &d).unwrap();
    assert_eq!(lines, vec!["14,09,32,32".to_string()]);
}

#[test]
fn combinator_without_arguments_uses_now() {
    let now = Dtg::from("42").unwrap();
    let lines = run_at(&vec![], &vec![Some(Format::custom("%s"))], &vec![None], "\n", false, &now).unwrap();
    assert_eq!(lines, vec!["42".to_string()]);
    let current = dtg_lib::run(&vec![], &vec![None], &vec![None], "\n", false).unwrap();
    assert_eq!(current.len(), 1);
}

#[test]
fn combinator_lines_per_argument_and_errors() {
    let now = Dtg::from("0").unwrap();
    let args = vec!["0".to_string(), "60".to_string()];
    let lines = run_at(&args, &vec![Some(Format::custom("%M"))], &vec![None], "\n", false, &now).unwrap();
    assert_eq!(lines, vec!["00".to_string(), "01".to_string()]);
    let bad = vec!["0".to_string(), "x".to_string(), "y".to_string()];
    let e = run_at(&bad, &vec![None], &vec![None], "\n", false, &now).unwrap_err();
    assert_eq!(e, DtgError::new("Invalid timestamp: `x`", 101));
    let far = vec!["253402300800".to_string()];
    let e = run_at(&far, &vec![Some(Format::BCD)], &vec![None], "\n", false, &now).unwrap_err();
    assert_eq!(e, DtgError::new("Cannot format timestamp: `253402300800`", 105));
}

#[test]
fn named_formats() {
    let d = Dtg::from("1606314757").unwrap();
    let show = |n: &str| d.format(&Some(Format::named(n)), &None).unwrap();
    assert_eq!(show("x"), "XeAOEWb");
    assert_eq!(show("iso"), "2020-11-25T14:32:37Z");
    assert_eq!(show("%j"), "330");
    assert_eq!(show("bcd"), "⠄⠄|⣀|⢔|⡐|⡤|⣴");
}

#[test]
fn clock_readings() {
    assert_eq!(Dtg::from_clock(true, 5, 7).unwrap(), Dtg::from_timestamp(5, 7).unwrap());
    assert_eq!(Dtg::from_clock(false, 5, 0).unwrap(), Dtg::from_timestamp(-5, 0).unwrap());
    assert_eq!(Dtg::from_clock(false, 5, 250_000_000).unwrap(), Dtg::from("-6.75").unwrap());
    assert!(Dtg::from_clock(true, 8210298412800, 0).is_none());
    assert!(Dtg::from_clock(false, 8334632851200, 0).is_some());
    assert!(Dtg::from_clock(false, 8334632851200, 1).is_none());
}

#[test]
fn epoch_pattern_in_a_zone() {
    let d = Dtg::from("1606314757.191168200").unwrap();
    let est = Some(tz("EST5EDT").unwrap());
    assert_eq!(d.format(&Some(Format::custom("%s.%f")), &est).unwrap(), "1606314757.191168200");
}
