use xcvrd::bridge::json_str_map;
use xcvrd::error::XcvrdError;
use xcvrd::json::{Number, Value};
use xcvrd::mock_hal::MockHal;
use xcvrd::text::{comes_before, i64_text, parse_i64, parse_u32, parse_u64, replace, split, trim};

#[test]
fn errors_have_their_texts() {
    let text = |e: XcvrdError| e.text();
    assert_eq!(text(XcvrdError::Bridge("x".into())), "platform-bridge error: x");
    assert_eq!(text(XcvrdError::Db("x".into())), "state-db error: x");
    assert_eq!(
        text(XcvrdError::NotImplemented),
        "functionality not implemented for this platform"
    );
    assert_eq!(text(XcvrdError::EepromNotReady), "sfp eeprom not ready");
    assert_eq!(text(XcvrdError::PhysicalPortNotExist), "physical port does not exist");
    assert_eq!(text(XcvrdError::Other("x".into())), "x");
}

#[test]
fn slot_that_does_not_exist_is_an_error() {
    assert!(MockHal::with_sfps(vec![]).sfp(0).is_err());
}

#[test]
fn reports_are_maps_of_texts() {
    let fields = vec![
        ("2".to_string(), Value::Str("1".to_string())),
        (
            "10".to_string(),
            Value::Number(Number { text: "0".to_string(), zero: true, unsigned: Some(0) }),
        ),
    ];
    assert_eq!(
        json_str_map(&Some(fields)),
        vec![("10".to_string(), "0".to_string()), ("2".to_string(), "1".to_string())]
    );
    assert!(json_str_map(&None).is_empty());
}

#[test]
fn numbers_are_written_and_read_back() {
    for n in [0i64, 7, -7, i64::MAX, i64::MIN] {
        assert_eq!(i64_text(n), n.to_string());
        assert_eq!(parse_i64(&i64_text(n)), Some(n));
    }
    for s in ["", "-", "+", "1x", " 1", "9223372036854775808"] {
        assert_eq!(parse_i64(s), None, "{s:?}");
    }
    assert_eq!(parse_i64("+12"), Some(12));
    assert_eq!(parse_u32("4294967295"), Some(u32::MAX));
    assert_eq!(parse_u32("4294967296"), None);
    assert_eq!(parse_u32("-1"), None);
    assert_eq!(parse_u64("18446744073709551615"), Some(u64::MAX));
}

#[test]
fn texts_are_taken_apart() {
    assert_eq!(trim("  a b\t\n"), "a b");
    assert_eq!(trim("\u{a0}x\u{2003}"), "x");
    assert_eq!(split("1,2,,3", ','), vec!["1", "2", "", "3"]);
    assert_eq!(split("", ','), vec![""]);
    assert_eq!(replace("aXaXX", "X", "yy"), "ayyayyyy");
    assert_eq!(replace("aaa", "aa", "b"), "ba");
}

#[test]
fn texts_are_ordered_by_their_characters() {
    assert!(comes_before("10", "2"));
    assert!(comes_before("Ethernet1", "Ethernet10"));
    assert!(!comes_before("a", "a"));
    assert!(comes_before("", "a"));
    assert!(comes_before("z", "\u{e9}"));
}
