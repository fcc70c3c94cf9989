//! The text helpers, the baseline constant provider, and the timestamp
//! wrappers.

use build_timing::Format;
use build_timing::date_time::DateTime;
use build_timing::env::BuildConstVal;
use build_timing::env::BuildContext;
use build_timing::env::BuildTimingConst;
use build_timing::err::BuildTimingError;
use build_timing::str_table::StrTable;
use build_timing::text::escape;
use build_timing::text::str_eq;
use build_timing::text::str_lt;

fn ctx() -> BuildContext {
    BuildContext::new(
        String::from("linux"),
        String::from("x86_64"),
        StrTable::new(),
        false,
        String::from("Thu, 01 Jan 1970 00:00:00 +0000"),
    )
}

#[test]
fn escape_handles_quotes_backslashes_and_controls() {
    assert_eq!(escape("a\"b\\c\nd\re\tf"), "a\\\"b\\\\c\\nd\\re\\tf");
    assert_eq!(escape("plain"), "plain");
    assert_eq!(escape(""), "");
}

#[test]
fn string_order_is_lexicographic() {
    assert!(str_lt("A", "B"));
    assert!(str_lt("A", "AB"));
    assert!(!str_lt("B", "A"));
    assert!(!str_lt("A", "A"));
    assert!(str_lt("", "A"));
    assert!(str_eq("same", "same"));
    assert!(!str_eq("same", "sam"));
}

#[test]
fn build_os_constant_resolves_to_the_platform_string() {
    let c = BuildTimingConst(build_timing::env::BUILD_OS);
    let v = c.build_val(&ctx()).unwrap();
    assert_eq!(v.v, "linux-x86_64");
}

#[test]
fn unknown_build_constant_is_reported() {
    let c = BuildTimingConst("NOPE");
    match c.build_val(&ctx()) {
        Err(BuildTimingError::UnknownConstant { identifier, .. }) => {
            assert_eq!(identifier, "NOPE");
        }
        other => panic!("expected an unknown-constant error, got {:?}", other),
    }
}

#[test]
fn now_yields_a_formattable_moment() {
    let now = DateTime::now();
    let formatted = now.to_rfc2822();
    assert_eq!(formatted, now.human_format());
    match DateTime::local_now() {
        Ok(d) => {
            assert!(matches!(d, DateTime::Local(_)));
        }
        Err(BuildTimingError::ExternalSignalFailure(_)) => {}
        Err(other) => panic!("unexpected error kind: {:?}", other),
    }
}
