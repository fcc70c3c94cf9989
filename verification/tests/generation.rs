//! End-to-end behaviour of the constant set, the template resolver and
//! the generation engine.

use build_timing::constant_set::ConstType;
use build_timing::constant_set::ConstVal;
use build_timing::constant_set::ConstantHook;
use build_timing::constant_set::ConstantSet;
use build_timing::constant_set::ResolvedConst;
use build_timing::env::BuildContext;
use build_timing::err::BuildTimingError;
use build_timing::str_table::StrTable;

fn ctx() -> BuildContext {
    let mut vars = StrTable::new();
    vars.insert(String::from("VAR1"), String::from("val1"));
    BuildContext::new(
        String::from("testos"),
        String::from("testarch"),
        vars,
        true,
        String::from("Thu, 01 Jan 1970 00:00:00 +0000"),
    )
}

fn literal(id: &str, value: &str) -> ConstantHook {
    ConstantHook::literal(
        String::from(id),
        String::from("a literal"),
        String::from(value),
        ConstType::Str,
    )
}

fn template(id: &str, tpl: &str) -> ConstantHook {
    ConstantHook::template(String::from(id), String::from("a template"), String::from(tpl))
}

#[test]
fn scenario_greeting_template() {
    let mut set = ConstantSet::new();
    set.register(literal("GREETING", "hi"));
    set.register(template("MSG", "say {GREETING}"));
    let entries = set.resolve_all(&ctx()).unwrap();
    let pairs: Vec<(String, String)> = entries
        .iter()
        .map(|e| (e.identifier.clone(), e.value.v.clone()))
        .collect();
    assert_eq!(pairs.len(), 3);
    assert_eq!(pairs[0].0, "BUILD_OS");
    assert_eq!(pairs[0].1, "testos-testarch");
    assert_eq!(pairs[1], (String::from("GREETING"), String::from("hi")));
    assert_eq!(pairs[2], (String::from("MSG"), String::from("say hi")));
    assert_eq!(entries[2].value.t, ConstType::TemplateResult);
}

#[test]
fn scenario_duplicate_identifier_last_wins() {
    let mut set = ConstantSet::new();
    set.register(literal("X", "1"));
    set.register(literal("X", "2"));
    assert_eq!(set.len(), 2);
    let entries = set.resolve_all(&ctx()).unwrap();
    let hits: Vec<&ResolvedConst> =
        entries.iter().filter(|e| e.identifier == "X").collect();
    assert_eq!(hits.len(), 1);
    assert_eq!(hits[0].value.v, "2");
}

#[test]
fn unknown_constant_is_reported() {
    let mut set = ConstantSet::new();
    set.register(template("MSG", "say {NOPE}"));
    match set.resolve_all(&ctx()) {
        Err(BuildTimingError::UnknownConstant { constant, identifier }) => {
            assert_eq!(constant, "MSG");
            assert_eq!(identifier, "NOPE");
        }
        other => panic!("expected an unknown-constant error, got {:?}", other),
    }
}

#[test]
fn forward_reference_is_reported() {
    let mut set = ConstantSet::new();
    set.register(template("A_TPL", "use {B_TPL}"));
    set.register(template("B_TPL", "late"));
    match set.resolve_all(&ctx()) {
        Err(BuildTimingError::UnresolvedForwardReference { constant, identifier }) => {
            assert_eq!(constant, "A_TPL");
            assert_eq!(identifier, "B_TPL");
        }
        other => panic!("expected a forward-reference error, got {:?}", other),
    }
}

#[test]
fn self_reference_is_a_forward_reference() {
    let mut set = ConstantSet::new();
    set.register(template("LOOP", "{LOOP}"));
    match set.resolve_all(&ctx()) {
        Err(BuildTimingError::UnresolvedForwardReference { constant, identifier }) => {
            assert_eq!(constant, "LOOP");
            assert_eq!(identifier, "LOOP");
        }
        other => panic!("expected a forward-reference error, got {:?}", other),
    }
}

#[test]
fn earlier_template_is_visible_to_later_template() {
    let mut set = ConstantSet::new();
    set.register(literal("BASE", "x"));
    set.register(template("A_TPL", "a{BASE}"));
    set.register(template("B_TPL", "b{A_TPL}"));
    let entries = set.resolve_all(&ctx()).unwrap();
    assert_eq!(entries[2].identifier, "A_TPL");
    assert_eq!(entries[2].value.v, "ax");
    assert_eq!(entries[3].identifier, "B_TPL");
    assert_eq!(entries[3].value.v, "bax");
}

#[test]
fn substituted_text_is_not_rescanned() {
    let mut set = ConstantSet::new();
    set.register(literal("INNER", "{OUTER}"));
    set.register(template("Z_TPL", "got {INNER}"));
    let entries = set.resolve_all(&ctx()).unwrap();
    assert_eq!(entries[2].value.v, "got {OUTER}");
}

#[test]
fn unterminated_brace_is_copied_literally() {
    let mut set = ConstantSet::new();
    set.register(template("T", "a{bc"));
    let entries = set.resolve_all(&ctx()).unwrap();
    assert_eq!(entries[1].value.v, "a{bc");
}

#[test]
fn non_templates_resolve_before_templates_in_identifier_order() {
    let mut set = ConstantSet::new();
    set.register(template("A_TPL", "{Z_LIT}"));
    set.register(literal("Z_LIT", "z"));
    set.register(literal("M_LIT", "m"));
    let entries = set.resolve_all(&ctx()).unwrap();
    let ids: Vec<&str> = entries.iter().map(|e| e.identifier.as_str()).collect();
    assert_eq!(ids, vec!["BUILD_OS", "M_LIT", "Z_LIT", "A_TPL"]);
    assert_eq!(entries[3].value.v, "z");
}

#[test]
fn env_var_hook_reads_the_snapshot() {
    let mut set = ConstantSet::new();
    set.register(ConstantHook::env_var(
        String::from("MY_ENV"),
        String::from("an env value"),
        String::from("VAR1"),
    ));
    let entries = set.resolve_all(&ctx()).unwrap();
    assert_eq!(entries[1].identifier, "MY_ENV");
    assert_eq!(entries[1].value.v, "val1");
    assert_eq!(entries[1].value.t, ConstType::Str);
}

#[test]
fn missing_env_var_is_an_external_signal_failure() {
    let mut set = ConstantSet::new();
    set.register(ConstantHook::env_var(
        String::from("MY_ENV"),
        String::from("an env value"),
        String::from("ABSENT_VAR"),
    ));
    match set.resolve_all(&ctx()) {
        Err(BuildTimingError::ExternalSignalFailure(name)) => assert_eq!(name, "ABSENT_VAR"),
        other => panic!("expected an external-signal failure, got {:?}", other),
    }
}

#[test]
fn build_time_hook_reads_the_snapshot() {
    let mut set = ConstantSet::new();
    set.register(ConstantHook::build_time(
        String::from("BUILD_TIME"),
        String::from("when the build ran"),
    ));
    let entries = set.resolve_all(&ctx()).unwrap();
    assert_eq!(entries[1].identifier, "BUILD_TIME");
    assert_eq!(entries[1].value.v, "Thu, 01 Jan 1970 00:00:00 +0000");
}

#[test]
fn resolve_template_substitutes_directly() {
    let mut resolved = StrTable::new();
    resolved.insert(String::from("A"), String::from("1"));
    let known = vec![String::from("A")];
    let out = build_timing::template::resolve_template("x{A}y", &resolved, &known).unwrap();
    assert_eq!(out, "x1y");
}

#[test]
fn str_table_later_binding_wins() {
    let mut t = StrTable::new();
    t.insert(String::from("k"), String::from("one"));
    t.insert(String::from("k"), String::from("two"));
    assert_eq!(t.get("k").unwrap().as_str(), "two");
    assert!(t.get("absent").is_none());
    assert!(t.contains("k"));
}

#[test]
fn build_timing_error_new_wraps_the_message() {
    match BuildTimingError::new(String::from("boom")) {
        BuildTimingError::ExternalSignalFailure(m) => assert_eq!(m, "boom"),
        other => panic!("expected an external-signal failure, got {:?}", other),
    }
}

#[test]
fn resolved_const_fields_round_trip() {
    let c = ResolvedConst {
        identifier: String::from("N"),
        value: ConstVal {
            desc: String::from("d"),
            v: String::from("7"),
            t: ConstType::Uint,
        },
    };
    assert_eq!(c.identifier, "N");
    assert_eq!(c.value.v, "7");
}
