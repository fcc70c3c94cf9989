//! The rebuild policy, the fragment serializer, the builder and the
//! whole engine.

use build_timing::CARGO_CLIPPY_ALLOW_ALL;
use build_timing::Format;
use build_timing::build_timing::serialize_fragment;
use build_timing::builder::BuildPattern;
use build_timing::builder::BuildTimingBuilder;
use build_timing::builder::Trigger;
use build_timing::constant_set::ConstType;
use build_timing::constant_set::ConstVal;
use build_timing::constant_set::ConstantHook;
use build_timing::constant_set::ResolvedConst;
use build_timing::env::BuildContext;
use build_timing::err::BuildTimingError;
use build_timing::str_table::StrTable;

fn ctx_with(vars: &[(&str, &str)], is_debug: bool) -> BuildContext {
    let mut table = StrTable::new();
    for (k, v) in vars {
        table.insert(String::from(*k), String::from(*v));
    }
    BuildContext::new(
        String::from("testos"),
        String::from("testarch"),
        table,
        is_debug,
        String::from("Thu, 01 Jan 1970 00:00:00 +0000"),
    )
}

fn rendered(triggers: &[Trigger]) -> Vec<String> {
    triggers.iter().map(|t| t.render()).collect()
}

fn entry(id: &str, desc: &str, v: &str, t: ConstType) -> ResolvedConst {
    ResolvedConst {
        identifier: String::from(id),
        value: ConstVal { desc: String::from(desc), v: String::from(v), t },
    }
}

#[test]
fn lazy_under_debug_emits_exactly_the_unconditional_triggers() {
    let extra = vec![String::from("PATH_ENV")];
    let lazy = BuildPattern::Lazy.declare_triggers(&extra, "out/f.rs", true);
    assert_eq!(
        rendered(&lazy),
        vec![
            String::from("cargo:rerun-if-env-changed=PATH_ENV"),
            String::from("cargo:rerun-if-env-changed=SOURCE_DATE_EPOCH"),
            String::from("cargo:rerun-if-changed=out/f.rs"),
        ]
    );
}

#[test]
fn lazy_without_debug_matches_real_time() {
    let extra = vec![String::from("PATH_ENV")];
    let lazy = BuildPattern::Lazy.declare_triggers(&extra, "out/f.rs", false);
    let real_time = BuildPattern::RealTime.declare_triggers(&extra, "out/f.rs", true);
    assert_eq!(rendered(&lazy), rendered(&real_time));
}

#[test]
fn custom_emits_one_trigger_per_path_and_variable() {
    let pattern = BuildPattern::Custom {
        if_path_changed: vec![String::from("src/a.rs")],
        if_env_changed: vec![String::from("MY_VAR")],
    };
    let triggers = pattern.declare_triggers(&Vec::new(), "out/f.rs", false);
    assert_eq!(
        rendered(&triggers),
        vec![
            String::from("cargo:rerun-if-env-changed=SOURCE_DATE_EPOCH"),
            String::from("cargo:rerun-if-changed=out/f.rs"),
            String::from("cargo:rerun-if-changed=src/a.rs"),
            String::from("cargo:rerun-if-env-changed=MY_VAR"),
        ]
    );
}

#[test]
fn trigger_human_format_is_the_notification_line() {
    let t = Trigger::EnvChanged(String::from("V"));
    assert_eq!(t.human_format(), "cargo:rerun-if-env-changed=V");
}

#[test]
fn fragment_has_exact_shape_and_escapes_values() {
    let entries = vec![entry("NAME", "a doc", "va\"l", ConstType::Str)];
    let fragment = serialize_fragment(&entries).unwrap();
    let expected = format!(
        "{}\n#[doc = \"a doc\"]\npub const NAME: &str = \"va\\\"l\";\n\n",
        CARGO_CLIPPY_ALLOW_ALL
    );
    assert_eq!(fragment, expected);
}

#[test]
fn fragment_uint_and_bool_and_bytes() {
    let entries = vec![
        entry("B", "flag", "true", ConstType::Bool),
        entry("N", "count", "42", ConstType::Uint),
        entry("Y", "bytes", "abc", ConstType::Bytes),
    ];
    let fragment = serialize_fragment(&entries).unwrap();
    assert!(fragment.contains("pub const B: bool = true;\n"));
    assert!(fragment.contains("pub const N: u64 = 42;\n"));
    assert!(fragment.contains("pub const Y: &[u8] = b\"abc\";\n"));
}

#[test]
fn invalid_bool_is_a_serialization_failure() {
    let entries = vec![entry("B", "flag", "maybe", ConstType::Bool)];
    match serialize_fragment(&entries) {
        Err(BuildTimingError::SerializationFailure(id)) => assert_eq!(id, "B"),
        other => panic!("expected a serialization failure, got {:?}", other),
    }
}

#[test]
fn invalid_uint_is_a_serialization_failure() {
    let entries = vec![entry("N", "count", "12345678901234567890", ConstType::Uint)];
    assert!(matches!(
        serialize_fragment(&entries),
        Err(BuildTimingError::SerializationFailure(_))
    ));
    let entries = vec![entry("N", "count", "4x2", ConstType::Uint)];
    assert!(matches!(
        serialize_fragment(&entries),
        Err(BuildTimingError::SerializationFailure(_))
    ));
}

#[test]
fn builder_without_context_is_missing_configuration() {
    let builder = BuildTimingBuilder::new();
    match builder.build() {
        Err(BuildTimingError::MissingConfiguration(m)) => {
            assert_eq!(m, "no build context was supplied");
        }
        Err(other) => panic!("expected a missing-configuration error, got {:?}", other),
        Ok(_) => panic!("expected a missing-configuration error"),
    }
}

#[test]
fn builder_without_resolvable_output_path_is_missing_configuration() {
    let mut builder = BuildTimingBuilder::new();
    builder.set_context(ctx_with(&[], true));
    match builder.build() {
        Err(BuildTimingError::MissingConfiguration(m)) => {
            assert_eq!(m, "no output path could be resolved");
        }
        Err(other) => panic!("expected a missing-configuration error, got {:?}", other),
        Ok(_) => panic!("expected a missing-configuration error"),
    }
}

#[test]
fn builder_resolves_output_path_from_the_scratch_directory() {
    let mut builder = BuildTimingBuilder::new();
    builder.set_context(ctx_with(&[("OUT_DIR", "scratch")], true));
    let engine = builder.build().unwrap();
    assert_eq!(engine.output_path().as_str(), "scratch/build_timing.rs");
}

#[test]
fn generation_is_idempotent() {
    let make = || {
        let mut builder = BuildTimingBuilder::new();
        builder.set_context(ctx_with(&[("VAR1", "val1")], true));
        builder.set_output_path(String::from("out/build_timing.rs"));
        builder.hook(ConstantHook::literal(
            String::from("GREETING"),
            String::from("a greeting"),
            String::from("hi"),
            ConstType::Str,
        ));
        builder.hook(ConstantHook::template(
            String::from("MSG"),
            String::from("a message"),
            String::from("say {GREETING}"),
        ));
        builder.build().unwrap()
    };
    let first = make().generate().unwrap();
    let second = make().generate().unwrap();
    assert_eq!(first.fragment, second.fragment);
    assert_eq!(rendered(&first.triggers), rendered(&second.triggers));
    let engine = make();
    let third = engine.generate().unwrap();
    let fourth = engine.generate().unwrap();
    assert_eq!(third.fragment, fourth.fragment);
}

#[test]
fn engine_watches_the_variables_its_hooks_read() {
    let mut builder = BuildTimingBuilder::new();
    builder.set_context(ctx_with(&[("VAR1", "val1")], true));
    builder.set_output_path(String::from("out/build_timing.rs"));
    builder.hook(ConstantHook::env_var(
        String::from("MY_ENV"),
        String::from("an env value"),
        String::from("VAR1"),
    ));
    let engine = builder.build().unwrap();
    let output = engine.generate().unwrap();
    let lines = rendered(&output.triggers);
    assert!(lines.contains(&String::from("cargo:rerun-if-env-changed=VAR1")));
    assert!(lines.contains(&String::from("cargo:rerun-if-env-changed=SOURCE_DATE_EPOCH")));
    assert!(lines.contains(&String::from("cargo:rerun-if-changed=out/build_timing.rs")));
    assert!(output.fragment.contains("pub const MY_ENV: &str = \"val1\";"));
    assert!(output.fragment.contains("pub const BUILD_OS: &str = \"testos-testarch\";"));
}

#[test]
fn generated_fragment_is_byte_exact_for_the_baseline() {
    let mut builder = BuildTimingBuilder::new();
    builder.set_context(ctx_with(&[], true));
    builder.set_output_path(String::from("out/build_timing.rs"));
    let engine = builder.build().unwrap();
    let output = engine.generate().unwrap();
    let expected = format!(
        "{}\n#[doc = \"{}\"]\npub const BUILD_OS: &str = \"testos-testarch\";\n\n",
        CARGO_CLIPPY_ALLOW_ALL,
        build_timing::text::escape(build_timing::env::BUILD_OS_DOC),
    );
    assert_eq!(output.fragment, expected);
}

#[test]
fn failed_resolution_emits_no_fragment() {
    let mut builder = BuildTimingBuilder::new();
    builder.set_context(ctx_with(&[], true));
    builder.set_output_path(String::from("out/build_timing.rs"));
    builder.hook(ConstantHook::template(
        String::from("MSG"),
        String::from("a message"),
        String::from("{NOPE}"),
    ));
    let engine = builder.build().unwrap();
    assert!(matches!(
        engine.generate(),
        Err(BuildTimingError::UnknownConstant { .. })
    ));
}
