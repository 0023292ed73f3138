use compleet::border::{Border, BorderStyle, IncompleteBorder};
use compleet::setup::{plan_setup, PreferencesOutcome, SetupPlan};
use compleet::sources::validate;
use compleet::{SourceConfig, Sources};

#[test]
fn a_named_source_validates() {
    assert!(validate(&SourceConfig { name: "lsp", enabled: true }).is_ok());
}

#[test]
fn an_unnamed_source_is_rejected() {
    assert!(validate(&SourceConfig { name: "", enabled: true }).is_err());
}

#[test]
fn the_registry_keeps_enabled_sources_in_configuration_order() {
    let configs = vec![
        SourceConfig { name: "lipsum", enabled: true },
        SourceConfig { name: "lsp", enabled: false },
        SourceConfig { name: "", enabled: true },
        SourceConfig { name: "snippets", enabled: true },
    ];
    let sources = Sources::from_configs(&configs).unwrap();
    assert_eq!(sources.len(), 2);
    assert_eq!(sources.name_of(0), "lipsum");
    assert_eq!(sources.name_of(1), "snippets");
}

#[test]
fn zero_enabled_sources_report_an_empty_registry() {
    let configs = vec![SourceConfig { name: "lsp", enabled: false }];
    assert!(Sources::from_configs(&configs).is_err());
    // The setup step reports it and never enters the request-handling
    // state: no registry, hence no channel, is ever built.
    let plan = plan_setup(true, PreferencesOutcome::Parsed(configs), &Vec::new(), false);
    assert!(matches!(plan, SetupPlan::ReportEmptyRegistry(_)));
}

#[test]
fn absent_preferences_fall_back_to_the_defaults() {
    let defaults = vec![SourceConfig { name: "lipsum", enabled: true }];
    let plan = plan_setup(true, PreferencesOutcome::Absent, &defaults, false);
    match plan {
        SetupPlan::Initialize(sources) => {
            assert_eq!(sources.len(), 1);
            assert_eq!(sources.name_of(0), "lipsum");
        }
        other => panic!("expected an initialization plan, got {:?}", other),
    }
}

#[test]
fn an_unsupported_host_is_reported_first() {
    let plan = plan_setup(false, PreferencesOutcome::Malformed, &Vec::new(), false);
    assert!(matches!(plan, SetupPlan::ReportUnsupportedHost));
}

#[test]
fn malformed_preferences_are_reported() {
    let plan = plan_setup(true, PreferencesOutcome::Malformed, &Vec::new(), false);
    assert!(matches!(plan, SetupPlan::ReportMalformedPreferences));
}

#[test]
fn non_table_preferences_are_reported() {
    let plan = plan_setup(true, PreferencesOutcome::NotATable, &Vec::new(), false);
    assert!(matches!(plan, SetupPlan::ReportInvalidPreferences));
}

#[test]
fn a_configured_session_is_left_alone() {
    let defaults = vec![SourceConfig { name: "lipsum", enabled: true }];
    let plan = plan_setup(true, PreferencesOutcome::Absent, &defaults, true);
    assert!(matches!(plan, SetupPlan::AlreadyConfigured));
}

#[test]
fn a_partial_border_falls_back_field_by_field() {
    let fallback = Border { enable: true, style: BorderStyle::Single };
    let partial = IncompleteBorder { maybe_enable: None, maybe_style: Some(BorderStyle::Rounded) };
    let resolved = partial.complete(fallback);
    assert_eq!(resolved, Border { enable: true, style: BorderStyle::Rounded });
}

#[test]
fn a_full_border_overrides_the_fallback() {
    let fallback = Border { enable: true, style: BorderStyle::Single };
    let full = IncompleteBorder { maybe_enable: Some(false), maybe_style: Some(BorderStyle::Shadow) };
    let resolved = full.complete(fallback);
    assert_eq!(resolved, Border { enable: false, style: BorderStyle::Shadow });
}

#[test]
fn an_empty_partial_border_is_the_fallback() {
    let fallback = Border { enable: false, style: BorderStyle::Double };
    let empty = IncompleteBorder { maybe_enable: None, maybe_style: None };
    assert_eq!(empty.complete(fallback), fallback);
}
