use crate::sources::{admitted_sources, EmptyRegistry, SourceConfig, Sources};
use vstd::prelude::*;

verus! {

/// What became of the user's preferences on their way in, as reported by
/// the host-side deserialization edge.
#[derive(Debug)]
pub enum PreferencesOutcome {
    /// No preferences were handed over: the defaults apply.
    Absent,
    /// The preferences parsed: the provider configurations, in
    /// configuration order.
    Parsed(Vec<SourceConfig>),
    /// The preferences were a table but did not deserialize; the host
    /// reports the offending option path to the user.
    Malformed,
    /// The preferences were neither absent nor a table.
    NotATable,
}

/// The decision the setup entry point takes: a terminal report, or
/// the registry to initialize the session around.
#[derive(Debug)]
pub enum SetupPlan {
    /// The host editor is too old: report and leave the session untouched.
    ReportUnsupportedHost,
    /// The preferences did not deserialize: report the malformed option
    /// and leave the session untouched.
    ReportMalformedPreferences,
    /// The preferences were neither absent nor a table: report and leave
    /// the session untouched.
    ReportInvalidPreferences,
    /// Zero sources are enabled: reported once at setup; the session never
    /// enters the request-handling state.
    ReportEmptyRegistry(EmptyRegistry),
    /// First successful setup: initialize the session around this
    /// registry.
    Initialize(Sources),
    /// Setup already ran: the session keeps its existing state.
    AlreadyConfigured,
}

/// The configurations that count: the parsed ones, the defaults when the
/// preferences are absent, none when they are unusable.
pub open spec fn spec_effective_configs(
    prefs: PreferencesOutcome,
    defaults: Seq<SourceConfig>,
) -> Seq<SourceConfig> {
    match prefs {
        PreferencesOutcome::Absent => defaults,
        PreferencesOutcome::Parsed(configs) => configs@,
        PreferencesOutcome::Malformed => Seq::empty(),
        PreferencesOutcome::NotATable => Seq::empty(),
    }
}

/// The pure decision skeleton of the setup entry point: an unsupported
/// host and unusable preferences are reported; with usable ones the
/// admitted sources form the registry, an empty registry is reported as
/// such, and a session that is already configured is left alone.
pub fn plan_setup(
    host_supported: bool,
    prefs: PreferencesOutcome,
    defaults: &Vec<SourceConfig>,
    did_setup: bool,
) -> (plan: SetupPlan)
    ensures
        !host_supported <==> plan is ReportUnsupportedHost,
        (host_supported && prefs is Malformed) <==> plan is ReportMalformedPreferences,
        (host_supported && prefs is NotATable) <==> plan is ReportInvalidPreferences,
        host_supported && (prefs is Absent || prefs is Parsed) ==> (plan is ReportEmptyRegistry
            <==> admitted_sources(spec_effective_configs(prefs, defaults@)).len() == 0),
        host_supported && (prefs is Absent || prefs is Parsed) ==> (plan is AlreadyConfigured <==>
            admitted_sources(spec_effective_configs(prefs, defaults@)).len() > 0 && did_setup),
        host_supported && (prefs is Absent || prefs is Parsed) ==> (plan is Initialize <==>
            admitted_sources(spec_effective_configs(prefs, defaults@)).len() > 0 && !did_setup),
        plan matches SetupPlan::Initialize(s) ==> s.sources@ == admitted_sources(
            spec_effective_configs(prefs, defaults@),
        ) && s.wf(),
{
    if !host_supported {
        return SetupPlan::ReportUnsupportedHost;
    }
    match prefs {
        PreferencesOutcome::Malformed => SetupPlan::ReportMalformedPreferences,
        PreferencesOutcome::NotATable => SetupPlan::ReportInvalidPreferences,
        PreferencesOutcome::Absent => plan_from_configs(defaults, did_setup),
        PreferencesOutcome::Parsed(configs) => plan_from_configs(&configs, did_setup),
    }
}

/// The registry part of the plan, from the effective configurations.
fn plan_from_configs(configs: &Vec<SourceConfig>, did_setup: bool) -> (plan: SetupPlan)
    ensures
        plan is ReportEmptyRegistry <==> admitted_sources(configs@).len() == 0,
        plan is AlreadyConfigured <==> admitted_sources(configs@).len() > 0 && did_setup,
        plan is Initialize <==> admitted_sources(configs@).len() > 0 && !did_setup,
        plan matches SetupPlan::Initialize(s) ==> s.sources@ == admitted_sources(configs@)
            && s.wf(),
{
    match Sources::from_configs(configs) {
        Err(empty) => SetupPlan::ReportEmptyRegistry(empty),
        Ok(sources) => {
            if did_setup {
                SetupPlan::AlreadyConfigured
            } else {
                SetupPlan::Initialize(sources)
            }
        },
    }
}

} // verus!
