//! Rebuild policy and the builder that assembles a generation engine.
//!
//! The policy decides, once per build invocation, which external signals
//! are declared to the host build tool as regeneration triggers. It can
//! never fail: it only decides what to declare.

use vstd::prelude::*;

use crate::Format;
use crate::build_timing::BuildTiming;
use crate::constant_set::ConstantHook;
use crate::constant_set::ConstantSet;
use crate::constant_set::HookModel;
use crate::constant_set::baseline_hook;
use crate::constant_set::ids_sorted;
use crate::constant_set::insert_hook;
use crate::env::BuildContext;
use crate::env::ContextModel;
use crate::err::BtResult;
use crate::err::BuildTimingError;
use crate::err::ErrorModel;
use crate::template::str_views;

verus! {

/// The reserved environment variable that overrides the build timestamp;
/// changing it always forces regeneration.
pub const DEFINE_SOURCE_DATE_EPOCH: &'static str = "SOURCE_DATE_EPOCH";

/// Ghost model of a [`Trigger`].
pub enum TriggerModel {
    Path(Seq<char>),
    Env(Seq<char>),
}

/// One declaration to the host build tool: rerun generation when a path
/// or an external variable changes.
pub enum Trigger {
    PathChanged(String),
    EnvChanged(String),
}

impl View for Trigger {
    type V = TriggerModel;

    open spec fn view(&self) -> TriggerModel {
        match self {
            Trigger::PathChanged(p) => TriggerModel::Path(p@),
            Trigger::EnvChanged(v) => TriggerModel::Env(v@),
        }
    }
}

/// The notification line a trigger is emitted as.
pub open spec fn trigger_line(t: TriggerModel) -> Seq<char> {
    match t {
        TriggerModel::Path(p) => "cargo:rerun-if-changed="@ + p,
        TriggerModel::Env(v) => "cargo:rerun-if-env-changed="@ + v,
    }
}

impl Trigger {
    /// Renders the trigger as the line handed to the build tool's
    /// notification channel.
    pub fn render(&self) -> (r: String)
        ensures
            r@ == trigger_line(self@),
    {
        match self {
            Trigger::PathChanged(p) => {
                let mut s = String::from_str("cargo:rerun-if-changed=");
                s.append(p.as_str());
                s
            },
            Trigger::EnvChanged(v) => {
                let mut s = String::from_str("cargo:rerun-if-env-changed=");
                s.append(v.as_str());
                s
            },
        }
    }
}

impl Format for Trigger {
    fn human_format(&self) -> String {
        self.render()
    }
}

/// Ghost model of a [`BuildPattern`].
pub enum PatternModel {
    Lazy,
    RealTime,
    Custom { paths: Seq<Seq<char>>, vars: Seq<Seq<char>> },
}

/// The rebuild policy, selected once per build invocation.
pub enum BuildPattern {
    /// Declare nothing beyond the unconditional triggers; under a debug
    /// profile this skips every extra regeneration cause.
    Lazy,
    /// Rely on the build tool's own change detection plus the
    /// unconditional triggers.
    RealTime,
    /// Additionally declare one trigger per listed path and one per
    /// listed external variable, in the given order.
    Custom { if_path_changed: Vec<String>, if_env_changed: Vec<String> },
}

impl View for BuildPattern {
    type V = PatternModel;

    open spec fn view(&self) -> PatternModel {
        match self {
            BuildPattern::Lazy => PatternModel::Lazy,
            BuildPattern::RealTime => PatternModel::RealTime,
            BuildPattern::Custom { if_path_changed, if_env_changed } => PatternModel::Custom {
                paths: str_views(if_path_changed@),
                vars: str_views(if_env_changed@),
            },
        }
    }
}

/// The triggers every policy declares: one per environment-derived
/// identifier the caller supplies, one for the reserved timestamp
/// override variable, and one for the output file itself.
pub open spec fn unconditional_triggers(extra: Seq<Seq<char>>, out_path: Seq<char>) -> Seq<
    TriggerModel,
> {
    extra.map_values(|v: Seq<char>| TriggerModel::Env(v)).push(
        TriggerModel::Env(DEFINE_SOURCE_DATE_EPOCH@),
    ).push(TriggerModel::Path(out_path))
}

/// What each policy declares. `Lazy` and `RealTime` both declare exactly
/// the unconditional set — under a debug profile `Lazy` adds nothing, and
/// under any other profile it behaves as `RealTime`, which itself adds
/// nothing; `Custom` appends its configured paths and variables.
pub open spec fn declared_triggers(
    p: PatternModel,
    extra: Seq<Seq<char>>,
    out_path: Seq<char>,
    is_debug: bool,
) -> Seq<TriggerModel> {
    match p {
        PatternModel::Lazy => unconditional_triggers(extra, out_path),
        PatternModel::RealTime => unconditional_triggers(extra, out_path),
        PatternModel::Custom { paths, vars } => unconditional_triggers(extra, out_path)
            + paths.map_values(|x: Seq<char>| TriggerModel::Path(x)) + vars.map_values(
            |x: Seq<char>| TriggerModel::Env(x),
        ),
    }
}

/// The ghost triggers a trigger vector stands for.
pub open spec fn triggers_view(ts: Seq<Trigger>) -> Seq<TriggerModel> {
    ts.map_values(|t: Trigger| t@)
}

/// `Lazy` under a debug profile declares exactly the unconditional
/// triggers, and under any profile the same set `RealTime` declares.
pub proof fn lemma_lazy_is_unconditional(
    extra: Seq<Seq<char>>,
    out_path: Seq<char>,
    is_debug: bool,
    other_debug: bool,
)
    ensures
        declared_triggers(PatternModel::Lazy, extra, out_path, is_debug) == unconditional_triggers(
            extra,
            out_path,
        ),
        declared_triggers(PatternModel::Lazy, extra, out_path, is_debug) == declared_triggers(
            PatternModel::RealTime,
            extra,
            out_path,
            other_debug,
        ),
{
}

impl BuildPattern {
    /// Declares this build's regeneration triggers: the unconditional
    /// set, then whatever the policy adds.
    pub fn declare_triggers(
        &self,
        extra_identifiers: &Vec<String>,
        output_path: &str,
        is_debug: bool,
    ) -> (r: Vec<Trigger>)
        ensures
            triggers_view(r@) == declared_triggers(
                self@,
                str_views(extra_identifiers@),
                output_path@,
                is_debug,
            ),
    {
        let ghost extra = str_views(extra_identifiers@);
        let mut out: Vec<Trigger> = Vec::new();
        let mut i: usize = 0;
        proof {
            assert(triggers_view(out@) =~= extra.take(0).map_values(
                |v: Seq<char>| TriggerModel::Env(v),
            ));
        }
        while i < extra_identifiers.len()
            invariant
                i <= extra_identifiers@.len(),
                extra == str_views(extra_identifiers@),
                triggers_view(out@) == extra.take(i as int).map_values(
                    |v: Seq<char>| TriggerModel::Env(v),
                ),
            decreases extra_identifiers@.len() - i,
        {
            let tr = Trigger::EnvChanged(extra_identifiers[i].clone());
            proof {
                assert(triggers_view(out@.push(tr)) =~= triggers_view(out@).push(tr@));
                assert(extra.take(i + 1) =~= extra.take(i as int).push(extra[i as int]));
                assert(extra.take(i + 1).map_values(|v: Seq<char>| TriggerModel::Env(v))
                    =~= extra.take(i as int).map_values(|v: Seq<char>| TriggerModel::Env(v)).push(
                    TriggerModel::Env(extra[i as int]),
                ));
            }
            out.push(tr);
            i += 1;
        }
        proof {
            assert(extra.take(extra.len() as int) =~= extra);
        }
        let tr_epoch = Trigger::EnvChanged(String::from_str(DEFINE_SOURCE_DATE_EPOCH));
        proof {
            assert(triggers_view(out@.push(tr_epoch)) =~= triggers_view(out@).push(tr_epoch@));
        }
        out.push(tr_epoch);
        let tr_out = Trigger::PathChanged(String::from_str(output_path));
        proof {
            assert(triggers_view(out@.push(tr_out)) =~= triggers_view(out@).push(tr_out@));
        }
        out.push(tr_out);
        proof {
            assert(triggers_view(out@) == unconditional_triggers(extra, output_path@));
        }
        match self {
            BuildPattern::Lazy => out,
            BuildPattern::RealTime => out,
            BuildPattern::Custom { if_path_changed, if_env_changed } => {
                let ghost uncond = triggers_view(out@);
                let ghost paths = str_views(if_path_changed@);
                let ghost vars = str_views(if_env_changed@);
                let mut j: usize = 0;
                proof {
                    assert(uncond + paths.take(0).map_values(
                        |x: Seq<char>| TriggerModel::Path(x),
                    ) =~= uncond);
                }
                while j < if_path_changed.len()
                    invariant
                        j <= if_path_changed@.len(),
                        paths == str_views(if_path_changed@),
                        triggers_view(out@) == uncond + paths.take(j as int).map_values(
                            |x: Seq<char>| TriggerModel::Path(x),
                        ),
                    decreases if_path_changed@.len() - j,
                {
                    let tr = Trigger::PathChanged(if_path_changed[j].clone());
                    proof {
                        assert(triggers_view(out@.push(tr)) =~= triggers_view(out@).push(tr@));
                        assert(paths.take(j + 1) =~= paths.take(j as int).push(paths[j as int]));
                        assert(uncond + paths.take(j + 1).map_values(
                            |x: Seq<char>| TriggerModel::Path(x),
                        ) =~= (uncond + paths.take(j as int).map_values(
                            |x: Seq<char>| TriggerModel::Path(x),
                        )).push(TriggerModel::Path(paths[j as int])));
                    }
                    out.push(tr);
                    j += 1;
                }
                proof {
                    assert(paths.take(paths.len() as int) =~= paths);
                }
                let ghost with_paths = triggers_view(out@);
                let mut k: usize = 0;
                proof {
                    assert(with_paths + vars.take(0).map_values(
                        |x: Seq<char>| TriggerModel::Env(x),
                    ) =~= with_paths);
                }
                while k < if_env_changed.len()
                    invariant
                        k <= if_env_changed@.len(),
                        vars == str_views(if_env_changed@),
                        triggers_view(out@) == with_paths + vars.take(k as int).map_values(
                            |x: Seq<char>| TriggerModel::Env(x),
                        ),
                    decreases if_env_changed@.len() - k,
                {
                    let tr = Trigger::EnvChanged(if_env_changed[k].clone());
                    proof {
                        assert(triggers_view(out@.push(tr)) =~= triggers_view(out@).push(tr@));
                        assert(vars.take(k + 1) =~= vars.take(k as int).push(vars[k as int]));
                        assert(with_paths + vars.take(k + 1).map_values(
                            |x: Seq<char>| TriggerModel::Env(x),
                        ) =~= (with_paths + vars.take(k as int).map_values(
                            |x: Seq<char>| TriggerModel::Env(x),
                        )).push(TriggerModel::Env(vars[k as int])));
                    }
                    out.push(tr);
                    k += 1;
                }
                proof {
                    assert(vars.take(vars.len() as int) =~= vars);
                    assert(triggers_view(out@) =~= uncond + paths.map_values(
                        |x: Seq<char>| TriggerModel::Path(x),
                    ) + vars.map_values(|x: Seq<char>| TriggerModel::Env(x)));
                }
                out
            },
        }
    }
}

/// Ghost model of a [`BuildTimingBuilder`].
pub struct BuilderModel {
    pub hooks: Seq<HookModel>,
    pub pattern: PatternModel,
    pub context: Option<ContextModel>,
    pub output_path: Option<Seq<char>>,
}

/// Collects the configuration of one generation run: the registered
/// hooks (seeded with the baseline platform hook), the rebuild policy,
/// the environment snapshot, and the output path.
pub struct BuildTimingBuilder {
    hooks: ConstantSet,
    pattern: BuildPattern,
    context: Option<BuildContext>,
    output_path: Option<String>,
}

impl View for BuildTimingBuilder {
    type V = BuilderModel;

    closed spec fn view(&self) -> BuilderModel {
        BuilderModel {
            hooks: self.hooks@,
            pattern: self.pattern@,
            context: match self.context {
                Some(c) => Some(c@),
                None => None,
            },
            output_path: match self.output_path {
                Some(p) => Some(p@),
                None => None,
            },
        }
    }
}

/// The output path a builder resolves to: the explicit path when one was
/// set, else the scratch directory the build tool hands over in the
/// `OUT_DIR` variable, with the fixed file name appended.
pub open spec fn resolved_output(b: BuilderModel) -> Option<Seq<char>> {
    match b.output_path {
        Some(p) => Some(p),
        None => match b.context {
            Some(c) => if c.vars.contains_key("OUT_DIR"@) {
                Some(c.vars["OUT_DIR"@] + "/build_timing.rs"@)
            } else {
                None
            },
            None => None,
        },
    }
}

impl BuildTimingBuilder {
    /// The builder's hooks stay in strict identifier order.
    pub open spec fn well_formed(&self) -> bool {
        ids_sorted(self@.hooks)
    }

    /// A fresh builder: baseline hooks, lazy policy, nothing else set.
    pub fn new() -> (r: Self)
        ensures
            r.well_formed(),
            r@.hooks =~= seq![baseline_hook()],
            r@.pattern == PatternModel::Lazy,
            r@.context is None,
            r@.output_path is None,
    {
        BuildTimingBuilder {
            hooks: ConstantSet::new(),
            pattern: BuildPattern::Lazy,
            context: None,
            output_path: None,
        }
    }

    /// Selects the rebuild policy.
    pub fn set_pattern(&mut self, pattern: BuildPattern)
        ensures
            final(self)@ == (BuilderModel { pattern: pattern@, ..old(self)@ }),
    {
        self.pattern = pattern;
    }

    /// Supplies the environment snapshot.
    pub fn set_context(&mut self, context: BuildContext)
        ensures
            final(self)@ == (BuilderModel { context: Some(context@), ..old(self)@ }),
    {
        self.context = Some(context);
    }

    /// Overrides the output path.
    pub fn set_output_path(&mut self, path: String)
        ensures
            final(self)@ == (BuilderModel { output_path: Some(path@), ..old(self)@ }),
    {
        self.output_path = Some(path);
    }

    /// Registers a hook; a hook of an already-registered identifier
    /// replaces the prior one.
    pub fn hook(&mut self, h: ConstantHook)
        requires
            old(self).well_formed(),
        ensures
            final(self).well_formed(),
            final(self)@ == (BuilderModel {
                hooks: insert_hook(old(self)@.hooks, h@),
                ..old(self)@
            }),
    {
        self.hooks.register(h);
    }

    /// Finishes configuration. Fails with a missing-configuration error
    /// when no context was supplied or no output path is resolvable.
    pub fn build(self) -> (r: BtResult<BuildTiming>)
        requires
            self.well_formed(),
        ensures
            match r {
                Ok(engine) => self@.context is Some && resolved_output(self@) is Some && engine@
                    == (crate::build_timing::EngineModel {
                    hooks: self@.hooks,
                    pattern: self@.pattern,
                    context: self@.context->0,
                    output_path: resolved_output(self@)->0,
                }),
                Err(e) => {
                    &&& (self@.context is None || resolved_output(self@) is None)
                    &&& e@ == (if self@.context is None {
                        ErrorModel::MissingConfiguration("no build context was supplied"@)
                    } else {
                        ErrorModel::MissingConfiguration("no output path could be resolved"@)
                    })
                },
            },
    {
        let context = match self.context {
            Some(c) => c,
            None => {
                return Err(
                    BuildTimingError::MissingConfiguration(
                        String::from_str("no build context was supplied"),
                    ),
                );
            },
        };
        let output_path = match self.output_path {
            Some(p) => p,
            None => {
                match context.vars.get("OUT_DIR") {
                    Some(dir) => {
                        let mut p = dir.clone();
                        p.append("/build_timing.rs");
                        p
                    },
                    None => {
                        return Err(
                            BuildTimingError::MissingConfiguration(
                                String::from_str("no output path could be resolved"),
                            ),
                        );
                    },
                }
            },
        };
        Ok(BuildTiming::assemble(self.hooks, self.pattern, context, output_path))
    }
}

} // verus!
