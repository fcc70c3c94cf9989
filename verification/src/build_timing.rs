//! The generation engine: resolves the constant set, serializes the
//! resolved constants into the output fragment, and declares the rebuild
//! triggers. Everything is computed fully in memory; any failure aborts
//! the whole step before anything is handed to the writer.

use vstd::prelude::*;

use crate::builder::BuildPattern;
use crate::builder::PatternModel;
use crate::builder::Trigger;
use crate::builder::TriggerModel;
use crate::builder::declared_triggers;
use crate::builder::triggers_view;
use crate::constant_set::ConstType;
use crate::constant_set::ConstantSet;
use crate::constant_set::EntryModel;
use crate::constant_set::HookModel;
use crate::constant_set::ResolvedConst;
use crate::constant_set::entries_view;
use crate::constant_set::env_var_names;
use crate::constant_set::ids_sorted;
use crate::constant_set::resolve_all_model;
use crate::env::BuildContext;
use crate::env::ContextModel;
use crate::err::BtResult;
use crate::err::BuildTimingError;
use crate::err::ErrorModel;
use crate::text::all_ascii;
use crate::text::all_digits;
use crate::text::check_all_ascii;
use crate::text::check_all_digits;
use crate::text::escape;
use crate::text::escaped;
use crate::text::str_eq;

verus! {

/// The type the emitted constant declaration carries.
pub open spec fn type_token(t: ConstType) -> Seq<char> {
    match t {
        ConstType::Str => "&str"@,
        ConstType::TemplateResult => "&str"@,
        ConstType::Bool => "bool"@,
        ConstType::Uint => "u64"@,
        ConstType::Bytes => "&[u8]"@,
    }
}

/// Whether a resolved value can be written as a valid literal of its
/// kind. String-like values always can, since they are escaped; a
/// boolean must read `true` or `false`; an unsigned integer must be one
/// to nineteen decimal digits (so it always fits the emitted type); a
/// byte sequence must be plain ASCII.
pub open spec fn entry_valid(e: EntryModel) -> bool {
    match e.1.t {
        ConstType::Str => true,
        ConstType::TemplateResult => true,
        ConstType::Bool => e.1.v == "true"@ || e.1.v == "false"@,
        ConstType::Uint => 0 < e.1.v.len() <= 19 && all_digits(e.1.v),
        ConstType::Bytes => all_ascii(e.1.v),
    }
}

/// The literal text a valid value is embedded as.
pub open spec fn literal_text(t: ConstType, v: Seq<char>) -> Seq<char> {
    match t {
        ConstType::Str => "\""@ + escaped(v) + "\""@,
        ConstType::TemplateResult => "\""@ + escaped(v) + "\""@,
        ConstType::Bool => v,
        ConstType::Uint => v,
        ConstType::Bytes => "b\""@ + escaped(v) + "\""@,
    }
}

/// The block one resolved constant is emitted as: a lint-silencing
/// attribute, the description as a doc attribute, and the constant
/// declaration itself.
pub open spec fn entry_block(e: EntryModel) -> Seq<char> {
    crate::CARGO_CLIPPY_ALLOW_ALL@ + "\n"@ + "#[doc = \""@ + escaped(e.1.desc) + "\"]\n"@
        + "pub const "@ + e.0 + ": "@ + type_token(e.1.t) + " = "@ + literal_text(e.1.t, e.1.v)
        + ";\n\n"@
}

/// The whole fragment: every entry's block, in resolution order.
pub open spec fn fragment_of(es: Seq<EntryModel>) -> Seq<char>
    decreases es.len(),
{
    if es.len() == 0 {
        Seq::empty()
    } else {
        fragment_of(es.drop_last()) + entry_block(es.last())
    }
}

/// The identifier of the first entry that is not a valid literal, if any.
pub open spec fn first_invalid(es: Seq<EntryModel>) -> Option<Seq<char>>
    decreases es.len(),
{
    if es.len() == 0 {
        None
    } else if !entry_valid(es[0]) {
        Some(es[0].0)
    } else {
        first_invalid(es.skip(1))
    }
}

/// What serializing a sequence of entries yields: the fragment, or a
/// serialization failure naming the first invalid constant.
pub open spec fn fragment_model(es: Seq<EntryModel>) -> Result<Seq<char>, ErrorModel> {
    match first_invalid(es) {
        Some(id) => Err(ErrorModel::SerializationFailure(id)),
        None => Ok(fragment_of(es)),
    }
}

proof fn lemma_first_invalid_skip(es: Seq<EntryModel>, i: int)
    requires
        0 <= i <= es.len(),
        forall|k: int| 0 <= k < i ==> entry_valid(#[trigger] es[k]),
    ensures
        first_invalid(es) == first_invalid(es.skip(i)),
    decreases i,
{
    if i > 0 {
        assert(entry_valid(es[0]));
        assert forall|k: int| 0 <= k < i - 1 implies entry_valid(#[trigger] es.skip(1)[k]) by {
            assert(es.skip(1)[k] == es[k + 1]);
        }
        lemma_first_invalid_skip(es.skip(1), i - 1);
        assert(es.skip(1).skip(i - 1) =~= es.skip(i));
    } else {
        assert(es.skip(0) =~= es);
    }
}

/// Decides `entry_valid`.
fn check_entry(e: &ResolvedConst) -> (r: bool)
    ensures
        r == entry_valid(e@),
{
    match e.value.t {
        ConstType::Str => true,
        ConstType::TemplateResult => true,
        ConstType::Bool => {
            let is_true = str_eq(e.value.v.as_str(), "true");
            let is_false = str_eq(e.value.v.as_str(), "false");
            is_true || is_false
        },
        ConstType::Uint => {
            let n = e.value.v.as_str().unicode_len();
            if n == 0 || n > 19 {
                false
            } else {
                check_all_digits(e.value.v.as_str())
            }
        },
        ConstType::Bytes => check_all_ascii(e.value.v.as_str()),
    }
}

/// Appends one entry's block to the fragment under construction.
#[verifier::rlimit(30)]
fn append_entry(out: &mut String, e: &ResolvedConst)
    requires
        entry_valid(e@),
    ensures
        final(out)@ == old(out)@ + entry_block(e@),
{
    out.append(crate::CARGO_CLIPPY_ALLOW_ALL);
    out.append("\n");
    out.append("#[doc = \"");
    let d = escape(e.value.desc.as_str());
    out.append(d.as_str());
    out.append("\"]\n");
    out.append("pub const ");
    out.append(e.identifier.as_str());
    out.append(": ");
    match e.value.t {
        ConstType::Str => {
            out.append("&str");
            out.append(" = ");
            out.append("\"");
            let v = escape(e.value.v.as_str());
            out.append(v.as_str());
            out.append("\"");
        },
        ConstType::TemplateResult => {
            out.append("&str");
            out.append(" = ");
            out.append("\"");
            let v = escape(e.value.v.as_str());
            out.append(v.as_str());
            out.append("\"");
        },
        ConstType::Bool => {
            out.append("bool");
            out.append(" = ");
            out.append(e.value.v.as_str());
        },
        ConstType::Uint => {
            out.append("u64");
            out.append(" = ");
            out.append(e.value.v.as_str());
        },
        ConstType::Bytes => {
            out.append("&[u8]");
            out.append(" = ");
            out.append("b\"");
            let v = escape(e.value.v.as_str());
            out.append(v.as_str());
            out.append("\"");
        },
    }
    out.append(";\n\n");
    proof {
        assert(final(out)@ =~= old(out)@ + entry_block(e@));
    }
}

/// Serializes resolved constants into the output fragment; fails on the
/// first value that is not a valid literal of its kind.
pub fn serialize_fragment(entries: &Vec<ResolvedConst>) -> (r: BtResult<String>)
    ensures
        match r {
            Ok(s) => fragment_model(entries_view(entries@)) == Ok::<Seq<char>, ErrorModel>(s@),
            Err(e) => fragment_model(entries_view(entries@)) == Err::<Seq<char>, ErrorModel>(e@),
        },
{
    let ghost ev = entries_view(entries@);
    let mut out = String::new();
    let mut i: usize = 0;
    proof {
        assert(ev.take(0) =~= Seq::<EntryModel>::empty());
        assert(out@ =~= fragment_of(ev.take(0)));
    }
    while i < entries.len()
        invariant
            i <= entries@.len(),
            ev == entries_view(entries@),
            ev.len() == entries@.len(),
            forall|k: int| 0 <= k < i ==> entry_valid(#[trigger] ev[k]),
            out@ == fragment_of(ev.take(i as int)),
        decreases entries@.len() - i,
    {
        let e = &entries[i];
        proof {
            assert(e@ == ev[i as int]);
        }
        if !check_entry(e) {
            proof {
                lemma_first_invalid_skip(ev, i as int);
                assert(ev.skip(i as int)[0] == ev[i as int]);
            }
            return Err(BuildTimingError::SerializationFailure(e.identifier.clone()));
        }
        append_entry(&mut out, e);
        proof {
            assert(ev.take(i + 1).drop_last() =~= ev.take(i as int));
            assert(ev.take(i + 1).last() == ev[i as int]);
        }
        i += 1;
    }
    proof {
        lemma_first_invalid_skip(ev, ev.len() as int);
        assert(ev.skip(ev.len() as int) =~= Seq::<EntryModel>::empty());
        assert(ev.take(ev.len() as int) =~= ev);
    }
    Ok(out)
}

/// Ghost model of a [`BuildTiming`] engine.
pub struct EngineModel {
    pub hooks: Seq<HookModel>,
    pub pattern: PatternModel,
    pub context: ContextModel,
    pub output_path: Seq<char>,
}

/// What one generation run produces: the fragment to write and the
/// triggers to declare.
pub struct GeneratedOutput {
    pub fragment: String,
    pub triggers: Vec<Trigger>,
}

/// What generation means: resolve every hook, serialize the resolved
/// constants, and declare the triggers of the selected policy, watching
/// every environment variable the hooks read.
pub open spec fn generate_model(
    hooks: Seq<HookModel>,
    pattern: PatternModel,
    ctx: ContextModel,
    out_path: Seq<char>,
) -> Result<(Seq<char>, Seq<TriggerModel>), ErrorModel> {
    match resolve_all_model(hooks, ctx) {
        Err(e) => Err(e),
        Ok(es) => match first_invalid(es) {
            Some(id) => Err(ErrorModel::SerializationFailure(id)),
            None => Ok(
                (
                    fragment_of(es),
                    declared_triggers(pattern, env_var_names(hooks), out_path, ctx.is_debug),
                ),
            ),
        },
    }
}

/// Generation is a function of the registered hooks, the policy, the
/// environment snapshot and the output path alone: two runs over
/// identical inputs produce identical fragments and triggers.
pub proof fn lemma_generation_idempotent(a: EngineModel, b: EngineModel)
    requires
        a.hooks == b.hooks,
        a.pattern == b.pattern,
        a.context == b.context,
        a.output_path == b.output_path,
    ensures
        generate_model(a.hooks, a.pattern, a.context, a.output_path) == generate_model(
            b.hooks,
            b.pattern,
            b.context,
            b.output_path,
        ),
{
}

/// One generation engine: exclusive owner of its constant set, policy
/// and context for the duration of one build invocation.
pub struct BuildTiming {
    set: ConstantSet,
    pattern: BuildPattern,
    context: BuildContext,
    output_path: String,
}

impl View for BuildTiming {
    type V = EngineModel;

    closed spec fn view(&self) -> EngineModel {
        EngineModel {
            hooks: self.set@,
            pattern: self.pattern@,
            context: self.context@,
            output_path: self.output_path@,
        }
    }
}

impl BuildTiming {
    /// The engine's hooks stay in strict identifier order.
    pub open spec fn well_formed(&self) -> bool {
        ids_sorted(self@.hooks)
    }

    /// Assembles an engine from a finished configuration.
    pub fn assemble(
        set: ConstantSet,
        pattern: BuildPattern,
        context: BuildContext,
        output_path: String,
    ) -> (r: Self)
        ensures
            r@ == (EngineModel {
                hooks: set@,
                pattern: pattern@,
                context: context@,
                output_path: output_path@,
            }),
    {
        BuildTiming { set, pattern, context, output_path }
    }

    /// The path the fragment is written to.
    pub fn output_path(&self) -> (r: &String)
        ensures
            r@ == self@.output_path,
    {
        &self.output_path
    }

    /// Runs one generation: resolves every hook in deterministic order,
    /// serializes the fragment fully in memory, and declares the rebuild
    /// triggers. Any failure aborts the step with nothing emitted.
    pub fn generate(&self) -> (r: BtResult<GeneratedOutput>)
        requires
            self.well_formed(),
        ensures
            match r {
                Ok(g) => generate_model(self@.hooks, self@.pattern, self@.context, self@.output_path)
                    == Ok::<(Seq<char>, Seq<TriggerModel>), ErrorModel>(
                    (g.fragment@, triggers_view(g.triggers@)),
                ),
                Err(e) => generate_model(
                    self@.hooks,
                    self@.pattern,
                    self@.context,
                    self@.output_path,
                ) == Err::<(Seq<char>, Seq<TriggerModel>), ErrorModel>(e@),
            },
    {
        let entries = match self.set.resolve_all(&self.context) {
            Ok(es) => es,
            Err(e) => {
                return Err(e);
            },
        };
        let fragment = match serialize_fragment(&entries) {
            Ok(s) => s,
            Err(e) => {
                return Err(e);
            },
        };
        let extra = self.set.env_signal_names();
        let triggers = self.pattern.declare_triggers(
            &extra,
            self.output_path.as_str(),
            self.context.is_debug,
        );
        Ok(GeneratedOutput { fragment, triggers })
    }
}

} // verus!
