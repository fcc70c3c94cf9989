//! Constant hooks and the deduplicated, identifier-ordered set of them.
//!
//! A hook is a named provider of one constant value: a literal, an
//! environment-derived signal, or a template over other constants.
//! Registering a hook whose identifier is already present replaces the
//! prior entry (last registration wins). The set keeps its hooks in strict
//! identifier order, so resolution is deterministic.

use vstd::prelude::*;

use crate::env::BuildContext;
use crate::env::ContextModel;
use crate::env::platform_of;
use crate::err::BtResult;
use crate::err::BuildTimingError;
use crate::err::ErrorModel;
use crate::str_table::StrTable;
use crate::template::TemplateFailure;
use crate::template::TemplateOutcome;
use crate::template::lemma_template_all_resolved;
use crate::template::references;
use crate::template::resolve_template;
use crate::template::strset;
use crate::template::substitute;
use crate::text::lex_lt;
use crate::text::lemma_lex_irrefl;
use crate::text::lemma_lex_total;
use crate::text::lemma_lex_trans;
use crate::text::str_eq;
use crate::text::str_lt;

verus! {

/// The kind of an emitted constant: which literal form its serialized
/// value must take in the generated fragment.
#[derive(Clone, Copy, PartialEq, Eq, Structural, Debug)]
pub enum ConstType {
    /// A string literal.
    Str,
    /// `true` or `false`.
    Bool,
    /// A byte-string literal.
    Bytes,
    /// An unsigned decimal integer literal.
    Uint,
    /// A string literal produced by template substitution.
    TemplateResult,
}

/// Ghost model of a [`ConstVal`].
pub struct ValueModel {
    pub desc: Seq<char>,
    pub v: Seq<char>,
    pub t: ConstType,
}

/// A resolved constant value: a human-facing description, the value text,
/// and the kind that decides how the value is embedded.
#[derive(Debug)]
pub struct ConstVal {
    pub desc: String,
    pub v: String,
    pub t: ConstType,
}

impl View for ConstVal {
    type V = ValueModel;

    open spec fn view(&self) -> ValueModel {
        ValueModel { desc: self.desc@, v: self.v@, t: self.t }
    }
}

/// Ghost model of a [`SignalKind`].
pub enum SignalModel {
    Platform,
    EnvVar(Seq<char>),
    BuildTime,
}

/// Which external signal an environment-derived hook reads.
pub enum SignalKind {
    /// The `os-arch` platform string of the build host.
    Platform,
    /// One environment variable, by name.
    EnvVar(String),
    /// The captured build timestamp.
    BuildTime,
}

impl View for SignalKind {
    type V = SignalModel;

    open spec fn view(&self) -> SignalModel {
        match self {
            SignalKind::Platform => SignalModel::Platform,
            SignalKind::EnvVar(name) => SignalModel::EnvVar(name@),
            SignalKind::BuildTime => SignalModel::BuildTime,
        }
    }
}

/// Ghost model of a [`HookKind`].
pub enum HookKindModel {
    Literal { value: Seq<char>, t: ConstType },
    Signal(SignalModel),
    Template(Seq<char>),
}

/// How a hook produces its value.
pub enum HookKind {
    /// An author-supplied value, embedded as the given kind.
    Literal { value: String, t: ConstType },
    /// A value read from the build context.
    Signal(SignalKind),
    /// A template over other constants' resolved values.
    Template(String),
}

impl View for HookKind {
    type V = HookKindModel;

    open spec fn view(&self) -> HookKindModel {
        match self {
            HookKind::Literal { value, t } => HookKindModel::Literal { value: value@, t: *t },
            HookKind::Signal(s) => HookKindModel::Signal(s@),
            HookKind::Template(t) => HookKindModel::Template(t@),
        }
    }
}

/// Ghost model of a [`ConstantHook`].
pub struct HookModel {
    pub identifier: Seq<char>,
    pub desc: Seq<char>,
    pub kind: HookKindModel,
}

/// A named provider of one build constant.
pub struct ConstantHook {
    pub identifier: String,
    pub desc: String,
    pub kind: HookKind,
}

impl View for ConstantHook {
    type V = HookModel;

    open spec fn view(&self) -> HookModel {
        HookModel { identifier: self.identifier@, desc: self.desc@, kind: self.kind@ }
    }
}

impl ConstantHook {
    /// A literal hook.
    pub fn literal(identifier: String, desc: String, value: String, t: ConstType) -> (r: Self)
        ensures
            r@ == (HookModel {
                identifier: identifier@,
                desc: desc@,
                kind: HookKindModel::Literal { value: value@, t },
            }),
    {
        ConstantHook { identifier, desc, kind: HookKind::Literal { value, t } }
    }

    /// An environment-variable hook.
    pub fn env_var(identifier: String, desc: String, name: String) -> (r: Self)
        ensures
            r@ == (HookModel {
                identifier: identifier@,
                desc: desc@,
                kind: HookKindModel::Signal(SignalModel::EnvVar(name@)),
            }),
    {
        ConstantHook { identifier, desc, kind: HookKind::Signal(SignalKind::EnvVar(name)) }
    }

    /// A build-timestamp hook.
    pub fn build_time(identifier: String, desc: String) -> (r: Self)
        ensures
            r@ == (HookModel {
                identifier: identifier@,
                desc: desc@,
                kind: HookKindModel::Signal(SignalModel::BuildTime),
            }),
    {
        ConstantHook { identifier, desc, kind: HookKind::Signal(SignalKind::BuildTime) }
    }

    /// A template hook.
    pub fn template(identifier: String, desc: String, template: String) -> (r: Self)
        ensures
            r@ == (HookModel {
                identifier: identifier@,
                desc: desc@,
                kind: HookKindModel::Template(template@),
            }),
    {
        ConstantHook { identifier, desc, kind: HookKind::Template(template) }
    }
}

/// Whether a hook is a template hook; template hooks resolve strictly
/// after every other hook.
pub open spec fn is_template(h: HookModel) -> bool {
    h.kind is Template
}

/// Strict identifier order over a hook sequence.
pub open spec fn ids_sorted(hs: Seq<HookModel>) -> bool {
    forall|i: int, j: int|
        0 <= i < j < hs.len() ==> lex_lt(hs[i].identifier, hs[j].identifier)
}

/// The set of registered identifiers.
pub open spec fn ident_set(hs: Seq<HookModel>) -> Set<Seq<char>> {
    Set::new(|x: Seq<char>| exists|i: int| 0 <= i < hs.len() && hs[i].identifier == x)
}

/// Where a new hook lands in an identifier-ordered sequence: before the
/// first entry that does not sort below it, replacing that entry when the
/// identifiers are equal.
pub open spec fn insert_hook(hs: Seq<HookModel>, h: HookModel) -> Seq<HookModel>
    decreases hs.len(),
{
    if hs.len() == 0 {
        seq![h]
    } else if lex_lt(hs[0].identifier, h.identifier) {
        seq![hs[0]] + insert_hook(hs.skip(1), h)
    } else if hs[0].identifier == h.identifier {
        seq![h] + hs.skip(1)
    } else {
        seq![h] + hs
    }
}

/// What `insert_hook` guarantees: order is kept, the new hook is present,
/// and the rest of the set is exactly the old hooks of other identifiers.
pub proof fn lemma_insert_hook_props(hs: Seq<HookModel>, h: HookModel)
    requires
        ids_sorted(hs),
    ensures
        ids_sorted(insert_hook(hs, h)),
        insert_hook(hs, h).contains(h),
        forall|x: HookModel|
            #[trigger] insert_hook(hs, h).contains(x) ==> x == h || (hs.contains(x)
                && x.identifier != h.identifier),
        forall|x: HookModel|
            #[trigger] hs.contains(x) && x.identifier != h.identifier ==> insert_hook(
                hs,
                h,
            ).contains(x),
    decreases hs.len(),
{
    let r = insert_hook(hs, h);
    if hs.len() == 0 {
        assert(r =~= seq![h]);
        assert(r.contains(h)) by {
            assert(r[0] == h);
        }
    } else if lex_lt(hs[0].identifier, h.identifier) {
        assert(ids_sorted(hs.skip(1))) by {
            assert forall|i: int, j: int| 0 <= i < j < hs.skip(1).len() implies lex_lt(
                hs.skip(1)[i].identifier,
                hs.skip(1)[j].identifier,
            ) by {
                assert(hs.skip(1)[i] == hs[i + 1]);
                assert(hs.skip(1)[j] == hs[j + 1]);
            }
        }
        lemma_insert_hook_props(hs.skip(1), h);
        let rr = insert_hook(hs.skip(1), h);
        assert(r =~= seq![hs[0]] + rr);
        lemma_lex_irrefl(hs[0].identifier);
        assert(hs[0].identifier != h.identifier);
        // membership
        assert(r.contains(h)) by {
            let k = choose|k: int| 0 <= k < rr.len() && rr[k] == h;
            assert(r[k + 1] == h);
        }
        assert forall|x: HookModel| #[trigger] r.contains(x) implies x == h || (hs.contains(x)
            && x.identifier != h.identifier) by {
            let k = choose|k: int| 0 <= k < r.len() && r[k] == x;
            if k == 0 {
                assert(x == hs[0]);
                assert(hs.contains(x)) by {
                    assert(hs[0] == x);
                }
            } else {
                assert(rr.contains(x)) by {
                    assert(rr[k - 1] == x);
                }
                if x != h {
                    assert(hs.skip(1).contains(x));
                    let m = choose|m: int| 0 <= m < hs.skip(1).len() && hs.skip(1)[m] == x;
                    assert(hs[m + 1] == x);
                    assert(hs.contains(x));
                }
            }
        }
        assert forall|x: HookModel| #[trigger] hs.contains(x) && x.identifier != h.identifier
            implies r.contains(x) by {
            let k = choose|k: int| 0 <= k < hs.len() && hs[k] == x;
            if k == 0 {
                assert(r[0] == x);
            } else {
                assert(hs.skip(1)[k - 1] == x);
                assert(hs.skip(1).contains(x));
                assert(rr.contains(x));
                let m = choose|m: int| 0 <= m < rr.len() && rr[m] == x;
                assert(r[m + 1] == x);
            }
        }
        // order
        assert forall|i: int, j: int| 0 <= i < j < r.len() implies lex_lt(
            r[i].identifier,
            r[j].identifier,
        ) by {
            if i == 0 {
                let x = r[j];
                assert(rr.contains(x)) by {
                    assert(rr[j - 1] == x);
                }
                if x == h {
                    assert(lex_lt(hs[0].identifier, h.identifier));
                } else {
                    assert(hs.skip(1).contains(x));
                    let m = choose|m: int| 0 <= m < hs.skip(1).len() && hs.skip(1)[m] == x;
                    assert(hs[m + 1] == x);
                    assert(lex_lt(hs[0].identifier, hs[m + 1].identifier));
                }
            } else {
                assert(r[i] == rr[i - 1]);
                assert(r[j] == rr[j - 1]);
            }
        }
    } else if hs[0].identifier == h.identifier {
        assert(r =~= seq![h] + hs.skip(1));
        assert(r.contains(h)) by {
            assert(r[0] == h);
        }
        assert forall|x: HookModel| #[trigger] r.contains(x) implies x == h || (hs.contains(x)
            && x.identifier != h.identifier) by {
            let k = choose|k: int| 0 <= k < r.len() && r[k] == x;
            if k > 0 {
                assert(x == hs.skip(1)[k - 1]);
                assert(hs[k] == x);
                assert(hs.contains(x));
                assert(lex_lt(hs[0].identifier, hs[k].identifier));
                lemma_lex_irrefl(hs[0].identifier);
                assert(x.identifier != h.identifier);
            }
        }
        assert forall|x: HookModel| #[trigger] hs.contains(x) && x.identifier != h.identifier
            implies r.contains(x) by {
            let k = choose|k: int| 0 <= k < hs.len() && hs[k] == x;
            assert(k != 0);
            assert(r[k] == hs.skip(1)[k - 1]);
            assert(r[k] == x);
        }
        assert forall|i: int, j: int| 0 <= i < j < r.len() implies lex_lt(
            r[i].identifier,
            r[j].identifier,
        ) by {
            if i == 0 {
                assert(r[j] == hs[j]);
                assert(lex_lt(hs[0].identifier, hs[j].identifier));
            } else {
                assert(r[i] == hs[i]);
                assert(r[j] == hs[j]);
            }
        }
    } else {
        assert(r =~= seq![h] + hs);
        lemma_lex_total(hs[0].identifier, h.identifier);
        assert(lex_lt(h.identifier, hs[0].identifier));
        assert(r.contains(h)) by {
            assert(r[0] == h);
        }
        assert forall|x: HookModel| #[trigger] r.contains(x) implies x == h || (hs.contains(x)
            && x.identifier != h.identifier) by {
            let k = choose|k: int| 0 <= k < r.len() && r[k] == x;
            if k > 0 {
                assert(x == hs[k - 1]);
                assert(hs.contains(x));
                if k - 1 == 0 {
                    lemma_lex_irrefl(x.identifier);
                } else {
                    assert(lex_lt(hs[0].identifier, hs[k - 1].identifier));
                    lemma_lex_trans(h.identifier, hs[0].identifier, hs[k - 1].identifier);
                    lemma_lex_irrefl(x.identifier);
                }
            }
        }
        assert forall|x: HookModel| #[trigger] hs.contains(x) && x.identifier != h.identifier
            implies r.contains(x) by {
            let k = choose|k: int| 0 <= k < hs.len() && hs[k] == x;
            assert(r[k + 1] == x);
        }
        assert forall|i: int, j: int| 0 <= i < j < r.len() implies lex_lt(
            r[i].identifier,
            r[j].identifier,
        ) by {
            if i == 0 {
                if j == 1 {
                } else {
                    assert(r[j] == hs[j - 1]);
                    assert(lex_lt(hs[0].identifier, hs[j - 1].identifier));
                    lemma_lex_trans(h.identifier, hs[0].identifier, hs[j - 1].identifier);
                }
            } else {
                assert(r[i] == hs[i - 1]);
                assert(r[j] == hs[j - 1]);
            }
        }
    }
}

/// Where the insertion point `i` is known, `insert_hook` is the positional
/// replacement or splice at `i`.
pub proof fn lemma_insert_hook_at(hs: Seq<HookModel>, h: HookModel, i: int)
    requires
        0 <= i <= hs.len(),
        forall|k: int| 0 <= k < i ==> lex_lt(#[trigger] hs[k].identifier, h.identifier),
        i < hs.len() ==> !lex_lt(hs[i].identifier, h.identifier),
    ensures
        insert_hook(hs, h) == if i < hs.len() && hs[i].identifier == h.identifier {
            hs.update(i, h)
        } else {
            hs.take(i) + seq![h] + hs.skip(i)
        },
    decreases i,
{
    if i == 0 {
        if hs.len() == 0 {
            assert(insert_hook(hs, h) =~= hs.take(0) + seq![h] + hs.skip(0));
        } else if hs[0].identifier == h.identifier {
            assert(insert_hook(hs, h) == seq![h] + hs.skip(1));
            assert(hs.update(0, h) =~= seq![h] + hs.skip(1));
        } else {
            assert(insert_hook(hs, h) == seq![h] + hs);
            assert(hs.take(0) + seq![h] + hs.skip(0) =~= seq![h] + hs);
        }
    } else {
        assert(lex_lt(hs[0].identifier, h.identifier));
        assert(insert_hook(hs, h) == seq![hs[0]] + insert_hook(hs.skip(1), h));
        assert forall|k: int| 0 <= k < i - 1 implies lex_lt(
            #[trigger] hs.skip(1)[k].identifier,
            h.identifier,
        ) by {
            assert(hs.skip(1)[k] == hs[k + 1]);
        }
        if i - 1 < hs.skip(1).len() {
            assert(hs.skip(1)[i - 1] == hs[i]);
        }
        lemma_insert_hook_at(hs.skip(1), h, i - 1);
        if i < hs.len() && hs[i].identifier == h.identifier {
            assert(hs.skip(1).update(i - 1, h) =~= hs.update(i, h).skip(1));
            assert(seq![hs[0]] + hs.skip(1).update(i - 1, h) =~= hs.update(i, h));
        } else {
            assert(hs.skip(1).take(i - 1) =~= hs.subrange(1, i));
            assert(hs.skip(1).skip(i - 1) =~= hs.skip(i));
            assert(seq![hs[0]] + (hs.skip(1).take(i - 1) + seq![h] + hs.skip(1).skip(i - 1)) =~= hs.take(
                i,
            ) + seq![h] + hs.skip(i));
        }
    }
}

/// One resolved constant: its identifier together with its value.
#[derive(Debug)]
pub struct ResolvedConst {
    pub identifier: String,
    pub value: ConstVal,
}

impl View for ResolvedConst {
    type V = (Seq<char>, ValueModel);

    open spec fn view(&self) -> (Seq<char>, ValueModel) {
        (self.identifier@, self.value@)
    }
}

/// Ghost model of one resolved constant.
pub type EntryModel = (Seq<char>, ValueModel);

/// State threaded through resolution: the entries resolved so far and the
/// mapping of identifier to raw value the next template may draw on; or
/// the first failure, which absorbs everything after it.
pub type ResState = Result<(Seq<EntryModel>, Map<Seq<char>, Seq<char>>), ErrorModel>;

/// How one hook resolves against the context, the values resolved so far,
/// and the set of registered identifiers.
pub open spec fn resolve_hook(
    h: HookModel,
    ctx: ContextModel,
    resolved: Map<Seq<char>, Seq<char>>,
    known: Set<Seq<char>>,
) -> Result<ValueModel, ErrorModel> {
    match h.kind {
        HookKindModel::Literal { value, t } => Ok(ValueModel { desc: h.desc, v: value, t }),
        HookKindModel::Signal(SignalModel::Platform) => Ok(
            ValueModel { desc: h.desc, v: platform_of(ctx), t: ConstType::Str },
        ),
        HookKindModel::Signal(SignalModel::EnvVar(name)) => if ctx.vars.contains_key(name) {
            Ok(ValueModel { desc: h.desc, v: ctx.vars[name], t: ConstType::Str })
        } else {
            Err(ErrorModel::ExternalSignalFailure(name))
        },
        HookKindModel::Signal(SignalModel::BuildTime) => Ok(
            ValueModel { desc: h.desc, v: ctx.build_time, t: ConstType::Str },
        ),
        HookKindModel::Template(t) => match substitute(t, resolved, known) {
            TemplateOutcome::Done(s) => Ok(
                ValueModel { desc: h.desc, v: s, t: ConstType::TemplateResult },
            ),
            TemplateOutcome::Unknown(n) => Err(
                ErrorModel::UnknownConstant { constant: h.identifier, identifier: n },
            ),
            TemplateOutcome::Forward(n) => Err(
                ErrorModel::UnresolvedForwardReference { constant: h.identifier, identifier: n },
            ),
        },
    }
}

/// Resolving one more hook on top of a resolution state.
pub open spec fn resolve_step(
    prev: ResState,
    h: HookModel,
    ctx: ContextModel,
    known: Set<Seq<char>>,
) -> ResState {
    match prev {
        Ok(p) => match resolve_hook(h, ctx, p.1, known) {
            Ok(v) => Ok((p.0.push((h.identifier, v)), p.1.insert(h.identifier, v.v))),
            Err(e) => Err(e),
        },
        Err(e) => Err(e),
    }
}

/// Resolving a sequence of hooks left to right.
pub open spec fn resolve_sequence(
    hs: Seq<HookModel>,
    ctx: ContextModel,
    known: Set<Seq<char>>,
    st: ResState,
) -> ResState
    decreases hs.len(),
{
    if hs.len() == 0 {
        st
    } else {
        resolve_sequence(hs.skip(1), ctx, known, resolve_step(st, hs[0], ctx, known))
    }
}

/// The non-template hooks, in their order.
pub open spec fn plain_hooks(hs: Seq<HookModel>) -> Seq<HookModel>
    decreases hs.len(),
{
    if hs.len() == 0 {
        Seq::empty()
    } else if is_template(hs.last()) {
        plain_hooks(hs.drop_last())
    } else {
        plain_hooks(hs.drop_last()).push(hs.last())
    }
}

/// The template hooks, in their order.
pub open spec fn template_hooks(hs: Seq<HookModel>) -> Seq<HookModel>
    decreases hs.len(),
{
    if hs.len() == 0 {
        Seq::empty()
    } else if is_template(hs.last()) {
        template_hooks(hs.drop_last()).push(hs.last())
    } else {
        template_hooks(hs.drop_last())
    }
}

/// The order hooks resolve in: every non-template hook first, then every
/// template hook; within each class, set order (identifier order for a
/// well-formed set).
pub open spec fn resolution_order(hs: Seq<HookModel>) -> Seq<HookModel> {
    plain_hooks(hs) + template_hooks(hs)
}

/// What resolving a whole set means.
pub open spec fn resolve_all_model(hs: Seq<HookModel>, ctx: ContextModel) -> Result<
    Seq<EntryModel>,
    ErrorModel,
> {
    match resolve_sequence(
        resolution_order(hs),
        ctx,
        ident_set(hs),
        Ok((Seq::empty(), Map::empty())),
    ) {
        Ok(p) => Ok(p.0),
        Err(e) => Err(e),
    }
}

/// The ghost entries a vector of resolved constants stands for.
pub open spec fn entries_view(es: Seq<ResolvedConst>) -> Seq<EntryModel> {
    es.map_values(|e: ResolvedConst| e@)
}

/// The ghost result an executable resolution result stands for.
pub open spec fn result_model(r: BtResult<Vec<ResolvedConst>>) -> Result<
    Seq<EntryModel>,
    ErrorModel,
> {
    match r {
        Ok(es) => Ok(entries_view(es@)),
        Err(e) => Err(e@),
    }
}

pub proof fn lemma_class_push(s: Seq<HookModel>, h: HookModel)
    ensures
        plain_hooks(s.push(h)) == if is_template(h) {
            plain_hooks(s)
        } else {
            plain_hooks(s).push(h)
        },
        template_hooks(s.push(h)) == if is_template(h) {
            template_hooks(s).push(h)
        } else {
            template_hooks(s)
        },
{
    assert(s.push(h).drop_last() =~= s);
    assert(s.push(h).last() == h);
}

pub proof fn lemma_class_singleton(h: HookModel)
    ensures
        plain_hooks(seq![h]) == if is_template(h) {
            Seq::<HookModel>::empty()
        } else {
            seq![h]
        },
        template_hooks(seq![h]) == if is_template(h) {
            seq![h]
        } else {
            Seq::<HookModel>::empty()
        },
{
    assert(seq![h].drop_last() =~= Seq::<HookModel>::empty());
    assert(seq![h].last() == h);
    assert(plain_hooks(Seq::<HookModel>::empty()) == Seq::<HookModel>::empty());
    assert(template_hooks(Seq::<HookModel>::empty()) == Seq::<HookModel>::empty());
    assert(Seq::<HookModel>::empty().push(h) =~= seq![h]);
}

/// Resolving a one-hook sequence is one step.
pub proof fn lemma_resolve_singleton(
    h: HookModel,
    ctx: ContextModel,
    known: Set<Seq<char>>,
    st: ResState,
)
    ensures
        resolve_sequence(seq![h], ctx, known, st) == resolve_step(st, h, ctx, known),
{
    let stepped = resolve_step(st, h, ctx, known);
    assert(seq![h].skip(1) =~= Seq::<HookModel>::empty());
    assert(resolve_sequence(Seq::<HookModel>::empty(), ctx, known, stepped) == stepped);
    assert(seq![h][0] == h);
    assert(resolve_sequence(seq![h], ctx, known, st) == resolve_sequence(
        seq![h].skip(1),
        ctx,
        known,
        stepped,
    ));
}

pub proof fn lemma_class_concat(a: Seq<HookModel>, b: Seq<HookModel>)
    ensures
        plain_hooks(a + b) == plain_hooks(a) + plain_hooks(b),
        template_hooks(a + b) == template_hooks(a) + template_hooks(b),
    decreases b.len(),
{
    if b.len() == 0 {
        assert(a + b =~= a);
        assert(plain_hooks(a) + plain_hooks(b) =~= plain_hooks(a));
        assert(template_hooks(a) + template_hooks(b) =~= template_hooks(a));
    } else {
        assert(a + b =~= (a + b.drop_last()).push(b.last()));
        lemma_class_push(a + b.drop_last(), b.last());
        lemma_class_concat(a, b.drop_last());
        assert(b =~= b.drop_last().push(b.last()));
        lemma_class_push(b.drop_last(), b.last());
        if is_template(b.last()) {
            assert(plain_hooks(a + b) == plain_hooks(a) + plain_hooks(b));
            assert(template_hooks(a + b) == (template_hooks(a) + template_hooks(
                b.drop_last(),
            )).push(b.last()));
            assert((template_hooks(a) + template_hooks(b.drop_last())).push(b.last())
                =~= template_hooks(a) + template_hooks(b.drop_last()).push(b.last()));
        } else {
            assert(template_hooks(a + b) == template_hooks(a) + template_hooks(b));
            assert((plain_hooks(a) + plain_hooks(b.drop_last())).push(b.last()) =~= plain_hooks(a)
                + plain_hooks(b.drop_last()).push(b.last()));
        }
    }
}

pub proof fn lemma_resolve_sequence_err(
    hs: Seq<HookModel>,
    ctx: ContextModel,
    known: Set<Seq<char>>,
    e: ErrorModel,
)
    ensures
        resolve_sequence(hs, ctx, known, Err(e)) == Err::<
            (Seq<EntryModel>, Map<Seq<char>, Seq<char>>),
            ErrorModel,
        >(e),
    decreases hs.len(),
{
    if hs.len() > 0 {
        lemma_resolve_sequence_err(hs.skip(1), ctx, known, e);
    }
}

pub proof fn lemma_resolve_sequence_concat(
    a: Seq<HookModel>,
    b: Seq<HookModel>,
    ctx: ContextModel,
    known: Set<Seq<char>>,
    st: ResState,
)
    ensures
        resolve_sequence(a + b, ctx, known, st) == resolve_sequence(
            b,
            ctx,
            known,
            resolve_sequence(a, ctx, known, st),
        ),
    decreases a.len(),
{
    if a.len() == 0 {
        assert(a + b =~= b);
    } else {
        assert((a + b)[0] == a[0]);
        assert((a + b).skip(1) =~= a.skip(1) + b);
        lemma_resolve_sequence_concat(a.skip(1), b, ctx, known, resolve_step(st, a[0], ctx, known));
    }
}

/// Resolving `s` and then one more hook `h` is resolving `s.push(h)`.
pub proof fn lemma_step_extends(
    s: Seq<HookModel>,
    h: HookModel,
    ctx: ContextModel,
    known: Set<Seq<char>>,
    st: ResState,
)
    ensures
        resolve_sequence(s.push(h), ctx, known, st) == resolve_step(
            resolve_sequence(s, ctx, known, st),
            h,
            ctx,
            known,
        ),
{
    assert(s.push(h) =~= s + seq![h]);
    lemma_resolve_sequence_concat(s, seq![h], ctx, known, st);
    let mid = resolve_sequence(s, ctx, known, st);
    lemma_resolve_singleton(h, ctx, known, mid);
}

/// A failing non-template hook at position `i` decides the whole
/// resolution: everything after the first failure is absorbed.
pub proof fn lemma_error_propagates(
    hsm: Seq<HookModel>,
    i: int,
    ctx: ContextModel,
    known: Set<Seq<char>>,
    init: ResState,
    st: ResState,
)
    requires
        0 <= i < hsm.len(),
        !is_template(hsm[i]),
        st == resolve_sequence(plain_hooks(hsm.take(i)), ctx, known, init),
        resolve_step(st, hsm[i], ctx, known) is Err,
    ensures
        resolve_sequence(resolution_order(hsm), ctx, known, init) == resolve_step(
            st,
            hsm[i],
            ctx,
            known,
        ),
{
    let h = hsm[i];
    let rest = seq![h] + hsm.skip(i + 1);
    assert(hsm =~= hsm.take(i) + rest);
    lemma_class_concat(hsm.take(i), rest);
    lemma_class_concat(seq![h], hsm.skip(i + 1));
    assert(rest =~= seq![h] + hsm.skip(i + 1));
    lemma_class_singleton(h);
    let a = plain_hooks(hsm.take(i));
    let b = plain_hooks(hsm.skip(i + 1));
    assert(plain_hooks(hsm) == a + (seq![h] + b));
    let t = template_hooks(hsm);
    lemma_resolve_sequence_concat(plain_hooks(hsm), t, ctx, known, init);
    lemma_resolve_sequence_concat(a, seq![h] + b, ctx, known, init);
    lemma_resolve_sequence_concat(seq![h], b, ctx, known, st);
    lemma_resolve_singleton(h, ctx, known, st);
    let e = resolve_step(st, h, ctx, known);
    match e {
        Err(err) => {
            lemma_resolve_sequence_err(b, ctx, known, err);
            lemma_resolve_sequence_err(t, ctx, known, err);
        },
        Ok(_) => {},
    }
}

/// A failing template hook at position `i` decides the whole resolution.
pub proof fn lemma_template_error_propagates(
    hsm: Seq<HookModel>,
    i: int,
    ctx: ContextModel,
    known: Set<Seq<char>>,
    init: ResState,
)
    requires
        0 <= i < hsm.len(),
        is_template(hsm[i]),
        resolve_step(
            resolve_sequence(plain_hooks(hsm) + template_hooks(hsm.take(i)), ctx, known, init),
            hsm[i],
            ctx,
            known,
        ) is Err,
    ensures
        resolve_sequence(resolution_order(hsm), ctx, known, init) == resolve_step(
            resolve_sequence(plain_hooks(hsm) + template_hooks(hsm.take(i)), ctx, known, init),
            hsm[i],
            ctx,
            known,
        ),
{
    let h = hsm[i];
    let st = resolve_sequence(plain_hooks(hsm) + template_hooks(hsm.take(i)), ctx, known, init);
    let rest = seq![h] + hsm.skip(i + 1);
    assert(hsm =~= hsm.take(i) + rest);
    lemma_class_concat(hsm.take(i), rest);
    lemma_class_concat(seq![h], hsm.skip(i + 1));
    lemma_class_singleton(h);
    let p = plain_hooks(hsm);
    let a = template_hooks(hsm.take(i));
    let b = template_hooks(hsm.skip(i + 1));
    assert(template_hooks(hsm) == a + (seq![h] + b));
    lemma_resolve_sequence_concat(p, template_hooks(hsm), ctx, known, init);
    lemma_resolve_sequence_concat(p, a, ctx, known, init);
    let after_p = resolve_sequence(p, ctx, known, init);
    lemma_resolve_sequence_concat(a, seq![h] + b, ctx, known, after_p);
    assert(resolve_sequence(a, ctx, known, after_p) == st) by {
        lemma_resolve_sequence_concat(p, a, ctx, known, init);
    }
    lemma_resolve_sequence_concat(seq![h], b, ctx, known, st);
    lemma_resolve_singleton(h, ctx, known, st);
    let e = resolve_step(st, h, ctx, known);
    match e {
        Err(err) => {
            lemma_resolve_sequence_err(b, ctx, known, err);
        },
        Ok(_) => {},
    }
}

/// The identifiers of a hook sequence, in order.
pub open spec fn ident_seq(hs: Seq<HookModel>) -> Seq<Seq<char>> {
    hs.map_values(|h: HookModel| h.identifier)
}

/// Membership in the two resolution classes: a hook belongs to the
/// non-template class exactly when it is a registered non-template hook,
/// and to the template class exactly when it is a registered template.
pub proof fn lemma_class_mem(hs: Seq<HookModel>)
    ensures
        forall|x: HookModel|
            #[trigger] plain_hooks(hs).contains(x) <==> hs.contains(x) && !is_template(x),
        forall|x: HookModel|
            #[trigger] template_hooks(hs).contains(x) <==> hs.contains(x) && is_template(x),
    decreases hs.len(),
{
    if hs.len() == 0 {
        assert forall|x: HookModel| !(#[trigger] plain_hooks(hs).contains(x)) by {}
        assert forall|x: HookModel| !(#[trigger] hs.contains(x)) by {}
    } else {
        let d = hs.drop_last();
        let l = hs.last();
        lemma_class_mem(d);
        assert forall|x: HookModel|
            #[trigger] plain_hooks(hs).contains(x) <==> hs.contains(x) && !is_template(x) by {
            if plain_hooks(hs).contains(x) {
                if is_template(l) {
                    assert(plain_hooks(d).contains(x));
                    let k = choose|k: int| 0 <= k < d.len() && d[k] == x;
                    assert(hs[k] == x);
                } else {
                    let k = choose|k: int|
                        0 <= k < plain_hooks(hs).len() && plain_hooks(hs)[k] == x;
                    if k < plain_hooks(d).len() {
                        assert(plain_hooks(d).contains(x)) by {
                            assert(plain_hooks(d)[k] == x);
                        }
                        let m = choose|m: int| 0 <= m < d.len() && d[m] == x;
                        assert(hs[m] == x);
                    } else {
                        assert(x == l);
                        assert(hs[hs.len() - 1] == x);
                    }
                }
            }
            if hs.contains(x) && !is_template(x) {
                let k = choose|k: int| 0 <= k < hs.len() && hs[k] == x;
                if k < hs.len() - 1 {
                    assert(d[k] == x);
                    assert(d.contains(x));
                    assert(plain_hooks(d).contains(x));
                    let m = choose|m: int|
                        0 <= m < plain_hooks(d).len() && plain_hooks(d)[m] == x;
                    if is_template(l) {
                        assert(plain_hooks(hs)[m] == x);
                    } else {
                        assert(plain_hooks(hs)[m] == x);
                    }
                } else {
                    assert(x == l);
                    assert(plain_hooks(hs) == plain_hooks(d).push(l));
                    assert(plain_hooks(hs)[plain_hooks(d).len() as int] == x);
                }
            }
        }
        assert forall|x: HookModel|
            #[trigger] template_hooks(hs).contains(x) <==> hs.contains(x) && is_template(x) by {
            if template_hooks(hs).contains(x) {
                if !is_template(l) {
                    assert(template_hooks(d).contains(x));
                    let k = choose|k: int| 0 <= k < d.len() && d[k] == x;
                    assert(hs[k] == x);
                } else {
                    let k = choose|k: int|
                        0 <= k < template_hooks(hs).len() && template_hooks(hs)[k] == x;
                    if k < template_hooks(d).len() {
                        assert(template_hooks(d).contains(x)) by {
                            assert(template_hooks(d)[k] == x);
                        }
                        let m = choose|m: int| 0 <= m < d.len() && d[m] == x;
                        assert(hs[m] == x);
                    } else {
                        assert(x == l);
                        assert(hs[hs.len() - 1] == x);
                    }
                }
            }
            if hs.contains(x) && is_template(x) {
                let k = choose|k: int| 0 <= k < hs.len() && hs[k] == x;
                if k < hs.len() - 1 {
                    assert(d[k] == x);
                    assert(d.contains(x));
                    assert(template_hooks(d).contains(x));
                    let m = choose|m: int|
                        0 <= m < template_hooks(d).len() && template_hooks(d)[m] == x;
                    assert(template_hooks(hs)[m] == x);
                } else {
                    assert(x == l);
                    assert(template_hooks(hs) == template_hooks(d).push(l));
                    assert(template_hooks(hs)[template_hooks(d).len() as int] == x);
                }
            }
        }
    }
}

/// Identifier order carries over to each resolution class, and the two
/// classes together hold every registered hook.
pub proof fn lemma_class_sorted(hs: Seq<HookModel>)
    requires
        ids_sorted(hs),
    ensures
        ids_sorted(plain_hooks(hs)),
        ids_sorted(template_hooks(hs)),
        plain_hooks(hs).len() + template_hooks(hs).len() == hs.len(),
    decreases hs.len(),
{
    if hs.len() > 0 {
        let d = hs.drop_last();
        let l = hs.last();
        assert forall|i: int, j: int| 0 <= i < j < d.len() implies lex_lt(
            d[i].identifier,
            d[j].identifier,
        ) by {
            assert(d[i] == hs[i]);
            assert(d[j] == hs[j]);
        }
        lemma_class_sorted(d);
        lemma_class_mem(d);
        if !is_template(l) {
            let p = plain_hooks(d);
            assert forall|i: int, j: int| 0 <= i < j < p.push(l).len() implies lex_lt(
                p.push(l)[i].identifier,
                p.push(l)[j].identifier,
            ) by {
                if j < p.len() {
                    assert(p.push(l)[i] == p[i]);
                    assert(p.push(l)[j] == p[j]);
                } else {
                    assert(p.push(l)[j] == l);
                    assert(p.push(l)[i] == p[i]);
                    assert(p.contains(p[i])) by {
                        assert(p[i] == p[i]);
                    }
                    assert(d.contains(p[i]));
                    let m = choose|m: int| 0 <= m < d.len() && d[m] == p[i];
                    assert(hs[m] == p[i]);
                    assert(lex_lt(hs[m].identifier, hs[hs.len() - 1].identifier));
                }
            }
        } else {
            let t = template_hooks(d);
            assert forall|i: int, j: int| 0 <= i < j < t.push(l).len() implies lex_lt(
                t.push(l)[i].identifier,
                t.push(l)[j].identifier,
            ) by {
                if j < t.len() {
                    assert(t.push(l)[i] == t[i]);
                    assert(t.push(l)[j] == t[j]);
                } else {
                    assert(t.push(l)[j] == l);
                    assert(t.push(l)[i] == t[i]);
                    assert(t.contains(t[i])) by {
                        assert(t[i] == t[i]);
                    }
                    assert(d.contains(t[i]));
                    let m = choose|m: int| 0 <= m < d.len() && d[m] == t[i];
                    assert(hs[m] == t[i]);
                    assert(lex_lt(hs[m].identifier, hs[hs.len() - 1].identifier));
                }
            }
        }
    }
}

/// A successful resolution appends exactly one entry per hook, carrying
/// the hook's identifier, in sequence order.
pub proof fn lemma_resolve_sequence_ids(
    hs: Seq<HookModel>,
    ctx: ContextModel,
    known: Set<Seq<char>>,
    st: ResState,
)
    ensures
        resolve_sequence(hs, ctx, known, st) matches Ok(p1) ==> st matches Ok(p0)
            && p1.0.map_values(|e: EntryModel| e.0) == p0.0.map_values(|e: EntryModel| e.0)
            + ident_seq(hs),
    decreases hs.len(),
{
    if hs.len() == 0 {
        match st {
            Ok(p0) => {
                assert(p0.0.map_values(|e: EntryModel| e.0) + ident_seq(hs) =~= p0.0.map_values(
                    |e: EntryModel| e.0,
                ));
            },
            Err(_) => {},
        }
    } else {
        let st1 = resolve_step(st, hs[0], ctx, known);
        lemma_resolve_sequence_ids(hs.skip(1), ctx, known, st1);
        match st {
            Err(e) => {
                lemma_resolve_sequence_err(hs.skip(1), ctx, known, e);
            },
            Ok(p0) => {
                match resolve_hook(hs[0], ctx, p0.1, known) {
                    Err(e) => {
                        lemma_resolve_sequence_err(hs.skip(1), ctx, known, e);
                    },
                    Ok(v) => {
                        match resolve_sequence(hs, ctx, known, st) {
                            Ok(p1) => {
                                assert(st1 matches Ok(q) && q.0 == p0.0.push(
                                    (hs[0].identifier, v),
                                ));
                                assert(p0.0.push((hs[0].identifier, v)).map_values(
                                    |e: EntryModel| e.0,
                                ) =~= p0.0.map_values(|e: EntryModel| e.0).push(hs[0].identifier));
                                assert(p0.0.map_values(|e: EntryModel| e.0).push(hs[0].identifier)
                                    + ident_seq(hs.skip(1)) =~= p0.0.map_values(
                                    |e: EntryModel| e.0,
                                ) + ident_seq(hs));
                            },
                            Err(_) => {},
                        }
                    },
                }
            },
        }
    }
}

/// Whenever `resolve_all` succeeds on a well-formed set, it yields
/// exactly one value per registered identifier: the result's identifiers
/// are those of the non-template hooks followed by those of the template
/// hooks, each class in strictly increasing identifier order, every
/// registered identifier covered exactly once.
pub proof fn lemma_resolution_complete(hs: Seq<HookModel>, ctx: ContextModel, es: Seq<EntryModel>)
    requires
        ids_sorted(hs),
        resolve_all_model(hs, ctx) == Ok::<Seq<EntryModel>, ErrorModel>(es),
    ensures
        es.len() == hs.len(),
        es.map_values(|e: EntryModel| e.0) == ident_seq(plain_hooks(hs)) + ident_seq(
            template_hooks(hs),
        ),
        ids_sorted(plain_hooks(hs)),
        ids_sorted(template_hooks(hs)),
        forall|id: Seq<char>|
            #[trigger] ident_set(hs).contains(id) <==> exists|i: int|
                0 <= i < es.len() && es[i].0 == id,
        forall|i: int, j: int| 0 <= i < j < es.len() ==> es[i].0 != es[j].0,
{
    let order = resolution_order(hs);
    let init: ResState = Ok((Seq::empty(), Map::empty()));
    lemma_resolve_sequence_ids(order, ctx, ident_set(hs), init);
    let ids = es.map_values(|e: EntryModel| e.0);
    assert(ids =~= ident_seq(order)) by {
        assert(Seq::<EntryModel>::empty().map_values(|e: EntryModel| e.0) + ident_seq(order)
            =~= ident_seq(order));
    }
    lemma_class_sorted(hs);
    lemma_class_mem(hs);
    let p = plain_hooks(hs);
    let t = template_hooks(hs);
    assert(ident_seq(order) =~= ident_seq(p) + ident_seq(t));
    assert(es.len() == order.len());
    assert forall|i: int| 0 <= i < es.len() implies #[trigger] es[i].0 == order[i].identifier by {
        assert(ids[i] == es[i].0);
        assert(ident_seq(order)[i] == order[i].identifier);
    }
    // every entry's hook is a registered hook
    assert forall|i: int| 0 <= i < order.len() implies hs.contains(#[trigger] order[i]) by {
        if i < p.len() {
            assert(p.contains(order[i])) by {
                assert(p[i] == order[i]);
            }
        } else {
            assert(t.contains(order[i])) by {
                assert(t[i - p.len()] == order[i]);
            }
        }
    }
    // membership, both directions
    assert forall|id: Seq<char>| #[trigger] ident_set(hs).contains(id) implies exists|i: int|
        0 <= i < es.len() && es[i].0 == id by {
        let k = choose|k: int| 0 <= k < hs.len() && hs[k].identifier == id;
        assert(hs.contains(hs[k])) by {
            assert(hs[k] == hs[k]);
        }
        if is_template(hs[k]) {
            assert(t.contains(hs[k]));
            let m = choose|m: int| 0 <= m < t.len() && t[m] == hs[k];
            assert(order[p.len() + m] == hs[k]);
            assert(es[p.len() + m].0 == id);
        } else {
            assert(p.contains(hs[k]));
            let m = choose|m: int| 0 <= m < p.len() && p[m] == hs[k];
            assert(order[m] == hs[k]);
            assert(es[m].0 == id);
        }
    }
    assert forall|id: Seq<char>|
        (exists|i: int| 0 <= i < es.len() && es[i].0 == id) implies #[trigger] ident_set(
        hs,
    ).contains(id) by {
        let i = choose|i: int| 0 <= i < es.len() && es[i].0 == id;
        assert(hs.contains(order[i]));
        let k = choose|k: int| 0 <= k < hs.len() && hs[k] == order[i];
        assert(hs[k].identifier == id);
    }
    // uniqueness
    assert forall|i: int, j: int| 0 <= i < j < es.len() implies es[i].0 != es[j].0 by {
        let x = order[i];
        let y = order[j];
        if j < p.len() {
            assert(x == p[i] && y == p[j]);
            assert(lex_lt(x.identifier, y.identifier));
            lemma_lex_irrefl(x.identifier);
        } else if i >= p.len() {
            assert(x == t[i - p.len()] && y == t[j - p.len()]);
            assert(lex_lt(x.identifier, y.identifier));
            lemma_lex_irrefl(x.identifier);
        } else {
            assert(x == p[i] && y == t[j - p.len()]);
            assert(p.contains(x)) by {
                assert(p[i] == x);
            }
            assert(t.contains(y)) by {
                assert(t[j - p.len()] == y);
            }
            assert(!is_template(x) && is_template(y));
            let k1 = choose|k: int| 0 <= k < hs.len() && hs[k] == x;
            let k2 = choose|k: int| 0 <= k < hs.len() && hs[k] == y;
            assert(k1 != k2);
            if k1 < k2 {
                assert(lex_lt(hs[k1].identifier, hs[k2].identifier));
            } else {
                assert(lex_lt(hs[k2].identifier, hs[k1].identifier));
            }
            lemma_lex_irrefl(x.identifier);
        }
    }
}

/// A non-template hook can always resolve, except an
/// environment-variable hook whose variable is missing from the snapshot.
pub open spec fn signal_resolvable(h: HookModel, ctx: ContextModel) -> bool {
    match h.kind {
        HookKindModel::Signal(SignalModel::EnvVar(n)) => ctx.vars.contains_key(n),
        _ => true,
    }
}

/// Whether a template hook references only identifiers from `avail`.
pub open spec fn template_refs_within(h: HookModel, avail: Set<Seq<char>>) -> bool {
    match h.kind {
        HookKindModel::Template(t) => references(t).subset_of(avail),
        _ => true,
    }
}

proof fn lemma_plain_phase(
    s: Seq<HookModel>,
    ctx: ContextModel,
    known: Set<Seq<char>>,
    es: Seq<EntryModel>,
    m: Map<Seq<char>, Seq<char>>,
)
    requires
        forall|i: int|
            0 <= i < s.len() ==> !is_template(#[trigger] s[i]) && signal_resolvable(s[i], ctx),
    ensures
        resolve_sequence(s, ctx, known, Ok((es, m))) matches Ok(p) && p.1.dom() == m.dom().union(
            ident_set(s),
        ),
    decreases s.len(),
{
    if s.len() == 0 {
        assert(m.dom().union(ident_set(s)) =~= m.dom()) by {
            assert forall|x: Seq<char>| !(#[trigger] ident_set(s).contains(x)) by {}
        }
    } else {
        assert(!is_template(s[0]) && signal_resolvable(s[0], ctx));
        let v = match resolve_hook(s[0], ctx, m, known) {
            Ok(v) => v,
            Err(_) => arbitrary(),
        };
        assert(resolve_hook(s[0], ctx, m, known) == Ok::<ValueModel, ErrorModel>(v));
        let id = s[0].identifier;
        assert forall|i: int|
            0 <= i < s.skip(1).len() implies !is_template(#[trigger] s.skip(1)[i])
            && signal_resolvable(s.skip(1)[i], ctx) by {
            assert(s.skip(1)[i] == s[i + 1]);
        }
        lemma_plain_phase(s.skip(1), ctx, known, es.push((id, v)), m.insert(id, v.v));
        assert(m.insert(id, v.v).dom().union(ident_set(s.skip(1))) =~= m.dom().union(
            ident_set(s),
        )) by {
            assert forall|x: Seq<char>|
                #[trigger] ident_set(s).contains(x) implies x == id || ident_set(
                s.skip(1),
            ).contains(x) by {
                let k = choose|k: int| 0 <= k < s.len() && s[k].identifier == x;
                if k > 0 {
                    assert(s.skip(1)[k - 1].identifier == x);
                }
            }
            assert forall|x: Seq<char>| #[trigger] ident_set(s.skip(1)).contains(x)
                implies ident_set(s).contains(x) by {
                let k = choose|k: int| 0 <= k < s.skip(1).len() && s.skip(1)[k].identifier == x;
                assert(s[k + 1].identifier == x);
            }
            assert(ident_set(s).contains(id)) by {
                assert(s[0].identifier == id);
            }
        }
    }
}

proof fn lemma_template_phase(
    s: Seq<HookModel>,
    ctx: ContextModel,
    known: Set<Seq<char>>,
    avail: Set<Seq<char>>,
    es: Seq<EntryModel>,
    m: Map<Seq<char>, Seq<char>>,
)
    requires
        avail.subset_of(m.dom()),
        forall|i: int|
            0 <= i < s.len() ==> is_template(#[trigger] s[i]) && template_refs_within(s[i], avail),
    ensures
        resolve_sequence(s, ctx, known, Ok((es, m))) is Ok,
    decreases s.len(),
{
    if s.len() > 0 {
        assert(is_template(s[0]) && template_refs_within(s[0], avail));
        match s[0].kind {
            HookKindModel::Template(t) => {
                assert forall|x: Seq<char>| references(t).contains(x) implies m.dom().contains(
                    x,
                ) by {
                    assert(avail.contains(x));
                }
                lemma_template_all_resolved(t, m, known);
                let v = match resolve_hook(s[0], ctx, m, known) {
                    Ok(v) => v,
                    Err(_) => arbitrary(),
                };
                assert(resolve_hook(s[0], ctx, m, known) == Ok::<ValueModel, ErrorModel>(v));
                let id = s[0].identifier;
                assert forall|i: int|
                    0 <= i < s.skip(1).len() implies is_template(#[trigger] s.skip(1)[i])
                    && template_refs_within(s.skip(1)[i], avail) by {
                    assert(s.skip(1)[i] == s[i + 1]);
                }
                assert(avail.subset_of(m.insert(id, v.v).dom()));
                lemma_template_phase(
                    s.skip(1),
                    ctx,
                    known,
                    avail,
                    es.push((id, v)),
                    m.insert(id, v.v),
                );
            },
            _ => {},
        }
    }
}

/// Success is owed: on a well-formed set whose environment-variable
/// hooks all find their variable in the snapshot and whose template
/// hooks reference only identifiers of non-template hooks, resolution
/// succeeds.
pub proof fn lemma_resolution_succeeds(hs: Seq<HookModel>, ctx: ContextModel)
    requires
        ids_sorted(hs),
        forall|i: int| 0 <= i < hs.len() ==> signal_resolvable(#[trigger] hs[i], ctx),
        forall|i: int|
            0 <= i < hs.len() ==> template_refs_within(
                #[trigger] hs[i],
                ident_set(plain_hooks(hs)),
            ),
    ensures
        resolve_all_model(hs, ctx) is Ok,
{
    let p = plain_hooks(hs);
    let t = template_hooks(hs);
    let known = ident_set(hs);
    let init: ResState = Ok((Seq::empty(), Map::empty()));
    lemma_class_mem(hs);
    assert forall|i: int|
        0 <= i < p.len() implies !is_template(#[trigger] p[i]) && signal_resolvable(p[i], ctx) by {
        assert(p.contains(p[i])) by {
            assert(p[i] == p[i]);
        }
        assert(hs.contains(p[i]));
        let k = choose|k: int| 0 <= k < hs.len() && hs[k] == p[i];
        assert(signal_resolvable(hs[k], ctx));
    }
    lemma_plain_phase(p, ctx, known, Seq::empty(), Map::empty());
    let st1 = resolve_sequence(p, ctx, known, init);
    match st1 {
        Ok(p1) => {
            assert(p1.1.dom() == Map::<Seq<char>, Seq<char>>::empty().dom().union(ident_set(p)));
            assert(ident_set(p).subset_of(p1.1.dom()));
            assert forall|i: int|
                0 <= i < t.len() implies is_template(#[trigger] t[i]) && template_refs_within(
                t[i],
                ident_set(p),
            ) by {
                assert(t.contains(t[i])) by {
                    assert(t[i] == t[i]);
                }
                assert(hs.contains(t[i]));
                let k = choose|k: int| 0 <= k < hs.len() && hs[k] == t[i];
                assert(template_refs_within(hs[k], ident_set(p)));
            }
            lemma_template_phase(t, ctx, known, ident_set(p), p1.0, p1.1);
            lemma_resolve_sequence_concat(p, t, ctx, known, init);
        },
        Err(_) => {},
    }
}

/// The environment-variable names the set's signal hooks read, in set
/// order; changing one of these variables must force regeneration.
pub open spec fn env_var_names(hs: Seq<HookModel>) -> Seq<Seq<char>>
    decreases hs.len(),
{
    if hs.len() == 0 {
        Seq::empty()
    } else {
        env_var_names(hs.drop_last()) + (match hs.last().kind {
            HookKindModel::Signal(SignalModel::EnvVar(n)) => seq![n],
            _ => Seq::<Seq<char>>::empty(),
        })
    }
}

/// An ordered, deduplicated collection of hooks, always seeded with the
/// baseline platform hook.
pub struct ConstantSet {
    hooks: Vec<ConstantHook>,
}

impl View for ConstantSet {
    type V = Seq<HookModel>;

    closed spec fn view(&self) -> Seq<HookModel> {
        self.hooks@.map_values(|h: ConstantHook| h@)
    }
}

/// The baseline hook every set starts from: the platform identifier.
pub open spec fn baseline_hook() -> HookModel {
    HookModel {
        identifier: "BUILD_OS"@,
        desc: crate::env::BUILD_OS_DOC@,
        kind: HookKindModel::Signal(SignalModel::Platform),
    }
}

impl ConstantSet {
    /// Strict identifier order over the whole set; every operation
    /// preserves it, and it makes identifiers unique.
    pub open spec fn well_formed(&self) -> bool {
        ids_sorted(self@)
    }

    /// A fresh set holding only the baseline platform hook.
    pub fn new() -> (r: Self)
        ensures
            r@ =~= seq![baseline_hook()],
            r.well_formed(),
    {
        let baseline = ConstantHook {
            identifier: String::from_str("BUILD_OS"),
            desc: String::from_str(crate::env::BUILD_OS_DOC),
            kind: HookKind::Signal(SignalKind::Platform),
        };
        let mut hooks: Vec<ConstantHook> = Vec::new();
        hooks.push(baseline);
        let r = ConstantSet { hooks };
        proof {
            assert(r@ =~= seq![baseline_hook()]);
        }
        r
    }

    /// The number of registered hooks.
    pub fn len(&self) -> (r: usize)
        ensures
            r == self@.len(),
    {
        self.hooks.len()
    }

    /// Adds a hook, or replaces the hook of the same identifier: the last
    /// registration wins, and identifier order is kept.
    pub fn register(&mut self, hook: ConstantHook)
        requires
            old(self).well_formed(),
        ensures
            final(self).well_formed(),
            final(self)@ == insert_hook(old(self)@, hook@),
            final(self)@.contains(hook@),
            forall|x: HookModel|
                #[trigger] final(self)@.contains(x) ==> x == hook@ || (old(self)@.contains(x)
                    && x.identifier != hook@.identifier),
            forall|x: HookModel|
                #[trigger] old(self)@.contains(x) && x.identifier != hook@.identifier
                    ==> final(self)@.contains(x),
    {
        let ghost before = self@;
        let mut i: usize = 0;
        loop
            invariant_except_break
                i <= self.hooks.len(),
                self@ == before,
                self.well_formed(),
                forall|k: int| 0 <= k < i ==> lex_lt(#[trigger] self@[k].identifier, hook@.identifier),
            ensures
                i <= self.hooks.len(),
                self@ == before,
                forall|k: int| 0 <= k < i ==> lex_lt(#[trigger] self@[k].identifier, hook@.identifier),
                i < self@.len() ==> !lex_lt(self@[i as int].identifier, hook@.identifier),
            decreases self.hooks.len() - i,
        {
            if i == self.hooks.len() {
                break;
            }
            if !str_lt(self.hooks[i].identifier.as_str(), hook.identifier.as_str()) {
                break;
            }
            i += 1;
        }
        proof {
            lemma_insert_hook_at(before, hook@, i as int);
            lemma_insert_hook_props(before, hook@);
        }
        if i < self.hooks.len() && str_eq(
            self.hooks[i].identifier.as_str(),
            hook.identifier.as_str(),
        ) {
            self.hooks.remove(i);
            self.hooks.insert(i, hook);
            proof {
                assert(self@ =~= before.update(i as int, hook@));
            }
        } else {
            self.hooks.insert(i, hook);
            proof {
                assert(self@ =~= before.take(i as int) + seq![hook@] + before.skip(i as int));
            }
        }
    }

    /// Resolves every hook, in deterministic order: first every
    /// non-template hook in identifier order, then every template hook in
    /// identifier order, each template looking values up among what is
    /// already resolved. The first failure aborts the whole step.
    pub fn resolve_all(&self, ctx: &BuildContext) -> (r: BtResult<Vec<ResolvedConst>>)
        requires
            self.well_formed(),
        ensures
            result_model(r) == resolve_all_model(self@, ctx@),
    {
        let ghost hsm = self@;
        let ghost known = ident_set(hsm);
        let ghost init: ResState = Ok((Seq::empty(), Map::empty()));
        let idents = self.identifiers();
        proof {
            assert forall|x: Seq<char>| strset(idents@).contains(x) implies known.contains(x) by {
                let i = choose|i: int| 0 <= i < idents@.len() && idents@[i]@ == x;
                assert(self@[i].identifier == x);
            }
            assert forall|x: Seq<char>| known.contains(x) implies strset(idents@).contains(x) by {
                let i = choose|i: int| 0 <= i < self@.len() && self@[i].identifier == x;
                assert(idents@[i]@ == x);
            }
            assert(strset(idents@) =~= known);
        }
        let mut out: Vec<ResolvedConst> = Vec::new();
        let mut resolved = StrTable::new();
        let mut i: usize = 0;
        proof {
            assert(hsm.take(0) =~= Seq::<HookModel>::empty());
            assert(entries_view(out@) =~= Seq::<EntryModel>::empty());
        }
        while i < self.hooks.len()
            invariant
                i <= self.hooks.len(),
                self.well_formed(),
                hsm == self@,
                known == ident_set(hsm),
                resolve_sequence(plain_hooks(hsm.take(i as int)), ctx@, known, init) == Ok::<
                    (Seq<EntryModel>, Map<Seq<char>, Seq<char>>),
                    ErrorModel,
                >((entries_view(out@), resolved@)),
                init == Ok::<(Seq<EntryModel>, Map<Seq<char>, Seq<char>>), ErrorModel>((
                    Seq::<EntryModel>::empty(),
                    Map::<Seq<char>, Seq<char>>::empty(),
                )),
                strset(idents@) == known,
            decreases self.hooks.len() - i,
        {
            let ghost st = resolve_sequence(plain_hooks(hsm.take(i as int)), ctx@, known, init);
            let h = &self.hooks[i];
            proof {
                assert(h@ == hsm[i as int]);
                assert(hsm.take(i + 1) =~= hsm.take(i as int).push(hsm[i as int]));
                lemma_class_push(hsm.take(i as int), hsm[i as int]);
            }
            match &h.kind {
                HookKind::Template(_) => {},
                HookKind::Literal { value, t } => {
                    let entry = ResolvedConst {
                        identifier: h.identifier.clone(),
                        value: ConstVal { desc: h.desc.clone(), v: value.clone(), t: *t },
                    };
                    proof {
                        lemma_step_extends(
                            plain_hooks(hsm.take(i as int)),
                            hsm[i as int],
                            ctx@,
                            known,
                            init,
                        );
                        assert(resolve_hook(hsm[i as int], ctx@, resolved@, known) == Ok::<
                            ValueModel,
                            ErrorModel,
                        >(entry.value@));
                        assert(entries_view(out@.push(entry)) =~= entries_view(out@).push(entry@));
                    }
                    resolved.insert(h.identifier.clone(), value.clone());
                    out.push(entry);
                },
                HookKind::Signal(sig) => {
                    let value: String = match sig {
                        SignalKind::Platform => {
                            let mut platform = ctx.os.clone();
                            platform.append("-");
                            platform.append(ctx.arch.as_str());
                            platform
                        },
                        SignalKind::EnvVar(name) => {
                            match ctx.vars.get(name.as_str()) {
                                Some(v) => v.clone(),
                                None => {
                                    proof {
                                        lemma_error_propagates(
                                            hsm,
                                            i as int,
                                            ctx@,
                                            known,
                                            init,
                                            st,
                                        );
                                    }
                                    return Err(
                                        BuildTimingError::ExternalSignalFailure(name.clone()),
                                    );
                                },
                            }
                        },
                        SignalKind::BuildTime => ctx.build_time.clone(),
                    };
                    let entry = ResolvedConst {
                        identifier: h.identifier.clone(),
                        value: ConstVal { desc: h.desc.clone(), v: value, t: ConstType::Str },
                    };
                    proof {
                        lemma_step_extends(
                            plain_hooks(hsm.take(i as int)),
                            hsm[i as int],
                            ctx@,
                            known,
                            init,
                        );
                        assert(resolve_hook(hsm[i as int], ctx@, resolved@, known) == Ok::<
                            ValueModel,
                            ErrorModel,
                        >(entry.value@));
                        assert(entries_view(out@.push(entry)) =~= entries_view(out@).push(entry@));
                    }
                    resolved.insert(h.identifier.clone(), entry.value.v.clone());
                    out.push(entry);
                },
            }
            i += 1;
        }
        proof {
            assert(hsm.take(self.hooks.len() as int) =~= hsm);
        }
        let mut i2: usize = 0;
        proof {
            assert(template_hooks(hsm.take(0)) =~= Seq::<HookModel>::empty());
            assert(plain_hooks(hsm) + template_hooks(hsm.take(0)) =~= plain_hooks(hsm));
        }
        while i2 < self.hooks.len()
            invariant
                i2 <= self.hooks.len(),
                self.well_formed(),
                hsm == self@,
                known == ident_set(hsm),
                resolve_sequence(
                    plain_hooks(hsm) + template_hooks(hsm.take(i2 as int)),
                    ctx@,
                    known,
                    init,
                ) == Ok::<(Seq<EntryModel>, Map<Seq<char>, Seq<char>>), ErrorModel>((
                    entries_view(out@),
                    resolved@,
                )),
                init == Ok::<(Seq<EntryModel>, Map<Seq<char>, Seq<char>>), ErrorModel>((
                    Seq::<EntryModel>::empty(),
                    Map::<Seq<char>, Seq<char>>::empty(),
                )),
                strset(idents@) == known,
            decreases self.hooks.len() - i2,
        {
            let ghost pre = plain_hooks(hsm) + template_hooks(hsm.take(i2 as int));
            let h = &self.hooks[i2];
            proof {
                assert(h@ == hsm[i2 as int]);
                assert(hsm.take(i2 + 1) =~= hsm.take(i2 as int).push(hsm[i2 as int]));
                lemma_class_push(hsm.take(i2 as int), hsm[i2 as int]);
            }
            match &h.kind {
                HookKind::Template(tpl) => {
                    proof {
                        assert(plain_hooks(hsm) + template_hooks(hsm.take(i2 + 1)) =~= pre.push(
                            hsm[i2 as int],
                        ));
                    }
                    match resolve_template(tpl.as_str(), &resolved, &idents) {
                        Ok(s) => {
                            let entry = ResolvedConst {
                                identifier: h.identifier.clone(),
                                value: ConstVal {
                                    desc: h.desc.clone(),
                                    v: s,
                                    t: ConstType::TemplateResult,
                                },
                            };
                            proof {
                                lemma_step_extends(pre, hsm[i2 as int], ctx@, known, init);
                                assert(resolve_hook(hsm[i2 as int], ctx@, resolved@, known) == Ok::<
                                    ValueModel,
                                    ErrorModel,
                                >(entry.value@));
                                assert(entries_view(out@.push(entry)) =~= entries_view(
                                    out@,
                                ).push(entry@));
                            }
                            resolved.insert(h.identifier.clone(), entry.value.v.clone());
                            out.push(entry);
                        },
                        Err(TemplateFailure::Unknown(nm)) => {
                            proof {
                                lemma_template_error_propagates(
                                    hsm,
                                    i2 as int,
                                    ctx@,
                                    known,
                                    init,
                                );
                            }
                            return Err(
                                BuildTimingError::UnknownConstant {
                                    constant: h.identifier.clone(),
                                    identifier: nm,
                                },
                            );
                        },
                        Err(TemplateFailure::Forward(nm)) => {
                            proof {
                                lemma_template_error_propagates(
                                    hsm,
                                    i2 as int,
                                    ctx@,
                                    known,
                                    init,
                                );
                            }
                            return Err(
                                BuildTimingError::UnresolvedForwardReference {
                                    constant: h.identifier.clone(),
                                    identifier: nm,
                                },
                            );
                        },
                    }
                },
                _ => {
                    proof {
                        assert(plain_hooks(hsm) + template_hooks(hsm.take(i2 + 1)) =~= pre);
                    }
                },
            }
            i2 += 1;
        }
        proof {
            assert(hsm.take(self.hooks.len() as int) =~= hsm);
            assert(resolution_order(hsm) == plain_hooks(hsm) + template_hooks(hsm));
        }
        Ok(out)
    }

    /// The environment-variable names the registered signal hooks read.
    pub fn env_signal_names(&self) -> (r: Vec<String>)
        ensures
            crate::template::str_views(r@) == env_var_names(self@),
    {
        let ghost hsm = self@;
        let mut out: Vec<String> = Vec::new();
        let mut i: usize = 0;
        proof {
            assert(hsm.take(0) =~= Seq::<HookModel>::empty());
            assert(crate::template::str_views(out@) =~= env_var_names(hsm.take(0)));
        }
        while i < self.hooks.len()
            invariant
                i <= self.hooks.len(),
                hsm == self@,
                crate::template::str_views(out@) == env_var_names(hsm.take(i as int)),
            decreases self.hooks.len() - i,
        {
            let h = &self.hooks[i];
            proof {
                assert(h@ == hsm[i as int]);
                assert(hsm.take(i + 1) =~= hsm.take(i as int).push(hsm[i as int]));
                assert(hsm.take(i + 1).drop_last() =~= hsm.take(i as int));
                assert(hsm.take(i + 1).last() == hsm[i as int]);
            }
            match &h.kind {
                HookKind::Signal(SignalKind::EnvVar(name)) => {
                    let ghost before = out@;
                    out.push(name.clone());
                    proof {
                        assert(crate::template::str_views(out@) =~= crate::template::str_views(
                            before,
                        ).push(name@));
                        assert(env_var_names(hsm.take(i as int)) + seq![name@] =~= env_var_names(
                            hsm.take(i as int),
                        ).push(name@));
                    }
                },
                _ => {
                    proof {
                        assert(env_var_names(hsm.take(i as int)) + Seq::<Seq<char>>::empty()
                            =~= env_var_names(hsm.take(i as int)));
                    }
                },
            }
            i += 1;
        }
        proof {
            assert(hsm.take(self.hooks.len() as int) =~= hsm);
        }
        out
    }

    /// The registered identifiers, in set order.
    pub fn identifiers(&self) -> (r: Vec<String>)
        ensures
            r@.len() == self@.len(),
            forall|i: int| 0 <= i < r@.len() ==> #[trigger] r@[i]@ == self@[i].identifier,
    {
        let mut out: Vec<String> = Vec::new();
        let mut i: usize = 0;
        while i < self.hooks.len()
            invariant
                i <= self.hooks.len(),
                out@.len() == i,
                forall|k: int| 0 <= k < i ==> #[trigger] out@[k]@ == self@[k].identifier,
            decreases self.hooks.len() - i,
        {
            out.push(self.hooks[i].identifier.clone());
            i += 1;
        }
        out
    }
}

} // verus!
