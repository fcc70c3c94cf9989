//! The build context: an explicitly constructed, immutable snapshot of the
//! environment a build runs in. It is captured once, before generation
//! starts, and passed into the engine, so that one build invocation sees
//! one consistent picture and resolution stays deterministic.

use vstd::prelude::*;

use crate::constant_set::ConstType;
use crate::constant_set::ConstVal;
use crate::err::BtResult;
use crate::err::BuildTimingError;
use crate::err::ErrorModel;
use crate::str_table::StrTable;
use crate::text::str_eq;

verus! {

/// Documentation attached to the baseline platform constant.
pub const BUILD_OS_DOC: &'static str =
    "Operating system and architecture on which the project was built.\nThe format of this value is always `os-arch`, where `os` is the\noperating system name and `arch` is the computer architecture.";

/// Ghost model of a [`BuildContext`].
pub struct ContextModel {
    pub os: Seq<char>,
    pub arch: Seq<char>,
    pub vars: Map<Seq<char>, Seq<char>>,
    pub is_debug: bool,
    pub build_time: Seq<char>,
}

/// A read-only snapshot of the external signals one build invocation may
/// draw on: the platform strings, the environment variables, whether the
/// current profile is a debug profile, and the formatted build timestamp.
pub struct BuildContext {
    pub os: String,
    pub arch: String,
    pub vars: StrTable,
    pub is_debug: bool,
    pub build_time: String,
}

impl View for BuildContext {
    type V = ContextModel;

    open spec fn view(&self) -> ContextModel {
        ContextModel {
            os: self.os@,
            arch: self.arch@,
            vars: self.vars@,
            is_debug: self.is_debug,
            build_time: self.build_time@,
        }
    }
}

impl BuildContext {
    /// Assembles a snapshot from already-captured values.
    pub fn new(
        os: String,
        arch: String,
        vars: StrTable,
        is_debug: bool,
        build_time: String,
    ) -> (r: Self)
        ensures
            r@ == (ContextModel {
                os: os@,
                arch: arch@,
                vars: vars@,
                is_debug,
                build_time: build_time@,
            }),
    {
        BuildContext { os, arch, vars, is_debug, build_time }
    }
}

/// The `os-arch` platform string of a context.
pub open spec fn platform_of(ctx: ContextModel) -> Seq<char> {
    ctx.os + "-"@ + ctx.arch
}

/// A named build constant whose value the library itself knows how to
/// derive from the context. `BUILD_OS` is the one baseline constant; an
/// unknown name is reported as a recoverable error.
pub struct BuildTimingConst(pub &'static str);

/// The identifier of the baseline platform constant.
pub const BUILD_OS: &'static str = "BUILD_OS";

/// A provider of one build constant value.
pub trait BuildConstVal {
    fn build_val(&self, ctx: &BuildContext) -> BtResult<ConstVal>;
}

impl BuildTimingConst {
    /// Resolves this constant against the context: `BUILD_OS` yields the
    /// `os-arch` platform string; any other name is an unknown constant.
    pub fn resolve_val(&self, ctx: &BuildContext) -> (r: BtResult<ConstVal>)
        ensures
            match r {
                Ok(v) => self.0@ == "BUILD_OS"@ && v@.v == platform_of(ctx@) && v@.t
                    == ConstType::Str && v@.desc == BUILD_OS_DOC@,
                Err(e) => self.0@ != "BUILD_OS"@ && e@ == (ErrorModel::UnknownConstant {
                    constant: self.0@,
                    identifier: self.0@,
                }),
            },
    {
        if str_eq(self.0, "BUILD_OS") {
            let mut platform = ctx.os.clone();
            platform.append("-");
            platform.append(ctx.arch.as_str());
            Ok(ConstVal { desc: String::from_str(BUILD_OS_DOC), v: platform, t: ConstType::Str })
        } else {
            Err(BuildTimingError::UnknownConstant {
                constant: self.0.to_owned(),
                identifier: self.0.to_owned(),
            })
        }
    }
}

impl BuildConstVal for BuildTimingConst {
    fn build_val(&self, ctx: &BuildContext) -> BtResult<ConstVal> {
        self.resolve_val(ctx)
    }
}

} // verus!
