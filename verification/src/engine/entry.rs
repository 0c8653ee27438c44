//! How a mutating run begins: the machine is new enough, the roots resolve and
//! may be written, and only then is there a log.

use vstd::prelude::*;

use crate::elevation;
use crate::elevation::Rights;
use crate::engine::package;
use crate::engine::package::{Package, Roots, RootsView, RunOptions};
use crate::error::{Error, ErrorView};
use crate::machine::Machine;
use crate::text;

verus! {

/// Where a run works. A machine older than the package supports is refused
/// before anything is resolved.
pub open spec fn entered(
    package: Package,
    options: RunOptions,
    build: Option<u32>,
    machine: Machine,
) -> Result<RootsView, ErrorView> {
    if build is Some && build->Some_0 < package.minimum_build {
        Err(package::too_old(package, build->Some_0))
    } else {
        package::resolved(package, options, machine)
    }
}

/// Where a run works, or why it does not.
pub fn enter(package: &Package, options: &RunOptions, build: Option<u32>, machine: &Machine) -> (r:
    Result<Roots, Error>)
    ensures
        match (r, entered(*package, *options, build, *machine)) {
            (Ok(roots), Ok(s)) => roots@ == s,
            (Err(e), Err(s)) => e@ == s,
            _ => false,
        },
{
    match package::check_platform(package, build) {
        Ok(_) => package::resolve_roots(package, options, machine),
        Err(e) => Err(e),
    }
}

/// Where a run that may write its roots logs: where its options say, or where
/// its kind has its log.
pub open spec fn logs_at(
    roots: Roots,
    options: RunOptions,
    kind: Seq<char>,
    now: Seq<char>,
    machine: Machine,
) -> Seq<char> {
    match options.log_path {
        Some(path) => path@,
        None => package::default_log(roots, options, kind, now, machine),
    }
}

/// Lets a run in to the roots it works in: where it logs, or why it may not
/// write them.
pub fn let_in(
    kind: &str,
    options: &RunOptions,
    roots: &Roots,
    rights: Rights,
    now: &str,
    machine: &Machine,
) -> (r: Result<String, Error>)
    ensures
        match r {
            Ok(log) => !elevation::is_required(options.scope, rights) && log@ == logs_at(
                *roots,
                *options,
                kind@,
                now@,
                *machine,
            ),
            Err(e) => elevation::is_required(options.scope, rights) && e@
                == elevation::not_allowed(options.scope, *roots),
        },
{
    match elevation::require_privileges(options.scope, roots, rights) {
        Err(e) => Err(e),
        Ok(_) => match &options.log_path {
            Some(path) => Ok(text::owned(path.as_str())),
            None => Ok(package::default_log_path(roots, options, kind, now, machine)),
        },
    }
}

}
