//! What holds of how a dependency ends.

use vstd::prelude::*;

use crate::action::launch;
use crate::dependency;
use crate::dependency::acquire::{AcquiredView, Reason};
use crate::dependency::detect::DetectionView;
use crate::dependency::{Conditions, Standing, Why, World};
use crate::machine::Machine;
use crate::metadata::{AcquisitionSource, Dependency, OptionView};
use crate::report::documents::DependencyStatus;
use crate::text;

verus! {

/// Whether the dependency was looked for and is not there.
pub open spec fn missing(w: World) -> bool {
    w.detected matches Some(Ok(found)) && found@ is Absent
}

/// Whether the run may not ask for the elevation that something needs.
pub open spec fn barred(c: Conditions) -> bool {
    c.quiet && !c.elevated
}

/// Whether a missing dependency may be acquired.
pub open spec fn may_acquire(d: Dependency, c: Conditions, w: World) -> bool {
    &&& missing(w)
    &&& c.install_dependencies
    &&& !(d.elevation_required && barred(c))
    &&& !(d.acquisition.source == AcquisitionSource::Embedded && w.payload_error is Some)
}

/// Whether its installer may run.
pub open spec fn may_run(d: Dependency, c: Conditions, w: World) -> bool {
    &&& may_acquire(d, c, w)
    &&& (w.prepared matches Some(Ok(_)))
    &&& w.acquired matches Some(Ok(a)) && !(a.elevation_required && barred(c))
    &&& !w.cancelled
    &&& w.fault_before is None
}

/// Whether an exit code is a success: nought, one that is declared, or one
/// that asks for a restart.
pub open spec fn is_success(w: World) -> bool {
    w.ran matches Some(Ok(code)) && w.acquired matches Some(Ok(a)) && (code == 0
        || a@.success_codes.contains(code) || a@.reboot_codes.contains(code))
}

/// A dependency is looked for first; what is there is left as it is, and what
/// is not is acquired only where that is allowed.
pub proof fn lemma_a_dependency_is_looked_for_first(d: Dependency, c: Conditions, w: World)
    ensures
        ({
            let s = dependency::standing(d, c, w);
            &&& s == Standing::Detect <==> w.detected is None
            &&& s == Standing::Present <==> (w.detected matches Some(Ok(found)) && found@
                is Present)
            &&& s == Standing::Failed(Why::Undetectable) <==> (w.detected matches Some(Err(_)))
            &&& s == Standing::Failed(Why::Disabled) <==> missing(w) && !c.install_dependencies
            &&& s == Standing::Prepare <==> may_acquire(d, c, w) && w.prepared is None
            &&& s == Standing::Failed(Why::NotPrepared) <==> may_acquire(d, c, w)
                && (w.prepared matches Some(Err(_)))
            &&& s == Standing::Acquire <==> may_acquire(d, c, w) && (w.prepared matches Some(Ok(_)))
                && w.acquired is None
            &&& s == Standing::Failed(Why::AcquisitionCancelled) <==> may_acquire(d, c, w)
                && (w.prepared matches Some(Ok(_))) && (w.acquired matches Some(Err(e)) && e.reason
                == Reason::Cancelled)
            &&& s == Standing::Failed(Why::Unacquired) <==> may_acquire(d, c, w)
                && (w.prepared matches Some(Ok(_))) && (w.acquired matches Some(Err(e)) && e.reason
                != Reason::Cancelled)
        }),
{
}

/// A run that can ask is never stopped for want of elevation, and one that
/// cannot runs nothing that needs it.
pub proof fn lemma_elevation_is_asked_for_where_it_can_be(d: Dependency, c: Conditions, w: World)
    ensures
        ({
            let s = dependency::standing(d, c, w);
            &&& s == Standing::Failed(Why::NeedsElevation) ==> barred(c) && (d.elevation_required
                || (w.acquired matches Some(Ok(a)) && a.elevation_required))
            &&& missing(w) && c.install_dependencies && d.elevation_required && barred(c) ==> s
                == Standing::Failed(Why::NeedsElevation)
            &&& may_acquire(d, c, w) && (w.prepared matches Some(Ok(_))) && (
            w.acquired matches Some(Ok(a)) && a.elevation_required) && barred(c) ==> s
                == Standing::Failed(Why::NeedsElevation)
        }),
{
}

/// The installer runs once, when everything before it went well; a code that
/// is no success counts only where the dependency is there all the same; and
/// it is installed exactly when it is then found.
pub proof fn lemma_what_an_installer_comes_to(d: Dependency, c: Conditions, w: World)
    ensures
        ({
            let s = dependency::standing(d, c, w);
            let ended = may_run(d, c, w) && (w.ran matches Some(Ok(_)));
            let good = is_success(w) || w.rechecked == Some(true);
            &&& s == Standing::Install <==> may_run(d, c, w) && w.ran is None
            &&& s == Standing::Failed(Why::PromptRefused) <==> may_run(d, c, w) && (
            w.ran matches Some(Err(e)) && e is Refused)
            &&& s == Standing::Failed(Why::NotLaunched) <==> may_run(d, c, w) && (
            w.ran matches Some(Err(e)) && e is Failed)
            &&& s == Standing::Recheck <==> ended && !is_success(w) && w.rechecked is None
            &&& s == Standing::Failed(Why::ExitCode) <==> ended && !is_success(w) && w.rechecked
                == Some(false)
            &&& s == Standing::Failed(Why::FaultAfter) <==> ended && good && w.fault_after is Some
            &&& s == Standing::Verify <==> ended && good && w.fault_after is None && w.verified
                is None
            &&& s == Standing::Installed <==> ended && good && w.fault_after is None && (
            w.verified matches Some(Ok(found)) && found@ is Present)
            &&& s == Standing::Failed(Why::Unverified) <==> ended && good && w.fault_after is None
                && (w.verified matches Some(Ok(found)) && found@ is Absent)
            &&& s == Standing::Failed(Why::Unverifiable) <==> ended && good && w.fault_after is None
                && (w.verified matches Some(Err(_)))
        }),
{
    let s = dependency::standing(d, c, w);
    if may_run(d, c, w) && w.ran is Some && w.ran->Some_0 is Ok {
        let a = w.acquired->Some_0->Ok_0@;
        let code = w.ran->Some_0->Ok_0;
        assert(dependency::succeeded(a, code) == is_success(w));
        assert(s == dependency::after_install(a, code, w));
        if w.rechecked is Some {
            assert(w.rechecked == Some(w.rechecked->Some_0));
        }
    } else {
        assert(s is Failed || s is Install || s is Detect || s is Present || s is Prepare || s
            is Acquire);
    }
}

/// Someone who cancels is heeded until the installer runs.
pub proof fn lemma_cancelling_is_heeded(d: Dependency, c: Conditions, w: World)
    ensures
        ({
            let s = dependency::standing(d, c, w);
            let ready = may_acquire(d, c, w) && (w.prepared matches Some(Ok(_))) && (
            w.acquired matches Some(Ok(a)) && !(a.elevation_required && barred(c)));
            &&& s == Standing::Failed(Why::Cancelled) <==> ready && w.cancelled
            &&& s == Standing::Failed(Why::FaultBefore) <==> ready && !w.cancelled && w.fault_before
                is Some
        }),
{
}

/// What is recorded of a dependency that is there: the version that was found,
/// and of one that was installed, what was run and how it ended too.
pub proof fn lemma_what_is_recorded(d: Dependency, c: Conditions, w: World)
    ensures
        ({
            let s = dependency::standing(d, c, w);
            let r = dependency::record_of(d, w, s);
            &&& r.id == d.id@
            &&& r.name == (if d.display_name@.len() == 0 {
                d.id@
            } else {
                d.display_name@
            })
            &&& s == Standing::Present ==> r.status == "present"@ && r.action == "detected"@
                && r.code is None && r.exit_code is None && (w.detected matches Some(Ok(found))
                && found@ == (DetectionView::Present { version: r.version->Some_0 }))
            &&& s == Standing::Installed ==> r.status == "installed"@ && r.code is None && (
            w.verified matches Some(Ok(found)) && found@ == (DetectionView::Present {
                version: r.version->Some_0,
            })) && (w.ran matches Some(Ok(code)) && r.exit_code == Some(code)) && (
            w.acquired matches Some(Ok(a)) && r.url == Some(a@.url) && r.sha256 == Some(a@.sha256))
            &&& s == Standing::Installed && (w.ran matches Some(Ok(code)) && w.acquired matches Some(
                Ok(a),
            ) && a@.reboot_codes.contains(code)) ==> r.action == "reboot_required"@
            &&& s == Standing::Installed && (w.ran matches Some(Ok(code)) && w.acquired matches Some(
                Ok(a),
            ) && !a@.reboot_codes.contains(code)) ==> r.action == "installed"@
            &&& s is Failed ==> r.version is None && r.action == "none"@ && r.code is Some
        }),
{
}

/// Whether a dependency needs nothing more, or is not needed.
pub open spec fn settled(
    d: Dependency,
    w: World,
    options: Map<Seq<char>, OptionView>,
    c: Conditions,
) -> bool {
    ||| !dependency::is_required(d, options)
    ||| dependency::standing(d, c, w) == Standing::Present
    ||| dependency::standing(d, c, w) == Standing::Installed
}

/// Whether the installer of a dependency asked for a restart.
pub open spec fn asked(
    d: Dependency,
    w: World,
    options: Map<Seq<char>, OptionView>,
    c: Conditions,
) -> bool {
    &&& dependency::is_required(d, options)
    &&& dependency::standing(d, c, w) == Standing::Installed
    &&& w.ran matches Some(Ok(code)) && w.acquired matches Some(Ok(a)) && a@.reboot_codes.contains(
        code,
    )
}

/// The phase is over, without a failure, exactly when every dependency that is
/// needed is there; it then has a record of each, and asks for a restart
/// exactly when one of the installers did.
pub proof fn lemma_when_the_phase_is_over(
    ds: Seq<Dependency>,
    ws: Seq<World>,
    options: Map<Seq<char>, OptionView>,
    c: Conditions,
    dir: Seq<char>,
    now: Seq<char>,
)
    ensures
        ({
            let r = dependency::phase(ds, ws, options, c, dir, now);
            let over = r.next is None && r.phase.failure is None;
            &&& over <==> forall|i: int|
                0 <= i < ds.len() ==> #[trigger] settled(ds[i], ws[i], options, c)
            &&& over ==> r.phase.records.len() == ds.len() && forall|i: int|
                0 <= i < ds.len() ==> (#[trigger] r.phase.records[i]).id == ds[i].id@
            &&& over ==> (r.phase.reboot_required <==> exists|i: int|
                0 <= i < ds.len() && #[trigger] asked(ds[i], ws[i], options, c))
        }),
    decreases ds.len(),
{
    if ds.len() > 0 {
        let before = ds.drop_last();
        let n = ds.len() - 1;
        lemma_when_the_phase_is_over(before, ws, options, c, dir, now);
        let b = dependency::phase(before, ws, options, c, dir, now);
        let r = dependency::phase(ds, ws, options, c, dir, now);
        let s = dependency::standing(ds[n], c, ws[n]);
        let over = r.next is None && r.phase.failure is None;
        let was = b.next is None && b.phase.failure is None;
        assert(over <==> was && settled(ds[n], ws[n], options, c));
        if over {
            assert forall|i: int| 0 <= i < ds.len() implies #[trigger] settled(
                ds[i],
                ws[i],
                options,
                c,
            ) by {
                if i < n {
                    assert(before[i] == ds[i]);
                    assert(settled(before[i], ws[i], options, c));
                }
            }
            assert forall|i: int| 0 <= i < ds.len() implies (#[trigger] r.phase.records[i]).id
                == ds[i].id@ by {
                if i < n {
                    assert(before[i] == ds[i]);
                    assert(r.phase.records[i] == b.phase.records[i]);
                }
            }
            if b.phase.reboot_required {
                let i = choose|i: int|
                    0 <= i < before.len() && #[trigger] asked(before[i], ws[i], options, c);
                assert(asked(ds[i], ws[i], options, c));
            }
            if exists|i: int| 0 <= i < ds.len() && #[trigger] asked(ds[i], ws[i], options, c) {
                let i = choose|i: int|
                    0 <= i < ds.len() && #[trigger] asked(ds[i], ws[i], options, c);
                if i < n {
                    assert(asked(before[i], ws[i], options, c));
                }
            }
            if r.phase.reboot_required && !b.phase.reboot_required {
                assert(asked(ds[n], ws[n], options, c));
            }
        }
        if forall|i: int| 0 <= i < ds.len() ==> #[trigger] settled(ds[i], ws[i], options, c) {
            assert forall|i: int| 0 <= i < before.len() implies #[trigger] settled(
                before[i],
                ws[i],
                options,
                c,
            ) by {
                assert(settled(ds[i], ws[i], options, c));
            }
            assert(settled(ds[n], ws[n], options, c));
        }
    }
}

/// How an installer is run: one for Windows Installer by `msiexec`, quietly
/// and without a restart, any other by itself; its own switches come last.
pub proof fn lemma_how_an_installer_is_run(a: AcquiredView, machine: Machine)
    ensures
        ({
            let msi = text::lower(a.installer_type) == "msi"@ || text::lower(a.installer_type)
                == "wix"@;
            let args = dependency::arguments(a);
            &&& msi ==> dependency::program(a, machine) == launch::system_file(
                machine,
                "msiexec.exe"@,
            ) && args.len() == 4 + a.arguments.len() && args[0] == "/i"@ && args[1] == a.path
                && args[2] == "/qn"@ && args[3] == "/norestart"@ && args.skip(4) == a.arguments
            &&& !msi ==> dependency::program(a, machine) == a.path && args == a.arguments
        }),
{
    if text::lower(a.installer_type) == "msi"@ || text::lower(a.installer_type) == "wix"@ {
        assert(dependency::arguments(a).skip(4) =~= a.arguments);
    }
}

/// How a failure is told apart: by what went wrong.
pub proof fn lemma_how_failures_are_told_apart(why: Why)
    ensures
        ({
            let code = dependency::failure_code(why);
            &&& code == "dependency_missing"@ <== why == Why::Disabled
            &&& code == "dependency_requires_elevation"@ <== why == Why::NeedsElevation
            &&& code == "dependency_cancelled"@ <== why == Why::Cancelled || why
                == Why::AcquisitionCancelled || why == Why::PromptRefused
            &&& code == "dependency_unacquirable"@ <== why == Why::Unacquired || why
                == Why::NotPrepared || why == Why::PayloadUnreadable
            &&& code == "dependency_install_failed"@ <== why == Why::ExitCode || why
                == Why::NotLaunched || why == Why::FaultBefore
            &&& code == "dependency_unverified"@ <== why == Why::Unverified || why
                == Why::Unverifiable || why == Why::Undetectable || why == Why::FaultAfter
            &&& code == "dependency_"@ + dependency::failure_status(why)
        }),
{
    reveal_strlit("dependency_");
    reveal_strlit("dependency_missing");
    reveal_strlit("missing");
    reveal_strlit("dependency_requires_elevation");
    reveal_strlit("requires_elevation");
    reveal_strlit("dependency_cancelled");
    reveal_strlit("cancelled");
    reveal_strlit("dependency_unacquirable");
    reveal_strlit("unacquirable");
    reveal_strlit("dependency_install_failed");
    reveal_strlit("install_failed");
    reveal_strlit("dependency_unverified");
    reveal_strlit("unverified");
    assert(dependency::failure_code(why) =~= "dependency_"@ + dependency::failure_status(why));
}

/// What is shown of a dependency: what it is, whether it is there, and where
/// its installer would come from.
pub proof fn lemma_what_is_shown_of_a_dependency(
    s: DependencyStatus,
    d: Dependency,
    found: DetectionView,
)
    requires
        dependency::is_status(s, d, found),
    ensures
        s.id@ == d.id@,
        s.name@ == (if d.display_name@.len() == 0 {
            d.id@
        } else {
            d.display_name@
        }),
        s.minimum_version@ == d.minimum_version@,
        found is Present ==> s.status@ == "present"@ && text::option_view(s.version) == Some(
            found->version,
        ),
        found is Absent ==> s.status@ == "absent"@ && s.version is None,
        d.acquisition.source == AcquisitionSource::Winget ==> s.source@ == "winget"@,
        d.acquisition.source == AcquisitionSource::Url ==> s.source@ == "url"@,
        d.acquisition.source == AcquisitionSource::Embedded ==> s.source@ == "embedded"@
            && s.embedded is Some && s.embedded->Some_0.sha256@ == d.acquisition.sha256@
            && s.embedded->Some_0.size == d.acquisition.size,
        d.acquisition.source != AcquisitionSource::Embedded ==> s.embedded is None,
{
}

/// How a dependency is looked for: by its own detector, against its minimum.
pub proof fn lemma_how_a_dependency_is_looked_for(d: Dependency, machine: Machine)
    ensures
        dependency::looks(d, machine) == crate::dependency::detect::detected(
            d.detect,
            d.minimum_version@,
            machine,
        ),
{
}

/// What happened to a dependency is told in order: it was found, or it was
/// acquired and then installed, with the restart its installer asked for.
pub proof fn lemma_what_happened_is_told(d: Dependency, c: Conditions, w: World, now: Seq<char>)
    ensures
        ({
            let s = dependency::standing(d, c, w);
            let e = dependency::events_of(d, w, s, now);
            let restart = w.ran matches Some(Ok(code)) && w.acquired matches Some(Ok(a))
                && a@.reboot_codes.contains(code);
            &&& forall|i: int|
                0 <= i < e.len() ==> (#[trigger] e[i]).dependency_id == d.id@ && e[i].recorded_at
                    == now
            &&& s == Standing::Present ==> e.len() == 1 && e[0].action == "detected"@
            &&& s == Standing::Installed ==> e.len() == (if restart {
                3int
            } else {
                2int
            }) && e[0].action == "acquired"@ && e[1].action == "installed"@ && (
            w.acquired matches Some(Ok(a)) && e[0].url == Some(a@.url) && e[0].sha256 == Some(
                a@.sha256,
            ) && e[0].version == a@.version)
            &&& s == Standing::Installed && restart ==> e[2].action == "reboot_required"@
            &&& s is Failed ==> e.len() == 0
        }),
{
}

}
