//! Firewall rules: created, kept, rewritten where they drifted — and never
//! touched where they are somebody else's.

use vstd::prelude::*;

use crate::error::{Error, ErrorView};
use crate::lists;
use crate::machine;
use crate::machine::{Machine, Rule, RuleView};
use crate::plan::operation;
use crate::plan::operation::PlannedOperation;
use crate::plan::part;
use crate::plan::part::{Draft, PartView, Step};
use crate::report;
use crate::report::Finding;
use crate::resource::firewall;
use crate::state::installation::OwnedFirewallRule;
use crate::state::journal::OpKind;
use crate::text;

verus! {

/// Holds of the rule on record under a name.
pub open spec fn is_recorded(name: Seq<char>) -> spec_fn(OwnedFirewallRule) -> bool {
    |r: OwnedFirewallRule| text::lower(r.name@) == text::lower(name)
}

fn find_recorded<'a>(owned: &'a Vec<OwnedFirewallRule>, name: &str) -> (r: Option<
    &'a OwnedFirewallRule,
>)
    ensures
        match r {
            Some(e) => lists::first(owned@, is_recorded(name@)) == Some(*e),
            None => lists::first(owned@, is_recorded(name@)) is None,
        },
{
    let mut i: usize = 0;
    while i < owned.len()
        invariant
            i <= owned@.len(),
            forall|j: int| 0 <= j < i ==> !is_recorded(name@)(#[trigger] owned@[j]),
        decreases owned@.len() - i,
    {
        if text::same_folded(owned[i].name.as_str(), name) {
            proof {
                lists::lemma_first_at(owned@, is_recorded(name@), i as int);
            }
            return Some(&owned[i]);
        }
        i = i + 1;
    }
    proof {
        lists::lemma_first_none(owned@, is_recorded(name@));
    }
    None
}

/// A step that keeps a rule.
pub open spec fn keeps(rule: RuleView) -> PartView {
    part::forward(operation::firewall_rule(OpKind::KeepFirewallRule, rule))
}

/// A step that creates a rule, or writes it anew.
pub open spec fn creates(rule: RuleView) -> PartView {
    part::forward(operation::firewall_rule(OpKind::CreateFirewallRule, rule))
}

/// A step that reports a rule.
pub open spec fn reports(code: Seq<char>, name: Seq<char>) -> PartView {
    part::finds(report::finding(code, name))
}

/// What one wanted rule comes to, given the rule on record, where there is
/// one, and the rules the machine has under its name.
///
/// A rule this installation owns, or one of the engine's for this product
/// that already reads as wanted (an installation whose database was lost), is
/// kept, or rewritten where it drifted. A rule of the engine's that reads
/// differently belongs to another installation of the product — the other
/// scope's — and is preserved like a stranger's.
pub open spec fn decided(
    want: RuleView,
    recorded: Option<RuleView>,
    existing: Seq<RuleView>,
    repair: bool,
) -> PartView {
    if existing.len() == 0 {
        creates(want)
    } else if existing.len() == 1 {
        let current = existing[0];
        let reads = firewall::reads_as(current, want);
        if recorded is Some || (current.grouping == want.grouping && reads) {
            if reads {
                keeps(want)
            } else if recorded is Some && !firewall::reads_as(current, recorded->Some_0) && !repair {
                keeps(recorded->Some_0).plus(
                    reports("firewall_rule_modified_preserved"@, want.name),
                )
            } else {
                creates(want)
            }
        } else {
            reports("firewall_rule_name_in_use_preserved"@, want.name)
        }
    } else {
        match recorded {
            Some(rule) => keeps(rule).plus(
                reports("firewall_rule_ambiguous_preserved"@, want.name),
            ),
            None => reports("firewall_rule_ambiguous_preserved"@, want.name),
        }
    }
}

/// The step for one rule the package wants.
pub open spec fn wanted_step(
    want: RuleView,
    owned: Seq<OwnedFirewallRule>,
    machine: Machine,
    may_write: bool,
    repair: bool,
) -> Step {
    let recorded: Result<Option<RuleView>, ErrorView> = match lists::first(
        owned,
        is_recorded(want.name),
    ) {
        None => Ok(None),
        Some(record) => match machine::rule_in(record.rule@) {
            Ok(rule) => Ok(Some(rule)),
            Err(e) => Err(e),
        },
    };
    match recorded {
        Err(e) => Err(e),
        Ok(recorded) => Ok(
            if may_write {
                decided(want, recorded, machine.rules_named(want.name), repair)
            } else {
                match recorded {
                    Some(rule) => keeps(rule).plus(
                        reports("firewall_rule_skipped_unelevated"@, want.name),
                    ),
                    None => reports("firewall_rule_skipped_unelevated"@, want.name),
                }
            },
        ),
    }
}

fn keep(rule: &Rule) -> (r: Draft)
    ensures
        r@ == keeps(rule@),
{
    Draft::forward(PlannedOperation::firewall_rule(OpKind::KeepFirewallRule, rule))
}

fn create(rule: &Rule) -> (r: Draft)
    ensures
        r@ == creates(rule@),
{
    Draft::forward(PlannedOperation::firewall_rule(OpKind::CreateFirewallRule, rule))
}

fn tell(code: &'static str, name: &str) -> (r: Draft)
    ensures
        r@ == reports(code@, name@),
{
    Draft::finds(Finding::named(code, name))
}

fn keep_and_tell(rule: &Option<Rule>, code: &'static str, name: &str) -> (r: Draft)
    ensures
        r@ == match *rule {
            Some(rule) => keeps(rule@).plus(reports(code@, name@)),
            None => reports(code@, name@),
        },
{
    match rule {
        Some(rule) => {
            let mut draft = keep(rule);
            draft.absorb(tell(code, name));
            draft
        },
        None => tell(code, name),
    }
}

fn decide(want: &Rule, recorded: &Option<Rule>, existing: &Vec<Rule>, repair: bool) -> (r: Draft)
    ensures
        r@ == decided(want@, text::option_view(*recorded), text::views(existing@), repair),
{
    let name = want.name.as_str();
    if existing.len() == 0 {
        return create(want);
    }
    if existing.len() > 1 {
        return keep_and_tell(recorded, "firewall_rule_ambiguous_preserved", name);
    }
    let current = &existing[0];
    assert(text::views(existing@)[0] == current@);
    let reads = firewall::matches(current, want);
    match recorded {
        Some(rule) => {
            if reads {
                keep(want)
            } else if !firewall::matches(current, rule) && !repair {
                keep_and_tell(recorded, "firewall_rule_modified_preserved", name)
            } else {
                create(want)
            }
        },
        None => {
            if firewall::is_ours(current, want.grouping.as_str()) && reads {
                keep(want)
            } else {
                tell("firewall_rule_name_in_use_preserved", name)
            }
        },
    }
}

fn plan_wanted(
    want: &Rule,
    owned: &Vec<OwnedFirewallRule>,
    machine: &Machine,
    may_write: bool,
    repair: bool,
) -> (r: Result<Draft, Error>)
    ensures
        part::agrees(r, wanted_step(want@, owned@, *machine, may_write, repair)),
{
    let recorded = match find_recorded(owned, want.name.as_str()) {
        None => None,
        Some(record) => match firewall::rule_of(
            Some(record.rule.as_str()),
            "owned firewall rule",
        ) {
            Ok(rule) => Some(rule),
            Err(e) => {
                return Err(e);
            },
        },
    };
    if may_write {
        let existing = machine.list_rules(want.name.as_str());
        Ok(decide(want, &recorded, &existing, repair))
    } else {
        Ok(keep_and_tell(&recorded, "firewall_rule_skipped_unelevated", want.name.as_str()))
    }
}

/// Holds of the wanted rule of a name.
pub open spec fn is_named(name: Seq<char>) -> spec_fn(RuleView) -> bool {
    |r: RuleView| text::lower(r.name) == text::lower(name)
}

fn is_wanted(wanted: &Vec<Rule>, name: &str) -> (r: bool)
    ensures
        r == (lists::first(text::views(wanted@), is_named(name@)) is Some),
{
    let ghost all = text::views(wanted@);
    let mut i: usize = 0;
    while i < wanted.len()
        invariant
            i <= wanted@.len(),
            all == text::views(wanted@),
            forall|j: int| 0 <= j < i ==> !is_named(name@)(#[trigger] all[j]),
        decreases wanted@.len() - i,
    {
        assert(all[i as int] == wanted@[i as int]@);
        if text::same_folded(wanted[i].name.as_str(), name) {
            proof {
                lists::lemma_first_at(all, is_named(name@), i as int);
            }
            return true;
        }
        i = i + 1;
    }
    proof {
        lists::lemma_first_none(all, is_named(name@));
    }
    false
}

/// What one rule on record that is no longer wanted comes to, given the rules
/// the machine has under its name.
pub open spec fn dropped(name: Seq<char>, recorded: RuleView, existing: Seq<RuleView>) -> PartView {
    if existing.len() == 0 {
        reports("firewall_rule_missing"@, name)
    } else if existing.len() > 1 {
        reports("firewall_rule_ambiguous_preserved"@, name)
    } else if firewall::reads_as(existing[0], recorded) {
        part::removal(operation::firewall_rule(OpKind::RemoveFirewallRule, recorded))
    } else if existing[0].grouping == recorded.grouping {
        reports("firewall_rule_modified_preserved"@, name)
    } else {
        reports("firewall_rule_name_in_use_preserved"@, name)
    }
}

/// The step for one rule on record.
pub open spec fn owned_step(
    record: OwnedFirewallRule,
    wanted: Seq<RuleView>,
    machine: Machine,
    may_write: bool,
) -> Step {
    if lists::first(wanted, is_named(record.name@)) is Some {
        Ok(part::nothing())
    } else {
        match machine::rule_in(record.rule@) {
            Err(e) => Err(e),
            Ok(recorded) => Ok(
                if may_write {
                    dropped(record.name@, recorded, machine.rules_named(record.name@))
                } else {
                    keeps(recorded).plus(
                        reports("firewall_rule_skipped_unelevated"@, record.name@),
                    )
                },
            ),
        }
    }
}

fn plan_owned(
    record: &OwnedFirewallRule,
    wanted: &Vec<Rule>,
    machine: &Machine,
    may_write: bool,
) -> (r: Result<Draft, Error>)
    ensures
        part::agrees(r, owned_step(*record, text::views(wanted@), *machine, may_write)),
{
    let name = record.name.as_str();
    if is_wanted(wanted, name) {
        return Ok(Draft::new());
    }
    let recorded = match firewall::rule_of(Some(record.rule.as_str()), "owned firewall rule") {
        Ok(rule) => rule,
        Err(e) => {
            return Err(e);
        },
    };
    if !may_write {
        let mut draft = keep(&recorded);
        draft.absorb(tell("firewall_rule_skipped_unelevated", name));
        return Ok(draft);
    }
    let existing = machine.list_rules(name);
    if existing.len() == 0 {
        return Ok(tell("firewall_rule_missing", name));
    }
    if existing.len() > 1 {
        return Ok(tell("firewall_rule_ambiguous_preserved", name));
    }
    assert(text::views(existing@)[0] == existing@[0]@);
    if firewall::matches(&existing[0], &recorded) {
        Ok(
            Draft::removal(
                PlannedOperation::firewall_rule(OpKind::RemoveFirewallRule, &recorded),
            ),
        )
    } else if firewall::is_ours(&existing[0], recorded.grouping.as_str()) {
        Ok(tell("firewall_rule_modified_preserved", name))
    } else {
        Ok(tell("firewall_rule_name_in_use_preserved", name))
    }
}

/// The steps for the rules the package wants.
pub open spec fn wanted_steps(
    wanted: Seq<RuleView>,
    owned: Seq<OwnedFirewallRule>,
    machine: Machine,
    may_write: bool,
    repair: bool,
) -> Seq<Step> {
    wanted.map_values(|w: RuleView| wanted_step(w, owned, machine, may_write, repair))
}

/// The steps for the rules on record.
pub open spec fn owned_steps(
    owned: Seq<OwnedFirewallRule>,
    wanted: Seq<RuleView>,
    machine: Machine,
    may_write: bool,
) -> Seq<Step> {
    owned.map_values(|r: OwnedFirewallRule| owned_step(r, wanted, machine, may_write))
}

/// What the firewall rules add to a plan.
pub open spec fn section(
    wanted: Seq<RuleView>,
    owned: Seq<OwnedFirewallRule>,
    machine: Machine,
    may_write: bool,
    repair: bool,
) -> Step {
    part::both(
        part::gather(wanted_steps(wanted, owned, machine, may_write, repair)),
        part::gather(owned_steps(owned, wanted, machine, may_write)),
    )
}

/// Keeps, creates, rewrites or removes firewall rules. A run that may not
/// write the firewall store reports what it would have done and carries every
/// owned rule forward untouched, so that a later elevated run can still
/// remove it.
pub fn reconcile_firewall(
    wanted: &Vec<Rule>,
    owned: &Vec<OwnedFirewallRule>,
    machine: &Machine,
    may_write: bool,
    repair: bool,
) -> (r: Result<Draft, Error>)
    ensures
        part::agrees(r, section(text::views(wanted@), owned@, *machine, may_write, repair)),
{
    let ghost w = text::views(wanted@);
    let ghost first = wanted_steps(w, owned@, *machine, may_write, repair);
    let ghost second = owned_steps(owned@, w, *machine, may_write);
    let mut draft = Draft::new();
    let mut i: usize = 0;
    assert(first.take(0) =~= Seq::<Step>::empty());
    while i < wanted.len()
        invariant
            i <= wanted@.len(),
            first.len() == wanted@.len(),
            w == text::views(wanted@),
            first == wanted_steps(w, owned@, *machine, may_write, repair),
            part::gather(first.take(i as int)) == Ok::<PartView, ErrorView>(draft@),
        decreases wanted@.len() - i,
    {
        proof {
            part::lemma_gather_take(first, i as int);
            assert(w[i as int] == wanted@[i as int]@);
        }
        match plan_wanted(&wanted[i], owned, machine, may_write, repair) {
            Err(e) => {
                proof {
                    part::lemma_gather_fails(first, i + 1);
                }
                return Err(e);
            },
            Ok(more) => {
                draft.absorb(more);
            },
        }
        i = i + 1;
    }
    assert(first.take(i as int) =~= first);
    let ghost done = draft@;
    let mut i: usize = 0;
    assert(second.take(0) =~= Seq::<Step>::empty());
    assert(done.plus(part::nothing()) =~= done);
    while i < owned.len()
        invariant
            i <= owned@.len(),
            second.len() == owned@.len(),
            w == text::views(wanted@),
            first == wanted_steps(w, owned@, *machine, may_write, repair),
            part::gather(first) == Ok::<PartView, ErrorView>(done),
            second == owned_steps(owned@, w, *machine, may_write),
            part::gather(second.take(i as int)) is Ok,
            draft@ == done.plus(part::gather(second.take(i as int))->Ok_0),
        decreases owned@.len() - i,
    {
        proof {
            part::lemma_gather_take(second, i as int);
        }
        let ghost before = part::gather(second.take(i as int))->Ok_0;
        match plan_owned(&owned[i], wanted, machine, may_write) {
            Err(e) => {
                proof {
                    part::lemma_gather_fails(second, i + 1);
                }
                return Err(e);
            },
            Ok(more) => {
                assert(done.plus(before).plus(more@) =~= done.plus(before.plus(more@)));
                draft.absorb(more);
            },
        }
        i = i + 1;
    }
    assert(second.take(i as int) =~= second);
    Ok(draft)
}

/// Whether every operation of a step only keeps a rule.
pub open spec fn only_keeps(step: PartView) -> bool {
    step.removals.len() == 0 && forall|i: int|
        0 <= i < step.forward.len() ==> (#[trigger] step.forward[i]).kind
            == OpKind::KeepFirewallRule
}

/// A run that may not write the firewall store changes no rule, whatever the
/// package wants and whatever is on record.
pub proof fn lemma_an_unelevated_run_changes_no_rule(
    want: RuleView,
    record: OwnedFirewallRule,
    wanted: Seq<RuleView>,
    owned: Seq<OwnedFirewallRule>,
    machine: Machine,
    repair: bool,
)
    ensures
        wanted_step(want, owned, machine, false, repair) matches Ok(step) ==> only_keeps(step),
        owned_step(record, wanted, machine, false) matches Ok(step) ==> only_keeps(step),
{
}

/// A rule is taken away only where it still reads as the recorded one, and a
/// stranger's rule of the same name is neither kept nor written over.
pub proof fn lemma_a_strangers_rule_is_left_alone(
    want: RuleView,
    name: Seq<char>,
    recorded: RuleView,
    current: RuleView,
    repair: bool,
)
    requires
        current.grouping != want.grouping,
        current.grouping != recorded.grouping,
        !firewall::reads_as(current, recorded),
    ensures
        decided(want, None, seq![current], repair).forward.len() == 0,
        decided(want, None, seq![current], repair).removals.len() == 0,
        dropped(name, recorded, seq![current]).removals.len() == 0,
        dropped(name, recorded, seq![current]).forward.len() == 0,
{
}

}
