//! The firewall-rule resource: one Windows Firewall rule for an installed
//! program. Ownership is by rule name, and because Windows lets two rules
//! share a name, the rule the engine writes carries the product as its
//! `Grouping`; a same-named rule without it is a stranger's, which the
//! planner neither claims, rewrites nor removes. Removal is conservative in
//! the same way every resource's is: a rule that no longer reads as the one
//! that was written is preserved and reported.
//!
//! Rules are machine-wide and need an administrator. A run that has none —
//! a per-user install by a standard user — reports
//! `firewall_rule_skipped_unelevated` for each declared rule and creates
//! nothing; the requirement is not silently dropped, and nothing is left
//! half done.

use vstd::prelude::*;

use crate::error::{Error, ErrorView};
use crate::lists;
use crate::machine;
use crate::machine::{Rule, RuleView};
use crate::metadata::{
    FirewallAction, FirewallDirection, FirewallProtocol, FirewallRule, Metadata, OptionView,
};
use crate::plan::target;
use crate::resource::predicate;
use crate::resource::predicate::Options;
use crate::text;

verus! {

/// The group every rule of a product is filed under.
pub open spec fn group(metadata: Metadata) -> Seq<char> {
    "TigerSetup: "@ + metadata.package.name@
}

/// The group every rule of a product is filed under, which is also how the
/// engine recognises its own rule.
pub fn grouping(metadata: &Metadata) -> (r: String)
    ensures
        r@ == group(*metadata),
{
    text::cat2("TigerSetup: ", metadata.package.name.as_str())
}

pub open spec fn direction_word(d: FirewallDirection) -> Seq<char> {
    match d {
        FirewallDirection::Out => "out"@,
        FirewallDirection::In => "in"@,
    }
}

pub open spec fn action_word(a: FirewallAction) -> Seq<char> {
    match a {
        FirewallAction::Block => "block"@,
        FirewallAction::Allow => "allow"@,
    }
}

pub open spec fn protocol_word(p: FirewallProtocol) -> Seq<char> {
    match p {
        FirewallProtocol::Tcp => "tcp"@,
        FirewallProtocol::Udp => "udp"@,
        FirewallProtocol::Any => "any"@,
    }
}

/// What a declared rule means for an installation, when the options enable
/// it.
pub open spec fn rule_step(
    rule: FirewallRule,
    options: Map<Seq<char>, OptionView>,
    grouping: Seq<char>,
    install_root: Seq<char>,
) -> Result<(Seq<RuleView>, Seq<()>), ErrorView> {
    if !predicate::wanted(rule.when, Seq::<char>::empty(), options) {
        Ok((Seq::<RuleView>::empty(), Seq::<()>::empty()))
    } else {
        match target::placed_at(install_root, target::relative(rule.program@)) {
            Err(e) => Err(e),
            Ok(program) => Ok(
                (
                    seq![
                        RuleView {
                            name: rule.name@,
                            description: rule.description@,
                            grouping,
                            program,
                            direction: direction_word(rule.direction),
                            action: action_word(rule.action),
                            protocol: protocol_word(rule.protocol),
                            local_ports: rule.local_ports@,
                            enabled: true,
                        },
                    ],
                    Seq::<()>::empty(),
                ),
            ),
        }
    }
}

/// What each declared rule means, in declaration order.
pub open spec fn rule_steps(
    metadata: Metadata,
    options: Map<Seq<char>, OptionView>,
    install_root: Seq<char>,
) -> Seq<Result<(Seq<RuleView>, Seq<()>), ErrorView>> {
    metadata.firewall_rules@.map_values(
        |r: FirewallRule| rule_step(r, options, group(metadata), install_root),
    )
}

/// The rules of a package for an installation.
pub open spec fn wanted_rules(
    metadata: Metadata,
    options: Map<Seq<char>, OptionView>,
    install_root: Seq<char>,
) -> Result<Seq<RuleView>, ErrorView> {
    match lists::gathered(rule_steps(metadata, options, install_root)) {
        Ok((rules, _)) => Ok(rules),
        Err(e) => Err(e),
    }
}

/// The rules the effective options enable, resolved for this installation.
pub fn desired(metadata: &Metadata, options: &Options, install_root: &str) -> (r: Result<
    Vec<Rule>,
    Error,
>)
    ensures
        match (r, wanted_rules(*metadata, options@, install_root@)) {
            (Ok(a), Ok(b)) => text::views(a@) == b,
            (Err(a), Err(b)) => a@ == b,
            _ => false,
        },
{
    let group_name = grouping(metadata);
    let ghost steps = rule_steps(*metadata, options@, install_root@);
    let mut out: Vec<Rule> = Vec::new();
    let mut i: usize = 0;
    proof {
        reveal_strlit("");
        assert(""@ =~= Seq::<char>::empty());
        assert(steps.take(0) =~= Seq::empty());
        assert(text::views(out@) =~= Seq::<RuleView>::empty());
    }
    while i < metadata.firewall_rules.len()
        invariant
            i <= metadata.firewall_rules@.len(),
            steps == rule_steps(*metadata, options@, install_root@),
            group_name@ == group(*metadata),
            ""@ == Seq::<char>::empty(),
            match lists::gathered(steps.take(i as int)) {
                Ok((rules, _)) => rules == text::views(out@),
                Err(_) => false,
            },
        decreases metadata.firewall_rules@.len() - i,
    {
        let rule = &metadata.firewall_rules[i];
        proof {
            lists::lemma_gathered_take(steps, i as int);
            assert(steps[i as int] == rule_step(
                *rule,
                options@,
                group(*metadata),
                install_root@,
            ));
        }
        if predicate::enabled(rule.when.as_ref(), "", options) {
            let relative = target::to_relative(rule.program.as_str());
            let program = match target::absolute(install_root, relative.as_str()) {
                Err(e) => {
                    proof {
                        lists::lemma_gathered_fails(steps, i + 1);
                    }
                    return Err(e);
                },
                Ok(program) => program,
            };
            let resolved = Rule {
                name: rule.name.clone(),
                description: rule.description.clone(),
                grouping: group_name.clone(),
                program,
                direction: match rule.direction {
                    FirewallDirection::Out => text::owned("out"),
                    FirewallDirection::In => text::owned("in"),
                },
                action: match rule.action {
                    FirewallAction::Block => text::owned("block"),
                    FirewallAction::Allow => text::owned("allow"),
                },
                protocol: match rule.protocol {
                    FirewallProtocol::Tcp => text::owned("tcp"),
                    FirewallProtocol::Udp => text::owned("udp"),
                    FirewallProtocol::Any => text::owned("any"),
                },
                local_ports: rule.local_ports.clone(),
                enabled: true,
            };
            proof {
                text::lemma_views_push(out@, resolved);
                assert(text::views(out@) + seq![resolved@] =~= text::views(out@).push(resolved@));
            }
            out.push(resolved);
        } else {
            assert(text::views(out@) + Seq::<RuleView>::empty() =~= text::views(out@));
        }
        i = i + 1;
    }
    assert(steps.take(i as int) =~= steps);
    Ok(out)
}

/// Whether a rule on the machine is one the engine wrote for this product:
/// it carries the product's grouping.
pub fn is_ours(rule: &Rule, group: &str) -> (r: bool)
    ensures
        r == (rule@.grouping == group@),
{
    text::same(rule.grouping.as_str(), group)
}

/// Whether a rule still reads exactly as recorded, apart from the case of
/// its program path, which Windows may canonicalise.
pub open spec fn reads_as(current: RuleView, recorded: RuleView) -> bool {
    &&& current.name == recorded.name
    &&& current.grouping == recorded.grouping
    &&& text::lower(current.program) == text::lower(recorded.program)
    &&& current.direction == recorded.direction
    &&& current.action == recorded.action
    &&& current.protocol == recorded.protocol
    &&& current.local_ports == recorded.local_ports
    &&& current.enabled == recorded.enabled
    &&& current.description == recorded.description
}

/// Whether a rule on the machine still reads exactly as recorded, apart
/// from the case of its program path, which Windows may canonicalise.
pub fn matches(current: &Rule, recorded: &Rule) -> (r: bool)
    ensures
        r == reads_as(current@, recorded@),
{
    text::same(current.name.as_str(), recorded.name.as_str()) && current.grouping
        == recorded.grouping && text::same_folded(
        current.program.as_str(),
        recorded.program.as_str(),
    ) && current.direction == recorded.direction && current.action == recorded.action
        && current.protocol == recorded.protocol && current.local_ports == recorded.local_ports
        && current.enabled == recorded.enabled && current.description == recorded.description
}

/// What a row that carries no rule is refused with.
pub open spec fn no_rule(what: Seq<char>) -> ErrorView {
    ErrorView { code: "journal_inconsistent"@, message: what + " carries no firewall rule"@ }
}

/// The rule an operation row or an ownership row carries.
pub fn rule_of(stored: Option<&str>, what: &str) -> (r: Result<Rule, Error>)
    ensures
        match stored {
            None => r matches Err(e) && e@ == no_rule(what@),
            Some(s) => match (r, machine::rule_in(s@)) {
                (Ok(rule), Ok(b)) => rule@ == b && rule@.stored() == s@,
                (Err(e), Err(b)) => e@ == b,
                _ => false,
            },
        },
{
    match stored {
        None => {
            let message = text::cat2(what, " carries no firewall rule");
            Err(Error::new("journal_inconsistent", message.as_str()))
        },
        Some(s) => Rule::deserialize(s),
    }
}

}
