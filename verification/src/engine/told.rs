//! What the log says of a run.

use vstd::prelude::*;

use crate::engine::package::{Package, Roots, RunOptions};
use crate::plan::reconcile::PlanCounts;
use crate::report::documents::{Event, Outcome};
use crate::state::journal::TransactionRow;
use crate::text;

verus! {

/// A name and a value, as the log shows them.
pub open spec fn pair(name: Seq<char>, value: Seq<char>) -> Seq<char> {
    name + "="@ + value
}

/// Several names and values, as the log shows them.
pub open spec fn shown(pairs: Seq<(Seq<char>, Seq<char>)>) -> Seq<char> {
    text::join(pairs.map_values(|p: (Seq<char>, Seq<char>)| pair(p.0, p.1)), " "@)
}

/// What a list of names and values says.
pub open spec fn views_of(pairs: Seq<(&'static str, String)>) -> Seq<(Seq<char>, Seq<char>)> {
    pairs.map_values(|p: (&'static str, String)| (p.0@, p.1@))
}

fn show(pairs: &Vec<(&'static str, String)>) -> (r: String)
    ensures
        r@ == shown(views_of(pairs@)),
{
    let ghost all = views_of(pairs@).map_values(|p: (Seq<char>, Seq<char>)| pair(p.0, p.1));
    let mut parts: Vec<String> = Vec::new();
    let mut i: usize = 0;
    while i < pairs.len()
        invariant
            i <= pairs@.len(),
            all == views_of(pairs@).map_values(|p: (Seq<char>, Seq<char>)| pair(p.0, p.1)),
            parts@.len() == i,
            forall|j: int| 0 <= j < i ==> #[trigger] parts@[j]@ == all[j],
        decreases pairs@.len() - i,
    {
        parts.push(text::cat3(pairs[i].0, "=", pairs[i].1.as_str()));
        i = i + 1;
    }
    assert(text::views(parts@) =~= all);
    text::join_of(&parts, " ")
}

/// The facts a run starts with.
pub open spec fn start_facts(
    p: Package,
    o: RunOptions,
    roots: Roots,
    elevated: bool,
    engine: Seq<char>,
) -> Seq<(Seq<char>, Seq<char>)> {
    seq![
        ("package"@, p.metadata.package.id@),
        ("version"@, p.metadata.package.version@),
        ("scope"@, o.scope.name()),
        (
            "elevated"@,
            if elevated {
                "true"@
            } else {
                "false"@
            },
        ),
        ("install_root"@, roots.install_root@),
        ("state_db"@, roots.state_db@),
        ("engine"@, engine),
    ]
}

/// What the log says when a run starts.
pub fn run_started(
    kind: &str,
    p: &Package,
    o: &RunOptions,
    roots: &Roots,
    elevated: bool,
    engine: &str,
) -> (r: Event)
    ensures
        r.code@ == "run_started"@,
        r.message@ == kind@ + " "@ + shown(start_facts(*p, *o, *roots, elevated, engine@)),
        r.progress is None,
{
    let mut facts: Vec<(&'static str, String)> = Vec::new();
    facts.push(("package", text::owned(p.id())));
    facts.push(("version", text::owned(p.version())));
    facts.push(("scope", text::owned(o.scope.as_str())));
    let word = if elevated {
        "true"
    } else {
        "false"
    };
    facts.push(("elevated", text::owned(word)));
    facts.push(("install_root", roots.install_root.clone()));
    facts.push(("state_db", roots.state_db.clone()));
    facts.push(("engine", text::owned(engine)));
    assert(views_of(facts@) =~= start_facts(*p, *o, *roots, elevated, engine@));
    let list = show(&facts);
    Event {
        code: "run_started",
        message: text::cat3(kind, " ", list.as_str()),
        progress: None,
    }
}

/// What the log says when a run ends.
pub fn run_finished(outcome: &Outcome) -> (r: Event)
    ensures
        r.code@ == "run_finished"@,
        r.message@ == shown(
            seq![
                ("outcome"@, outcome.outcome@),
                ("code"@, outcome.code@),
                ("exit_code"@, text::signed_decimal(outcome.exit_code as int)),
            ],
        ),
        r.progress is None,
{
    let mut facts: Vec<(&'static str, String)> = Vec::new();
    facts.push(("outcome", text::owned(outcome.outcome)));
    facts.push(("code", outcome.code.clone()));
    facts.push(("exit_code", text::signed_decimal_of(outcome.exit_code as i64)));
    assert(views_of(facts@) =~= seq![
        ("outcome"@, outcome.outcome@),
        ("code"@, outcome.code@),
        ("exit_code"@, text::signed_decimal(outcome.exit_code as int)),
    ]);
    Event { code: "run_finished", message: show(&facts), progress: None }
}

/// A version, or `-` where there is none.
pub open spec fn version_shown(v: Option<String>) -> Seq<char> {
    match v {
        Some(v) => v@,
        None => "-"@,
    }
}

fn show_version(v: &Option<String>) -> (r: String)
    ensures
        r@ == version_shown(*v),
{
    match v {
        Some(v) => v.clone(),
        None => text::owned("-"),
    }
}

/// The facts of an installing transaction.
pub open spec fn install_facts(t: TransactionRow, p: Package, operations: usize, c: PlanCounts) -> Seq<
    (Seq<char>, Seq<char>),
> {
    seq![
        ("transaction"@, t.id@),
        ("kind"@, t.kind.name()),
        ("from"@, version_shown(t.from_version)),
        ("to"@, p.metadata.package.version@),
        ("operations"@, text::decimal(operations as nat)),
        ("kept"@, text::decimal(c.kept as nat)),
        ("replaced"@, text::decimal(c.replaced as nat)),
        ("added"@, text::decimal(c.added as nat)),
        ("removed"@, text::decimal(c.removed as nat)),
        ("directories_created"@, text::decimal(c.directories_created as nat)),
        ("directories_removed"@, text::decimal(c.directories_removed as nat)),
        ("resources"@, text::decimal(c.resource_operations as nat)),
        ("repaired"@, text::decimal(c.repaired as nat)),
        ("actions"@, text::decimal(c.actions as nat)),
        ("stored_actions"@, text::decimal(c.stored_actions as nat)),
    ]
}

/// What the log says when an installing transaction opens.
pub fn install_started(t: &TransactionRow, p: &Package, operations: usize, c: &PlanCounts) -> (r:
    Event)
    ensures
        r.code@ == "transaction_started"@,
        r.message@ == shown(install_facts(*t, *p, operations, *c)),
        r.progress is None,
{
    let mut facts: Vec<(&'static str, String)> = Vec::new();
    facts.push(("transaction", t.id.clone()));
    facts.push(("kind", text::owned(t.kind.as_str())));
    facts.push(("from", show_version(&t.from_version)));
    facts.push(("to", text::owned(p.version())));
    facts.push(("operations", text::decimal_of(operations as u64)));
    facts.push(("kept", text::decimal_of(c.kept as u64)));
    facts.push(("replaced", text::decimal_of(c.replaced as u64)));
    facts.push(("added", text::decimal_of(c.added as u64)));
    facts.push(("removed", text::decimal_of(c.removed as u64)));
    facts.push(("directories_created", text::decimal_of(c.directories_created as u64)));
    facts.push(("directories_removed", text::decimal_of(c.directories_removed as u64)));
    facts.push(("resources", text::decimal_of(c.resource_operations as u64)));
    facts.push(("repaired", text::decimal_of(c.repaired as u64)));
    facts.push(("actions", text::decimal_of(c.actions as u64)));
    facts.push(("stored_actions", text::decimal_of(c.stored_actions as u64)));
    assert(views_of(facts@) =~= install_facts(*t, *p, operations, *c));
    Event { code: "transaction_started", message: show(&facts), progress: None }
}

/// The facts of an uninstall's transaction.
pub open spec fn uninstall_facts(t: TransactionRow, operations: usize, c: PlanCounts) -> Seq<
    (Seq<char>, Seq<char>),
> {
    seq![
        ("transaction"@, t.id@),
        ("kind"@, "uninstall"@),
        ("from"@, version_shown(t.from_version)),
        ("operations"@, text::decimal(operations as nat)),
        ("removed"@, text::decimal(c.removed as nat)),
        ("directories_removed"@, text::decimal(c.directories_removed as nat)),
        ("resources"@, text::decimal(c.resource_operations as nat)),
        ("actions"@, text::decimal(c.actions as nat)),
    ]
}

/// What the log says when an uninstall's transaction opens.
pub fn uninstall_started(t: &TransactionRow, operations: usize, c: &PlanCounts) -> (r: Event)
    ensures
        r.code@ == "transaction_started"@,
        r.message@ == shown(uninstall_facts(*t, operations, *c)),
        r.progress is None,
{
    let mut facts: Vec<(&'static str, String)> = Vec::new();
    facts.push(("transaction", t.id.clone()));
    facts.push(("kind", text::owned("uninstall")));
    facts.push(("from", show_version(&t.from_version)));
    facts.push(("operations", text::decimal_of(operations as u64)));
    facts.push(("removed", text::decimal_of(c.removed as u64)));
    facts.push(("directories_removed", text::decimal_of(c.directories_removed as u64)));
    facts.push(("resources", text::decimal_of(c.resource_operations as u64)));
    facts.push(("actions", text::decimal_of(c.actions as u64)));
    assert(views_of(facts@) =~= uninstall_facts(*t, operations, *c));
    Event { code: "transaction_started", message: show(&facts), progress: None }
}

}
