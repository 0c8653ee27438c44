//! Which actions a run executes, in which order, and which it keeps for the
//! installation's own uninstall.

use vstd::prelude::*;

use crate::action::definition;
use crate::action::definition::{
    Action, ActionOperation, ActionView, Quiescence, QuiescenceView,
};
use crate::error::{Error, ErrorView};
use crate::lists;
use crate::metadata::{Metadata, OptionView};
use crate::resource::predicate;
use crate::resource::predicate::Options;
use crate::state::installation::{Owned, OwnedAction};
use crate::state::journal::TxnKind;
use crate::text;

verus! {

/// The lifecycle operation a transaction is.
pub open spec fn operation_for(kind: TxnKind) -> ActionOperation {
    match kind {
        TxnKind::Install => ActionOperation::Install,
        TxnKind::Upgrade => ActionOperation::Upgrade,
        TxnKind::Reinstall => ActionOperation::Reinstall,
        TxnKind::Repair => ActionOperation::Repair,
        TxnKind::Uninstall => ActionOperation::Uninstall,
    }
}

/// The lifecycle operation a transaction is.
pub fn operation_of(kind: TxnKind) -> (r: ActionOperation)
    ensures
        r == operation_for(kind),
{
    match kind {
        TxnKind::Install => ActionOperation::Install,
        TxnKind::Upgrade => ActionOperation::Upgrade,
        TxnKind::Reinstall => ActionOperation::Reinstall,
        TxnKind::Repair => ActionOperation::Repair,
        TxnKind::Uninstall => ActionOperation::Uninstall,
    }
}

/// What becomes of one action in a run.
#[derive(Debug, Clone, Copy, PartialEq, Eq, Structural)]
pub enum Place {
    /// Runs ahead of the resource operations.
    Before,
    /// Runs behind them.
    After,
    /// Is kept for the installation's uninstall.
    Kept,
    /// Does not run on this operation.
    OtherOperation,
    /// Its predicate does not hold.
    OptionOff,
}

/// Whether a condition holds under the options.
pub open spec fn allowed(
    when: Option<(Seq<char>, Seq<char>)>,
    options: Map<Seq<char>, OptionView>,
) -> bool {
    match when {
        Some((option, equals)) => predicate::holds(option, equals, options),
        None => true,
    }
}

/// What becomes of an action in a run: an installing run keeps what is not
/// of an install phase.
pub open spec fn place(
    a: ActionView,
    operation: ActionOperation,
    options: Map<Seq<char>, OptionView>,
    installing: bool,
) -> Place {
    if installing && !a.phase.installs() {
        Place::Kept
    } else if !a.run_on.contains(operation) {
        Place::OtherOperation
    } else if !allowed(a.when, options) {
        Place::OptionOff
    } else if a.phase.precedes_resources() {
        Place::Before
    } else {
        Place::After
    }
}

/// What becomes of an action in a run.
pub fn place_of(
    a: &Action,
    operation: ActionOperation,
    options: &Options,
    installing: bool,
) -> (r: Place)
    ensures
        r == place(a@, operation, options@, installing),
{
    proof {
        reveal_strlit("");
    }
    if installing && !a.phase.is_install() {
        Place::Kept
    } else if !a.runs_on(operation) {
        Place::OtherOperation
    } else if !predicate::enabled(a.when.as_ref(), "", options) {
        Place::OptionOff
    } else if a.phase.is_before() {
        Place::Before
    } else {
        Place::After
    }
}

/// Holds of the actions that go to one place.
pub open spec fn goes(
    to: Place,
    operation: ActionOperation,
    options: Map<Seq<char>, OptionView>,
    installing: bool,
) -> spec_fn(ActionView) -> bool {
    |a: ActionView| place(a, operation, options, installing) == to
}

/// Holds of the actions a run passes over.
pub open spec fn passed_over(
    operation: ActionOperation,
    options: Map<Seq<char>, OptionView>,
    installing: bool,
) -> spec_fn(ActionView) -> bool {
    |a: ActionView|
        {
            let to = place(a, operation, options, installing);
            to == Place::OtherOperation || to == Place::OptionOff
        }
}

/// Why a run passes over an action.
pub open spec fn reason(to: Place) -> Seq<char> {
    if to == Place::OptionOff {
        "option"@
    } else {
        "operation"@
    }
}

/// An action passed over, with why.
pub open spec fn skip(
    operation: ActionOperation,
    options: Map<Seq<char>, OptionView>,
    installing: bool,
) -> spec_fn(ActionView) -> (Seq<char>, Seq<char>) {
    |a: ActionView| (a.name, reason(place(a, operation, options, installing)))
}

/// The actions one transaction executes and stores: `before` runs ahead of
/// the resource operations, `after` behind them, and `store` is what the
/// installing commit records as the installation's own uninstall actions.
#[derive(Debug)]
pub struct ActionPlan {
    pub before: Vec<Action>,
    pub after: Vec<Action>,
    pub store: Vec<Action>,
    /// The quiescence entries an installing commit records for the
    /// installation's uninstall: every declared one, whatever its
    /// operations, because the uninstall evaluates them itself.
    pub store_quiescence: Vec<Quiescence>,
    /// Declared actions this run skipped, with why, for the log.
    pub skipped: Vec<(String, &'static str)>,
}

/// What an [`ActionPlan`] says.
#[verifier::ext_equal]
pub struct ActionPlanView {
    pub before: Seq<ActionView>,
    pub after: Seq<ActionView>,
    pub store: Seq<ActionView>,
    pub store_quiescence: Seq<QuiescenceView>,
    pub skipped: Seq<(Seq<char>, Seq<char>)>,
}

impl View for ActionPlan {
    type V = ActionPlanView;

    open spec fn view(&self) -> ActionPlanView {
        ActionPlanView {
            before: text::views(self.before@),
            after: text::views(self.after@),
            store: text::views(self.store@),
            store_quiescence: text::views(self.store_quiescence@),
            skipped: self.skipped@.map_values(|s: (String, &'static str)| (s.0@, s.1@)),
        }
    }
}

impl Default for ActionPlan {
    /// Nothing to run, nothing to keep.
    fn default() -> (r: ActionPlan)
        ensures
            r@ == arranged(
                Seq::empty(),
                Seq::empty(),
                ActionOperation::Install,
                Map::empty(),
                true,
            ),
    {
        let r = ActionPlan {
            before: Vec::new(),
            after: Vec::new(),
            store: Vec::new(),
            store_quiescence: Vec::new(),
            skipped: Vec::new(),
        };
        proof {
            reveal(Seq::filter);
            assert(r@ =~= arranged(
                Seq::empty(),
                Seq::empty(),
                ActionOperation::Install,
                Map::empty(),
                true,
            ));
        }
        r
    }
}

/// The plan that actions make: each in its place, in the order they are
/// declared in.
pub open spec fn arranged(
    actions: Seq<ActionView>,
    quiescence: Seq<QuiescenceView>,
    operation: ActionOperation,
    options: Map<Seq<char>, OptionView>,
    installing: bool,
) -> ActionPlanView {
    ActionPlanView {
        before: actions.filter(goes(Place::Before, operation, options, installing)),
        after: actions.filter(goes(Place::After, operation, options, installing)),
        store: actions.filter(goes(Place::Kept, operation, options, installing)),
        store_quiescence: quiescence,
        skipped: actions.filter(passed_over(operation, options, installing)).map_values(
            skip(operation, options, installing),
        ),
    }
}

fn arrange(
    actions: &Vec<Action>,
    operation: ActionOperation,
    options: &Options,
    installing: bool,
) -> (r: ActionPlan)
    ensures
        r@ == arranged(text::views(actions@), Seq::empty(), operation, options@, installing),
{
    let mut plan = ActionPlan {
        before: Vec::new(),
        after: Vec::new(),
        store: Vec::new(),
        store_quiescence: Vec::new(),
        skipped: Vec::new(),
    };
    let ghost all = text::views(actions@);
    let ghost o = options@;
    let mut i: usize = 0;
    proof {
        reveal(Seq::filter);
        assert(all.take(0) =~= Seq::<ActionView>::empty());
        assert(plan@ =~= arranged(all.take(0), Seq::empty(), operation, o, installing));
    }
    while i < actions.len()
        invariant
            i <= actions@.len(),
            all == text::views(actions@),
            o == options@,
            plan@ == arranged(all.take(i as int), Seq::empty(), operation, o, installing),
        decreases actions@.len() - i,
    {
        let ghost before = plan@;
        proof {
            lists::lemma_filter_take(all, goes(Place::Before, operation, o, installing), i as int);
            lists::lemma_filter_take(all, goes(Place::After, operation, o, installing), i as int);
            lists::lemma_filter_take(all, goes(Place::Kept, operation, o, installing), i as int);
            lists::lemma_filter_take(all, passed_over(operation, o, installing), i as int);
        }
        let a = &actions[i];
        assert(all[i as int] == a@);
        match place_of(a, operation, options, installing) {
            Place::Before => {
                let copy = a.clone();
                proof {
                    text::lemma_views_push(plan.before@, copy);
                }
                plan.before.push(copy);
            },
            Place::After => {
                let copy = a.clone();
                proof {
                    text::lemma_views_push(plan.after@, copy);
                }
                plan.after.push(copy);
            },
            Place::Kept => {
                let copy = a.clone();
                proof {
                    text::lemma_views_push(plan.store@, copy);
                }
                plan.store.push(copy);
            },
            Place::OtherOperation => {
                plan.skipped.push((a.name.clone(), "operation"));
                assert(plan@.skipped =~= before.skipped.push((a@.name, "operation"@)));
            },
            Place::OptionOff => {
                plan.skipped.push((a.name.clone(), "option"));
                assert(plan@.skipped =~= before.skipped.push((a@.name, "option"@)));
            },
        }
        proof {
            let after = arranged(all.take(i + 1), Seq::empty(), operation, o, installing);
            assert(before == arranged(all.take(i as int), Seq::empty(), operation, o, installing));
            let over = passed_over(operation, o, installing);
            let named = skip(operation, o, installing);
            if over(a@) {
                assert(after.skipped =~= before.skipped.push(named(a@)));
            }
            assert(plan@.skipped =~= after.skipped);
            assert(plan@ =~= after);
        }
        i = i + 1;
    }
    assert(all.take(i as int) =~= all);
    plan
}

/// The plan of an installing transaction: the install-phase actions whose
/// `run_on` names this operation and whose predicate the effective options
/// satisfy, in declaration order; and every uninstall-phase action, to be
/// stored — its predicate is evaluated when the uninstall runs, against the
/// options the installation records then.
pub fn install_plan(metadata: &Metadata, options: &Options, kind: TxnKind) -> (r: ActionPlan)
    ensures
        r@ == arranged(
            text::views(metadata.actions@),
            text::views(metadata.quiescence@),
            operation_for(kind),
            options@,
            true,
        ),
{
    let mut plan = arrange(&metadata.actions, operation_of(kind), options, true);
    let mut i: usize = 0;
    let ghost all = text::views(metadata.quiescence@);
    while i < metadata.quiescence.len()
        invariant
            i <= metadata.quiescence@.len(),
            all == text::views(metadata.quiescence@),
            plan@ == arranged(
                text::views(metadata.actions@),
                all.take(i as int),
                operation_for(kind),
                options@,
                true,
            ),
        decreases metadata.quiescence@.len() - i,
    {
        let ghost before = plan@.store_quiescence;
        assert(before == all.take(i as int));
        let entry = metadata.quiescence[i].clone();
        proof {
            text::lemma_views_push(plan.store_quiescence@, entry);
            assert(all[i as int] == entry@);
            assert(all.take(i + 1) =~= before.push(entry@));
        }
        plan.store_quiescence.push(entry);
        i = i + 1;
    }
    assert(all.take(i as int) =~= all);
    plan
}

/// Whether a recorded row is a quiescence entry's rather than an action's.
pub open spec fn is_quiescence(record: OwnedAction) -> bool {
    record.phase@ == "quiesce"@
}

/// The actions an installation recorded, in order, or the first definition
/// that does not read. A quiescence entry's row is not an action.
pub open spec fn recorded(records: Seq<OwnedAction>) -> Result<Seq<ActionView>, ErrorView>
    decreases records.len(),
{
    if records.len() == 0 {
        Ok(Seq::empty())
    } else {
        match recorded(records.drop_last()) {
            Err(e) => Err(e),
            Ok(before) => if is_quiescence(records.last()) {
                Ok(before)
            } else {
                match definition::action_in(records.last().definition@) {
                    Err(e) => Err(e),
                    Ok(a) => Ok(before.push(a)),
                }
            },
        }
    }
}

proof fn lemma_recorded_fails(records: Seq<OwnedAction>, i: int)
    requires
        0 <= i <= records.len(),
        recorded(records.take(i)) is Err,
    ensures
        recorded(records) == recorded(records.take(i)),
    decreases records.len(),
{
    if i < records.len() {
        assert(records.drop_last().take(i) =~= records.take(i));
        lemma_recorded_fails(records.drop_last(), i);
    } else {
        assert(records.take(i) =~= records);
    }
}

fn recorded_actions(records: &Vec<OwnedAction>) -> (r: Result<Vec<Action>, Error>)
    ensures
        match (r, recorded(records@)) {
            (Ok(v), Ok(s)) => text::views(v@) == s,
            (Err(e), Err(s)) => e@ == s,
            _ => false,
        },
{
    let mut out: Vec<Action> = Vec::new();
    let mut i: usize = 0;
    assert(text::views(out@) =~= Seq::empty());
    while i < records.len()
        invariant
            i <= records@.len(),
            recorded(records@.take(i as int)) == Ok::<Seq<ActionView>, ErrorView>(
                text::views(out@),
            ),
        decreases records@.len() - i,
    {
        assert(records@.take(i + 1).drop_last() =~= records@.take(i as int));
        if !text::same(records[i].phase.as_str(), "quiesce") {
            match definition::deserialize(records[i].definition.as_str()) {
                Err(e) => {
                    proof {
                        lemma_recorded_fails(records@, i + 1);
                    }
                    return Err(e);
                },
                Ok(a) => {
                    proof {
                        text::lemma_views_push(out@, a);
                    }
                    out.push(a);
                },
            }
        }
        i = i + 1;
    }
    assert(records@.take(i as int) =~= records@);
    Ok(out)
}

/// The plan of an uninstall.
pub open spec fn uninstalling(
    records: Seq<OwnedAction>,
    options: Map<Seq<char>, OptionView>,
) -> Result<ActionPlanView, ErrorView> {
    match recorded(records) {
        Err(e) => Err(e),
        Ok(actions) => Ok(
            arranged(actions, Seq::empty(), ActionOperation::Uninstall, options, false),
        ),
    }
}

/// The plan of an uninstall: the installation's own recorded uninstall
/// actions — never the metadata of whichever executable runs the
/// uninstall — whose predicate the recorded options satisfy.
pub fn uninstall_plan(owned: &Owned, options: &Options) -> (r: Result<ActionPlan, Error>)
    ensures
        match (r, uninstalling(owned.actions@, options@)) {
            (Ok(p), Ok(s)) => p@ == s,
            (Err(e), Err(s)) => e@ == s,
            _ => false,
        },
{
    match recorded_actions(&owned.actions) {
        Err(e) => Err(e),
        Ok(actions) => Ok(arrange(&actions, ActionOperation::Uninstall, options, false)),
    }
}

/// No action is lost and none is planned twice: each one declared runs
/// before, runs after, is kept or is passed over.
pub proof fn lemma_every_action_has_one_place(
    actions: Seq<ActionView>,
    operation: ActionOperation,
    options: Map<Seq<char>, OptionView>,
    installing: bool,
)
    ensures
        ({
            let plan = arranged(actions, Seq::empty(), operation, options, installing);
            plan.before.len() + plan.after.len() + plan.store.len() + plan.skipped.len()
                == actions.len()
        }),
        !installing ==> arranged(actions, Seq::empty(), operation, options, installing).store.len()
            == 0,
    decreases actions.len(),
{
    reveal(Seq::filter);
    if actions.len() > 0 {
        lemma_every_action_has_one_place(actions.drop_last(), operation, options, installing);
        let a = actions.last();
        let to = place(a, operation, options, installing);
        assert(goes(to, operation, options, installing)(a));
    }
}

/// An uninstall finds in the record what the installing run stored: rows that
/// carry the definitions of the stored actions read back as those actions.
pub proof fn lemma_stored_actions_read_back(records: Seq<OwnedAction>, stored: Seq<ActionView>)
    requires
        records.len() == stored.len(),
        forall|i: int|
            0 <= i < records.len() ==> (#[trigger] records[i]).definition@
                == stored[i].definition() && !is_quiescence(records[i]),
    ensures
        recorded(records) == Ok::<Seq<ActionView>, ErrorView>(stored),
    decreases records.len(),
{
    if records.len() > 0 {
        let n = records.len() - 1;
        assert forall|i: int| 0 <= i < n implies (#[trigger] records.drop_last()[i]).definition@
            == stored.drop_last()[i].definition() && !is_quiescence(records.drop_last()[i]) by {
            assert(records.drop_last()[i] == records[i]);
        }
        lemma_stored_actions_read_back(records.drop_last(), stored.drop_last());
        definition::lemma_action_round_trip(stored[n]);
        assert(records[n].definition@ == stored[n].definition());
        assert(stored.drop_last().push(stored[n]) =~= stored);
    } else {
        assert(stored =~= Seq::empty());
    }
}

}
