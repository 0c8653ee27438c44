//! The pieces a plan is put together from: what one step adds to the forward
//! operations, to the removals and to the findings.

use vstd::prelude::*;

use crate::error::{Error, ErrorView};
use crate::plan::operation::{OpView, PlannedOperation};
use crate::report::{Finding, FindingView};
use crate::state::journal::OpKind;
use crate::text;

verus! {

/// What became of one file the package wants.
#[derive(Debug, Clone, Copy, PartialEq, Eq, Structural)]
pub enum FileFate {
    /// It is not there and is written.
    Added,
    /// Something else is there and is written over.
    Replaced,
    /// It is there already.
    Kept,
    /// It is owned, is gone, and a repair writes it.
    RepairedMissing,
    /// It is owned, differs, and a repair writes it.
    RepairedChanged,
}

/// What a step adds to a plan.
#[verifier::ext_equal]
pub struct PartView {
    pub forward: Seq<OpView>,
    pub removals: Seq<OpView>,
    pub findings: Seq<FindingView>,
    pub fates: Seq<FileFate>,
}

/// A step that adds nothing.
pub open spec fn nothing() -> PartView {
    PartView {
        forward: Seq::empty(),
        removals: Seq::empty(),
        findings: Seq::empty(),
        fates: Seq::empty(),
    }
}

/// A step that adds one forward operation.
pub open spec fn forward(op: OpView) -> PartView {
    PartView { forward: seq![op], ..nothing() }
}

/// A step that adds one removal.
pub open spec fn removal(op: OpView) -> PartView {
    PartView { removals: seq![op], ..nothing() }
}

/// A step that adds one finding.
pub open spec fn finds(found: FindingView) -> PartView {
    PartView { findings: seq![found], ..nothing() }
}

impl PartView {
    /// One step behind another.
    pub open spec fn plus(self, more: PartView) -> PartView {
        PartView {
            forward: self.forward + more.forward,
            removals: self.removals + more.removals,
            findings: self.findings + more.findings,
            fates: self.fates + more.fates,
        }
    }
}

/// What a step gives: what it adds, or the failure that ends the planning.
pub type Step = Result<PartView, ErrorView>;

/// One step behind another: the first failure wins.
pub open spec fn both(a: Step, b: Step) -> Step {
    match (a, b) {
        (Err(e), _) => Err(e),
        (Ok(_), Err(e)) => Err(e),
        (Ok(x), Ok(y)) => Ok(x.plus(y)),
    }
}

/// All steps, one behind another.
pub open spec fn gather(steps: Seq<Step>) -> Step
    decreases steps.len(),
{
    if steps.len() == 0 {
        Ok(nothing())
    } else {
        both(gather(steps.drop_last()), steps.last())
    }
}

/// One more step.
pub proof fn lemma_gather_take(steps: Seq<Step>, i: int)
    requires
        0 <= i < steps.len(),
    ensures
        gather(steps.take(i + 1)) == both(gather(steps.take(i)), steps[i]),
{
    assert(steps.take(i + 1).drop_last() =~= steps.take(i));
}

/// The failure of a prefix is the failure of the whole.
pub proof fn lemma_gather_fails(steps: Seq<Step>, i: int)
    requires
        0 <= i <= steps.len(),
        gather(steps.take(i)) is Err,
    ensures
        gather(steps) == gather(steps.take(i)),
    decreases steps.len(),
{
    if i < steps.len() {
        assert(steps.drop_last().take(i) =~= steps.take(i));
        lemma_gather_fails(steps.drop_last(), i);
    } else {
        assert(steps.take(i) =~= steps);
    }
}

/// Whether every operation of a list fits.
pub open spec fn all_fit(ops: Seq<OpView>, p: spec_fn(OpKind) -> bool) -> bool {
    forall|i: int| 0 <= i < ops.len() ==> p((#[trigger] ops[i]).kind)
}

/// Lists whose operations all fit make one whose operations all fit.
pub proof fn lemma_fit_concat(a: Seq<OpView>, b: Seq<OpView>, p: spec_fn(OpKind) -> bool)
    requires
        all_fit(a, p),
        all_fit(b, p),
    ensures
        all_fit(a + b, p),
{
    assert forall|i: int| 0 <= i < (a + b).len() implies p((#[trigger] (a + b)[i]).kind) by {
        if i < a.len() {
            assert((a + b)[i] == a[i]);
        } else {
            assert((a + b)[i] == b[i - a.len()]);
        }
    }
}

/// What holds of every step's operations holds of what they come to.
pub proof fn lemma_gather_all(
    steps: Seq<Step>,
    f: spec_fn(OpKind) -> bool,
    r: spec_fn(OpKind) -> bool,
)
    requires
        forall|i: int|
            0 <= i < steps.len() && (#[trigger] steps[i]) is Ok ==> all_fit(
                steps[i]->Ok_0.forward,
                f,
            ) && all_fit(steps[i]->Ok_0.removals, r),
        gather(steps) is Ok,
    ensures
        all_fit(gather(steps)->Ok_0.forward, f),
        all_fit(gather(steps)->Ok_0.removals, r),
    decreases steps.len(),
{
    if steps.len() > 0 {
        let init = steps.drop_last();
        assert forall|i: int| 0 <= i < init.len() && (#[trigger] init[i]) is Ok implies all_fit(
            init[i]->Ok_0.forward,
            f,
        ) && all_fit(init[i]->Ok_0.removals, r) by {
            assert(init[i] == steps[i]);
        }
        lemma_gather_all(init, f, r);
        let last = steps[steps.len() - 1];
        lemma_fit_concat(gather(init)->Ok_0.forward, last->Ok_0.forward, f);
        lemma_fit_concat(gather(init)->Ok_0.removals, last->Ok_0.removals, r);
    }
}

/// A part of a plan under way.
#[derive(Debug)]
pub struct Draft {
    pub forward: Vec<PlannedOperation>,
    pub removals: Vec<PlannedOperation>,
    pub findings: Vec<Finding>,
    pub fates: Vec<FileFate>,
}

impl View for Draft {
    type V = PartView;

    open spec fn view(&self) -> PartView {
        PartView {
            forward: text::views(self.forward@),
            removals: text::views(self.removals@),
            findings: text::views(self.findings@),
            fates: self.fates@,
        }
    }
}

/// Whether a result is what a specification says, each side by its view.
pub open spec fn agrees(r: Result<Draft, Error>, s: Step) -> bool {
    match (r, s) {
        (Ok(a), Ok(b)) => a@ == b,
        (Err(a), Err(b)) => a@ == b,
        _ => false,
    }
}

impl Draft {
    /// Nothing yet.
    pub fn new() -> (r: Draft)
        ensures
            r@ == nothing(),
    {
        let r = Draft {
            forward: Vec::new(),
            removals: Vec::new(),
            findings: Vec::new(),
            fates: Vec::new(),
        };
        assert(r@ =~= nothing());
        r
    }

    /// One forward operation.
    pub fn forward(op: PlannedOperation) -> (r: Draft)
        ensures
            r@ == forward(op@),
    {
        let mut r = Draft::new();
        r.forward.push(op);
        assert(r@ =~= forward(op@));
        r
    }

    /// One removal.
    pub fn removal(op: PlannedOperation) -> (r: Draft)
        ensures
            r@ == removal(op@),
    {
        let mut r = Draft::new();
        r.removals.push(op);
        assert(r@ =~= removal(op@));
        r
    }

    /// One finding.
    pub fn finds(found: Finding) -> (r: Draft)
        ensures
            r@ == finds(found@),
    {
        let mut r = Draft::new();
        r.findings.push(found);
        assert(r@ =~= finds(found@));
        r
    }

    /// Adds what another step gave.
    pub fn absorb(&mut self, more: Draft)
        ensures
            final(self)@ == old(self)@.plus(more@),
    {
        let ghost before = *self;
        let ghost added = more@;
        let mut more = more;
        proof {
            text::lemma_views_concat(self.forward@, more.forward@);
            text::lemma_views_concat(self.removals@, more.removals@);
            text::lemma_views_concat(self.findings@, more.findings@);
        }
        self.forward.append(&mut more.forward);
        self.removals.append(&mut more.removals);
        self.findings.append(&mut more.findings);
        self.fates.append(&mut more.fates);
        assert(self@ =~= before@.plus(added));
    }
}

}
