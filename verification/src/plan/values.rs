//! Registry values and environment variables: kept, set, put back — and left
//! alone where somebody changed them.

use vstd::prelude::*;

use crate::error::{Error, ErrorView};
use crate::lists;
use crate::machine;
use crate::machine::{Data, DataView, KeyPath, KeyView, Machine};
use crate::plan::operation;
use crate::plan::operation::{OpView, PlannedOperation};
use crate::plan::part;
use crate::plan::part::{Draft, PartView, Step};
use crate::report;
use crate::report::Finding;
use crate::resource::environment;
use crate::resource::environment::{DesiredVariable, DesiredVariableView};
use crate::resource::registry;
use crate::resource::registry::{DesiredValue, DesiredValueView};
use crate::state::installation::{OwnedEnvironmentVariable, OwnedRegistryValue};
use crate::state::journal::OpKind;
use crate::text;

verus! {

/// The operations and findings of one kind of value.
#[derive(Debug)]
pub struct Kinds {
    pub keep: OpKind,
    pub set: OpKind,
    pub remove: OpKind,
    /// Somebody changed it.
    pub modified: &'static str,
    /// Somebody deleted it.
    pub missing: &'static str,
}

/// What [`Kinds`] say.
#[verifier::ext_equal]
pub struct KindsView {
    pub keep: OpKind,
    pub set: OpKind,
    pub remove: OpKind,
    pub modified: Seq<char>,
    pub missing: Seq<char>,
}

impl View for Kinds {
    type V = KindsView;

    open spec fn view(&self) -> KindsView {
        KindsView {
            keep: self.keep,
            set: self.set,
            remove: self.remove,
            modified: self.modified@,
            missing: self.missing@,
        }
    }
}

/// The kinds of a registry value.
pub open spec fn of_registry() -> KindsView {
    KindsView {
        keep: OpKind::KeepRegistryValue,
        set: OpKind::SetRegistryValue,
        remove: OpKind::RemoveRegistryValue,
        modified: "registry_value_modified_preserved"@,
        missing: "registry_value_missing"@,
    }
}

/// The kinds of an environment variable.
pub open spec fn of_environment() -> KindsView {
    KindsView {
        keep: OpKind::KeepEnvironmentVariable,
        set: OpKind::SetEnvironmentVariable,
        remove: OpKind::RestoreEnvironmentVariable,
        modified: "environment_variable_modified_preserved"@,
        missing: "environment_variable_missing"@,
    }
}

/// The kinds of a registry value.
pub fn registry_kinds() -> (r: Kinds)
    ensures
        r@ == of_registry(),
{
    Kinds {
        keep: OpKind::KeepRegistryValue,
        set: OpKind::SetRegistryValue,
        remove: OpKind::RemoveRegistryValue,
        modified: "registry_value_modified_preserved",
        missing: "registry_value_missing",
    }
}

/// The kinds of an environment variable.
pub fn environment_kinds() -> (r: Kinds)
    ensures
        r@ == of_environment(),
{
    Kinds {
        keep: OpKind::KeepEnvironmentVariable,
        set: OpKind::SetEnvironmentVariable,
        remove: OpKind::RestoreEnvironmentVariable,
        modified: "environment_variable_modified_preserved",
        missing: "environment_variable_missing",
    }
}

/// What is on record of a value the engine wrote: what it wrote, and what was
/// there before.
#[derive(Debug)]
pub struct Record {
    pub key: String,
    pub name: String,
    pub written: Result<Data, Error>,
    pub restore: Result<Option<Data>, Error>,
}

/// What a [`Record`] says.
#[verifier::ext_equal]
pub struct RecordView {
    pub key: Seq<char>,
    pub name: Seq<char>,
    pub written: Result<DataView, ErrorView>,
    pub restore: Result<Option<DataView>, ErrorView>,
}

impl View for Record {
    type V = RecordView;

    open spec fn view(&self) -> RecordView {
        RecordView {
            key: self.key@,
            name: self.name@,
            written: match self.written {
                Ok(d) => Ok(d@),
                Err(e) => Err(e@),
            },
            restore: match self.restore {
                Ok(d) => Ok(text::option_view(d)),
                Err(e) => Err(e@),
            },
        }
    }
}

/// What is on record of a registry value.
pub open spec fn value_record(v: OwnedRegistryValue) -> RecordView {
    RecordView {
        key: v.key@,
        name: v.name@,
        written: registry::recorded(v.kind@, v.data@),
        restore: registry::restored(v),
    }
}

/// What is on record of an environment variable.
pub open spec fn variable_record(v: OwnedEnvironmentVariable) -> RecordView {
    RecordView {
        key: v.hive_key@,
        name: v.name@,
        written: registry::recorded(v.kind@, v.data@),
        restore: environment::restored(v),
    }
}

/// A variable as the value it is.
pub open spec fn variable_value(v: DesiredVariableView) -> DesiredValueView {
    DesiredValueView { key: v.key, name: v.name, data: v.data }
}

/// Whether two names of values are the same to Windows.
pub open spec fn is_record(key: Seq<char>, name: Seq<char>) -> spec_fn(RecordView) -> bool {
    |r: RecordView|
        text::lower(r.key) == text::lower(key) && text::lower(r.name) == text::lower(name)
}

/// The step for one value the package wants.
///
/// A value somebody changed after the engine wrote it is preserved and
/// reported unless `overwrite` says the wanted data wins.
pub open spec fn wanted_step(
    kinds: KindsView,
    want: DesiredValueView,
    records: Seq<RecordView>,
    machine: Machine,
    overwrite: bool,
) -> Step {
    let current = machine.value(want.key, want.name);
    match lists::first(records, is_record(want.key.text(), want.name)) {
        Some(record) => match (record.restore, record.written) {
            (Err(e), _) => Err(e),
            (_, Err(e)) => Err(e),
            (Ok(restore), Ok(written)) => Ok(
                if current == Some(want.data) {
                    part::forward(
                        operation::value(kinds.keep, want.key, want.name, want.data, Some(restore)),
                    )
                } else if current is None || current == Some(written) || overwrite {
                    part::forward(
                        operation::value(kinds.set, want.key, want.name, want.data, Some(restore)),
                    )
                } else {
                    part::forward(
                        operation::value(kinds.keep, want.key, want.name, written, Some(restore)),
                    ).plus(
                        part::finds(
                            report::finding(
                                kinds.modified,
                                registry::located(record.key, record.name),
                            ),
                        ),
                    )
                },
            ),
        },
        None => Ok(
            part::forward(
                if current == Some(want.data) {
                    operation::value(
                        kinds.keep,
                        want.key,
                        want.name,
                        want.data,
                        Some(Some(want.data)),
                    )
                } else {
                    operation::value(kinds.set, want.key, want.name, want.data, None)
                },
            ),
        ),
    }
}

/// Holds of the value a record is about.
pub open spec fn names_value(key: KeyView, name: Seq<char>) -> spec_fn(DesiredValueView) -> bool {
    |w: DesiredValueView| w.key.key() == key.key() && text::lower(w.name) == text::lower(name)
}

/// The step for one value on record: where the package no longer wants it,
/// it is taken away — which puts back what was there before — when it still
/// holds what the engine wrote, and reported otherwise. A record whose key
/// does not read is passed over.
pub open spec fn owned_step(
    kinds: KindsView,
    record: RecordView,
    wants: Seq<DesiredValueView>,
    machine: Machine,
) -> Step {
    match machine::parsed_key(record.key) {
        None => Ok(part::nothing()),
        Some(key) => if lists::first(wants, names_value(key, record.name)) is Some {
            Ok(part::nothing())
        } else {
            let place = registry::located(record.key, record.name);
            match record.written {
                Err(e) => Err(e),
                Ok(written) => match machine.value(key, record.name) {
                    None => Ok(part::finds(report::finding(kinds.missing, place))),
                    Some(current) => if current == written {
                        match record.restore {
                            Err(e) => Err(e),
                            Ok(restore) => Ok(
                                part::removal(
                                    operation::value(
                                        kinds.remove,
                                        key,
                                        record.name,
                                        written,
                                        Some(restore),
                                    ),
                                ),
                            ),
                        }
                    } else {
                        Ok(part::finds(report::finding(kinds.modified, place)))
                    },
                },
            }
        },
    }
}

/// The steps for the values the package wants.
pub open spec fn wanted_steps(
    kinds: KindsView,
    wants: Seq<DesiredValueView>,
    records: Seq<RecordView>,
    machine: Machine,
    overwrite: bool,
) -> Seq<Step> {
    wants.map_values(|w: DesiredValueView| wanted_step(kinds, w, records, machine, overwrite))
}

/// The steps for the values on record.
pub open spec fn owned_steps(
    kinds: KindsView,
    wants: Seq<DesiredValueView>,
    records: Seq<RecordView>,
    machine: Machine,
) -> Seq<Step> {
    records.map_values(|r: RecordView| owned_step(kinds, r, wants, machine))
}

/// What the values of one kind add to a plan: every wanted one, then every
/// one on record.
pub open spec fn section(
    kinds: KindsView,
    wants: Seq<DesiredValueView>,
    records: Seq<RecordView>,
    machine: Machine,
    overwrite: bool,
) -> Step {
    part::both(
        part::gather(wanted_steps(kinds, wants, records, machine, overwrite)),
        part::gather(owned_steps(kinds, wants, records, machine)),
    )
}

fn find_record<'a>(records: &'a Vec<Record>, key: &str, name: &str) -> (r: Option<&'a Record>)
    ensures
        match (r, lists::first(text::views(records@), is_record(key@, name@))) {
            (Some(a), Some(b)) => a@ == b,
            (None, None) => true,
            _ => false,
        },
{
    let ghost all = text::views(records@);
    let ghost p = is_record(key@, name@);
    let mut i: usize = 0;
    while i < records.len()
        invariant
            i <= records@.len(),
            all == text::views(records@),
            p == is_record(key@, name@),
            forall|j: int| 0 <= j < i ==> !p(#[trigger] all[j]),
        decreases records@.len() - i,
    {
        assert(all[i as int] == records@[i as int]@);
        if text::same_folded(records[i].key.as_str(), key) && text::same_folded(
            records[i].name.as_str(),
            name,
        ) {
            proof {
                lists::lemma_first_at(all, p, i as int);
            }
            return Some(&records[i]);
        }
        i = i + 1;
    }
    proof {
        lists::lemma_first_none(all, p);
    }
    None
}

fn is_wanted(wants: &Vec<DesiredValue>, key: &KeyPath, name: &str) -> (r: bool)
    ensures
        r == (lists::first(text::views(wants@), names_value(key@, name@)) is Some),
{
    let ghost all = text::views(wants@);
    let ghost p = names_value(key@, name@);
    let wanted = key.key();
    let mut i: usize = 0;
    while i < wants.len()
        invariant
            i <= wants@.len(),
            all == text::views(wants@),
            p == names_value(key@, name@),
            wanted@ == key@.key(),
            forall|j: int| 0 <= j < i ==> !p(#[trigger] all[j]),
        decreases wants@.len() - i,
    {
        assert(all[i as int] == wants@[i as int]@);
        let own = wants[i].key.key();
        if text::same(own.as_str(), wanted.as_str()) && text::same_folded(
            wants[i].name.as_str(),
            name,
        ) {
            proof {
                lists::lemma_first_at(all, p, i as int);
            }
            return true;
        }
        i = i + 1;
    }
    proof {
        lists::lemma_first_none(all, p);
    }
    false
}

fn holds(current: Option<&Data>, data: &Data) -> (r: bool)
    ensures
        r == (text::option_view(current) == Some(data@)),
{
    match current {
        Some(found) => found.same(data),
        None => false,
    }
}

fn plan_wanted(
    kinds: &Kinds,
    want: &DesiredValue,
    records: &Vec<Record>,
    machine: &Machine,
    overwrite: bool,
) -> (r: Result<Draft, Error>)
    ensures
        part::agrees(
            r,
            wanted_step(kinds@, want@, text::views(records@), *machine, overwrite),
        ),
{
    let name = want.name.as_str();
    let key = want.key.to_string();
    let current = machine.read_value(&want.key, name);
    match find_record(records, key.as_str(), name) {
        Some(record) => match (&record.restore, &record.written) {
            (Err(e), _) => Err(e.copy()),
            (_, Err(e)) => Err(e.copy()),
            (Ok(restore), Ok(written)) => {
                if holds(current, &want.data) {
                    let op = PlannedOperation::value(
                        kinds.keep,
                        &want.key,
                        name,
                        &want.data,
                        Some(restore.as_ref()),
                    );
                    Ok(Draft::forward(op))
                } else if current.is_none() || holds(current, written) || overwrite {
                    let op = PlannedOperation::value(
                        kinds.set,
                        &want.key,
                        name,
                        &want.data,
                        Some(restore.as_ref()),
                    );
                    Ok(Draft::forward(op))
                } else {
                    let op = PlannedOperation::value(
                        kinds.keep,
                        &want.key,
                        name,
                        written,
                        Some(restore.as_ref()),
                    );
                    let place = registry::location(record.key.as_str(), record.name.as_str());
                    let mut draft = Draft::forward(op);
                    draft.absorb(Draft::finds(Finding::named(kinds.modified, place.as_str())));
                    Ok(draft)
                }
            },
        },
        None => {
            if holds(current, &want.data) {
                let op = PlannedOperation::value(
                    kinds.keep,
                    &want.key,
                    name,
                    &want.data,
                    Some(Some(&want.data)),
                );
                Ok(Draft::forward(op))
            } else {
                let op = PlannedOperation::value(kinds.set, &want.key, name, &want.data, None);
                Ok(Draft::forward(op))
            }
        },
    }
}

fn plan_owned(
    kinds: &Kinds,
    record: &Record,
    wants: &Vec<DesiredValue>,
    machine: &Machine,
) -> (r: Result<Draft, Error>)
    ensures
        part::agrees(r, owned_step(kinds@, record@, text::views(wants@), *machine)),
{
    let name = record.name.as_str();
    let key = match KeyPath::parse(record.key.as_str()) {
        Ok(key) => key,
        Err(_) => {
            return Ok(Draft::new());
        },
    };
    if is_wanted(wants, &key, name) {
        return Ok(Draft::new());
    }
    let place = registry::location(record.key.as_str(), name);
    match &record.written {
        Err(e) => Err(e.copy()),
        Ok(written) => match machine.read_value(&key, name) {
            None => Ok(Draft::finds(Finding::named(kinds.missing, place.as_str()))),
            Some(current) => {
                if current.same(written) {
                    match &record.restore {
                        Err(e) => Err(e.copy()),
                        Ok(restore) => Ok(
                            Draft::removal(
                                PlannedOperation::value(
                                    kinds.remove,
                                    &key,
                                    name,
                                    written,
                                    Some(restore.as_ref()),
                                ),
                            ),
                        ),
                    }
                } else {
                    Ok(Draft::finds(Finding::named(kinds.modified, place.as_str())))
                }
            },
        },
    }
}

/// Keeps or sets every wanted value, carrying its pre-installation state
/// forward; for values on record that are not wanted, plans a removal — which
/// puts back the recorded pre-installation state — when the value still holds
/// what the engine wrote, and reports it otherwise.
///
/// A wanted value somebody changed after the engine wrote it is preserved and
/// reported unless `overwrite` says the wanted data wins: a repair, which is
/// asked for, and the Add/Remove Programs registration, which is the engine's
/// own bookkeeping and never a person's setting.
pub fn reconcile_values(
    kinds: &Kinds,
    wants: &Vec<DesiredValue>,
    records: &Vec<Record>,
    machine: &Machine,
    overwrite: bool,
) -> (r: Result<Draft, Error>)
    ensures
        part::agrees(
            r,
            section(kinds@, text::views(wants@), text::views(records@), *machine, overwrite),
        ),
{
    let ghost w = text::views(wants@);
    let ghost rs = text::views(records@);
    let ghost first = wanted_steps(kinds@, w, rs, *machine, overwrite);
    let ghost second = owned_steps(kinds@, w, rs, *machine);
    let mut draft = Draft::new();
    let mut i: usize = 0;
    assert(first.take(0) =~= Seq::<Step>::empty());
    while i < wants.len()
        invariant
            i <= wants@.len(),
            w == text::views(wants@),
            rs == text::views(records@),
            first == wanted_steps(kinds@, w, rs, *machine, overwrite),
            second == owned_steps(kinds@, w, rs, *machine),
            part::gather(first.take(i as int)) == Ok::<PartView, ErrorView>(draft@),
        decreases wants@.len() - i,
    {
        proof {
            part::lemma_gather_take(first, i as int);
            assert(w[i as int] == wants@[i as int]@);
        }
        match plan_wanted(kinds, &wants[i], records, machine, overwrite) {
            Err(e) => {
                proof {
                    part::lemma_gather_fails(first, i + 1);
                }
                return Err(e);
            },
            Ok(more) => {
                draft.absorb(more);
            },
        }
        i = i + 1;
    }
    assert(first.take(i as int) =~= first);
    let ghost done = draft@;
    let mut i: usize = 0;
    assert(second.take(0) =~= Seq::<Step>::empty());
    assert(done.plus(part::nothing()) =~= done);
    while i < records.len()
        invariant
            i <= records@.len(),
            w == text::views(wants@),
            rs == text::views(records@),
            first == wanted_steps(kinds@, w, rs, *machine, overwrite),
            second == owned_steps(kinds@, w, rs, *machine),
            part::gather(first) == Ok::<PartView, ErrorView>(done),
            part::gather(second.take(i as int)) is Ok,
            draft@ == done.plus(part::gather(second.take(i as int))->Ok_0),
        decreases records@.len() - i,
    {
        proof {
            part::lemma_gather_take(second, i as int);
            assert(rs[i as int] == records@[i as int]@);
        }
        let ghost before = part::gather(second.take(i as int))->Ok_0;
        match plan_owned(kinds, &records[i], wants, machine) {
            Err(e) => {
                proof {
                    part::lemma_gather_fails(second, i + 1);
                }
                return Err(e);
            },
            Ok(more) => {
                assert(done.plus(before).plus(more@) =~= done.plus(before.plus(more@)));
                draft.absorb(more);
            },
        }
        i = i + 1;
    }
    assert(second.take(i as int) =~= second);
    Ok(draft)
}

/// What is on record of the registry values of an installation.
pub open spec fn value_records(v: Seq<OwnedRegistryValue>) -> Seq<RecordView> {
    v.map_values(|x: OwnedRegistryValue| value_record(x))
}

/// What is on record of the environment variables of an installation.
pub open spec fn variable_records(v: Seq<OwnedEnvironmentVariable>) -> Seq<RecordView> {
    v.map_values(|x: OwnedEnvironmentVariable| variable_record(x))
}

/// The variables as the values they are.
pub open spec fn variable_values(v: Seq<DesiredVariableView>) -> Seq<DesiredValueView> {
    v.map_values(|x: DesiredVariableView| variable_value(x))
}

/// What is on record of a registry value.
pub fn record_of_value(v: &OwnedRegistryValue) -> (r: Record)
    ensures
        r@ == value_record(*v),
{
    Record {
        key: v.key.clone(),
        name: v.name.clone(),
        written: registry::owned_data(v),
        restore: registry::restore_data(v),
    }
}

/// What is on record of the environment variables of an installation.
pub fn records_of_variables(v: &Vec<OwnedEnvironmentVariable>) -> (r: Vec<Record>)
    ensures
        text::views(r@) == variable_records(v@),
{
    let mut out: Vec<Record> = Vec::new();
    let mut i: usize = 0;
    while i < v.len()
        invariant
            i <= v@.len(),
            out@.len() == i,
            forall|j: int| 0 <= j < i ==> #[trigger] out@[j]@ == variable_record(v@[j]),
        decreases v@.len() - i,
    {
        out.push(
            Record {
                key: v[i].hive_key.clone(),
                name: v[i].name.clone(),
                written: environment::owned_data(&v[i]),
                restore: environment::restore_data(&v[i]),
            },
        );
        i = i + 1;
    }
    assert(text::views(out@) =~= variable_records(v@));
    out
}

/// The variables as the values they are.
pub fn values_of_variables(v: &Vec<DesiredVariable>) -> (r: Vec<DesiredValue>)
    ensures
        text::views(r@) == variable_values(text::views(v@)),
{
    let mut out: Vec<DesiredValue> = Vec::new();
    let mut i: usize = 0;
    while i < v.len()
        invariant
            i <= v@.len(),
            out@.len() == i,
            forall|j: int| 0 <= j < i ==> #[trigger] out@[j]@ == variable_value(v@[j]@),
        decreases v@.len() - i,
    {
        out.push(
            DesiredValue {
                key: v[i].key.clone(),
                name: v[i].name.clone(),
                data: v[i].data.clone(),
            },
        );
        i = i + 1;
    }
    assert(text::views(out@) =~= variable_values(text::views(v@)));
    out
}

/// A removal of a value the engine wrote: the value still holds what was
/// written, and the operation carries what was there before.
pub open spec fn is_own_removal(
    kinds: KindsView,
    op: OpView,
    records: Seq<RecordView>,
    machine: Machine,
) -> bool {
    exists|i: int|
        0 <= i < records.len() && ({
            let record = #[trigger] records[i];
            &&& machine::parsed_key(record.key) is Some
            &&& record.written is Ok
            &&& record.restore is Ok
            &&& machine.value(machine::parsed_key(record.key)->Some_0, record.name) == Some(
                record.written->Ok_0,
            )
            &&& op == operation::value(
                kinds.remove,
                machine::parsed_key(record.key)->Some_0,
                record.name,
                record.written->Ok_0,
                Some(record.restore->Ok_0),
            )
        })
}

/// A value is taken away only where it still holds what the engine wrote, and
/// never without the state it is put back to.
pub proof fn lemma_only_own_values_are_removed(
    kinds: KindsView,
    wants: Seq<DesiredValueView>,
    records: Seq<RecordView>,
    machine: Machine,
    overwrite: bool,
)
    requires
        section(kinds, wants, records, machine, overwrite) is Ok,
    ensures
        forall|i: int|
            0 <= i < section(kinds, wants, records, machine, overwrite)->Ok_0.removals.len()
                ==> is_own_removal(
                kinds,
                #[trigger] section(kinds, wants, records, machine, overwrite)->Ok_0.removals[i],
                records,
                machine,
            ),
{
    let first = wanted_steps(kinds, wants, records, machine, overwrite);
    let second = owned_steps(kinds, wants, records, machine);
    assert(first.take(wants.len() as int) =~= first);
    assert(second.take(records.len() as int) =~= second);
    lemma_wanted_removes_nothing(kinds, wants, records, machine, overwrite, wants.len() as int);
    lemma_owned_removals(kinds, wants, records, machine, records.len() as int);
}

proof fn lemma_wanted_removes_nothing(
    kinds: KindsView,
    wants: Seq<DesiredValueView>,
    records: Seq<RecordView>,
    machine: Machine,
    overwrite: bool,
    n: int,
)
    requires
        0 <= n <= wants.len(),
        part::gather(wanted_steps(kinds, wants, records, machine, overwrite).take(n)) is Ok,
    ensures
        part::gather(
            wanted_steps(kinds, wants, records, machine, overwrite).take(n),
        )->Ok_0.removals.len() == 0,
    decreases n,
{
    let steps = wanted_steps(kinds, wants, records, machine, overwrite);
    if n > 0 {
        part::lemma_gather_take(steps, n - 1);
        lemma_wanted_removes_nothing(kinds, wants, records, machine, overwrite, n - 1);
    }
}

proof fn lemma_owned_removals(
    kinds: KindsView,
    wants: Seq<DesiredValueView>,
    records: Seq<RecordView>,
    machine: Machine,
    n: int,
)
    requires
        0 <= n <= records.len(),
        part::gather(owned_steps(kinds, wants, records, machine).take(n)) is Ok,
    ensures
        forall|i: int|
            0 <= i < part::gather(
                owned_steps(kinds, wants, records, machine).take(n),
            )->Ok_0.removals.len() ==> is_own_removal(
                kinds,
                #[trigger] part::gather(
                    owned_steps(kinds, wants, records, machine).take(n),
                )->Ok_0.removals[i],
                records,
                machine,
            ),
    decreases n,
{
    let steps = owned_steps(kinds, wants, records, machine);
    if n > 0 {
        part::lemma_gather_take(steps, n - 1);
        lemma_owned_removals(kinds, wants, records, machine, n - 1);
        let before = part::gather(steps.take(n - 1))->Ok_0;
        let after = part::gather(steps.take(n))->Ok_0;
        let step = steps[n - 1]->Ok_0;
        assert forall|i: int| 0 <= i < after.removals.len() implies is_own_removal(
            kinds,
            #[trigger] after.removals[i],
            records,
            machine,
        ) by {
            if i < before.removals.len() {
                assert(after.removals[i] == before.removals[i]);
            } else {
                assert(after.removals[i] == step.removals[i - before.removals.len()]);
                assert(records[n - 1] == records[n - 1]);
            }
        }
    }
}

}
