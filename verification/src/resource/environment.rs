//! The environment-variable resource: one named value of the scope's
//! environment key, set to a template the engine expands. It is a registry
//! value with a memory: the ownership row records what was written and what
//! the variable held before, so a removal puts the previous value back
//! rather than deleting it, and a value something else changed afterwards
//! is preserved and reported. The PATH list is a different resource with its
//! own rules (`resource::path`) and is never written through here.

use vstd::prelude::*;

use crate::error::{Error, ErrorView};
use crate::lists;
use crate::machine::{Data, DataView, KeyPath, KeyView};
use crate::metadata::{EnvironmentVariable, Metadata, OptionView};
use crate::resource::predicate;
use crate::resource::predicate::Options;
use crate::resource::registry;
use crate::scope::Locations;
use crate::state::installation::OwnedEnvironmentVariable;
use crate::text;

verus! {

/// A variable the desired state wants.
#[derive(Debug, PartialEq, Eq)]
pub struct DesiredVariable {
    /// The environment key of the scope.
    pub key: KeyPath,
    pub name: String,
    pub data: Data,
}

/// What a [`DesiredVariable`] is.
#[verifier::ext_equal]
pub struct DesiredVariableView {
    pub key: KeyView,
    pub name: Seq<char>,
    pub data: DataView,
}

impl View for DesiredVariable {
    type V = DesiredVariableView;

    open spec fn view(&self) -> DesiredVariableView {
        DesiredVariableView { key: self.key@, name: self.name@, data: self.data@ }
    }
}

/// Holds of the variables the options enable.
pub open spec fn variable_wanted(options: Map<Seq<char>, OptionView>) -> spec_fn(
    EnvironmentVariable,
) -> bool {
    |v: EnvironmentVariable| predicate::wanted(v.when, Seq::<char>::empty(), options)
}

/// What a declared variable means for an installation.
pub open spec fn variable_for(
    variable: EnvironmentVariable,
    key: KeyView,
    install_root: Seq<char>,
    version: Seq<char>,
) -> DesiredVariableView {
    let value = registry::placed(variable.value@, install_root, version);
    DesiredVariableView {
        key,
        name: variable.name@,
        data: if variable.expandable {
            DataView::ExpandString(value)
        } else {
            DataView::String(value)
        },
    }
}

/// What the given variables mean for an installation, in order.
pub open spec fn variables_for(
    variables: Seq<EnvironmentVariable>,
    key: KeyView,
    install_root: Seq<char>,
    version: Seq<char>,
) -> Seq<DesiredVariableView> {
    variables.map_values(|v: EnvironmentVariable| variable_for(v, key, install_root, version))
}

/// The variables the effective options enable, expanded for this
/// installation.
pub fn desired(
    metadata: &Metadata,
    options: &Options,
    locations: &Locations,
    install_root: &str,
) -> (r: Vec<DesiredVariable>)
    ensures
        text::views(r@) == variables_for(
            metadata.environment_variables@.filter(variable_wanted(options@)),
            locations.environment_key@,
            install_root@,
            metadata.package.version@,
        ),
{
    let ghost items = metadata.environment_variables@;
    let ghost p = variable_wanted(options@);
    let ghost key = locations.environment_key@;
    let ghost version = metadata.package.version@;
    let mut out: Vec<DesiredVariable> = Vec::new();
    let mut i: usize = 0;
    proof {
        reveal(Seq::filter);
        reveal_strlit("");
        assert(""@ =~= Seq::<char>::empty());
        assert(text::views(out@) =~= variables_for(
            items.take(0).filter(p),
            key,
            install_root@,
            version,
        ));
    }
    while i < metadata.environment_variables.len()
        invariant
            i <= items.len(),
            items == metadata.environment_variables@,
            p == variable_wanted(options@),
            key == locations.environment_key@,
            version == metadata.package.version@,
            ""@ == Seq::<char>::empty(),
            text::views(out@) == variables_for(
                items.take(i as int).filter(p),
                key,
                install_root@,
                version,
            ),
        decreases items.len() - i,
    {
        let variable = &metadata.environment_variables[i];
        let ghost before = items.take(i as int).filter(p);
        proof {
            lists::lemma_filter_take(items, p, i as int);
        }
        if predicate::enabled(variable.when.as_ref(), "", options) {
            let value = registry::expand(
                variable.value.as_str(),
                install_root,
                metadata.package.version.as_str(),
            );
            let wanted = DesiredVariable {
                key: locations.environment_key.clone(),
                name: variable.name.clone(),
                data: if variable.expandable {
                    Data::ExpandString(value)
                } else {
                    Data::String(value)
                },
            };
            proof {
                text::lemma_views_push(out@, wanted);
                assert(variables_for(before.push(*variable), key, install_root@, version)
                    =~= variables_for(before, key, install_root@, version).push(wanted@));
            }
            out.push(wanted);
        }
        i = i + 1;
    }
    assert(items.take(i as int) =~= items);
    out
}

/// The data an owned row says was written.
pub fn owned_data(owned: &OwnedEnvironmentVariable) -> (r: Result<Data, Error>)
    ensures
        registry::data_agrees(r, registry::recorded(owned.kind@, owned.data@)),
{
    Data::from_columns(owned.kind.as_str(), owned.data.as_str())
}

/// What a row without its previous value is refused with.
pub open spec fn variable_not_recorded(owned: OwnedEnvironmentVariable) -> ErrorView {
    ErrorView {
        code: "journal_inconsistent"@,
        message: "environment variable "@ + owned.name@
            + " pre-existed but its previous value was not recorded"@,
    }
}

/// What the variable held before it was written.
pub open spec fn restored(owned: OwnedEnvironmentVariable) -> Result<Option<DataView>, ErrorView> {
    registry::before_it(
        owned.pre_existed,
        owned.previous_kind,
        owned.previous_data,
        variable_not_recorded(owned),
    )
}

/// The data an owned row says was there before; `None` when the variable did
/// not exist.
pub fn restore_data(owned: &OwnedEnvironmentVariable) -> (r: Result<Option<Data>, Error>)
    ensures
        registry::restore_agrees(r, restored(*owned)),
{
    if !owned.pre_existed {
        return Ok(None);
    }
    match (&owned.previous_kind, &owned.previous_data) {
        (Some(kind), Some(data)) => match Data::from_columns(kind.as_str(), data.as_str()) {
            Ok(d) => Ok(Some(d)),
            Err(e) => Err(e),
        },
        _ => {
            let message = text::cat3(
                "environment variable ",
                owned.name.as_str(),
                " pre-existed but its previous value was not recorded",
            );
            Err(Error::new("journal_inconsistent", message.as_str()))
        },
    }
}

/// `<key>\<name>`, for a finding.
pub fn location(key: &str, name: &str) -> (r: String)
    ensures
        r@ == registry::located(key@, name@),
{
    text::cat3(key, "\\", name)
}

/// What is given back when a variable goes: nothing where there was none, the
/// value that was there, and an error where that was not recorded.
pub proof fn lemma_what_is_given_back(owned: OwnedEnvironmentVariable)
    ensures
        !owned.pre_existed ==> restored(owned) == Ok::<Option<DataView>, ErrorView>(None),
        owned.pre_existed && owned.previous_kind is Some && owned.previous_data is Some ==> (
        restored(owned) is Ok <==> crate::machine::data_from(
            owned.previous_kind->Some_0@,
            owned.previous_data->Some_0@,
        ) is Some) && (restored(owned) is Ok ==> restored(owned)->Ok_0
            == crate::machine::data_from(
            owned.previous_kind->Some_0@,
            owned.previous_data->Some_0@,
        )),
        owned.pre_existed && (owned.previous_kind is None || owned.previous_data is None)
            ==> restored(owned) is Err && restored(owned)->Err_0.code == "journal_inconsistent"@,
{
}

}
