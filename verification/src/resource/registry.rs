//! The registry value resource: a typed value under a key of the scope's
//! software root, or at an explicit location in the scope's hive, owned at
//! value level; the keys it needs are owned only when the engine created
//! them. The ownership row records what was there before the value was
//! written, so that taking the value away puts that back — a value that
//! pre-existed is restored, one the engine created is deleted — and a value
//! somebody changed after installation is preserved and reported, exactly
//! as an environment variable is.

use vstd::prelude::*;
use vstd::string::*;

use crate::error::{Error, ErrorView};
use crate::lists;
use crate::machine;
use crate::machine::{Data, DataView, Hive, KeyPath, KeyView};
use crate::metadata::{Metadata, OptionView, RegistryKind, RegistryRoot, RegistryValue, Scope};
use crate::resource::predicate;
use crate::resource::predicate::Options;
use crate::scope;
use crate::scope::Locations;
use crate::state::installation::OwnedRegistryValue;
use crate::text;

verus! {

/// A value the desired state wants.
#[derive(Debug, PartialEq, Eq)]
pub struct DesiredValue {
    pub key: KeyPath,
    pub name: String,
    pub data: Data,
}

/// What a [`DesiredValue`] is.
#[verifier::ext_equal]
pub struct DesiredValueView {
    pub key: KeyView,
    pub name: Seq<char>,
    pub data: DataView,
}

impl View for DesiredValue {
    type V = DesiredValueView;

    open spec fn view(&self) -> DesiredValueView {
        DesiredValueView { key: self.key@, name: self.name@, data: self.data@ }
    }
}

impl Clone for DesiredValue {
    fn clone(&self) -> (r: DesiredValue)
        ensures
            r == *self,
    {
        DesiredValue { key: self.key.clone(), name: self.name.clone(), data: self.data.clone() }
    }
}

/// `s` with every occurrence of `pattern` replaced, from the left.
pub open spec fn substituted(s: Seq<char>, pattern: Seq<char>, by: Seq<char>) -> Seq<char>
    decreases s.len(),
{
    if pattern.len() == 0 || s.len() == 0 {
        s
    } else if pattern.is_prefix_of(s) {
        by + substituted(s.skip(pattern.len() as int), pattern, by)
    } else {
        seq![s[0]] + substituted(s.drop_first(), pattern, by)
    }
}

/// `s` with every occurrence of `pattern` replaced, from the left.
pub fn substitute(s: &str, pattern: &str, by: &str) -> (r: String)
    ensures
        r@ == substituted(s@, pattern@, by@),
{
    let v = text::chars_of(s);
    let p = text::chars_of(pattern);
    if p.len() == 0 {
        return text::owned(s);
    }
    let mut out = String::new();
    let mut i: usize = 0;
    assert(v@.skip(0) =~= v@);
    assert(out@ + substituted(v@.skip(0), p@, by@) =~= substituted(v@, p@, by@));
    while i < v.len()
        invariant
            i <= v@.len(),
            p@.len() > 0,
            out@ + substituted(v@.skip(i as int), p@, by@) == substituted(v@, p@, by@),
        decreases v@.len() - i,
    {
        let ghost rest = v@.skip(i as int);
        let ghost so_far = out@;
        let fits = p.len() <= v.len() - i;
        let here = if fits {
            let head = text::slice_of(&v, i, i + p.len());
            assert(head@ =~= rest.take(p@.len() as int));
            text::same_chars(&head, &p)
        } else {
            false
        };
        assert(here == p@.is_prefix_of(rest));
        if here {
            out.append(by);
            assert(rest.skip(p@.len() as int) =~= v@.skip(i + p@.len()));
            i = i + p.len();
            assert(out@ + substituted(v@.skip(i as int), p@, by@) =~= so_far + substituted(
                rest,
                p@,
                by@,
            ));
        } else {
            out.push(v[i]);
            assert(rest.drop_first() =~= v@.skip(i + 1));
            i = i + 1;
            assert(out@ + substituted(v@.skip(i as int), p@, by@) =~= so_far + substituted(
                rest,
                p@,
                by@,
            ));
        }
    }
    assert(v@.skip(i as int) =~= Seq::<char>::empty());
    assert(out@ =~= out@ + substituted(v@.skip(i as int), p@, by@));
    out
}

/// A value's data with its placeholders expanded.
pub open spec fn placed(
    template: Seq<char>,
    install_root: Seq<char>,
    version: Seq<char>,
) -> Seq<char> {
    substituted(
        substituted(template, "%INSTALLROOT%"@, install_root),
        "%VERSION%"@,
        version,
    )
}

/// Expands the placeholders a registry value's data may carry.
pub fn expand(template: &str, install_root: &str, version: &str) -> (r: String)
    ensures
        r@ == placed(template@, install_root@, version@),
{
    let rooted = substitute(template, "%INSTALLROOT%", install_root);
    substitute(rooted.as_str(), "%VERSION%", version)
}

/// What a declared kind makes of a text.
pub open spec fn typed(kind: RegistryKind, data: Seq<char>, what: Seq<char>) -> Result<
    DataView,
    ErrorView,
> {
    match kind {
        RegistryKind::String => Ok(DataView::String(data)),
        RegistryKind::ExpandString => Ok(DataView::ExpandString(data)),
        RegistryKind::Dword => match text::spells_u32(data) {
            Some(n) => Ok(DataView::Dword(n)),
            None => Err(no_number(data, what)),
        },
        RegistryKind::Unspecified => Err(
            ErrorView {
                code: "metadata_invalid"@,
                message: "registry value "@ + what + " has no kind"@,
            },
        ),
    }
}

/// What a DWORD that is no number is refused with.
pub open spec fn no_number(data: Seq<char>, what: Seq<char>) -> ErrorView {
    ErrorView {
        code: "metadata_invalid"@,
        message: "registry value "@ + what + " is a DWORD but "@ + text::quoted(data)
            + " is not a number"@,
    }
}

fn number_error(data: &str, what: &str) -> (r: Error)
    ensures
        r@ == no_number(data@, what@),
{
    let shown = text::quoted_of(data);
    let message = text::cat5(
        "registry value ",
        what,
        " is a DWORD but ",
        shown.as_str(),
        " is not a number",
    );
    Error::new("metadata_invalid", message.as_str())
}

/// Whether a result is what a specification says, each side by its view.
pub open spec fn data_agrees(r: Result<Data, Error>, s: Result<DataView, ErrorView>) -> bool {
    match (r, s) {
        (Ok(a), Ok(b)) => a@ == b,
        (Err(a), Err(b)) => a@ == b,
        _ => false,
    }
}

/// The typed data a declared kind makes of a text.
pub fn data_for(kind: RegistryKind, data: String, what: &str) -> (r: Result<Data, Error>)
    ensures
        data_agrees(r, typed(kind, data@, what@)),
{
    match kind {
        RegistryKind::String => Ok(Data::String(data)),
        RegistryKind::ExpandString => Ok(Data::ExpandString(data)),
        RegistryKind::Dword => match text::parse_u32(data.as_str()) {
            Some(n) => Ok(Data::Dword(n)),
            None => Err(number_error(data.as_str(), what)),
        },
        RegistryKind::Unspecified => {
            let message = text::cat3("registry value ", what, " has no kind");
            Err(Error::new("metadata_invalid", message.as_str()))
        },
    }
}

/// The key a declared value lies under: below the scope's software root, or
/// in the hive an explicit root names, when that is the scope's own.
pub open spec fn declared_key(value: RegistryValue, scope: Scope) -> Result<KeyView, ErrorView> {
    match value.root {
        RegistryRoot::Software => Ok(scope::software_root(scope).child(value.key@)),
        RegistryRoot::CurrentUser => if scope == Scope::User {
            Ok(KeyView { hive: Hive::CurrentUser, subkey: value.key@ })
        } else {
            Err(foreign_root(value, scope))
        },
        RegistryRoot::LocalMachine => if scope == Scope::Machine {
            Ok(KeyView { hive: Hive::LocalMachine, subkey: value.key@ })
        } else {
            Err(foreign_root(value, scope))
        },
        RegistryRoot::Unknown => Err(foreign_root(value, scope)),
    }
}

/// What a value in a hive the scope does not write is refused with.
pub open spec fn foreign_root(value: RegistryValue, scope: Scope) -> ErrorView {
    ErrorView {
        code: "registry_root_outside_scope"@,
        message: "registry value "@ + value.root.name() + "\\"@ + value.key@ + "\\"@ + value.name@
            + " is not in the hive "@ + scope.name() + " scope writes"@,
    }
}

/// What one declared value means for an installation.
pub open spec fn product_value(
    value: RegistryValue,
    scope: Scope,
    install_root: Seq<char>,
    version: Seq<char>,
) -> Result<DesiredValueView, ErrorView> {
    match declared_key(value, scope) {
        Err(e) => Err(e),
        Ok(key) => match typed(
            value.kind,
            placed(value.data@, install_root, version),
            value.key@ + "\\"@ + value.name@,
        ) {
            Err(e) => Err(e),
            Ok(data) => Ok(DesiredValueView { key, name: value.name@, data }),
        },
    }
}

/// Holds of the declared values the options enable.
pub open spec fn value_wanted(options: Map<Seq<char>, OptionView>) -> spec_fn(
    RegistryValue,
) -> bool {
    |v: RegistryValue| predicate::wanted(v.when, Seq::<char>::empty(), options)
}

/// What each enabled value means, in declaration order.
pub open spec fn product_steps(
    metadata: Metadata,
    options: Map<Seq<char>, OptionView>,
    scope: Scope,
    install_root: Seq<char>,
) -> Seq<Result<DesiredValueView, ErrorView>> {
    metadata.registry_values@.filter(value_wanted(options)).map_values(
        |v: RegistryValue| product_value(v, scope, install_root, metadata.package.version@),
    )
}

fn root_error(value: &RegistryValue, scope: Scope) -> (r: Error)
    ensures
        r@ == foreign_root(*value, scope),
{
    let head = text::cat6(
        "registry value ",
        value.root.as_str(),
        "\\",
        value.key.as_str(),
        "\\",
        value.name.as_str(),
    );
    let message = text::cat4(
        head.as_str(),
        " is not in the hive ",
        scope.as_str(),
        " scope writes",
    );
    Error::new("registry_root_outside_scope", message.as_str())
}

fn product_value_of(
    value: &RegistryValue,
    locations: &Locations,
    install_root: &str,
    version: &str,
) -> (r: Result<DesiredValue, Error>)
    requires
        locations.well_formed(),
    ensures
        match (r, product_value(*value, locations.scope, install_root@, version@)) {
            (Ok(a), Ok(b)) => a@ == b,
            (Err(a), Err(b)) => a@ == b,
            _ => false,
        },
{
    let key = match value.root {
        RegistryRoot::Software => locations.software_key(value.key.as_str()),
        RegistryRoot::CurrentUser => if matches!(locations.scope, Scope::User) {
            KeyPath::new(Hive::CurrentUser, value.key.as_str())
        } else {
            return Err(root_error(value, locations.scope));
        },
        RegistryRoot::LocalMachine => if matches!(locations.scope, Scope::Machine) {
            KeyPath::new(Hive::LocalMachine, value.key.as_str())
        } else {
            return Err(root_error(value, locations.scope));
        },
        RegistryRoot::Unknown => {
            return Err(root_error(value, locations.scope));
        },
    };
    let data = expand(value.data.as_str(), install_root, version);
    let what = text::cat3(value.key.as_str(), "\\", value.name.as_str());
    match data_for(value.kind, data, what.as_str()) {
        Err(e) => Err(e),
        Ok(data) => Ok(DesiredValue { key, name: value.name.clone(), data }),
    }
}

/// The product's declared values the effective options enable, expanded
/// for this installation.
pub fn product_values(
    metadata: &Metadata,
    options: &Options,
    locations: &Locations,
    install_root: &str,
) -> (r: Result<Vec<DesiredValue>, Error>)
    requires
        locations.well_formed(),
    ensures
        match (
            r,
            lists::all(product_steps(*metadata, options@, locations.scope, install_root@)),
        ) {
            (Ok(a), Ok(b)) => text::views(a@) == b,
            (Err(a), Err(b)) => a@ == b,
            _ => false,
        },
{
    let ghost p = value_wanted(options@);
    let ghost steps = product_steps(*metadata, options@, locations.scope, install_root@);
    let ghost items = metadata.registry_values@;
    let mut out: Vec<DesiredValue> = Vec::new();
    let mut i: usize = 0;
    let ghost mut done: int = 0;
    proof {
        reveal(Seq::filter);
        assert(items.take(0).filter(p) =~= Seq::<RegistryValue>::empty());
        assert(steps.take(0) =~= Seq::<Result<DesiredValueView, ErrorView>>::empty());
        assert(text::views(out@) =~= Seq::<DesiredValueView>::empty());
    }
    while i < metadata.registry_values.len()
        invariant
            i <= items.len(),
            items == metadata.registry_values@,
            locations.well_formed(),
            p == value_wanted(options@),
            steps == product_steps(*metadata, options@, locations.scope, install_root@),
            done == items.take(i as int).filter(p).len(),
            lists::all(steps.take(done)) == Ok::<Seq<DesiredValueView>, ErrorView>(
                text::views(out@),
            ),
            done <= steps.len(),
        decreases items.len() - i,
    {
        proof {
            lists::lemma_filter_take(items, p, i as int);
            lists::lemma_filter_prefix(items, p, i + 1);
        }
        let value = &metadata.registry_values[i];
        if predicate::enabled(value.when.as_ref(), "", options) {
            proof {
                reveal_strlit("");
                assert(""@ =~= Seq::<char>::empty());
                assert(p(*value));
                assert(items.filter(p)[done] == *value);
                assert(steps[done] == product_value(
                    *value,
                    locations.scope,
                    install_root@,
                    metadata.package.version@,
                ));
                lists::lemma_all_take(steps, done);
            }
            match product_value_of(
                value,
                locations,
                install_root,
                metadata.package.version.as_str(),
            ) {
                Err(e) => {
                    proof {
                        lists::lemma_all_fails(steps, done + 1);
                    }
                    return Err(e);
                },
                Ok(desired) => {
                    proof {
                        text::lemma_views_push(out@, desired);
                    }
                    out.push(desired);
                },
            }
            proof {
                done = done + 1;
            }
        } else {
            proof {
                reveal_strlit("");
                assert(""@ =~= Seq::<char>::empty());
                assert(!p(*value));
            }
        }
        i = i + 1;
    }
    proof {
        assert(items.take(i as int) =~= items);
        assert(steps.take(done) =~= steps);
    }
    Ok(out)
}

/// The typed data two columns record, or why they do not read.
pub open spec fn recorded(kind: Seq<char>, data: Seq<char>) -> Result<DataView, ErrorView> {
    match machine::data_from(kind, data) {
        Some(d) => Ok(d),
        None => Err(machine::not_a_dword(data)),
    }
}

/// The typed data an owned row records: what the engine wrote.
pub fn owned_data(owned: &OwnedRegistryValue) -> (r: Result<Data, Error>)
    ensures
        data_agrees(r, recorded(owned.kind@, owned.data@)),
{
    Data::from_columns(owned.kind.as_str(), owned.data.as_str())
}

/// What a row says was there before: nothing, the recorded data, or — where
/// it pre-existed and was not recorded — `missing`.
pub open spec fn before_it(
    pre_existed: bool,
    kind: Option<String>,
    data: Option<String>,
    missing: ErrorView,
) -> Result<Option<DataView>, ErrorView> {
    if !pre_existed {
        Ok(None)
    } else {
        match (kind, data) {
            (Some(k), Some(d)) => match recorded(k@, d@) {
                Ok(data) => Ok(Some(data)),
                Err(e) => Err(e),
            },
            _ => Err(missing),
        }
    }
}

/// What a row without its previous value is refused with.
pub open spec fn value_not_recorded(owned: OwnedRegistryValue) -> ErrorView {
    ErrorView {
        code: "journal_inconsistent"@,
        message: "registry value "@ + owned.key@ + "\\"@ + owned.name@
            + " pre-existed but its previous value was not recorded"@,
    }
}

/// What was there before the engine wrote an owned value.
pub open spec fn restored(owned: OwnedRegistryValue) -> Result<Option<DataView>, ErrorView> {
    before_it(
        owned.pre_existed,
        owned.previous_kind,
        owned.previous_data,
        value_not_recorded(owned),
    )
}

/// Whether a result is what a specification says, each side by its view.
pub open spec fn restore_agrees(
    r: Result<Option<Data>, Error>,
    s: Result<Option<DataView>, ErrorView>,
) -> bool {
    match (r, s) {
        (Ok(a), Ok(b)) => text::option_view(a) == b,
        (Err(a), Err(b)) => a@ == b,
        _ => false,
    }
}

/// The data an owned row says was there before the engine wrote the value;
/// `None` when the value did not exist — which is also what every row
/// written before the previous state was recorded says.
pub fn restore_data(owned: &OwnedRegistryValue) -> (r: Result<Option<Data>, Error>)
    ensures
        restore_agrees(r, restored(*owned)),
{
    if !owned.pre_existed {
        return Ok(None);
    }
    match (&owned.previous_kind, &owned.previous_data) {
        (Some(kind), Some(data)) => match Data::from_columns(kind.as_str(), data.as_str()) {
            Ok(d) => Ok(Some(d)),
            Err(e) => Err(e),
        },
        _ => {
            let message = text::cat5(
                "registry value ",
                owned.key.as_str(),
                "\\",
                owned.name.as_str(),
                " pre-existed but its previous value was not recorded",
            );
            Err(Error::new("journal_inconsistent", message.as_str()))
        },
    }
}

/// `<key>\<name>`.
pub open spec fn located(key: Seq<char>, name: Seq<char>) -> Seq<char> {
    key + "\\"@ + name
}

/// `<key>\<name>`, for a finding.
pub fn location(key: &str, name: &str) -> (r: String)
    ensures
        r@ == located(key@, name@),
{
    text::cat3(key, "\\", name)
}

/// Whether a key is the Add/Remove Programs key of an installation.
pub open spec fn registers(key: Seq<char>, registration_key: Option<Seq<char>>) -> bool {
    registration_key matches Some(r) && text::lower(r) == text::lower(key)
}

/// Whether a key path is *the* Add/Remove Programs key of this installation —
/// an exact match, not "somewhere under the uninstall root". Planning splits
/// owned values on this, so a key merely below the registration would be
/// planned as a product value, which is what the split intends.
pub fn is_registration_key(key: &str, registration_key: Option<&str>) -> (r: bool)
    ensures
        r == registers(key@, text::option_view(registration_key)),
{
    match registration_key {
        Some(r) => text::same_folded(r, key),
        None => false,
    }
}

/// What is given back when a value goes: nothing where there was none, the
/// value that was there, and an error where that was not recorded.
pub proof fn lemma_what_is_given_back(owned: OwnedRegistryValue)
    ensures
        !owned.pre_existed ==> restored(owned) == Ok::<Option<DataView>, ErrorView>(None),
        owned.pre_existed && owned.previous_kind is Some && owned.previous_data is Some ==> (
        restored(owned) is Ok <==> machine::data_from(
            owned.previous_kind->Some_0@,
            owned.previous_data->Some_0@,
        ) is Some) && (restored(owned) is Ok ==> restored(owned)->Ok_0 == machine::data_from(
            owned.previous_kind->Some_0@,
            owned.previous_data->Some_0@,
        )),
        owned.pre_existed && (owned.previous_kind is None || owned.previous_data is None)
            ==> restored(owned) is Err && restored(owned)->Err_0.code == "journal_inconsistent"@,
{
}

}
