//! Registry keys: which ones the wanted values imply, which of those are
//! created, and which of the owned ones go.

use vstd::prelude::*;

use crate::lists;
use crate::machine::{KeyPath, KeyView, Machine};
use crate::plan::operation;
use crate::plan::operation::{OpView, PlannedOperation};
use crate::scope;
use crate::scope::Locations;
use crate::state::installation::OwnedRegistryKey;
use crate::state::journal::OpKind;
use crate::text;

verus! {

/// Holds of the keys that are `key` to Windows.
pub open spec fn is_key(key: Seq<char>) -> spec_fn(KeyView) -> bool {
    |k: KeyView| k.key() == key
}

/// The keys of a list, each once, in the order of their first occurrence.
pub open spec fn distinct_keys(keys: Seq<KeyView>) -> Seq<KeyView>
    decreases keys.len(),
{
    if keys.len() == 0 {
        keys
    } else {
        let before = distinct_keys(keys.drop_last());
        if lists::first(before, is_key(keys.last().key())) is Some {
            before
        } else {
            before.push(keys.last())
        }
    }
}

fn has_key(keys: &Vec<KeyPath>, key: &str) -> (r: bool)
    ensures
        r == (lists::first(text::views(keys@), is_key(key@)) is Some),
{
    find_key(keys, key).is_some()
}

fn find_key<'a>(keys: &'a Vec<KeyPath>, key: &str) -> (r: Option<&'a KeyPath>)
    ensures
        match (r, lists::first(text::views(keys@), is_key(key@))) {
            (Some(a), Some(b)) => a@ == b,
            (None, None) => true,
            _ => false,
        },
{
    let ghost all = text::views(keys@);
    let ghost p = is_key(key@);
    let mut i: usize = 0;
    while i < keys.len()
        invariant
            i <= keys@.len(),
            all == text::views(keys@),
            p == is_key(key@),
            forall|j: int| 0 <= j < i ==> !p(#[trigger] all[j]),
        decreases keys@.len() - i,
    {
        assert(all[i as int] == keys@[i as int]@);
        let own = keys[i].key();
        if text::same(own.as_str(), key) {
            proof {
                lists::lemma_first_at(all, p, i as int);
            }
            return Some(&keys[i]);
        }
        i = i + 1;
    }
    proof {
        lists::lemma_first_none(all, p);
    }
    None
}

/// The keys of a list, each once.
pub fn distinct(keys: &Vec<KeyPath>) -> (r: Vec<KeyPath>)
    ensures
        text::views(r@) == distinct_keys(text::views(keys@)),
{
    let ghost all = text::views(keys@);
    let mut out: Vec<KeyPath> = Vec::new();
    let mut i: usize = 0;
    assert(text::views(out@) =~= distinct_keys(all.take(0)));
    while i < keys.len()
        invariant
            i <= keys@.len(),
            all == text::views(keys@),
            text::views(out@) == distinct_keys(all.take(i as int)),
        decreases keys@.len() - i,
    {
        proof {
            assert(all.take(i + 1).drop_last() =~= all.take(i as int));
            assert(all.take(i + 1).last() == keys@[i as int]@);
        }
        let key = keys[i].key();
        if !has_key(&out, key.as_str()) {
            let copy = keys[i].clone();
            proof {
                text::lemma_views_push(out@, copy);
            }
            out.push(copy);
        }
        i = i + 1;
    }
    assert(all.take(i as int) =~= all);
    out
}

/// A key and the keys above it, up to and without `stop`, nearest first.
pub open spec fn chain(key: KeyView, stop: KeyView) -> Seq<KeyView>
    decreases key.subkey.len(),
{
    if !key.is_under(stop) || key.key() == stop.key() {
        Seq::empty()
    } else {
        match key.parent() {
            None => seq![key],
            Some(above) => if above.subkey.len() < key.subkey.len() {
                seq![key] + chain(above, stop)
            } else {
                seq![key]
            },
        }
    }
}

/// The chains of several keys, one behind another.
pub open spec fn chains(needed: Seq<KeyView>, stop: KeyView) -> Seq<KeyView>
    decreases needed.len(),
{
    if needed.len() == 0 {
        Seq::empty()
    } else {
        chains(needed.drop_last(), stop) + chain(needed.last(), stop)
    }
}

fn push_chain(out: &mut Vec<KeyPath>, key: KeyPath, stop: &KeyPath)
    ensures
        text::views(final(out)@) == text::views(old(out)@) + chain(key@, stop@),
    decreases key@.subkey.len(),
{
    let ghost before = text::views(out@);
    let ghost k = key@;
    let own = key.key();
    let end = stop.key();
    if !key.is_under(stop) || text::same(own.as_str(), end.as_str()) {
        assert(before + Seq::<KeyView>::empty() =~= before);
        return;
    }
    let above = key.parent();
    proof {
        crate::machine::lemma_parent_shorter(k.subkey);
        text::lemma_views_push(out@, key);
    }
    out.push(key);
    match above {
        None => {
            assert(before.push(k) =~= before + seq![k]);
        },
        Some(above) => {
            assert(above@.subkey.len() < k.subkey.len());
            push_chain(out, above, stop);
            assert(before.push(k) + chain(above@, stop@) =~= before + (seq![k] + chain(
                above@,
                stop@,
            )));
        },
    }
}

/// The key texts that needed keys imply below `stop`, each once, parents
/// first.
pub open spec fn implied(needed: Seq<KeyView>, stop: KeyView) -> Seq<Seq<char>> {
    lists::shallow_first(lists::distinct(key_texts(chains(needed, stop))))
}

/// The comparison forms of keys.
pub open spec fn key_texts(keys: Seq<KeyView>) -> Seq<Seq<char>> {
    keys.map_values(|k: KeyView| k.key())
}

/// What is on record of a key: whether the engine created it.
pub open spec fn record_named(key: Seq<char>) -> spec_fn(OwnedRegistryKey) -> bool {
    |k: OwnedRegistryKey| text::lower(k.key@) == key
}

/// What becomes of one implied key.
#[verifier::ext_equal]
pub enum KeyFate {
    /// It is owned and there: its record is carried forward.
    Keep(bool),
    /// It is somebody else's: neither created nor owned.
    Foreign,
    /// It is missing: it is created.
    Create,
}

/// What becomes of one implied key: an owned key that is still on the machine
/// is kept, a key nobody owns that is already there is left alone, and
/// anything else is created — one deleted behind the engine's back too, for
/// the values planned under it must have a key to go into.
pub open spec fn key_fate(
    key: KeyView,
    machine: Machine,
    owned: Seq<OwnedRegistryKey>,
) -> KeyFate {
    if !machine.has_key(key) {
        KeyFate::Create
    } else {
        match lists::last(owned, record_named(key.key())) {
            Some(record) => KeyFate::Keep(record.created),
            None => KeyFate::Foreign,
        }
    }
}

/// The operations planned on keys so far, and the keys they keep or create.
#[verifier::ext_equal]
pub struct KeysView {
    pub operations: Seq<OpView>,
    pub handled: Seq<Seq<char>>,
}

/// One more key: nothing where it is handled already.
pub open spec fn with_key(
    done: KeysView,
    key: KeyView,
    machine: Machine,
    owned: Seq<OwnedRegistryKey>,
) -> KeysView {
    if done.handled.contains(key.key()) {
        done
    } else {
        match key_fate(key, machine, owned) {
            KeyFate::Foreign => done,
            KeyFate::Keep(created) => KeysView {
                operations: done.operations.push(
                    operation::carried(OpKind::KeepRegistryKey, key.text(), !created),
                ),
                handled: done.handled.push(key.key()),
            },
            KeyFate::Create => KeysView {
                operations: done.operations.push(
                    operation::bare(OpKind::CreateRegistryKey, key.text()),
                ),
                handled: done.handled.push(key.key()),
            },
        }
    }
}

/// Several more keys, by their comparison form; each is spelled as the first
/// of `spelled` that it is.
pub open spec fn with_keys(
    done: KeysView,
    keys: Seq<Seq<char>>,
    spelled: Seq<KeyView>,
    machine: Machine,
    owned: Seq<OwnedRegistryKey>,
) -> KeysView
    decreases keys.len(),
{
    if keys.len() == 0 {
        done
    } else {
        let before = with_keys(done, keys.drop_last(), spelled, machine, owned);
        match lists::first(spelled, is_key(keys.last())) {
            Some(key) => with_key(before, key, machine, owned),
            None => before,
        }
    }
}

/// What keeping or creating every key that needed keys imply below `stop`
/// adds.
pub open spec fn below(
    done: KeysView,
    needed: Seq<KeyView>,
    stop: KeyView,
    machine: Machine,
    owned: Seq<OwnedRegistryKey>,
) -> KeysView {
    with_keys(done, implied(needed, stop), chains(needed, stop), machine, owned)
}

/// Holds of the keys that are created down from one root.
pub open spec fn rooted_at(root: KeyView) -> spec_fn(KeyView) -> bool {
    |k: KeyView| scope::chain_root(k).key() == root.key()
}

/// What the keys of wanted values add. Every key is created down from the
/// deepest root Windows itself owns, so that the engine never claims a key of
/// Windows's own, only what lies below it; the keys are grouped by that root,
/// in the order the roots first occur in.
pub open spec fn over_roots(
    done: KeysView,
    roots: Seq<KeyView>,
    needed: Seq<KeyView>,
    machine: Machine,
    owned: Seq<OwnedRegistryKey>,
) -> KeysView
    decreases roots.len(),
{
    if roots.len() == 0 {
        done
    } else {
        below(
            over_roots(done, roots.drop_last(), needed, machine, owned),
            needed.filter(rooted_at(roots.last())),
            roots.last(),
            machine,
            owned,
        )
    }
}

/// The roots of keys, each once.
pub open spec fn roots_of(needed: Seq<KeyView>) -> Seq<KeyView> {
    distinct_keys(needed.map_values(|k: KeyView| scope::chain_root(k)))
}

/// What the keys of wanted values add.
pub open spec fn product_keys(
    keys: Seq<KeyView>,
    machine: Machine,
    owned: Seq<OwnedRegistryKey>,
) -> KeysView {
    let needed = distinct_keys(keys);
    over_roots(
        KeysView { operations: Seq::empty(), handled: Seq::empty() },
        roots_of(needed),
        needed,
        machine,
        owned,
    )
}

/// The operations planned on keys so far.
#[derive(Debug)]
pub struct Keys {
    pub operations: Vec<PlannedOperation>,
    /// The comparison form of every key kept or created.
    pub handled: Vec<String>,
}

impl View for Keys {
    type V = KeysView;

    open spec fn view(&self) -> KeysView {
        KeysView {
            operations: text::views(self.operations@),
            handled: text::views(self.handled@),
        }
    }
}

fn find_record<'a>(owned: &'a Vec<OwnedRegistryKey>, key: &str) -> (r: Option<&'a OwnedRegistryKey>)
    ensures
        match r {
            Some(k) => lists::last(owned@, record_named(key@)) == Some(*k),
            None => lists::last(owned@, record_named(key@)) is None,
        },
{
    let ghost p = record_named(key@);
    let mut i: usize = owned.len();
    assert(owned@.take(i as int) =~= owned@);
    while i > 0
        invariant
            i <= owned@.len(),
            p == record_named(key@),
            lists::last(owned@, p) == lists::last(owned@.take(i as int), p),
        decreases i,
    {
        let lower = text::lower_of(owned[i - 1].key.as_str());
        assert(owned@.take(i as int).last() == owned@[i - 1]);
        assert(owned@.take(i as int).drop_last() =~= owned@.take(i - 1));
        if text::same(lower.as_str(), key) {
            return Some(&owned[i - 1]);
        }
        i = i - 1;
    }
    None
}

impl Keys {
    /// Nothing yet.
    pub fn new() -> (r: Keys)
        ensures
            r@ == (KeysView { operations: Seq::empty(), handled: Seq::empty() }),
    {
        let r = Keys { operations: Vec::new(), handled: Vec::new() };
        assert(r@ =~= (KeysView { operations: Seq::empty(), handled: Seq::empty() }));
        r
    }

    fn add_key(&mut self, key: &KeyPath, machine: &Machine, owned: &Vec<OwnedRegistryKey>)
        ensures
            final(self)@ == with_key(old(self)@, key@, *machine, owned@),
    {
        let ghost before = *self;
        let own = key.key();
        if text::listed(&self.handled, own.as_str()) {
            return;
        }
        let name = key.to_string();
        let op = if machine.key_exists(key) {
            match find_record(owned, own.as_str()) {
                Some(record) => PlannedOperation::carried(
                    OpKind::KeepRegistryKey,
                    name.as_str(),
                    !record.created,
                ),
                None => {
                    return;
                },
            }
        } else {
            PlannedOperation::new(OpKind::CreateRegistryKey, name.as_str())
        };
        proof {
            text::lemma_views_push(self.operations@, op);
            text::lemma_views_push(self.handled@, own);
        }
        self.operations.push(op);
        self.handled.push(own);
    }

    /// Keeps or creates every key `needed` implies below `stop`: an owned key
    /// is kept (its `created` flag carried forward), a missing one is
    /// created, an existing foreign one is neither created nor owned.
    pub fn reconcile_keys(
        &mut self,
        needed: &Vec<KeyPath>,
        stop: &KeyPath,
        machine: &Machine,
        owned: &Vec<OwnedRegistryKey>,
    )
        ensures
            final(self)@ == below(
                old(self)@,
                text::views(needed@),
                stop@,
                *machine,
                owned@,
            ),
    {
        let ghost all = text::views(needed@);
        let ghost start = self@;
        let mut spelled: Vec<KeyPath> = Vec::new();
        let mut i: usize = 0;
        assert(text::views(spelled@) =~= chains(all.take(0), stop@));
        while i < needed.len()
            invariant
                i <= needed@.len(),
                all == text::views(needed@),
                text::views(spelled@) == chains(all.take(i as int), stop@),
            decreases needed@.len() - i,
        {
            assert(all.take(i + 1).drop_last() =~= all.take(i as int));
            assert(all.take(i + 1).last() == needed@[i as int]@);
            push_chain(&mut spelled, needed[i].clone(), stop);
            i = i + 1;
        }
        assert(all.take(i as int) =~= all);
        let names = distinct_names(&spelled);
        let names = lists::sort_paths(names);
        let ghost order = implied(all, stop@);
        let ghost spells = text::views(spelled@);
        let mut k: usize = 0;
        while k < names.len()
            invariant
                k <= names@.len(),
                text::views(names@) == order,
                text::views(spelled@) == spells,
                self@ == with_keys(start, order.take(k as int), spells, *machine, owned@),
            decreases names@.len() - k,
        {
            proof {
                assert(order.take(k + 1).drop_last() =~= order.take(k as int));
                assert(order.take(k + 1).last() == names@[k as int]@);
            }
            match find_key(&spelled, names[k].as_str()) {
                Some(key) => {
                    self.add_key(key, machine, owned);
                },
                None => {},
            }
            k = k + 1;
        }
        assert(order.take(k as int) =~= order);
    }
}

fn distinct_names(keys: &Vec<KeyPath>) -> (r: Vec<String>)
    ensures
        text::views(r@) == lists::distinct(key_texts(text::views(keys@))),
{
    let ghost all = key_texts(text::views(keys@));
    let mut out: Vec<String> = Vec::new();
    let mut i: usize = 0;
    assert(text::views(out@) =~= lists::distinct(all.take(0)));
    while i < keys.len()
        invariant
            i <= keys@.len(),
            all == key_texts(text::views(keys@)),
            text::views(out@) == lists::distinct(all.take(i as int)),
        decreases keys@.len() - i,
    {
        let name = keys[i].key();
        proof {
            assert(all.take(i + 1).drop_last() =~= all.take(i as int));
            assert(all.take(i + 1).last() == name@);
        }
        if !text::listed(&out, name.as_str()) {
            proof {
                text::lemma_views_push(out@, name);
            }
            out.push(name);
        }
        i = i + 1;
    }
    assert(all.take(i as int) =~= all);
    out
}

fn keys_rooted_at(needed: &Vec<KeyPath>, root: &KeyPath, locations: &Locations) -> (r: Vec<KeyPath>)
    ensures
        text::views(r@) == text::views(needed@).filter(rooted_at(root@)),
{
    let ghost all = text::views(needed@);
    let ghost p = rooted_at(root@);
    let mut out: Vec<KeyPath> = Vec::new();
    let end = root.key();
    let mut i: usize = 0;
    proof {
        reveal(Seq::filter);
        assert(text::views(out@) =~= all.take(0).filter(p));
    }
    while i < needed.len()
        invariant
            i <= needed@.len(),
            all == text::views(needed@),
            p == rooted_at(root@),
            end@ == root@.key(),
            text::views(out@) == all.take(i as int).filter(p),
        decreases needed@.len() - i,
    {
        proof {
            lists::lemma_filter_take(all, p, i as int);
            assert(all[i as int] == needed@[i as int]@);
        }
        let own = locations.key_chain_root(&needed[i]);
        let own = own.key();
        if text::same(own.as_str(), end.as_str()) {
            let copy = needed[i].clone();
            proof {
                text::lemma_views_push(out@, copy);
            }
            out.push(copy);
        }
        i = i + 1;
    }
    assert(all.take(i as int) =~= all);
    out
}

fn distinct_roots(needed: &Vec<KeyPath>, locations: &Locations) -> (r: Vec<KeyPath>)
    ensures
        text::views(r@) == roots_of(text::views(needed@)),
{
    let ghost all = text::views(needed@).map_values(|k: KeyView| scope::chain_root(k));
    let mut roots: Vec<KeyPath> = Vec::new();
    let mut i: usize = 0;
    while i < needed.len()
        invariant
            i <= needed@.len(),
            all == text::views(needed@).map_values(|k: KeyView| scope::chain_root(k)),
            roots@.len() == i,
            forall|j: int| 0 <= j < i ==> #[trigger] roots@[j]@ == all[j],
        decreases needed@.len() - i,
    {
        roots.push(locations.key_chain_root(&needed[i]));
        i = i + 1;
    }
    assert(text::views(roots@) =~= all);
    distinct(&roots)
}

/// Keeps or creates the keys that wanted values need.
pub fn reconcile_product_keys(
    keys: &Vec<KeyPath>,
    locations: &Locations,
    machine: &Machine,
    owned: &Vec<OwnedRegistryKey>,
) -> (r: Keys)
    ensures
        r@ == product_keys(text::views(keys@), *machine, owned@),
{
    let needed = distinct(keys);
    let roots = distinct_roots(&needed, locations);
    let ghost n = text::views(needed@);
    let ghost all = text::views(roots@);
    let mut done = Keys::new();
    let ghost start = done@;
    let mut i: usize = 0;
    while i < roots.len()
        invariant
            i <= roots@.len(),
            n == text::views(needed@),
            all == text::views(roots@),
            done@ == over_roots(start, all.take(i as int), n, *machine, owned@),
        decreases roots@.len() - i,
    {
        let group = keys_rooted_at(&needed, &roots[i], locations);
        proof {
            assert(all.take(i + 1).drop_last() =~= all.take(i as int));
            assert(all.take(i + 1).last() == roots@[i as int]@);
        }
        done.reconcile_keys(&group, &roots[i], machine, owned);
        i = i + 1;
    }
    assert(all.take(i as int) =~= all);
    done
}

/// Holds of the owned keys that go: the ones the engine created and nothing
/// wanted implies.
pub open spec fn goes(handled: Seq<Seq<char>>) -> spec_fn(OwnedRegistryKey) -> bool {
    |k: OwnedRegistryKey| k.created && !handled.contains(text::lower(k.key@))
}

/// The names of owned keys.
pub open spec fn names(keys: Seq<OwnedRegistryKey>) -> Seq<Seq<char>> {
    keys.map_values(|k: OwnedRegistryKey| k.key@)
}

/// The names of the keys that go, deepest first.
pub open spec fn gone(owned: Seq<OwnedRegistryKey>, handled: Seq<Seq<char>>) -> Seq<Seq<char>> {
    lists::deep_first(names(owned.filter(goes(handled))))
}

/// The names of the keys that go, deepest first.
pub fn gone_of(owned: &Vec<OwnedRegistryKey>, handled: &Vec<String>) -> (r: Vec<String>)
    ensures
        text::views(r@) == gone(owned@, text::views(handled@)),
{
    let ghost h = text::views(handled@);
    let ghost p = goes(h);
    let mut out: Vec<String> = Vec::new();
    let mut i: usize = 0;
    proof {
        reveal(Seq::filter);
        assert(text::views(out@) =~= names(owned@.take(0).filter(p)));
    }
    while i < owned.len()
        invariant
            i <= owned@.len(),
            h == text::views(handled@),
            p == goes(h),
            text::views(out@) == names(owned@.take(i as int).filter(p)),
        decreases owned@.len() - i,
    {
        proof {
            lists::lemma_filter_take(owned@, p, i as int);
        }
        let ghost before = owned@.take(i as int).filter(p);
        let lower = text::lower_of(owned[i].key.as_str());
        if owned[i].created && !text::listed(handled, lower.as_str()) {
            let name = owned[i].key.clone();
            proof {
                text::lemma_views_push(out@, name);
                assert(names(before.push(owned@[i as int])) =~= names(before).push(name@));
            }
            out.push(name);
        }
        i = i + 1;
    }
    assert(owned@.take(i as int) =~= owned@);
    let sorted = lists::sort_paths(out);
    lists::reversed(&sorted)
}

/// No key is removed that the run keeps or creates, and none the engine did
/// not create itself.
pub proof fn lemma_only_own_keys_go(owned: Seq<OwnedRegistryKey>, handled: Seq<Seq<char>>, i: int)
    requires
        0 <= i < gone(owned, handled).len(),
    ensures
        !handled.contains(text::lower(gone(owned, handled)[i])),
        exists|k: int|
            0 <= k < owned.len() && (#[trigger] owned[k]).created && owned[k].key@ == gone(
                owned,
                handled,
            )[i],
{
    let p = goes(handled);
    let kept = owned.filter(p);
    let listed = names(kept);
    lists::lemma_deep_first_is_a_permutation(listed);
    let name = gone(owned, handled)[i];
    assert(gone(owned, handled).contains(name));
    assert(listed.contains(name));
    let j = choose|j: int| 0 <= j < listed.len() && listed[j] == name;
    assert(kept.contains(kept[j]));
    owned.lemma_filter_pred(p, j);
    owned.lemma_filter_contains_rev(p, kept[j]);
    let k = choose|k: int| 0 <= k < owned.len() && owned[k] == kept[j];
    assert(owned[k].created && owned[k].key@ == name);
}

/// The keys a value needs: its own and those above it, up to the root it is
/// created below, which is left out.
pub proof fn lemma_which_keys_a_value_needs(key: KeyView, stop: KeyView)
    ensures
        key.is_under(stop) && key.key() != stop.key() ==> chain(key, stop).len() > 0 && chain(
            key,
            stop,
        )[0] == key,
        !key.is_under(stop) || key.key() == stop.key() ==> chain(key, stop).len() == 0,
        forall|i: int|
            0 <= i < chain(key, stop).len() ==> (#[trigger] chain(key, stop)[i]).is_under(stop)
                && chain(key, stop)[i].key() != stop.key(),
        forall|i: int|
            0 < i < chain(key, stop).len() ==> chain(key, stop)[i - 1].parent() == Some(
                #[trigger] chain(key, stop)[i],
            ),
        chain(key, stop).len() > 0 ==> match chain(key, stop).last().parent() {
            Some(above) => !above.is_under(stop) || above.key() == stop.key(),
            None => true,
        },
    decreases key.subkey.len(),
{
    if key.is_under(stop) && key.key() != stop.key() {
        crate::machine::lemma_parent_shorter(key.subkey);
        match key.parent() {
            None => {},
            Some(above) => {
                lemma_which_keys_a_value_needs(above, stop);
                let c = chain(key, stop);
                let rest = chain(above, stop);
                assert(c == seq![key] + rest);
                assert forall|i: int| 0 <= i < c.len() implies (#[trigger] c[i]).is_under(stop)
                    && c[i].key() != stop.key() by {
                    if i > 0 {
                        assert(c[i] == rest[i - 1]);
                    }
                }
                assert forall|i: int| 0 < i < c.len() implies c[i - 1].parent() == Some(
                    #[trigger] c[i],
                ) by {
                    assert(c[i] == rest[i - 1]);
                    if i > 1 {
                        assert(c[i - 1] == rest[i - 2]);
                    }
                }
                if rest.len() > 0 {
                    assert(c.last() == rest.last());
                }
            },
        }
    }
}

/// Every key that is needed below a root is among those that are made, each
/// once and each after those above it.
pub proof fn lemma_every_needed_key_is_made(needed: Seq<KeyView>, stop: KeyView, i: int, j: int)
    requires
        0 <= i < needed.len(),
        0 <= j < chain(needed[i], stop).len(),
    ensures
        implied(needed, stop).contains(chain(needed[i], stop)[j].key()),
        forall|a: int, b: int|
            0 <= a < b < implied(needed, stop).len() ==> lists::depth(
                #[trigger] implied(needed, stop)[a],
            ) <= lists::depth(#[trigger] implied(needed, stop)[b]),
{
    let all = chains(needed, stop);
    let texts = key_texts(all);
    let k = chain(needed[i], stop)[j];
    lemma_chains_hold(needed, stop, i, j);
    let n = choose|n: int| 0 <= n < all.len() && all[n] == k;
    assert(texts[n] == k.key());
    assert(texts.contains(k.key()));
    lists::lemma_distinct_keeps_each_once(texts);
    lists::lemma_shallow_first_is_ordered(lists::distinct(texts));
    assert(lists::distinct(texts).contains(k.key()));
}

proof fn lemma_chains_hold(needed: Seq<KeyView>, stop: KeyView, i: int, j: int)
    requires
        0 <= i < needed.len(),
        0 <= j < chain(needed[i], stop).len(),
    ensures
        chains(needed, stop).contains(chain(needed[i], stop)[j]),
    decreases needed.len(),
{
    let before = needed.drop_last();
    let a = chains(before, stop);
    let b = chain(needed.last(), stop);
    let x = chain(needed[i], stop)[j];
    if i < before.len() {
        assert(before[i] == needed[i]);
        lemma_chains_hold(before, stop, i, j);
        let n = choose|n: int| 0 <= n < a.len() && a[n] == x;
        assert((a + b)[n] == x);
    } else {
        assert((a + b)[a.len() + j] == x);
    }
}

}
