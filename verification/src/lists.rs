//! Lists: the first element that fits, the distinct elements, and the order
//! of paths by depth.

use vstd::prelude::*;
use vstd::relations::*;
use vstd::seq_lib::*;

use crate::text;

verus! {

/// The first element of `s` that `p` holds of.
pub open spec fn first<T>(s: Seq<T>, p: spec_fn(T) -> bool) -> Option<T>
    decreases s.len(),
{
    if s.len() == 0 {
        None
    } else if p(s[0]) {
        Some(s[0])
    } else {
        first(s.drop_first(), p)
    }
}

/// The element at `i` is the first that fits when no earlier one does.
pub proof fn lemma_first_at<T>(s: Seq<T>, p: spec_fn(T) -> bool, i: int)
    requires
        0 <= i < s.len(),
        p(s[i]),
        forall|j: int| 0 <= j < i ==> !p(#[trigger] s[j]),
    ensures
        first(s, p) == Some(s[i]),
    decreases s.len(),
{
    if i > 0 {
        assert(!p(s[0]));
        assert forall|j: int| 0 <= j < i - 1 implies !p(#[trigger] s.drop_first()[j]) by {
            assert(s.drop_first()[j] == s[j + 1]);
        }
        lemma_first_at(s.drop_first(), p, i - 1);
    }
}

/// There is no first element when none fits.
pub proof fn lemma_first_none<T>(s: Seq<T>, p: spec_fn(T) -> bool)
    requires
        forall|j: int| 0 <= j < s.len() ==> !p(#[trigger] s[j]),
    ensures
        first(s, p) is None,
    decreases s.len(),
{
    if s.len() > 0 {
        assert(!p(s[0]));
        assert forall|j: int| 0 <= j < s.len() - 1 implies !p(#[trigger] s.drop_first()[j]) by {
            assert(s.drop_first()[j] == s[j + 1]);
        }
        lemma_first_none(s.drop_first(), p);
    }
}

/// What a first element is: one of the list, that fits.
pub proof fn lemma_first_fits<T>(s: Seq<T>, p: spec_fn(T) -> bool)
    ensures
        match first(s, p) {
            Some(x) => s.contains(x) && p(x),
            None => forall|j: int| 0 <= j < s.len() ==> !p(#[trigger] s[j]),
        },
    decreases s.len(),
{
    if s.len() > 0 && !p(s[0]) {
        let rest = s.drop_first();
        lemma_first_fits(rest, p);
        match first(rest, p) {
            Some(x) => {
                let j = choose|j: int| 0 <= j < rest.len() && rest[j] == x;
                assert(s[j + 1] == x);
            },
            None => {
                assert forall|j: int| 0 <= j < s.len() implies !p(#[trigger] s[j]) by {
                    if j > 0 {
                        assert(rest[j - 1] == s[j]);
                    }
                }
            },
        }
    }
}

/// Where the first element of `s` that `p` holds of stands.
pub open spec fn position<T>(s: Seq<T>, p: spec_fn(T) -> bool) -> Option<int>
    decreases s.len(),
{
    if s.len() == 0 {
        None
    } else if p(s[0]) {
        Some(0)
    } else {
        match position(s.drop_first(), p) {
            Some(i) => Some(i + 1),
            None => None,
        }
    }
}

/// What [`position`] finds.
pub proof fn lemma_position<T>(s: Seq<T>, p: spec_fn(T) -> bool)
    ensures
        match position(s, p) {
            Some(i) => 0 <= i < s.len() && p(s[i]) && forall|j: int|
                0 <= j < i ==> !p(#[trigger] s[j]),
            None => forall|j: int| 0 <= j < s.len() ==> !p(#[trigger] s[j]),
        },
    decreases s.len(),
{
    if s.len() > 0 && !p(s[0]) {
        let rest = s.drop_first();
        lemma_position(rest, p);
        let bound = match position(rest, p) {
            Some(i) => i + 1,
            None => s.len() as int,
        };
        assert forall|j: int| 0 <= j < bound implies !p(#[trigger] s[j]) by {
            if j > 0 {
                assert(rest[j - 1] == s[j]);
            }
        }
    }
}

/// The first place that fits is where [`position`] finds one.
pub proof fn lemma_position_at<T>(s: Seq<T>, p: spec_fn(T) -> bool, i: int)
    requires
        0 <= i < s.len(),
        p(s[i]),
        forall|j: int| 0 <= j < i ==> !p(#[trigger] s[j]),
    ensures
        position(s, p) == Some(i),
{
    lemma_position(s, p);
}

/// A filtered prefix grows by the next element when it fits.
pub proof fn lemma_filter_take<T>(s: Seq<T>, p: spec_fn(T) -> bool, i: int)
    requires
        0 <= i < s.len(),
    ensures
        s.take(i + 1).filter(p) == if p(s[i]) {
            s.take(i).filter(p).push(s[i])
        } else {
            s.take(i).filter(p)
        },
{
    reveal(Seq::filter);
    assert(s.take(i + 1).drop_last() =~= s.take(i));
}

/// The filtered prefix is a prefix of the filtered list.
pub proof fn lemma_filter_prefix<T>(s: Seq<T>, p: spec_fn(T) -> bool, i: int)
    requires
        0 <= i <= s.len(),
    ensures
        s.take(i).filter(p).len() <= s.filter(p).len(),
        forall|j: int|
            0 <= j < s.take(i).filter(p).len() ==> s.take(i).filter(p)[j] == #[trigger] s.filter(
                p,
            )[j],
{
    Seq::filter_distributes_over_add(s.take(i), s.skip(i), p);
    assert(s.take(i) + s.skip(i) =~= s);
}

/// What a list of results gives: every value, or the first failure.
pub open spec fn all<T, E>(steps: Seq<Result<T, E>>) -> Result<Seq<T>, E>
    decreases steps.len(),
{
    if steps.len() == 0 {
        Ok(Seq::<T>::empty())
    } else {
        match all(steps.drop_last()) {
            Err(e) => Err(e),
            Ok(before) => match steps.last() {
                Err(e) => Err(e),
                Ok(x) => Ok(before.push(x)),
            },
        }
    }
}

/// One more result.
pub proof fn lemma_all_take<T, E>(steps: Seq<Result<T, E>>, i: int)
    requires
        0 <= i < steps.len(),
    ensures
        all(steps.take(i + 1)) == match all(steps.take(i)) {
            Err(e) => Err::<Seq<T>, E>(e),
            Ok(before) => match steps[i] {
                Err(e) => Err(e),
                Ok(x) => Ok(before.push(x)),
            },
        },
{
    assert(steps.take(i + 1).drop_last() =~= steps.take(i));
}

/// The failure of a prefix is the failure of the whole.
pub proof fn lemma_all_fails<T, E>(steps: Seq<Result<T, E>>, i: int)
    requires
        0 <= i <= steps.len(),
        all(steps.take(i)) is Err,
    ensures
        all(steps) == all(steps.take(i)),
    decreases steps.len(),
{
    if i < steps.len() {
        assert(steps.drop_last().take(i) =~= steps.take(i));
        lemma_all_fails(steps.drop_last(), i);
    } else {
        assert(steps.take(i) =~= steps);
    }
}

/// What a list of steps gives when each gives two lists: everything they
/// give, in order, or the first failure.
pub open spec fn gathered<A, B, E>(steps: Seq<Result<(Seq<A>, Seq<B>), E>>) -> Result<
    (Seq<A>, Seq<B>),
    E,
>
    decreases steps.len(),
{
    if steps.len() == 0 {
        Ok((Seq::<A>::empty(), Seq::<B>::empty()))
    } else {
        match gathered(steps.drop_last()) {
            Err(e) => Err(e),
            Ok((a, b)) => match steps.last() {
                Err(e) => Err(e),
                Ok((x, y)) => Ok((a + x, b + y)),
            },
        }
    }
}

/// One more step.
pub proof fn lemma_gathered_take<A, B, E>(steps: Seq<Result<(Seq<A>, Seq<B>), E>>, i: int)
    requires
        0 <= i < steps.len(),
    ensures
        gathered(steps.take(i + 1)) == match gathered(steps.take(i)) {
            Err(e) => Err::<(Seq<A>, Seq<B>), E>(e),
            Ok((a, b)) => match steps[i] {
                Err(e) => Err(e),
                Ok((x, y)) => Ok((a + x, b + y)),
            },
        },
{
    assert(steps.take(i + 1).drop_last() =~= steps.take(i));
}

/// The failure of a prefix is the failure of the whole.
pub proof fn lemma_gathered_fails<A, B, E>(steps: Seq<Result<(Seq<A>, Seq<B>), E>>, i: int)
    requires
        0 <= i <= steps.len(),
        gathered(steps.take(i)) is Err,
    ensures
        gathered(steps) == gathered(steps.take(i)),
    decreases steps.len(),
{
    if i < steps.len() {
        assert(steps.drop_last().take(i) =~= steps.take(i));
        lemma_gathered_fails(steps.drop_last(), i);
    } else {
        assert(steps.take(i) =~= steps);
    }
}

/// The last element of `s` that `p` holds of.
pub open spec fn last<T>(s: Seq<T>, p: spec_fn(T) -> bool) -> Option<T>
    decreases s.len(),
{
    if s.len() == 0 {
        None
    } else if p(s.last()) {
        Some(s.last())
    } else {
        last(s.drop_last(), p)
    }
}

/// The elements of `s`, each once, in the order of their first occurrence.
pub open spec fn distinct<T>(s: Seq<T>) -> Seq<T>
    decreases s.len(),
{
    if s.len() == 0 {
        s
    } else {
        let before = distinct(s.drop_last());
        if before.contains(s.last()) {
            before
        } else {
            before.push(s.last())
        }
    }
}

/// The depth of a path: the number of its components; the empty path, which
/// is the install root, has none.
pub open spec fn depth(path: Seq<char>) -> nat {
    if path.len() == 0 {
        0
    } else {
        text::occurrences(path, '\\') + 1
    }
}

/// Shallow before deep, and in the order of their text at equal depth.
pub open spec fn above(a: Seq<char>, b: Seq<char>) -> bool {
    depth(a) < depth(b) || (depth(a) == depth(b) && text::precedes(a, b))
}

/// [`above`] as a relation.
pub open spec fn path_order() -> spec_fn(Seq<char>, Seq<char>) -> bool {
    |a: Seq<char>, b: Seq<char>| above(a, b)
}

/// Paths are totally ordered.
pub proof fn lemma_path_order_total()
    ensures
        total_ordering(path_order()),
{
    let r = path_order();
    assert forall|x: Seq<char>| #[trigger] r(x, x) by {
        text::lemma_precedes_reflexive(x);
    }
    assert forall|x: Seq<char>, y: Seq<char>| #[trigger] r(x, y) && #[trigger] r(y, x) implies x
        == y by {
        text::lemma_precedes_antisymmetric(x, y);
    }
    assert forall|x: Seq<char>, y: Seq<char>, z: Seq<char>| #[trigger]
        r(x, y) && #[trigger] r(y, z) implies r(x, z) by {
        if depth(x) == depth(y) && depth(y) == depth(z) {
            text::lemma_precedes_transitive(x, y, z);
        }
    }
    assert forall|x: Seq<char>, y: Seq<char>| #[trigger] r(x, y) || #[trigger] r(y, x) by {
        text::lemma_precedes_total(x, y);
    }
}

/// Whether `a` is above `b`.
pub fn above_of(a: &str, b: &str) -> (r: bool)
    ensures
        r == above(a@, b@),
{
    if a.is_empty() || b.is_empty() {
        a.is_empty()
    } else {
        let x: usize = text::count_char(a, '\\');
        let y: usize = text::count_char(b, '\\');
        x < y || (x == y && text::precedes_of(a, b))
    }
}

/// `paths` ordered shallow first.
pub open spec fn shallow_first(paths: Seq<Seq<char>>) -> Seq<Seq<char>> {
    paths.sort_by(path_order())
}

/// `paths` ordered deep first.
pub open spec fn deep_first(paths: Seq<Seq<char>>) -> Seq<Seq<char>> {
    shallow_first(paths).reverse()
}

/// Orders paths shallow first.
pub fn sort_paths(v: Vec<String>) -> (r: Vec<String>)
    ensures
        text::views(r@) == shallow_first(text::views(v@)),
{
    let mut out: Vec<String> = Vec::new();
    let mut i: usize = 0;
    let n: usize = v.len();
    assert(text::views(v@).take(0).to_multiset() =~= text::views(out@).to_multiset()) by {
        assert(text::views(v@).take(0) =~= text::views(out@));
    }
    while i < n
        invariant
            i <= n == v@.len(),
            sorted_by(text::views(out@), path_order()),
            text::views(out@).to_multiset() == text::views(v@).take(i as int).to_multiset(),
        decreases n - i,
    {
        insert_path(&mut out, &v[i]);
        proof {
            let all = text::views(v@);
            assert(all.take(i + 1) =~= all.take(i as int).push(all[i as int]));
            broadcast use group_to_multiset_ensures;
        }
        i = i + 1;
    }
    proof {
        let all = text::views(v@);
        assert(all.take(n as int) =~= all);
        lemma_path_order_total();
        all.lemma_sort_by_ensures(path_order());
        lemma_sorted_unique(text::views(out@), shallow_first(all), path_order());
    }
    out
}

/// Inserts a copy of `path` into an ordered list.
fn insert_path(out: &mut Vec<String>, path: &String)
    requires
        sorted_by(text::views(old(out)@), path_order()),
    ensures
        sorted_by(text::views(final(out)@), path_order()),
        text::views(final(out)@).to_multiset() == text::views(old(out)@).to_multiset().insert(path@),
{
    let mut k: usize = out.len();
    while k > 0 && !above_of(out[k - 1].as_str(), path.as_str())
        invariant
            k <= out@.len(),
            *out == *old(out),
            forall|j: int| k <= j < out@.len() ==> !above(#[trigger] out@[j]@, path@),
        decreases k,
    {
        k = k - 1;
    }
    let ghost before = text::views(out@);
    out.insert(k, path.clone());
    proof {
        let after = text::views(out@);
        assert(after =~= before.insert(k as int, path@));
        to_multiset_insert(before, k as int, path@);
        lemma_path_order_total();
        let r = path_order();
        assert forall|x: int, y: int| 0 <= x < y < after.len() implies (#[trigger] r(
            after[x],
            after[y],
        )) by {
            let a = if x < k { x } else { x - 1 };
            let b = if y < k { y } else { y - 1 };
            if x != k && y != k {
                assert(r(before[a], before[b]));
            } else if y == k {
                assert(after[x] == before[x]);
                if x < k - 1 {
                    assert(r(before[x], before[k - 1]));
                }
                assert(r(before[k - 1], path@));
            } else {
                assert(after[y] == before[y - 1]);
                assert(!above(before[y - 1], path@));
                assert(r(before[y - 1], path@) || r(path@, before[y - 1]));
            }
        }
    }
}

/// Whether a list of exit codes holds one.
pub fn has_code(codes: &Vec<i32>, code: i32) -> (r: bool)
    ensures
        r == codes@.contains(code),
{
    let mut i: usize = 0;
    while i < codes.len()
        invariant
            i <= codes@.len(),
            forall|j: int| 0 <= j < i ==> codes@[j] != code,
        decreases codes@.len() - i,
    {
        if codes[i] == code {
            return true;
        }
        i = i + 1;
    }
    false
}

/// A copy of a list of exit codes.
pub fn copy_codes(v: &Vec<i32>) -> (r: Vec<i32>)
    ensures
        r@ == v@,
{
    let mut out: Vec<i32> = Vec::new();
    let mut i: usize = 0;
    while i < v.len()
        invariant
            i <= v@.len(),
            out@ == v@.take(i as int),
        decreases v@.len() - i,
    {
        out.push(v[i]);
        assert(out@ =~= v@.take(i + 1));
        i = i + 1;
    }
    out
}

/// Ordering paths loses none and adds none.
pub proof fn lemma_deep_first_is_a_permutation(paths: Seq<Seq<char>>)
    ensures
        deep_first(paths).len() == paths.len(),
        forall|x: Seq<char>| #[trigger] deep_first(paths).contains(x) <==> paths.contains(x),
{
    let sorted = shallow_first(paths);
    lemma_path_order_total();
    paths.lemma_sort_by_ensures(path_order());
    broadcast use group_to_multiset_ensures;
    sorted.to_multiset_ensures();
    paths.to_multiset_ensures();
    assert forall|x: Seq<char>| #[trigger] deep_first(paths).contains(x) <==> paths.contains(x) by {
        assert(sorted.to_multiset().count(x) == paths.to_multiset().count(x));
        assert(sorted.contains(x) <==> paths.contains(x));
        if deep_first(paths).contains(x) {
            let i = choose|i: int| 0 <= i < deep_first(paths).len() && deep_first(paths)[i] == x;
            assert(sorted[sorted.len() - 1 - i] == x);
        }
        if sorted.contains(x) {
            let i = choose|i: int| 0 <= i < sorted.len() && sorted[i] == x;
            assert(deep_first(paths)[sorted.len() - 1 - i] == x);
        }
    }
}

/// A list from its end to its start.
pub fn reversed(v: &Vec<String>) -> (r: Vec<String>)
    ensures
        text::views(r@) == text::views(v@).reverse(),
{
    let mut out: Vec<String> = Vec::new();
    let mut i: usize = v.len();
    while i > 0
        invariant
            i <= v@.len(),
            out@.len() == v@.len() - i,
            forall|j: int| 0 <= j < out@.len() ==> #[trigger] out@[j]@ == v@[v@.len() - 1 - j]@,
        decreases i,
    {
        i = i - 1;
        out.push(v[i].clone());
    }
    assert(text::views(out@) =~= text::views(v@).reverse());
    out
}

/// Deep comes before shallow.
pub proof fn lemma_deep_first_order(paths: Seq<Seq<char>>)
    ensures
        forall|i: int, j: int|
            0 <= i < j < deep_first(paths).len() ==> depth(#[trigger] deep_first(paths)[j])
                <= depth(#[trigger] deep_first(paths)[i]),
{
    let sorted = shallow_first(paths);
    let r = path_order();
    lemma_path_order_total();
    paths.lemma_sort_by_ensures(r);
    assert forall|i: int, j: int| 0 <= i < j < deep_first(paths).len() implies depth(
        #[trigger] deep_first(paths)[j],
    ) <= depth(#[trigger] deep_first(paths)[i]) by {
        let n = sorted.len();
        assert(r(sorted[n - 1 - j], sorted[n - 1 - i]));
    }
}

/// What the last element that fits is: it fits, and none behind it does.
pub proof fn lemma_last_at<T>(s: Seq<T>, p: spec_fn(T) -> bool, i: int)
    requires
        0 <= i < s.len(),
        p(s[i]),
        forall|j: int| i < j < s.len() ==> !p(#[trigger] s[j]),
    ensures
        last(s, p) == Some(s[i]),
    decreases s.len(),
{
    if i < s.len() - 1 {
        assert(!p(s[s.len() - 1]));
        assert forall|j: int| i < j < s.len() - 1 implies !p(#[trigger] s.drop_last()[j]) by {
            assert(s.drop_last()[j] == s[j]);
        }
        lemma_last_at(s.drop_last(), p, i);
    }
}

/// There is no last element when none fits.
pub proof fn lemma_last_none<T>(s: Seq<T>, p: spec_fn(T) -> bool)
    requires
        forall|j: int| 0 <= j < s.len() ==> !p(#[trigger] s[j]),
    ensures
        last(s, p) is None,
    decreases s.len(),
{
    if s.len() > 0 {
        assert(!p(s[s.len() - 1]));
        assert forall|j: int| 0 <= j < s.len() - 1 implies !p(#[trigger] s.drop_last()[j]) by {
            assert(s.drop_last()[j] == s[j]);
        }
        lemma_last_none(s.drop_last(), p);
    }
}

/// A last element is one of the list and fits.
pub proof fn lemma_last_fits<T>(s: Seq<T>, p: spec_fn(T) -> bool)
    ensures
        match last(s, p) {
            Some(x) => exists|i: int| 0 <= i < s.len() && #[trigger] s[i] == x && p(x),
            None => forall|j: int| 0 <= j < s.len() ==> !p(#[trigger] s[j]),
        },
    decreases s.len(),
{
    if s.len() > 0 {
        let rest = s.drop_last();
        if p(s.last()) {
            assert(s[s.len() - 1] == s.last());
        } else {
            lemma_last_fits(rest, p);
            match last(rest, p) {
                Some(x) => {
                    let i = choose|i: int| 0 <= i < rest.len() && #[trigger] rest[i] == x && p(x);
                    assert(s[i] == x);
                },
                None => {
                    assert forall|j: int| 0 <= j < s.len() implies !p(#[trigger] s[j]) by {
                        if j < rest.len() {
                            assert(rest[j] == s[j]);
                        }
                    }
                },
            }
        }
    }
}

/// What fits stays in a filtered list.
pub proof fn lemma_filter_holds<T>(s: Seq<T>, p: spec_fn(T) -> bool, i: int)
    requires
        0 <= i < s.len(),
        p(s[i]),
    ensures
        s.filter(p).contains(s[i]),
    decreases s.len(),
{
    reveal(Seq::filter);
    let before = s.drop_last();
    let whole = s.filter(p);
    if i == s.len() - 1 {
        assert(whole == before.filter(p).push(s.last()));
        assert(whole[whole.len() - 1] == s[i]);
    } else {
        assert(before[i] == s[i]);
        lemma_filter_holds(before, p, i);
        let k = choose|k: int| 0 <= k < before.filter(p).len() && before.filter(p)[k] == s[i];
        assert(whole[k] == s[i]);
    }
}

/// Results that are all there give their values, one for one; otherwise the
/// first failure is the answer.
pub proof fn lemma_all_gives<T, E>(steps: Seq<Result<T, E>>)
    ensures
        match all(steps) {
            Ok(r) => r.len() == steps.len() && forall|i: int|
                0 <= i < steps.len() ==> #[trigger] steps[i] == Ok::<T, E>(r[i]),
            Err(e) => exists|i: int|
                0 <= i < steps.len() && #[trigger] steps[i] == Err::<T, E>(e) && forall|j: int|
                    0 <= j < i ==> (#[trigger] steps[j]) is Ok,
        },
    decreases steps.len(),
{
    if steps.len() > 0 {
        let before = steps.drop_last();
        lemma_all_gives(before);
        match all(before) {
            Ok(r) => {
                assert forall|i: int| 0 <= i < before.len() implies #[trigger] steps[i] == Ok::<
                    T,
                    E,
                >(r[i]) by {
                    assert(before[i] == steps[i]);
                }
                let n = steps.len() - 1;
                assert(steps[n] == steps.last());
            },
            Err(e) => {
                let i = choose|i: int|
                    0 <= i < before.len() && #[trigger] before[i] == Err::<T, E>(e) && forall|
                        j: int,
                    |
                        0 <= j < i ==> (#[trigger] before[j]) is Ok;
                assert(steps[i] == before[i]);
                assert forall|j: int| 0 <= j < i implies (#[trigger] steps[j]) is Ok by {
                    assert(before[j] == steps[j]);
                }
            },
        }
    }
}

/// Whether every element of a list is one of another.
pub open spec fn within<T>(part: Seq<T>, whole: Seq<T>) -> bool {
    forall|k: int| 0 <= k < part.len() ==> whole.contains(#[trigger] part[k])
}

proof fn lemma_within_sum<T>(part: Seq<T>, a: Seq<T>, b: Seq<T>)
    ensures
        within(part, a) || within(part, b) ==> within(part, a + b),
{
    if within(part, a) || within(part, b) {
        assert forall|k: int| 0 <= k < part.len() implies (a + b).contains(#[trigger] part[k]) by {
            if within(part, a) {
                let i = choose|i: int| 0 <= i < a.len() && a[i] == part[k];
                assert((a + b)[i] == part[k]);
            } else {
                let i = choose|i: int| 0 <= i < b.len() && b[i] == part[k];
                assert((a + b)[a.len() + i] == part[k]);
            }
        }
    }
}

/// Whatever a step gives is in what is gathered.
pub proof fn lemma_gathering_keeps<A, B, E>(steps: Seq<Result<(Seq<A>, Seq<B>), E>>, i: int)
    requires
        gathered(steps) is Ok,
        0 <= i < steps.len(),
    ensures
        steps[i] is Ok,
        within(steps[i]->Ok_0.0, gathered(steps)->Ok_0.0),
        within(steps[i]->Ok_0.1, gathered(steps)->Ok_0.1),
    decreases steps.len(),
{
    let before = steps.drop_last();
    let (a, b) = gathered(before)->Ok_0;
    let (x, y) = steps.last()->Ok_0;
    if i < before.len() {
        assert(before[i] == steps[i]);
        lemma_gathering_keeps(before, i);
    } else {
        assert(within(x, x));
        assert(within(y, y));
    }
    lemma_within_sum(steps[i]->Ok_0.0, a, x);
    lemma_within_sum(steps[i]->Ok_0.1, b, y);
}

/// What is gathered was given by a step.
pub proof fn lemma_gathering_invents_nothing<A, B, E>(
    steps: Seq<Result<(Seq<A>, Seq<B>), E>>,
    x: A,
)
    requires
        gathered(steps) is Ok,
        gathered(steps)->Ok_0.0.contains(x),
    ensures
        exists|i: int| 0 <= i < steps.len() && (#[trigger] steps[i])->Ok_0.0.contains(x),
    decreases steps.len(),
{
    let before = steps.drop_last();
    if steps.len() > 0 {
        let a = gathered(before)->Ok_0.0;
        let last = steps.last()->Ok_0.0;
        let k = choose|k: int| 0 <= k < (a + last).len() && (a + last)[k] == x;
        if k < a.len() {
            assert(a[k] == x);
            lemma_gathering_invents_nothing(before, x);
            let i = choose|i: int|
                0 <= i < before.len() && (#[trigger] before[i])->Ok_0.0.contains(x);
            assert(steps[i] == before[i]);
        } else {
            assert(last[k - a.len()] == x);
            assert(steps[steps.len() - 1]->Ok_0.0.contains(x));
        }
    }
}

/// Taking each once leaves every element, and none twice.
pub proof fn lemma_distinct_keeps_each_once<T>(s: Seq<T>)
    ensures
        distinct(s).no_duplicates(),
        forall|x: T| #[trigger] distinct(s).contains(x) <==> s.contains(x),
    decreases s.len(),
{
    if s.len() > 0 {
        let before = s.drop_last();
        lemma_distinct_keeps_each_once(before);
        let d = distinct(before);
        let r = distinct(s);
        assert forall|x: T| #[trigger] r.contains(x) <==> s.contains(x) by {
            if r.contains(x) {
                let k = choose|k: int| 0 <= k < r.len() && r[k] == x;
                if k < d.len() {
                    assert(d[k] == x);
                    assert(d.contains(x));
                    assert(before.contains(x));
                    let i = choose|i: int| 0 <= i < before.len() && before[i] == x;
                    assert(s[i] == x);
                } else {
                    assert(s[s.len() - 1] == x);
                }
            }
            if s.contains(x) {
                let i = choose|i: int| 0 <= i < s.len() && s[i] == x;
                if i < before.len() {
                    assert(before[i] == x);
                    assert(before.contains(x));
                    assert(d.contains(x));
                    let k = choose|k: int| 0 <= k < d.len() && d[k] == x;
                    assert(r[k] == x);
                } else if d.contains(x) {
                    let k = choose|k: int| 0 <= k < d.len() && d[k] == x;
                    assert(r[k] == x);
                } else {
                    assert(r[r.len() - 1] == x);
                }
            }
        }
        assert forall|i: int, j: int| 0 <= i < r.len() && 0 <= j < r.len() && i != j implies r[i]
            != r[j] by {
            if i < d.len() && j < d.len() {
                assert(d[i] != d[j]);
            } else if i < d.len() {
                assert(d[i] == r[i]);
            } else if j < d.len() {
                assert(d[j] == r[j]);
            }
        }
    }
}

/// Ordering paths loses none and adds none, and puts each before those that
/// lie deeper.
pub proof fn lemma_shallow_first_is_ordered(paths: Seq<Seq<char>>)
    ensures
        shallow_first(paths).len() == paths.len(),
        forall|x: Seq<char>| #[trigger] shallow_first(paths).contains(x) <==> paths.contains(x),
        forall|i: int, j: int|
            0 <= i < j < paths.len() ==> depth(#[trigger] shallow_first(paths)[i]) <= depth(
                #[trigger] shallow_first(paths)[j],
            ),
{
    let sorted = shallow_first(paths);
    lemma_path_order_total();
    paths.lemma_sort_by_ensures(path_order());
    broadcast use group_to_multiset_ensures;

    sorted.to_multiset_ensures();
    paths.to_multiset_ensures();
    assert forall|x: Seq<char>| #[trigger] sorted.contains(x) <==> paths.contains(x) by {
        assert(sorted.to_multiset().count(x) == paths.to_multiset().count(x));
    }
    assert forall|i: int, j: int| 0 <= i < j < paths.len() implies depth(
        #[trigger] sorted[i],
    ) <= depth(#[trigger] sorted[j]) by {
        assert(path_order()(sorted[i], sorted[j]));
    }
}

/// A path is one deeper than the part above its last separator.
pub proof fn lemma_a_path_is_deeper_than_what_holds_it(above: Seq<char>, name: Seq<char>)
    requires
        above.len() > 0,
        !name.contains('\\'),
    ensures
        depth(above + seq!['\\'] + name) == depth(above) + 1,
{
    text::lemma_occurrences_concat(above + seq!['\\'], name, '\\');
    text::lemma_occurrences_concat(above, seq!['\\'], '\\');
    text::lemma_occurrences_none(name, '\\');
    text::lemma_occurrences_none(Seq::<char>::empty(), '\\');
    assert(seq!['\\'].drop_last() =~= Seq::<char>::empty());
    assert(seq!['\\'].drop_first() =~= Seq::<char>::empty());
}

/// What a filter lets through is one of the list, and fits.
pub proof fn lemma_filter_from<T>(s: Seq<T>, p: spec_fn(T) -> bool, k: int)
    requires
        0 <= k < s.filter(p).len(),
    ensures
        p(s.filter(p)[k]),
        s.contains(s.filter(p)[k]),
    decreases s.len(),
{
    reveal(Seq::filter);
    if s.len() > 0 {
        let before = s.drop_last();
        if k < before.filter(p).len() {
            lemma_filter_from(before, p, k);
            let x = before.filter(p)[k];
            let i = choose|i: int| 0 <= i < before.len() && before[i] == x;
            assert(s[i] == x);
        } else {
            assert(s[s.len() - 1] == s.filter(p)[k]);
        }
    }
}

}
