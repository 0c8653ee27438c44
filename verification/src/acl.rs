//! Discretionary access control lists in their textual form, as far as the
//! engine has to recognise the one it writes.

use vstd::prelude::*;
use vstd::multiset::*;
use vstd::seq_lib::*;

use crate::text;

verus! {

/// One entry of a list: who is allowed or denied what.
#[derive(Debug, PartialEq, Eq)]
pub struct Ace {
    /// `A` allows, `D` denies.
    pub kind: String,
    /// How the entry is inherited.
    pub flags: String,
    /// The rights, as an access mask.
    pub mask: u32,
    pub trustee: String,
}

/// What an [`Ace`] says.
#[verifier::ext_equal]
pub struct AceView {
    pub kind: Seq<char>,
    pub flags: Seq<char>,
    pub mask: u32,
    pub trustee: Seq<char>,
}

impl View for Ace {
    type V = AceView;

    open spec fn view(&self) -> AceView {
        AceView {
            kind: self.kind@,
            flags: self.flags@,
            mask: self.mask,
            trustee: self.trustee@,
        }
    }
}

/// An access control list.
#[derive(Debug, PartialEq, Eq)]
pub struct Dacl {
    /// The list inherits nothing from above.
    pub protected: bool,
    pub entries: Vec<Ace>,
}

/// What a [`Dacl`] says.
#[verifier::ext_equal]
pub struct DaclView {
    pub protected: bool,
    pub entries: Seq<AceView>,
}

impl View for Dacl {
    type V = DaclView;

    open spec fn view(&self) -> DaclView {
        DaclView { protected: self.protected, entries: text::views(self.entries@) }
    }
}

/// What follows the first `D:` of a security descriptor.
pub open spec fn section(s: Seq<char>) -> Option<Seq<char>>
    decreases s.len(),
{
    if s.len() < 2 {
        None
    } else if s[0] == 'D' && s[1] == ':' {
        Some(s.skip(2))
    } else {
        section(s.drop_first())
    }
}

/// The access mask of a two-letter right on files.
pub open spec fn right(a: char, b: char) -> Option<u32> {
    if a == 'F' && b == 'A' {
        Some(0x1f01ffu32)
    } else if a == 'F' && b == 'R' {
        Some(0x120089u32)
    } else if a == 'F' && b == 'W' {
        Some(0x120116u32)
    } else if a == 'F' && b == 'X' {
        Some(0x1200a0u32)
    } else {
        None
    }
}

/// The access mask of a run of two-letter rights.
pub open spec fn letters(s: Seq<char>) -> Option<u32>
    decreases s.len(),
{
    if s.len() == 0 {
        Some(0)
    } else if s.len() == 1 {
        None
    } else {
        match (right(s[0], s[1]), letters(s.skip(2))) {
            (Some(m), Some(rest)) => Some(m | rest),
            _ => None,
        }
    }
}

/// The access mask a rights field spells: a hexadecimal number behind `0x`,
/// or two-letter rights.
pub open spec fn mask_of(s: Seq<char>) -> Option<u32> {
    if s.len() >= 2 && s[0] == '0' && s[1] == 'x' {
        text::spells_hex(s.skip(2))
    } else {
        letters(s)
    }
}

/// The entry between two brackets: six fields, of which the engine reads the
/// kind, the inheritance, the rights and the trustee.
pub open spec fn entry(fields: Seq<Seq<char>>) -> Option<AceView> {
    if fields.len() == 6 {
        match mask_of(fields[2]) {
            Some(mask) => Some(
                AceView { kind: fields[0], flags: fields[1], mask, trustee: fields[5] },
            ),
            None => None,
        }
    } else {
        None
    }
}

/// The entry a piece up to a closing bracket holds.
pub open spec fn bracketed(piece: Seq<char>) -> Option<AceView> {
    if piece.len() > 0 && piece[0] == '(' {
        entry(text::split(piece.skip(1), ';'))
    } else {
        None
    }
}

/// The entries of pieces that each end in a closing bracket.
pub open spec fn all_entries(pieces: Seq<Seq<char>>) -> Option<Seq<AceView>>
    decreases pieces.len(),
{
    if pieces.len() == 0 {
        Some(Seq::<AceView>::empty())
    } else {
        match (all_entries(pieces.drop_last()), bracketed(pieces.last())) {
            (Some(before), Some(e)) => Some(before.push(e)),
            _ => None,
        }
    }
}

/// The list that the characters behind `D:` spell: flags, then entries.
pub open spec fn list_of(s: Seq<char>) -> Option<DaclView> {
    match text::find(s, '(') {
        None => Some(DaclView { protected: s.contains('P'), entries: Seq::<AceView>::empty() }),
        Some(at) => {
            let pieces = text::split(s.skip(at), ')');
            if pieces.last().len() == 0 {
                match all_entries(pieces.drop_last()) {
                    Some(entries) => Some(
                        DaclView { protected: s.take(at).contains('P'), entries },
                    ),
                    None => None,
                }
            } else {
                None
            }
        },
    }
}

/// The access control list of a security descriptor.
pub open spec fn parsed(s: Seq<char>) -> Option<DaclView> {
    match section(s) {
        Some(rest) => list_of(rest),
        None => None,
    }
}

fn section_of(v: &Vec<char>) -> (r: Option<Vec<char>>)
    ensures
        match r {
            Some(rest) => section(v@) == Some(rest@),
            None => section(v@) is None,
        },
{
    let n: usize = v.len();
    let mut i: usize = 0;
    assert(v@.skip(0) =~= v@);
    while n - i >= 2
        invariant
            i <= n == v@.len(),
            section(v@.skip(i as int)) == section(v@),
        decreases n - i,
    {
        if v[i] == 'D' && v[i + 1] == ':' {
            let rest = text::slice_of(v, i + 2, n);
            assert(rest@ =~= v@.skip(i as int).skip(2));
            return Some(rest);
        }
        assert(v@.skip(i as int).drop_first() =~= v@.skip(i + 1));
        i = i + 1;
    }
    None
}

fn right_of(a: char, b: char) -> (r: Option<u32>)
    ensures
        r == right(a, b),
{
    if a == 'F' && b == 'A' {
        Some(0x1f01ffu32)
    } else if a == 'F' && b == 'R' {
        Some(0x120089u32)
    } else if a == 'F' && b == 'W' {
        Some(0x120116u32)
    } else if a == 'F' && b == 'X' {
        Some(0x1200a0u32)
    } else {
        None
    }
}

fn letters_of(v: &Vec<char>, at: usize) -> (r: Option<u32>)
    requires
        at <= v@.len(),
    ensures
        r == letters(v@.skip(at as int)),
    decreases v@.len() - at,
{
    let ghost rest = v@.skip(at as int);
    if at == v.len() {
        Some(0)
    } else if v.len() - at == 1 {
        None
    } else {
        let more = letters_of(v, at + 2);
        assert(rest.skip(2) =~= v@.skip(at + 2));
        match (right_of(v[at], v[at + 1]), more) {
            (Some(m), Some(rest)) => Some(m | rest),
            _ => None,
        }
    }
}

fn read_mask(field: &str) -> (r: Option<u32>)
    ensures
        r == mask_of(field@),
{
    let v = text::chars_of(field);
    if v.len() >= 2 && v[0] == '0' && v[1] == 'x' {
        let digits = text::slice_of(&v, 2, v.len());
        assert(digits@ =~= v@.skip(2));
        text::parse_hex(&digits)
    } else {
        assert(v@.skip(0) =~= v@);
        letters_of(&v, 0)
    }
}

fn read_entry(piece: &str) -> (r: Option<Ace>)
    ensures
        text::option_view(r) == bracketed(piece@),
{
    let v = text::chars_of(piece);
    if v.len() == 0 || v[0] != '(' {
        return None;
    }
    let inner = text::slice_of(&v, 1, v.len());
    assert(inner@ =~= v@.skip(1));
    let inner = text::string_of(&inner);
    let fields = text::split_of(inner.as_str(), ';');
    let ghost all = text::views(fields@);
    if fields.len() != 6 {
        return None;
    }
    assert(all[0] == fields@[0]@ && all[1] == fields@[1]@ && all[2] == fields@[2]@ && all[5]
        == fields@[5]@);
    match read_mask(fields[2].as_str()) {
        None => None,
        Some(mask) => Some(
            Ace {
                kind: fields[0].clone(),
                flags: fields[1].clone(),
                mask,
                trustee: fields[5].clone(),
            },
        ),
    }
}

/// The entries of a run of pieces exist only where those of each part do.
proof fn lemma_entries_prefix(pieces: Seq<Seq<char>>, n: int)
    requires
        0 <= n <= pieces.len(),
        all_entries(pieces) is Some,
    ensures
        all_entries(pieces.take(n)) is Some,
    decreases pieces.len(),
{
    if n < pieces.len() {
        lemma_entries_prefix(pieces.drop_last(), n);
        assert(pieces.drop_last().take(n) =~= pieces.take(n));
    } else {
        assert(pieces.take(n) =~= pieces);
    }
}

/// Reads the entries of all pieces but the last.
fn read_entries(pieces: &Vec<String>, n: usize) -> (r: Option<Vec<Ace>>)
    requires
        n + 1 == pieces@.len(),
    ensures
        match r {
            Some(entries) => all_entries(text::views(pieces@).drop_last()) == Some(
                text::views(entries@),
            ),
            None => all_entries(text::views(pieces@).drop_last()) is None,
        },
{
    let ghost all = text::views(pieces@);
    let ghost init = all.drop_last();
    let mut entries: Vec<Ace> = Vec::new();
    let mut i: usize = 0;
    assert(init.take(0) =~= Seq::<Seq<char>>::empty());
    assert(text::views(entries@) =~= Seq::<AceView>::empty());
    while i < n
        invariant
            i <= n,
            n + 1 == pieces@.len(),
            all == text::views(pieces@),
            init == all.drop_last(),
            all_entries(init.take(i as int)) == Some(text::views(entries@)),
        decreases n - i,
    {
        assert(init[i as int] == pieces@[i as int]@);
        assert(init.take(i + 1).drop_last() =~= init.take(i as int));
        match read_entry(pieces[i].as_str()) {
            None => {
                proof {
                    if all_entries(init) is Some {
                        lemma_entries_prefix(init, i + 1);
                    }
                }
                return None;
            },
            Some(e) => {
                proof {
                    text::lemma_views_push(entries@, e);
                }
                entries.push(e);
            },
        }
        i = i + 1;
    }
    assert(init.take(n as int) =~= init);
    Some(entries)
}

impl Dacl {
    /// Reads the access control list of a security descriptor.
    pub fn parse(descriptor: &str) -> (r: Option<Dacl>)
        ensures
            text::option_view(r) == parsed(descriptor@),
    {
        let whole = text::chars_of(descriptor);
        let v = match section_of(&whole) {
            None => return None,
            Some(v) => v,
        };
        assert(v@.skip(0) =~= v@);
        proof {
            text::lemma_find(v@, '(');
        }
        match text::find_from(&v, 0, '(') {
            None => {
                let flags = text::string_of(&v);
                let entries: Vec<Ace> = Vec::new();
                assert(text::views(entries@) =~= Seq::<AceView>::empty());
                Some(Dacl { protected: text::contains_char(flags.as_str(), 'P'), entries })
            },
            Some(at) => {
                let flags = text::slice_of(&v, 0, at);
                assert(flags@ =~= v@.take(at as int));
                let flags = text::string_of(&flags);
                let body = text::slice_of(&v, at, v.len());
                assert(body@ =~= v@.skip(at as int));
                let body = text::string_of(&body);
                let pieces = text::split_of(body.as_str(), ')');
                let ghost all = text::views(pieces@);
                proof {
                    text::lemma_split_nonempty(body@, ')');
                }
                let n: usize = pieces.len() - 1;
                if !pieces[n].as_str().is_empty() {
                    return None;
                }
                match read_entries(&pieces, n) {
                    None => None,
                    Some(entries) => Some(
                        Dacl { protected: text::contains_char(flags.as_str(), 'P'), entries },
                    ),
                }
            },
        }
    }

    /// Whether a list read from a directory is the one wanted there: it
    /// inherits nothing, and holds exactly the wanted entries, in any order.
    pub fn is(&self, wanted: &Dacl) -> (r: bool)
        ensures
            r == (self@.protected && self@.entries.to_multiset() == wanted@.entries.to_multiset()),
    {
        if !self.protected {
            return false;
        }
        same_entries(&self.entries, &wanted.entries)
    }
}

fn same_entry(a: &Ace, b: &Ace) -> (r: bool)
    ensures
        r == (a@ == b@),
{
    a.kind == b.kind && a.flags == b.flags && a.mask == b.mask && a.trustee == b.trustee
}

fn copy_entry(a: &Ace) -> (r: Ace)
    ensures
        r == *a,
{
    Ace {
        kind: a.kind.clone(),
        flags: a.flags.clone(),
        mask: a.mask,
        trustee: a.trustee.clone(),
    }
}

/// Whether two lists hold the same entries, in any order.
fn same_entries(a: &Vec<Ace>, b: &Vec<Ace>) -> (r: bool)
    ensures
        r == (text::views(a@).to_multiset() == text::views(b@).to_multiset()),
{
    let ghost left = text::views(a@);
    let ghost right = text::views(b@);
    let mut open: Vec<Ace> = Vec::new();
    let mut k: usize = 0;
    while k < b.len()
        invariant
            k <= b@.len(),
            open@ == b@.take(k as int),
        decreases b@.len() - k,
    {
        open.push(copy_entry(&b[k]));
        k = k + 1;
        assert(b@.take(k as int) =~= b@.take(k - 1).push(b@[k - 1]));
    }
    assert(open@ =~= b@);
    let mut i: usize = 0;
    proof {
        assert(left.take(0) =~= Seq::<AceView>::empty());
        left.take(0).to_multiset_ensures();
        assert(left.take(0).to_multiset() =~= Multiset::<AceView>::empty());
        assert(left.take(0).to_multiset().add(text::views(open@).to_multiset())
            =~= right.to_multiset());
    }
    while i < a.len()
        invariant
            i <= a@.len(),
            left == text::views(a@),
            right == text::views(b@),
            left.take(i as int).to_multiset().add(text::views(open@).to_multiset())
                == right.to_multiset(),
        decreases a@.len() - i,
    {
        let ghost seen = left.take(i as int);
        let ghost rest = text::views(open@);
        assert(left.take(i + 1) =~= seen.push(left[i as int]));
        proof {
            broadcast use group_to_multiset_ensures;

        }
        let mut j: usize = 0;
        while j < open.len() && !same_entry(&open[j], &a[i])
            invariant
                j <= open@.len(),
                i < a@.len(),
                forall|m: int| 0 <= m < j ==> (#[trigger] open@[m])@ != a@[i as int]@,
            decreases open@.len() - j,
        {
            j = j + 1;
        }
        if j == open.len() {
            proof {
                let e = left[i as int];
                broadcast use group_to_multiset_ensures;

                assert(!rest.contains(e)) by {
                    if rest.contains(e) {
                        let m = choose|m: int| 0 <= m < rest.len() && rest[m] == e;
                        assert(open@[m]@ == e);
                    }
                }
                assert(rest.to_multiset().count(e) == 0);
                assert(right.to_multiset().count(e) == seen.to_multiset().count(e));
                assert(left =~= left.take(i + 1) + left.skip(i + 1));
                lemma_multiset_commutative(left.take(i + 1), left.skip(i + 1));
                assert(left.to_multiset().count(e) >= left.take(i + 1).to_multiset().count(e));
                assert(left.take(i + 1).to_multiset().count(e) == seen.to_multiset().count(e) + 1);
            }
            return false;
        }
        let ghost at = j as int;
        open.remove(j);
        proof {
            broadcast use group_to_multiset_ensures;

            assert(text::views(open@) =~= rest.remove(at));
            assert(rest[at] == left[i as int]);
            assert(seen.push(left[i as int]).to_multiset().add(rest.remove(at).to_multiset())
                =~= seen.to_multiset().add(rest.to_multiset()));
        }
        i = i + 1;
    }
    assert(left.take(i as int) =~= left);
    let done = open.len() == 0;
    proof {
        broadcast use group_to_multiset_ensures;

        if done {
            assert(text::views(open@) =~= Seq::<AceView>::empty());
            assert(text::views(open@).to_multiset() =~= Multiset::<AceView>::empty());
            assert(left.to_multiset() =~= right.to_multiset());
        } else {
            assert(text::views(open@).to_multiset().len() > 0);
            assert(right.to_multiset().len() == left.to_multiset().len()
                + text::views(open@).to_multiset().len());
        }
    }
    done
}

/// The text of an entry.
pub open spec fn rendered(
    kind: Seq<char>,
    flags: Seq<char>,
    rights: Seq<char>,
    trustee: Seq<char>,
) -> Seq<char> {
    seq!['('] + (kind + seq![';'] + (flags + seq![';'] + (rights + seq![';'] + (seq![';'] + (seq![
        ';',
    ] + trustee)))))
}

/// Whether a text may stand in an entry.
pub open spec fn may_stand(s: Seq<char>) -> bool {
    !s.contains(';') && !s.contains('(') && !s.contains(')')
}

/// An entry says what its fields say.
pub proof fn lemma_what_an_entry_says(
    kind: Seq<char>,
    flags: Seq<char>,
    rights: Seq<char>,
    trustee: Seq<char>,
)
    requires
        may_stand(kind),
        may_stand(flags),
        may_stand(rights),
        may_stand(trustee),
    ensures
        mask_of(rights) matches Some(mask) ==> bracketed(rendered(kind, flags, rights, trustee))
            == Some(AceView { kind, flags, mask, trustee }),
        mask_of(rights) is None ==> bracketed(rendered(kind, flags, rights, trustee)) is None,
{
    let none = Seq::<char>::empty();
    let a = seq![';'] + trustee;
    let b = seq![';'] + a;
    let c = rights + seq![';'] + b;
    let d = flags + seq![';'] + c;
    let e = kind + seq![';'] + d;
    assert(rendered(kind, flags, rights, trustee).skip(1) =~= e);
    text::lemma_split_single(kind, ';');
    text::lemma_split_single(flags, ';');
    text::lemma_split_single(rights, ';');
    text::lemma_split_single(trustee, ';');
    text::lemma_split_single(none, ';');
    text::lemma_split_concat(none, trustee, ';');
    assert(none + seq![';'] + trustee =~= a);
    text::lemma_split_concat(none, a, ';');
    assert(none + seq![';'] + a =~= b);
    text::lemma_split_concat(rights, b, ';');
    text::lemma_split_concat(flags, c, ';');
    text::lemma_split_concat(kind, d, ';');
    let fields = text::split(e, ';');
    assert(fields =~= seq![kind, flags, rights, none, none, trustee]);
}

/// The rights of a file by their letters, alone and together.
pub proof fn lemma_what_rights_say(rest: Seq<char>)
    ensures
        letters(seq!['F', 'A']) == Some(0x1f01ffu32),
        letters(seq!['F', 'R']) == Some(0x120089u32),
        letters(seq!['F', 'W']) == Some(0x120116u32),
        letters(seq!['F', 'X']) == Some(0x1200a0u32),
        letters(rest) matches Some(more) ==> letters(seq!['F', 'R'] + rest) == Some(
            0x120089u32 | more,
        ),
        letters(rest) is None ==> letters(seq!['F', 'R'] + rest) is None,
{
    reveal_with_fuel(letters, 3);
    let none = Seq::<char>::empty();
    assert(letters(none) == Some(0u32));
    assert(seq!['F', 'A'].skip(2) =~= none);
    assert(seq!['F', 'R'].skip(2) =~= none);
    assert(seq!['F', 'W'].skip(2) =~= none);
    assert(seq!['F', 'X'].skip(2) =~= none);
    assert((seq!['F', 'R'] + rest).skip(2) =~= rest);
    assert(0x1f01ffu32 | 0 == 0x1f01ff) by (bit_vector);
    assert(0x120089u32 | 0 == 0x120089) by (bit_vector);
    assert(0x120116u32 | 0 == 0x120116) by (bit_vector);
    assert(0x1200a0u32 | 0 == 0x1200a0) by (bit_vector);
}

proof fn lemma_entries_in_front(piece: Seq<char>, pieces: Seq<Seq<char>>)
    ensures
        all_entries(seq![piece] + pieces) == match (bracketed(piece), all_entries(pieces)) {
            (Some(e), Some(more)) => Some(seq![e] + more),
            _ => None,
        },
    decreases pieces.len(),
{
    let whole = seq![piece] + pieces;
    if pieces.len() == 0 {
        assert(whole.drop_last() =~= Seq::<Seq<char>>::empty());
        assert(all_entries(whole.drop_last()) == Some(Seq::<AceView>::empty()));
        if bracketed(piece) is Some {
            let e = bracketed(piece)->Some_0;
            assert(Seq::<AceView>::empty().push(e) =~= seq![e] + Seq::<AceView>::empty());
        }
    } else {
        assert(whole.drop_last() =~= seq![piece] + pieces.drop_last());
        assert(whole.last() == pieces.last());
        lemma_entries_in_front(piece, pieces.drop_last());
        if bracketed(piece) is Some && all_entries(pieces) is Some {
            let e = bracketed(piece)->Some_0;
            let before = all_entries(pieces.drop_last())->Some_0;
            let x = bracketed(pieces.last())->Some_0;
            assert((seq![e] + before).push(x) =~= seq![e] + before.push(x));
        }
    }
}

/// A list is its entries, in their order, and is protected where a `P` stands
/// before them.
pub proof fn lemma_a_list_is_its_entries(
    flags: Seq<char>,
    kind: Seq<char>,
    inherits: Seq<char>,
    rights: Seq<char>,
    trustee: Seq<char>,
    rest: Seq<char>,
)
    requires
        !flags.contains('('),
        may_stand(kind),
        may_stand(inherits),
        may_stand(rights),
        may_stand(trustee),
        mask_of(rights) is Some,
        rest.len() == 0 || rest[0] == '(',
        list_of(rest) is Some,
    ensures
        list_of(flags + (rendered(kind, inherits, rights, trustee) + seq![')'] + rest)) == Some(
            DaclView {
                protected: flags.contains('P'),
                entries: seq![
                    AceView { kind, flags: inherits, mask: mask_of(rights)->Some_0, trustee },
                ] + list_of(rest)->Some_0.entries,
            },
        ),
        list_of(flags) == Some(
            DaclView { protected: flags.contains('P'), entries: Seq::<AceView>::empty() },
        ),
{
    let piece = rendered(kind, inherits, rights, trustee);
    let body = piece + seq![')'] + rest;
    let s = flags + body;
    let n = flags.len() as int;
    text::lemma_find(flags, '(');
    if text::find(flags, '(') is Some {
        assert(flags.contains(flags[text::find(flags, '(')->Some_0]));
    }
    assert forall|j: int| 0 <= j < n implies #[trigger] s[j] != '(' by {
        assert(s[j] == flags[j]);
        assert(flags.contains(flags[j]));
    }
    assert(s[n] == '(');
    text::lemma_find_at(s, '(', n);
    assert(s.skip(n) =~= body);
    assert(s.take(n) =~= flags);
    lemma_rendered_closes_nothing(kind, inherits, rights, trustee);
    text::lemma_split_single(piece, ')');
    text::lemma_split_concat(piece, rest, ')');
    lemma_what_an_entry_says(kind, inherits, rights, trustee);
    let pieces = text::split(body, ')');
    let more = text::split(rest, ')');
    text::lemma_split_nonempty(rest, ')');
    assert(pieces =~= seq![piece] + more);
    assert(pieces.last() == more.last());
    assert(pieces.drop_last() =~= seq![piece] + more.drop_last());
    lemma_entries_in_front(piece, more.drop_last());
    if rest.len() == 0 {
        assert(more =~= seq![Seq::<char>::empty()]);
        assert(more.drop_last() =~= Seq::<Seq<char>>::empty());
        text::lemma_find(rest, '(');
    } else {
        text::lemma_find_at(rest, '(', 0);
        assert(rest.skip(0) =~= rest);
    }
}

proof fn lemma_rendered_closes_nothing(
    kind: Seq<char>,
    flags: Seq<char>,
    rights: Seq<char>,
    trustee: Seq<char>,
)
    requires
        may_stand(kind),
        may_stand(flags),
        may_stand(rights),
        may_stand(trustee),
    ensures
        !rendered(kind, flags, rights, trustee).contains(')'),
{
    let a = seq![';'] + (seq![';'] + trustee);
    let b = rights + seq![';'] + a;
    let c = flags + seq![';'] + b;
    let d = kind + seq![';'] + c;
    lemma_no_close(seq![';'], trustee);
    lemma_no_close(seq![';'], seq![';'] + trustee);
    lemma_no_close(rights, seq![';']);
    lemma_no_close(rights + seq![';'], a);
    lemma_no_close(flags, seq![';']);
    lemma_no_close(flags + seq![';'], b);
    lemma_no_close(kind, seq![';']);
    lemma_no_close(kind + seq![';'], c);
    lemma_no_close(seq!['('], d);
}

proof fn lemma_no_close(a: Seq<char>, b: Seq<char>)
    ensures
        !a.contains(')') && !b.contains(')') ==> !(a + b).contains(')'),
{
    if (a + b).contains(')') {
        let i = choose|i: int| 0 <= i < (a + b).len() && (a + b)[i] == ')';
        if i < a.len() {
            assert(a[i] == ')');
        } else {
            assert(b[i - a.len()] == ')');
        }
    }
}

}
