//! What a path is made of: whether two paths are the same, which comes first,
//! whether one lies below another, and whether two lead to the same place.

use vstd::prelude::*;

use crate::lists;
use crate::plan::target;
use crate::text;

verus! {

/// What a part of a path is. Parts of different kinds sort in this order.
#[derive(Debug, Clone, Copy, PartialEq, Eq, Structural)]
pub enum Kind {
    Server,
    Share,
    Drive,
    Root,
    Current,
    Parent,
    Normal,
}

impl Kind {
    /// Where a kind stands among the others.
    pub open spec fn rank(self) -> int {
        match self {
            Kind::Server => 0,
            Kind::Share => 1,
            Kind::Drive => 2,
            Kind::Root => 3,
            Kind::Current => 4,
            Kind::Parent => 5,
            Kind::Normal => 6,
        }
    }

    fn number(self) -> (r: u8)
        ensures
            r == self.rank(),
    {
        match self {
            Kind::Server => 0,
            Kind::Share => 1,
            Kind::Drive => 2,
            Kind::Root => 3,
            Kind::Current => 4,
            Kind::Parent => 5,
            Kind::Normal => 6,
        }
    }
}

/// A part of a path: a server, share, drive or component by its name; the
/// others have none.
#[derive(Debug)]
pub struct Part {
    pub kind: Kind,
    pub name: String,
}

/// What a [`Part`] is.
#[verifier::ext_equal]
pub struct PartView {
    pub kind: Kind,
    pub name: Seq<char>,
}

impl View for Part {
    type V = PartView;

    open spec fn view(&self) -> PartView {
        PartView { kind: self.kind, name: self.name@ }
    }
}

/// A part without a name.
pub open spec fn unnamed(kind: Kind) -> PartView {
    PartView { kind, name: ""@ }
}

/// What a path starts with: its server and share or its drive, whatever the
/// drive's case, and whether it goes on at a root or at the current folder.
pub open spec fn head(path: Seq<char>) -> Seq<PartView> {
    let n = target::prefix(path);
    if n > 2 {
        let server = target::next_separator(path, 2);
        seq![
            PartView { kind: Kind::Server, name: path.subrange(2, server) },
            PartView { kind: Kind::Share, name: path.subrange(server + 1, n) },
            unnamed(Kind::Root),
        ]
    } else if n == 2 {
        let drive = PartView { kind: Kind::Drive, name: text::lower(path.take(1)) };
        if path.len() > 2 && target::is_separator(path[2]) {
            seq![drive, unnamed(Kind::Root)]
        } else {
            seq![drive]
        }
    } else if path.len() > 0 && target::is_separator(path[0]) {
        seq![unnamed(Kind::Root)]
    } else if path.len() > 0 && path[0] == '.' && (path.len() == 1 || target::is_separator(
        path[1],
    )) {
        seq![unnamed(Kind::Current)]
    } else {
        Seq::empty()
    }
}

/// Holds of the texts between separators that count: not the empty ones, and
/// not `.`.
pub open spec fn is_component() -> spec_fn(Seq<char>) -> bool {
    |p: Seq<char>| p.len() > 0 && p != "."@
}

/// The part a text between separators is.
pub open spec fn component() -> spec_fn(Seq<char>) -> PartView {
    |p: Seq<char>|
        if p == ".."@ {
            unnamed(Kind::Parent)
        } else {
            PartView { kind: Kind::Normal, name: p }
        }
}

/// The texts between the separators of a path, behind its prefix.
pub open spec fn texts(path: Seq<char>) -> Seq<Seq<char>> {
    text::split(text::replaced(path.skip(target::prefix(path)), '/', '\\'), '\\')
}

/// The parts of a path.
pub open spec fn parts(path: Seq<char>) -> Seq<PartView> {
    head(path) + texts(path).filter(is_component()).map_values(component())
}

/// Whether two paths are the same, part by part.
pub open spec fn same_path(a: Seq<char>, b: Seq<char>) -> bool {
    parts(a) == parts(b)
}

fn part(kind: Kind, name: String) -> (r: Part)
    ensures
        r@ == (PartView { kind, name: name@ }),
{
    Part { kind, name }
}

fn bare(kind: Kind) -> (r: Part)
    ensures
        r@ == unnamed(kind),
{
    Part { kind, name: text::owned("") }
}

fn head_of(v: &Vec<char>, n: usize) -> (r: Vec<Part>)
    requires
        n == target::prefix(v@),
        n <= v@.len(),
    ensures
        text::views(r@) == head(v@),
{
    let mut out: Vec<Part> = Vec::new();
    if n > 2 {
        let server = target::separator_from(v, 2);
        let name = text::slice_of(v, 2, server);
        let share = text::slice_of(v, server + 1, n);
        out.push(part(Kind::Server, text::string_of(&name)));
        out.push(part(Kind::Share, text::string_of(&share)));
        out.push(bare(Kind::Root));
    } else if n == 2 {
        let letter = text::slice_of(v, 0, 1);
        assert(letter@ =~= v@.take(1));
        let letter = text::string_of(&letter);
        out.push(part(Kind::Drive, text::lower_of(letter.as_str())));
        if v.len() > 2 && target::separates(v[2]) {
            out.push(bare(Kind::Root));
        }
    } else if v.len() > 0 && target::separates(v[0]) {
        out.push(bare(Kind::Root));
    } else if v.len() > 0 && v[0] == '.' && (v.len() == 1 || target::separates(v[1])) {
        out.push(bare(Kind::Current));
    }
    assert(text::views(out@) =~= head(v@));
    out
}

/// The parts of a path.
pub fn parts_of(path: &str) -> (r: Vec<Part>)
    ensures
        text::views(r@) == parts(path@),
{
    let v = text::chars_of(path);
    let n = target::prefix_of(&v);
    let mut out = head_of(&v, n);
    let ghost start = head(v@);
    let rest = text::slice_of(&v, n, v.len());
    assert(rest@ =~= v@.skip(n as int));
    let rest = text::string_of(&rest);
    let body = text::replace_char(rest.as_str(), '/', '\\');
    let pieces = text::split_of(body.as_str(), '\\');
    let ghost all = texts(path@);
    let ghost keep = is_component();
    let ghost made = component();
    let mut i: usize = 0;
    proof {
        reveal(Seq::filter);
        assert(all.take(0) =~= Seq::<Seq<char>>::empty());
        assert(text::views(out@) =~= start + all.take(0).filter(keep).map_values(made));
    }
    while i < pieces.len()
        invariant
            i <= pieces@.len(),
            all == text::views(pieces@),
            keep == is_component(),
            made == component(),
            text::views(out@) == start + all.take(i as int).filter(keep).map_values(made),
        decreases pieces@.len() - i,
    {
        proof {
            assert(all[i as int] == pieces@[i as int]@);
            lists::lemma_filter_take(all, keep, i as int);
        }
        if !pieces[i].as_str().is_empty() && !text::same(pieces[i].as_str(), ".") {
            let one = if text::same(pieces[i].as_str(), "..") {
                bare(Kind::Parent)
            } else {
                part(Kind::Normal, pieces[i].clone())
            };
            let ghost before = text::views(out@);
            let ghost kept = all.take(i as int).filter(keep);
            proof {
                text::lemma_views_push(out@, one);
                assert(one@ == made(all[i as int]));
                assert(kept.push(all[i as int]).map_values(made) =~= kept.map_values(made).push(
                    one@,
                ));
                assert(before.push(one@) =~= start + kept.push(all[i as int]).map_values(made));
            }
            out.push(one);
        }
        i = i + 1;
    }
    assert(all.take(i as int) =~= all);
    out
}

fn same_part(a: &Part, b: &Part) -> (r: bool)
    ensures
        r == (a@ == b@),
{
    a.kind == b.kind && text::same(a.name.as_str(), b.name.as_str())
}

fn same_parts(x: &Vec<Part>, y: &Vec<Part>) -> (r: bool)
    ensures
        r == (text::views(x@) == text::views(y@)),
{
    let ghost p = text::views(x@);
    let ghost q = text::views(y@);
    if x.len() != y.len() {
        assert(p.len() != q.len());
        return false;
    }
    let mut i: usize = 0;
    while i < x.len()
        invariant
            i <= x@.len(),
            x@.len() == y@.len(),
            p == text::views(x@),
            q == text::views(y@),
            forall|j: int| 0 <= j < i ==> #[trigger] p[j] == q[j],
        decreases x@.len() - i,
    {
        assert(p[i as int] == x@[i as int]@ && q[i as int] == y@[i as int]@);
        if !same_part(&x[i], &y[i]) {
            return false;
        }
        i = i + 1;
    }
    assert(p =~= q);
    true
}

/// Whether two paths are the same, part by part.
pub fn same_path_of(a: &str, b: &str) -> (r: bool)
    ensures
        r == same_path(a@, b@),
{
    let x = parts_of(a);
    let y = parts_of(b);
    same_parts(&x, &y)
}

/// Whether a path lies at or below another, part by part.
pub fn starts_with(path: &str, above: &str) -> (r: bool)
    ensures
        r == parts(above@).is_prefix_of(parts(path@)),
{
    let x = parts_of(above);
    let y = parts_of(path);
    let ghost p = text::views(x@);
    let ghost q = text::views(y@);
    if x.len() > y.len() {
        return false;
    }
    let mut i: usize = 0;
    while i < x.len()
        invariant
            i <= x@.len(),
            x@.len() <= y@.len(),
            p == text::views(x@),
            q == text::views(y@),
            p == parts(above@),
            q == parts(path@),
            forall|j: int| 0 <= j < i ==> #[trigger] p[j] == q[j],
        decreases x@.len() - i,
    {
        assert(p[i as int] == x@[i as int]@ && q[i as int] == y@[i as int]@);
        if !same_part(&x[i], &y[i]) {
            assert(!p.is_prefix_of(q)) by {
                if p.is_prefix_of(q) {
                    assert(q.take(p.len() as int)[i as int] == q[i as int]);
                }
            }
            return false;
        }
        i = i + 1;
    }
    assert(p =~= q.take(p.len() as int));
    true
}

/// Whether a part sorts before another: by kind, then by name.
pub open spec fn part_before(a: PartView, b: PartView) -> bool {
    a.kind.rank() < b.kind.rank() || (a.kind == b.kind && a.name != b.name && text::precedes(
        a.name,
        b.name,
    ))
}

/// Whether parts sort before others: by the first that differs, and a path in
/// front of what lies below it.
pub open spec fn parts_before(a: Seq<PartView>, b: Seq<PartView>) -> bool
    decreases a.len(),
{
    if b.len() == 0 {
        false
    } else if a.len() == 0 {
        true
    } else {
        part_before(a[0], b[0]) || (a[0] == b[0] && parts_before(a.drop_first(), b.drop_first()))
    }
}

/// Whether a path sorts before another, part by part.
pub open spec fn path_before(a: Seq<char>, b: Seq<char>) -> bool {
    parts_before(parts(a), parts(b))
}

proof fn lemma_part_total(a: PartView, b: PartView)
    ensures
        a == b || part_before(a, b) || part_before(b, a),
        !(part_before(a, b) && part_before(b, a)),
        !part_before(a, a),
{
    text::lemma_precedes_total(a.name, b.name);
    if text::precedes(a.name, b.name) && text::precedes(b.name, a.name) {
        text::lemma_precedes_antisymmetric(a.name, b.name);
    }
    if a.kind.rank() == b.kind.rank() {
        assert(a.kind == b.kind);
    }
}

proof fn lemma_part_transitive(a: PartView, b: PartView, c: PartView)
    requires
        part_before(a, b),
        part_before(b, c),
    ensures
        part_before(a, c),
{
    if a.kind == b.kind && b.kind == c.kind {
        text::lemma_precedes_transitive(a.name, b.name, c.name);
        if a.name == c.name {
            text::lemma_precedes_antisymmetric(a.name, b.name);
        }
    }
}

/// Of two paths that are not the same, one sorts before the other, and never
/// both.
pub proof fn lemma_before_total(a: Seq<PartView>, b: Seq<PartView>)
    ensures
        a == b || parts_before(a, b) || parts_before(b, a),
        !(parts_before(a, b) && parts_before(b, a)),
        !parts_before(a, a),
    decreases a.len() + b.len(),
{
    if a.len() > 0 {
        lemma_part_total(a[0], a[0]);
        lemma_before_total(a.drop_first(), Seq::empty());
    }
    if a.len() == 0 && b.len() == 0 {
        assert(a =~= b);
    } else if a.len() > 0 && b.len() > 0 {
        lemma_part_total(a[0], b[0]);
        lemma_before_total(a.drop_first(), b.drop_first());
        if a[0] == b[0] && a.drop_first() == b.drop_first() {
            assert(a =~= seq![a[0]] + a.drop_first());
            assert(b =~= seq![b[0]] + b.drop_first());
        }
    }
}

/// What sorts before a path sorts before everything behind that path.
pub proof fn lemma_before_transitive(a: Seq<PartView>, b: Seq<PartView>, c: Seq<PartView>)
    requires
        parts_before(a, b),
        parts_before(b, c),
    ensures
        parts_before(a, c),
    decreases a.len(),
{
    if a.len() > 0 {
        if part_before(a[0], b[0]) && part_before(b[0], c[0]) {
            lemma_part_transitive(a[0], b[0], c[0]);
        } else if a[0] == b[0] && b[0] == c[0] {
            if part_before(a[0], b[0]) || part_before(b[0], c[0]) {
                lemma_part_total(a[0], a[0]);
            } else {
                lemma_before_transitive(a.drop_first(), b.drop_first(), c.drop_first());
            }
        }
    }
}

fn sorts_before(a: &Part, b: &Part) -> (r: bool)
    ensures
        r == part_before(a@, b@),
{
    let x = a.kind.number();
    let y = b.kind.number();
    if x != y {
        x < y
    } else {
        assert(a.kind == b.kind);
        !text::same(a.name.as_str(), b.name.as_str()) && text::precedes_of(
            a.name.as_str(),
            b.name.as_str(),
        )
    }
}

/// Whether a path sorts before another, part by part.
pub fn before(a: &str, b: &str) -> (r: bool)
    ensures
        r == path_before(a@, b@),
{
    let x = parts_of(a);
    let y = parts_of(b);
    let ghost p = text::views(x@);
    let ghost q = text::views(y@);
    let mut i: usize = 0;
    assert(p.skip(0) =~= p && q.skip(0) =~= q);
    while i < x.len() && i < y.len()
        invariant
            i <= x@.len(),
            i <= y@.len(),
            p == text::views(x@),
            q == text::views(y@),
            p == parts(a@),
            q == parts(b@),
            parts_before(p.skip(i as int), q.skip(i as int)) == parts_before(p, q),
        decreases x@.len() - i,
    {
        assert(p.skip(i as int)[0] == x@[i as int]@ && q.skip(i as int)[0] == y@[i as int]@);
        assert(p.skip(i as int).drop_first() =~= p.skip(i + 1));
        assert(q.skip(i as int).drop_first() =~= q.skip(i + 1));
        if !same_part(&x[i], &y[i]) {
            return sorts_before(&x[i], &y[i]);
        }
        proof {
            lemma_part_total(x@[i as int]@, x@[i as int]@);
        }
        i = i + 1;
    }
    i < y.len()
}

/// Parts with every `..` taken together with what it leads out of. There is
/// nothing above a root, and `.` leads nowhere.
pub open spec fn resolved(parts: Seq<PartView>) -> Seq<PartView>
    decreases parts.len(),
{
    if parts.len() == 0 {
        Seq::empty()
    } else {
        let so_far = resolved(parts.drop_last());
        match parts.last().kind {
            Kind::Current => so_far,
            Kind::Parent => if so_far.len() > 0 && so_far.last().kind == Kind::Normal {
                so_far.drop_last()
            } else if so_far.len() > 0 && so_far.last().kind == Kind::Root {
                so_far
            } else {
                so_far.push(parts.last())
            },
            _ => so_far.push(parts.last()),
        }
    }
}

/// Where a path leads, whatever its case and however it is written.
pub open spec fn place(path: Seq<char>) -> Seq<PartView> {
    resolved(parts(text::lower(path)))
}

/// Whether two paths lead to the same place.
pub open spec fn same_place(a: Seq<char>, b: Seq<char>) -> bool {
    place(a) == place(b)
}

/// Where a path leads.
pub fn place_of(path: &str) -> (r: Vec<Part>)
    ensures
        text::views(r@) == place(path@),
{
    let folded = text::lower_of(path);
    let all = parts_of(folded.as_str());
    let ghost whole = text::views(all@);
    let mut out: Vec<Part> = Vec::new();
    let mut i: usize = 0;
    assert(text::views(out@) =~= resolved(whole.take(0)));
    while i < all.len()
        invariant
            i <= all@.len(),
            whole == text::views(all@),
            text::views(out@) == resolved(whole.take(i as int)),
        decreases all@.len() - i,
    {
        let ghost so_far = text::views(out@);
        let ghost next = whole.take(i + 1);
        proof {
            assert(next.drop_last() =~= whole.take(i as int));
            assert(next.last() == all@[i as int]@);
            if out@.len() > 0 {
                assert(so_far.last() == out@.last()@);
            }
        }
        let here = Part { kind: all[i].kind, name: all[i].name.clone() };
        let n = out.len();
        match here.kind {
            Kind::Current => {},
            Kind::Parent => {
                if n > 0 && out[n - 1].kind == Kind::Normal {
                    out.pop();
                    assert(text::views(out@) =~= so_far.drop_last());
                } else if n == 0 || out[n - 1].kind != Kind::Root {
                    proof {
                        text::lemma_views_push(out@, here);
                    }
                    out.push(here);
                }
            },
            _ => {
                proof {
                    text::lemma_views_push(out@, here);
                }
                out.push(here);
            },
        }
        i = i + 1;
    }
    assert(whole.take(i as int) =~= whole);
    out
}

/// Whether a path leads to a place.
pub fn leads_to(path: &str, there: &Vec<Part>) -> (r: bool)
    ensures
        r == (place(path@) == text::views(there@)),
{
    let here = place_of(path);
    same_parts(&here, there)
}

/// A name below a folder of a drive is one more component, a dot is none, and
/// two dots lead up again.
pub proof fn lemma_the_parts_of_a_path(folder: Seq<char>, name: Seq<char>)
    requires
        target::has_drive(folder),
        folder.len() > 2,
        forall|i: int| 0 <= i < name.len() ==> !target::is_separator(#[trigger] name[i]),
    ensures
        name.len() > 0 && name != "."@ && name != ".."@ ==> parts(folder + seq!['\\'] + name)
            == parts(folder).push(PartView { kind: Kind::Normal, name }),
        name.len() == 0 || name == "."@ ==> parts(folder + seq!['\\'] + name) == parts(folder),
        name == ".."@ ==> parts(folder + seq!['\\'] + name) == parts(folder).push(
            PartView { kind: Kind::Parent, name: ""@ },
        ),
        parts(folder + seq!['/'] + name) == parts(folder + seq!['\\'] + name),
{
    let a = folder + seq!['\\'] + name;
    let b = folder + seq!['/'] + name;
    let body = folder.skip(2);
    assert(a[0] == folder[0] && a[1] == folder[1] && a[2] == folder[2]);
    assert(b[0] == folder[0] && b[1] == folder[1] && b[2] == folder[2]);
    assert(target::prefix(a) == 2 && target::prefix(b) == 2 && target::prefix(folder) == 2);
    assert(a.take(1) =~= folder.take(1));
    assert(b.take(1) =~= folder.take(1));
    assert(head(a) =~= head(folder));
    assert(head(b) =~= head(folder));
    let bent = text::replaced(body, '/', '\\');
    assert(text::replaced(a.skip(2), '/', '\\') =~= bent + seq!['\\'] + name);
    assert(text::replaced(b.skip(2), '/', '\\') =~= bent + seq!['\\'] + name);
    text::lemma_split_concat(bent, name, '\\');
    assert(!name.contains('\\')) by {
        if name.contains('\\') {
            let i = choose|i: int| 0 <= i < name.len() && name[i] == '\\';
            assert(target::is_separator(name[i]));
        }
    }
    text::lemma_split_single(name, '\\');
    let before = texts(folder);
    assert(texts(a) == before + seq![name]);
    assert(texts(a) =~= before.push(name));
    assert(texts(b) == texts(a));
    let p = is_component();
    reveal(Seq::filter);
    assert(before.push(name).drop_last() =~= before);
    if p(name) {
        assert(texts(a).filter(p) == before.filter(p).push(name));
        assert(texts(a).filter(p).map_values(component()) =~= before.filter(p).map_values(
            component(),
        ).push(component()(name)));
        assert(parts(a) =~= parts(folder).push(component()(name)));
    } else {
        assert(texts(a).filter(p) == before.filter(p));
    }
    reveal_strlit(".");
    reveal_strlit("..");
    assert("."@.len() == 1 && ".."@.len() == 2);
}

/// Two paths that differ in case alone lead to the same place, and going down
/// and up again leads nowhere.
pub proof fn lemma_where_a_path_leads(a: Seq<char>, b: Seq<char>, before: Seq<PartView>, name: Seq<char>)
    requires
        text::lower(a) == text::lower(b),
    ensures
        same_place(a, b),
        ({
            let down = before.push(PartView { kind: Kind::Normal, name });
            let up = down.push(unnamed(Kind::Parent));
            &&& resolved(down) == resolved(before).push(PartView { kind: Kind::Normal, name })
            &&& resolved(up) == resolved(before)
            &&& resolved(before.push(unnamed(Kind::Current))) == resolved(before)
        }),
{
    let down = before.push(PartView { kind: Kind::Normal, name });
    let up = down.push(unnamed(Kind::Parent));
    let here = before.push(unnamed(Kind::Current));
    assert(down.drop_last() =~= before);
    assert(up.drop_last() =~= down);
    assert(here.drop_last() =~= before);
    assert(resolved(down).drop_last() =~= resolved(before));
}

}
