//! Install-relative paths: how they are written, which are valid, and where
//! they lie.

use vstd::prelude::*;

use crate::error::{Error, ErrorView};
use crate::paths;
use crate::text;

verus! {

/// A metadata path with the separators the database and the journal use.
pub open spec fn relative(path: Seq<char>) -> Seq<char> {
    text::replaced(path, '/', '\\')
}

/// Metadata paths use `/`; the database and the journal use `\`.
pub fn to_relative(path: &str) -> (r: String)
    ensures
        r@ == relative(path@),
{
    text::replace_char(path, '/', '\\')
}

/// The components of an install-relative path, whichever separator it uses.
pub open spec fn components(path: Seq<char>) -> Seq<Seq<char>> {
    text::split(text::replaced(path, '\\', '/'), '/')
}

/// The characters Windows allows in no file name.
pub open spec fn is_forbidden(c: char) -> bool {
    c < ' ' || c == '<' || c == '>' || c == ':' || c == '"' || c == '|' || c == '?' || c == '*'
}

/// A component up to its first dot.
pub open spec fn stem(component: Seq<char>) -> Seq<char> {
    match text::find(component, '.') {
        Some(i) => component.take(i),
        None => component,
    }
}

/// Whether a name is a device of Windows, whatever its extension.
pub open spec fn is_device(component: Seq<char>) -> bool {
    let s = text::lower(stem(component));
    ||| s == "con"@
    ||| s == "prn"@
    ||| s == "aux"@
    ||| s == "nul"@
    ||| (s.len() == 4 && '1' <= s[3] <= '9' && (s.take(3) == "com"@ || s.take(3) == "lpt"@))
}

/// What is wrong with one component of an install-relative path.
pub open spec fn component_problem(component: Seq<char>) -> Option<Seq<char>> {
    if component.len() == 0 {
        Some("it has an empty component"@)
    } else if component == "."@ || component == ".."@ {
        Some("it has a relative component"@)
    } else if exists|i: int| 0 <= i < component.len() && is_forbidden(#[trigger] component[i]) {
        Some("it holds a character Windows does not allow"@)
    } else if component.last() == '.' || component.last() == ' ' {
        Some("a component ends in a dot or a space"@)
    } else if is_device(component) {
        Some("it names a device"@)
    } else {
        None
    }
}

/// Holds of a component something is wrong with.
pub open spec fn is_bad() -> spec_fn(Seq<char>) -> bool {
    |c: Seq<char>| component_problem(c) is Some
}

/// What is wrong with an install-relative path: the problem of its first bad
/// component.
pub open spec fn problem(path: Seq<char>) -> Option<Seq<char>> {
    match crate::lists::first(components(path), is_bad()) {
        Some(c) => component_problem(c),
        None => None,
    }
}

/// Whether a character separates the components of a path.
pub open spec fn is_separator(c: char) -> bool {
    c == '\\' || c == '/'
}

/// The place of the first separator at or behind a place, or the end.
pub open spec fn next_separator(s: Seq<char>, from: int) -> int
    decreases s.len() - from,
{
    if from >= s.len() {
        s.len() as int
    } else if is_separator(s[from]) {
        from
    } else {
        next_separator(s, from + 1)
    }
}

/// Whether a path starts with a drive.
pub open spec fn has_drive(path: Seq<char>) -> bool {
    path.len() >= 2 && (('a' <= path[0] <= 'z') || ('A' <= path[0] <= 'Z')) && path[1] == ':'
}

/// How long the prefix of a path is: its drive, or its server and share.
pub open spec fn prefix(path: Seq<char>) -> int {
    if has_drive(path) {
        2
    } else if path.len() > 2 && is_separator(path[0]) && is_separator(path[1]) {
        let server = next_separator(path, 2);
        let share = next_separator(path, server + 1);
        if server > 2 && server + 1 < share {
            share
        } else {
            0
        }
    } else {
        0
    }
}

/// Whether a path is absolute: a drive and a separator, or a server and a
/// share.
pub open spec fn is_absolute(path: Seq<char>) -> bool {
    prefix(path) > 2 || (prefix(path) == 2 && path.len() > 2 && is_separator(path[2]))
}

/// `path` below `root`. A path with a prefix of its own stands for itself, and
/// one that starts at the root keeps only the prefix of `root`.
pub open spec fn joined(root: Seq<char>, path: Seq<char>) -> Seq<char> {
    if prefix(path) > 0 {
        path
    } else if path.len() > 0 && is_separator(path[0]) {
        root.take(prefix(root)) + path
    } else if root.len() == 0 || is_separator(root.last()) || (root.len() == 2 && has_drive(root)) {
        root + path
    } else {
        root + "\\"@ + path
    }
}

/// What a path that cannot be used under the root is refused with.
pub open spec fn unusable(root: Seq<char>, path: Seq<char>, why: Seq<char>) -> ErrorView {
    ErrorView {
        code: "path_outside_root"@,
        message: "stored path "@ + text::quoted(path) + " cannot be used under "@ + root + ": "@
            + why,
    }
}

/// Where an install-relative path lies; the empty path is the root itself.
pub open spec fn placed_at(root: Seq<char>, path: Seq<char>) -> Result<Seq<char>, ErrorView> {
    if path.len() == 0 {
        Ok(root)
    } else {
        match problem(path) {
            Some(why) => Err(unusable(root, path, why)),
            None => if paths::parts(root).is_prefix_of(paths::parts(joined(root, path))) {
                Ok(joined(root, path))
            } else {
                Err(unusable(root, path, "it does not stay under the install root"@))
            },
        }
    }
}

/// Whether a result is what a specification says, each side by its view.
pub open spec fn agrees(r: Result<String, Error>, s: Result<Seq<char>, ErrorView>) -> bool {
    match (r, s) {
        (Ok(a), Ok(b)) => a@ == b,
        (Err(a), Err(b)) => a@ == b,
        _ => false,
    }
}

pub(crate) fn separates(c: char) -> (r: bool)
    ensures
        r == is_separator(c),
{
    c == '\\' || c == '/'
}

pub(crate) fn separator_from(v: &Vec<char>, from: usize) -> (r: usize)
    ensures
        r == next_separator(v@, from as int),
        r <= v@.len(),
{
    let mut i: usize = from;
    if i >= v.len() {
        return v.len();
    }
    while i < v.len() && !separates(v[i])
        invariant
            i <= v@.len(),
            next_separator(v@, i as int) == next_separator(v@, from as int),
        decreases v@.len() - i,
    {
        i = i + 1;
    }
    i
}

pub(crate) fn prefix_of(v: &Vec<char>) -> (r: usize)
    ensures
        r == prefix(v@),
        r <= v@.len(),
{
    if v.len() >= 2 && (('a' <= v[0] && v[0] <= 'z') || ('A' <= v[0] && v[0] <= 'Z')) && v[1]
        == ':' {
        2
    } else if v.len() > 2 && separates(v[0]) && separates(v[1]) {
        let server = separator_from(v, 2);
        if server < v.len() {
            let share = separator_from(v, server + 1);
            if server > 2 && server + 1 < share {
                share
            } else {
                0
            }
        } else {
            0
        }
    } else {
        0
    }
}

/// Whether a path is absolute.
pub fn is_absolute_path(path: &str) -> (r: bool)
    ensures
        r == is_absolute(path@),
{
    let v = text::chars_of(path);
    let n = prefix_of(&v);
    n > 2 || (n == 2 && v.len() > 2 && separates(v[2]))
}

/// `path` below `root`.
pub fn join(root: &str, path: &str) -> (r: String)
    ensures
        r@ == joined(root@, path@),
{
    let v = text::chars_of(root);
    let w = text::chars_of(path);
    if prefix_of(&w) > 0 {
        text::owned(path)
    } else if w.len() > 0 && separates(w[0]) {
        let head = text::slice_of(&v, 0, prefix_of(&v));
        assert(head@ =~= v@.take(prefix(v@)));
        let head = text::string_of(&head);
        text::cat2(head.as_str(), path)
    } else if v.len() == 0 || separates(v[v.len() - 1]) || (v.len() == 2 && prefix_of(&v) == 2) {
        text::cat2(root, path)
    } else {
        text::cat3(root, "\\", path)
    }
}

/// A path without the separators and the `.` components at its end.
pub open spec fn stripped(s: Seq<char>) -> Seq<char>
    decreases s.len(),
{
    if s.len() == 0 {
        s
    } else if is_separator(s.last()) || (s.len() >= 2 && s.last() == '.' && is_separator(
        s[s.len() - 2],
    )) {
        stripped(s.drop_last())
    } else {
        s
    }
}

/// Where the last component of a path starts.
pub open spec fn tail_start(s: Seq<char>) -> int
    decreases s.len(),
{
    if s.len() == 0 || is_separator(s.last()) {
        s.len() as int
    } else {
        tail_start(s.drop_last())
    }
}

/// How much of the first `n` characters is left without the separators and
/// the `.` components at their end.
fn strip(v: &Vec<char>, n: usize) -> (r: usize)
    requires
        n <= v@.len(),
    ensures
        r <= n,
        v@.take(r as int) == stripped(v@.take(n as int)),
{
    let mut k: usize = n;
    while k > 0 && (separates(v[k - 1]) || (k >= 2 && v[k - 1] == '.' && separates(v[k - 2])))
        invariant
            k <= n <= v@.len(),
            stripped(v@.take(k as int)) == stripped(v@.take(n as int)),
        decreases k,
    {
        assert(v@.take(k as int).drop_last() =~= v@.take(k - 1));
        k = k - 1;
    }
    k
}

fn tail_from(v: &Vec<char>, n: usize) -> (r: usize)
    requires
        n <= v@.len(),
    ensures
        r <= n,
        r == tail_start(v@.take(n as int)),
{
    let mut k: usize = n;
    while k > 0 && !separates(v[k - 1])
        invariant
            k <= n <= v@.len(),
            tail_start(v@.take(k as int)) == tail_start(v@.take(n as int)),
        decreases k,
    {
        assert(v@.take(k as int).drop_last() =~= v@.take(k - 1));
        k = k - 1;
    }
    k
}

/// What a path says behind its prefix.
fn body_of(v: &Vec<char>) -> (r: Vec<char>)
    ensures
        r@ == v@.skip(prefix(v@)),
{
    let body = text::slice_of(v, prefix_of(v), v.len());
    assert(body@ =~= v@.skip(prefix(v@)));
    body
}

/// The folder a file or folder lies in; a drive's or a share's root lies in
/// none, and a path without a folder has none.
pub open spec fn parent_folder(path: Seq<char>) -> Option<Seq<char>> {
    let body = path.skip(prefix(path));
    let whole = stripped(body);
    if whole.len() == 0 {
        None
    } else {
        let up = stripped(whole.take(tail_start(whole)));
        let above = path.take(prefix(path)) + if up.len() == 0 && is_separator(body[0]) {
            body.take(1)
        } else {
            up
        };
        if above.len() == 0 {
            None
        } else {
            Some(above)
        }
    }
}

/// The folder a file or folder lies in.
pub fn parent_folder_of(path: &str) -> (r: Option<String>)
    ensures
        text::option_view(r) == parent_folder(path@),
{
    let v = text::chars_of(path);
    let n = prefix_of(&v);
    let body = body_of(&v);
    assert(body@.take(body@.len() as int) =~= body@);
    let whole = strip(&body, body.len());
    if whole == 0 {
        return None;
    }
    let tail = tail_from(&body, whole);
    let ghost all = body@.take(whole as int);
    assert(all.take(tail as int) =~= body@.take(tail as int));
    let up = strip(&body, tail);
    let kept = if up == 0 && separates(body[0]) {
        1
    } else {
        up
    };
    assert(body@.take(0) =~= Seq::<char>::empty());
    let head = text::slice_of(&v, 0, n);
    let rest = text::slice_of(&body, 0, kept);
    assert(head@ =~= v@.take(n as int));
    assert(rest@ =~= body@.take(kept as int));
    if head.len() == 0 && rest.len() == 0 {
        assert(head@ + rest@ =~= Seq::<char>::empty());
        return None;
    }
    let head = text::string_of(&head);
    let rest = text::string_of(&rest);
    Some(text::cat2(head.as_str(), rest.as_str()))
}

/// The name a path ends in; a path that ends in its prefix, its root or a
/// relative component has none.
pub open spec fn file_name(path: Seq<char>) -> Seq<char> {
    let whole = stripped(path.skip(prefix(path)));
    let name = whole.skip(tail_start(whole));
    if name == "."@ || name == ".."@ {
        Seq::empty()
    } else {
        name
    }
}

/// The name a path ends in.
pub fn file_name_of(path: &str) -> (r: String)
    ensures
        r@ == file_name(path@),
{
    let v = text::chars_of(path);
    let body = body_of(&v);
    assert(body@.take(body@.len() as int) =~= body@);
    let whole = strip(&body, body.len());
    let tail = tail_from(&body, whole);
    let name = text::slice_of(&body, tail, whole);
    assert(name@ =~= body@.take(whole as int).skip(tail as int));
    let name = text::string_of(&name);
    if text::same(name.as_str(), ".") || text::same(name.as_str(), "..") {
        String::new()
    } else {
        name
    }
}

fn holds_forbidden(v: &Vec<char>) -> (r: bool)
    ensures
        r == exists|i: int| 0 <= i < v@.len() && is_forbidden(#[trigger] v@[i]),
{
    let mut i: usize = 0;
    while i < v.len()
        invariant
            i <= v@.len(),
            forall|j: int| 0 <= j < i ==> !is_forbidden(#[trigger] v@[j]),
        decreases v@.len() - i,
    {
        let c = v[i];
        if c < ' ' || c == '<' || c == '>' || c == ':' || c == '"' || c == '|' || c == '?' || c
            == '*' {
            assert(is_forbidden(v@[i as int]));
            return true;
        }
        i = i + 1;
    }
    false
}

fn names_device(component: &str) -> (r: bool)
    ensures
        r == is_device(component@),
{
    let v = text::chars_of(component);
    assert(v@.skip(0) =~= v@);
    let stem = match text::find_from(&v, 0, '.') {
        Some(i) => {
            let head = text::slice_of(&v, 0, i);
            assert(head@ =~= v@.take(i as int));
            text::string_of(&head)
        },
        None => text::owned(component),
    };
    let s = text::lower_of(stem.as_str());
    if text::same(s.as_str(), "con") || text::same(s.as_str(), "prn") || text::same(
        s.as_str(),
        "aux",
    ) || text::same(s.as_str(), "nul") {
        return true;
    }
    let w = text::chars_of(s.as_str());
    if w.len() == 4 && '1' <= w[3] && w[3] <= '9' {
        let port = text::slice_of(&w, 0, 3);
        assert(port@ =~= w@.take(3));
        let port = text::string_of(&port);
        text::same(port.as_str(), "com") || text::same(port.as_str(), "lpt")
    } else {
        false
    }
}

fn problem_of(component: &str) -> (r: Option<&'static str>)
    ensures
        text::option_view(r) == component_problem(component@),
{
    let v = text::chars_of(component);
    if v.len() == 0 {
        Some("it has an empty component")
    } else if text::same(component, ".") || text::same(component, "..") {
        Some("it has a relative component")
    } else if holds_forbidden(&v) {
        Some("it holds a character Windows does not allow")
    } else if v[v.len() - 1] == '.' || v[v.len() - 1] == ' ' {
        Some("a component ends in a dot or a space")
    } else if names_device(component) {
        Some("it names a device")
    } else {
        None
    }
}

/// What is wrong with an install-relative path: no `..` or `.` component, not
/// absolute, no drive, no reserved device name, no forbidden character.
pub fn relative_path_problem(path: &str) -> (r: Option<&'static str>)
    ensures
        text::option_view(r) == problem(path@),
{
    let folded = text::replace_char(path, '\\', '/');
    let parts = text::split_of(folded.as_str(), '/');
    let ghost all = components(path@);
    let mut i: usize = 0;
    while i < parts.len()
        invariant
            i <= parts@.len(),
            all == text::views(parts@),
            all == components(path@),
            forall|j: int| 0 <= j < i ==> !is_bad()(#[trigger] all[j]),
        decreases parts@.len() - i,
    {
        assert(all[i as int] == parts@[i as int]@);
        let found = problem_of(parts[i].as_str());
        if found.is_some() {
            proof {
                crate::lists::lemma_first_at(all, is_bad(), i as int);
            }
            return found;
        }
        i = i + 1;
    }
    proof {
        crate::lists::lemma_first_none(all, is_bad());
    }
    None
}

fn outside(install_root: &str, path: &str, why: &str) -> (r: Error)
    ensures
        r@ == unusable(install_root@, path@, why@),
{
    let shown = text::quoted_of(path);
    let message = text::cat6(
        "stored path ",
        shown.as_str(),
        " cannot be used under ",
        install_root,
        ": ",
        why,
    );
    Error::new("path_outside_root", message.as_str())
}

/// Joins an install-relative path onto the root, after checking that it is a
/// valid install-relative path: no `..` or `.` component, not absolute, no
/// drive, no reserved device name, no forbidden character — the same rule the
/// format applies to metadata paths. Paths read back from the database go
/// through here before any write or delete, so a tampered row can never
/// address anything outside the install root.
pub fn absolute(install_root: &str, path: &str) -> (r: Result<String, Error>)
    ensures
        agrees(r, placed_at(install_root@, path@)),
{
    if path.is_empty() {
        return Ok(text::owned(install_root));
    }
    match relative_path_problem(path) {
        Some(why) => Err(outside(install_root, path, why)),
        None => {
            let at = join(install_root, path);
            if paths::starts_with(at.as_str(), install_root) {
                Ok(at)
            } else {
                Err(outside(install_root, path, "it does not stay under the install root"))
            }
        },
    }
}

proof fn lemma_first_part(s: Seq<char>, sep: char)
    ensures
        text::split(s, sep).len() > 0,
        text::split(s, sep)[0].is_prefix_of(s),
        !text::split(s, sep)[0].contains(sep),
        text::split(s, sep).len() == 1 ==> text::split(s, sep)[0] == s,
        text::split(s, sep).len() > 1 ==> text::split(s, sep)[0].len() < s.len() && s[text::split(
            s,
            sep,
        )[0].len() as int] == sep,
    decreases s.len(),
{
    if s.len() > 0 {
        let init = s.drop_last();
        lemma_first_part(init, sep);
        let before = text::split(init, sep);
        let first = text::split(s, sep)[0];
        if s.last() == sep {
            assert(first == before[0]);
            assert(s.take(first.len() as int) =~= init.take(first.len() as int));
        } else if before.len() == 1 {
            assert(first == init.push(s.last()));
            assert(first =~= s);
        } else {
            assert(first == before[0]);
            assert(s.take(first.len() as int) =~= init.take(first.len() as int));
        }
    }
}

/// A path that can be used starts neither with a drive nor at a root.
proof fn lemma_usable_is_relative(path: Seq<char>)
    requires
        path.len() > 0,
        problem(path) is None,
    ensures
        prefix(path) == 0,
        !is_separator(path[0]),
{
    let folded = text::replaced(path, '\\', '/');
    let parts = components(path);
    lemma_first_part(folded, '/');
    crate::lists::lemma_first_fits(parts, is_bad());
    let first = parts[0];
    assert(!is_bad()(first));
    assert(first.len() > 0);
    assert(first[0] == folded[0]);
    if is_separator(path[0]) {
        assert(folded[0] == '/');
        assert(first.contains('/'));
    }
    if has_drive(path) {
        assert(folded[1] == ':');
        assert(first.len() >= 2);
        assert(first[1] == folded[1]);
        assert(is_forbidden(first[1]));
    }
}

/// A path that can be used lies at the root or below it, and none of its
/// components leads out again.
pub proof fn lemma_absolute_stays_under_the_root(root: Seq<char>, path: Seq<char>)
    requires
        placed_at(root, path) is Ok,
    ensures
        root.is_prefix_of(placed_at(root, path)->Ok_0),
        paths::parts(root).is_prefix_of(paths::parts(placed_at(root, path)->Ok_0)),
        path.len() > 0 ==> placed_at(root, path)->Ok_0 == joined(root, path),
        path.len() > 0 ==> forall|i: int|
            0 <= i < components(path).len() ==> {
                let c = #[trigger] components(path)[i];
                &&& c.len() > 0
                &&& c != "."@
                &&& c != ".."@
                &&& !c.contains(':')
            },
{
    let at = placed_at(root, path)->Ok_0;
    if path.len() > 0 {
        lemma_usable_is_relative(path);
    }
    assert(at.take(root.len() as int) =~= root);
    if path.len() > 0 {
        crate::lists::lemma_first_fits(components(path), is_bad());
        assert forall|i: int| 0 <= i < components(path).len() implies {
            let c = #[trigger] components(path)[i];
            &&& c.len() > 0
            &&& c != "."@
            &&& c != ".."@
            &&& !c.contains(':')
        } by {
            let c = components(path)[i];
            assert(!is_bad()(c));
            if c.contains(':') {
                let j = choose|j: int| 0 <= j < c.len() && c[j] == ':';
                assert(is_forbidden(c[j]));
            }
        }
    }
}

/// Whether a component of a path may name a file or a directory.
pub open spec fn may_name(c: Seq<char>) -> bool {
    let first = text::lower(
        match text::find(c, '.') {
            Some(i) => c.take(i),
            None => c,
        },
    );
    &&& c.len() > 0
    &&& c != "."@
    &&& c != ".."@
    &&& c.last() != '.'
    &&& c.last() != ' '
    &&& forall|i: int|
        0 <= i < c.len() ==> (#[trigger] c[i]) >= ' ' && c[i] != '<' && c[i] != '>' && c[i] != ':'
            && c[i] != '"' && c[i] != '|' && c[i] != '?' && c[i] != '*'
    &&& first != "con"@ && first != "prn"@ && first != "aux"@ && first != "nul"@
    &&& first.len() == 4 && '1' <= first[3] <= '9' ==> first.take(3) != "com"@ && first.take(3)
        != "lpt"@
}

/// A path is usable exactly when each of its components may name something.
pub proof fn lemma_which_paths_are_usable(path: Seq<char>)
    ensures
        problem(path) is None <==> forall|i: int|
            0 <= i < components(path).len() ==> may_name(#[trigger] components(path)[i]),
{
    let parts = components(path);
    crate::lists::lemma_first_fits(parts, is_bad());
    assert forall|i: int| 0 <= i < parts.len() implies (may_name(#[trigger] parts[i])
        <==> !is_bad()(parts[i])) by {
        lemma_a_component_is_bad(parts[i]);
    }
    match crate::lists::first(parts, is_bad()) {
        Some(c) => {
            let i = choose|i: int| 0 <= i < parts.len() && parts[i] == c;
            assert(is_bad()(parts[i]));
        },
        None => {},
    }
}

proof fn lemma_a_component_is_bad(c: Seq<char>)
    ensures
        may_name(c) <==> component_problem(c) is None,
{
    if exists|i: int| 0 <= i < c.len() && is_forbidden(#[trigger] c[i]) {
        let i = choose|i: int| 0 <= i < c.len() && is_forbidden(#[trigger] c[i]);
        assert(!may_name(c));
    } else {
        assert forall|i: int| 0 <= i < c.len() implies (#[trigger] c[i]) >= ' ' && c[i] != '<'
            && c[i] != '>' && c[i] != ':' && c[i] != '"' && c[i] != '|' && c[i] != '?' && c[i]
            != '*' by {
            assert(!is_forbidden(c[i]));
        }
    }
}

/// A path that may be used stands right below the root it is placed at.
pub proof fn lemma_where_a_path_is_placed(root: Seq<char>, path: Seq<char>)
    requires
        placed_at(root, path) is Ok,
    ensures
        path.len() == 0 ==> placed_at(root, path)->Ok_0 == root,
        path.len() > 0 && root.len() > 0 && !is_separator(root.last()) && !(root.len() == 2
            && has_drive(root)) ==> placed_at(root, path)->Ok_0 == root + seq!['\\'] + path,
        path.len() > 0 && root.len() > 0 && is_separator(root.last()) ==> placed_at(
            root,
            path,
        )->Ok_0 == root + path,
{
    reveal_strlit("\\");
    assert("\\"@ =~= seq!['\\']);
    if path.len() > 0 {
        lemma_usable_is_relative(path);
    }
}

/// A name below a folder of a drive: the folder is above it, and the name is
/// its file name.
pub proof fn lemma_a_name_below_a_folder(folder: Seq<char>, name: Seq<char>)
    requires
        has_drive(folder),
        folder.len() > 2,
        !is_separator(folder.last()),
        folder.last() != '.',
        name.len() > 0,
        name != "."@,
        name != ".."@,
        forall|i: int| 0 <= i < name.len() ==> !is_separator(#[trigger] name[i]),
    ensures
        parent_folder(folder + seq!['\\'] + name) == Some(folder),
        file_name(folder + seq!['\\'] + name) == name,
        !has_drive(name) ==> joined(folder, name) == folder + seq!['\\'] + name,
{
    reveal_strlit("\\");
    reveal_strlit(".");
    assert("\\"@ =~= seq!['\\']);
    let path = folder + seq!['\\'] + name;
    assert(path[0] == folder[0] && path[1] == folder[1]);
    assert(prefix(path) == 2);
    let body = path.skip(2);
    let up = folder.skip(2);
    assert(body =~= up + seq!['\\'] + name);
    assert(body.last() == name.last());
    assert(!is_separator(name[name.len() - 1]));
    if name.len() > 1 {
        assert(body[body.len() - 2] == name[name.len() - 2]);
        assert(!is_separator(name[name.len() - 2]));
    } else {
        assert("."@ =~= seq!['.']);
        assert(name =~= seq![name[0]]);
        assert(body.last() != '.');
    }
    assert(stripped(body) == body);
    lemma_tail_start(up + seq!['\\'], name);
    assert(body.take(up.len() as int + 1) =~= up + seq!['\\']);
    assert(body.skip(up.len() as int + 1) =~= name);
    let above = up + seq!['\\'];
    assert(above.drop_last() =~= up);
    assert(up.last() == folder.last());
    assert(stripped(up) == up);
    assert(stripped(above) == up);
    assert(path.take(2) + up =~= folder);
    if name.len() >= 2 && is_separator(name[0]) {
        assert(false);
    }
    assert(!is_separator(name[0]));
    assert(prefix(name) == 0 || has_drive(name));
}

proof fn lemma_tail_start(above: Seq<char>, name: Seq<char>)
    requires
        above.len() > 0,
        is_separator(above.last()),
        forall|i: int| 0 <= i < name.len() ==> !is_separator(#[trigger] name[i]),
    ensures
        tail_start(above + name) == above.len(),
    decreases name.len(),
{
    let s = above + name;
    if name.len() == 0 {
        assert(s =~= above);
    } else {
        assert(s.last() == name[name.len() - 1]);
        assert(s.drop_last() =~= above + name.drop_last());
        lemma_tail_start(above, name.drop_last());
    }
}

}
