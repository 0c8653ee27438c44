//! The PATH entry resource: one directory appended as the last entry of the
//! scope's `Path` (`REG_EXPAND_SZ`), recorded by its exact raw text and its
//! normalized form. The rules:
//!
//! - an equivalent entry that already exists is neither duplicated nor
//!   claimed;
//! - removal takes the exact raw text first, then a normalized match, and
//!   removes exactly one segment — every other segment, including an empty
//!   one from a trailing `;`, stays as it was;
//! - appending to a `Path` that ends in `;` keeps that trailing empty
//!   segment;
//! - a reinstall that keeps the entry leaves exactly one.

use vstd::prelude::*;
use vstd::string::*;

use crate::error::{Error, ErrorView};
use crate::lists;
use crate::machine::{Data, DataView, KeyPath, KeyView, Machine};
use crate::text;

verus! {

/// The value that holds the PATH.
pub const VALUE_NAME: &'static str = "Path";

/// Where the name that starts `s` is closed: the next `%`, when there is a
/// name in front of it.
pub open spec fn closing(s: Seq<char>) -> Option<int> {
    match text::find(s, '%') {
        Some(end) => if end > 0 {
            Some(end)
        } else {
            None
        },
        None => None,
    }
}

/// What `%name%` stands for: the variable's value, or itself where the
/// environment knows no such variable.
pub open spec fn stands_for(name: Seq<char>, machine: Machine) -> Seq<char> {
    match machine.variable(name) {
        Some(value) => value,
        None => seq!['%'] + name + seq!['%'],
    }
}

/// `s` with every `%NAME%` the environment knows replaced by its value; a
/// name it does not know, and a `%` that closes no name, stay as they stand.
pub open spec fn expanded(s: Seq<char>, machine: Machine) -> Seq<char>
    decreases s.len(),
{
    match text::find(s, '%') {
        None => s,
        Some(start) => {
            proof {
                text::lemma_find(s, '%');
                text::lemma_find(s.skip(start + 1), '%');
            }
            let before = s.take(start);
            let after = s.skip(start + 1);
            match closing(after) {
                Some(end) => before + stands_for(after.take(end), machine) + expanded(
                    after.skip(end + 1),
                    machine,
                ),
                None => before + seq!['%'] + expanded(after, machine),
            }
        },
    }
}

/// The text of a variable, or `%name%` where the environment knows none.
fn expand_name(name: &str, machine: &Machine) -> (r: String)
    ensures
        r@ == stands_for(name@, *machine),
{
    match machine.environment_variable(name) {
        Some(value) => text::owned(value),
        None => {
            let mut out = String::new();
            out.push('%');
            out.append(name);
            out.push('%');
            assert(out@ =~= seq!['%'] + name@ + seq!['%']);
            out
        },
    }
}

/// Where the name that starts at `from` is closed.
pub fn closing_from(v: &Vec<char>, from: usize) -> (r: Option<usize>)
    requires
        from <= v@.len(),
    ensures
        match r {
            Some(end) => from < end < v@.len() && closing(v@.skip(from as int)) == Some(end - from),
            None => closing(v@.skip(from as int)) is None,
        },
{
    match text::find_from(v, from, '%') {
        Some(end) => if end > from {
            Some(end)
        } else {
            None
        },
        None => None,
    }
}

/// Expands `%VAR%` for comparison only: `PATH` entries are what other
/// software wrote, so an unknown or unset variable is ordinary and leaves the
/// text as it stands rather than failing.
fn expand_environment(entry: &str, machine: &Machine) -> (r: String)
    ensures
        r@ == expanded(entry@, *machine),
{
    let v = text::chars_of(entry);
    assert(v@.skip(0) =~= v@);
    expand_from(&v, 0, machine)
}

/// Expands the text from `at` on.
fn expand_from(v: &Vec<char>, at: usize, machine: &Machine) -> (r: String)
    requires
        at <= v@.len(),
    ensures
        r@ == expanded(v@.skip(at as int), *machine),
    decreases v@.len() - at,
{
    let n: usize = v.len();
    let ghost rest = v@.skip(at as int);
    proof {
        text::lemma_find(rest, '%');
    }
    match text::find_from(v, at, '%') {
        None => {
            let tail = text::slice_of(v, at, n);
            assert(tail@ =~= rest);
            text::string_of(&tail)
        },
        Some(start) => {
            let before = text::slice_of(v, at, start);
            assert(before@ =~= rest.take(start - at));
            let mut out = text::string_of(&before);
            assert(rest.skip(start - at + 1) =~= v@.skip(start + 1));
            match closing_from(v, start + 1) {
                Some(end) => {
                    let name = text::slice_of(v, start + 1, end);
                    assert(name@ =~= v@.skip(start + 1).take(end - start - 1));
                    let name = text::string_of(&name);
                    let value = expand_name(name.as_str(), machine);
                    out.append(value.as_str());
                    assert(v@.skip(start + 1).skip(end - start) =~= v@.skip(end + 1));
                    let more = expand_from(v, end + 1, machine);
                    out.append(more.as_str());
                    out
                },
                None => {
                    out.push('%');
                    let more = expand_from(v, start + 1, machine);
                    out.append(more.as_str());
                    assert(out@ =~= rest.take(start - at) + seq!['%'] + more@);
                    out
                },
            }
        },
    }
}

/// An entry without the white space and the quotes around it.
pub open spec fn unquoted(entry: Seq<char>) -> Seq<char> {
    text::trim(text::trim_end(text::trim_start(text::trim(entry), '"'), '"'))
}

/// A path without its trailing separators; a drive keeps its one.
pub open spec fn without_separators(path: Seq<char>) -> Seq<char> {
    let out = text::trim_end(path, '\\');
    if out.len() == 2 && out[0] < '\u{80}' && out[1] == ':' {
        out.push('\\')
    } else {
        out
    }
}

/// The path an entry names: trimmed, unquoted, environment variables expanded,
/// forward slashes folded, trailing separators dropped (a drive root keeps its
/// one).
pub open spec fn named(entry: Seq<char>, machine: Machine) -> Seq<char> {
    without_separators(text::replaced(expanded(unquoted(entry), machine), '/', '\\'))
}

/// The comparison form of an entry: the path it names, lower-cased.
pub open spec fn normal(entry: Seq<char>, machine: Machine) -> Seq<char> {
    text::lowercase(named(entry, machine))
}

/// The comparison form of an entry. Of ASCII paths the case is all that is
/// lost, so two entries that differ only in the case of such a path are
/// equivalent and two that differ otherwise are not.
pub fn normalize(entry: &str, machine: &Machine) -> (r: String)
    ensures
        r@ == normal(entry@, *machine),
        text::is_ascii(named(entry@, *machine)) ==> r@ == text::lower(named(entry@, *machine)),
{
    let trimmed = text::trim_of(entry);
    let unquoted = text::trim_char_of(trimmed.as_str(), '"');
    let trimmed = text::trim_of(unquoted.as_str());
    let expanded = expand_environment(trimmed.as_str(), machine);
    let folded = text::replace_char(expanded.as_str(), '/', '\\');
    let mut out = text::trim_end_of(folded.as_str(), '\\');
    let v = text::chars_of(out.as_str());
    if v.len() == 2 && v[0] < '\u{80}' && v[1] == ':' {
        out.push('\\');
    }
    text::lowercase_of(out.as_str())
}

/// The segments of a `Path` text, empty ones included.
pub open spec fn segments(path: Seq<char>) -> Seq<Seq<char>> {
    if path.len() == 0 {
        Seq::<Seq<char>>::empty()
    } else {
        text::split(path, ';')
    }
}

/// The segments of a `Path` text, empty ones included.
pub fn split(path: &str) -> (r: Vec<String>)
    ensures
        text::views(r@) == segments(path@),
{
    if path.is_empty() {
        let out: Vec<String> = Vec::new();
        assert(text::views(out@) =~= Seq::<Seq<char>>::empty());
        out
    } else {
        text::split_of(path, ';')
    }
}

/// Holds of the segment that is `raw`.
pub open spec fn is_raw(raw: Seq<char>) -> spec_fn(Seq<char>) -> bool {
    |s: Seq<char>| s == raw
}

/// Holds of a segment equivalent to the normalized entry.
pub open spec fn is_equivalent(normalized: Seq<char>, machine: Machine) -> spec_fn(
    Seq<char>,
) -> bool {
    |s: Seq<char>| s.len() > 0 && normal(s, machine) == normalized
}

/// The index of the segment to remove for an owned entry: the exact raw
/// text, else the first normalized match.
pub open spec fn owned_index(
    path: Seq<char>,
    raw: Seq<char>,
    normalized: Seq<char>,
    machine: Machine,
) -> Option<int> {
    match lists::position(segments(path), is_raw(raw)) {
        Some(i) => Some(i),
        None => lists::position(segments(path), is_equivalent(normalized, machine)),
    }
}

/// The index of the segment to remove for an owned entry.
pub fn find_owned(path: &str, raw: &str, normalized: &str, machine: &Machine) -> (r: Option<usize>)
    ensures
        match r {
            Some(i) => owned_index(path@, raw@, normalized@, *machine) == Some(i as int) && i
                < segments(path@).len(),
            None => owned_index(path@, raw@, normalized@, *machine) is None,
        },
{
    let parts = split(path);
    let ghost all = segments(path@);
    let mut i: usize = 0;
    while i < parts.len()
        invariant
            i <= parts@.len(),
            all == text::views(parts@),
            all == segments(path@),
            forall|j: int| 0 <= j < i ==> !is_raw(raw@)(#[trigger] all[j]),
        decreases parts@.len() - i,
    {
        if text::same(parts[i].as_str(), raw) {
            proof {
                lists::lemma_position_at(all, is_raw(raw@), i as int);
            }
            return Some(i);
        }
        i = i + 1;
    }
    proof {
        lists::lemma_position(all, is_raw(raw@));
    }
    equivalent_index(&parts, normalized, machine)
}

/// Where the first segment equivalent to the normalized entry stands.
fn equivalent_index(parts: &Vec<String>, normalized: &str, machine: &Machine) -> (r: Option<usize>)
    ensures
        match r {
            Some(i) => i < parts@.len() && lists::position(
                text::views(parts@),
                is_equivalent(normalized@, *machine),
            ) == Some(i as int),
            None => lists::position(
                text::views(parts@),
                is_equivalent(normalized@, *machine),
            ) is None,
        },
{
    let ghost all = text::views(parts@);
    let ghost p = is_equivalent(normalized@, *machine);
    let mut i: usize = 0;
    while i < parts.len()
        invariant
            i <= parts@.len(),
            all == text::views(parts@),
            p == is_equivalent(normalized@, *machine),
            forall|j: int| 0 <= j < i ==> !p(#[trigger] all[j]),
        decreases parts@.len() - i,
    {
        assert(all[i as int] == parts@[i as int]@);
        if !parts[i].as_str().is_empty() {
            let form = normalize(parts[i].as_str(), machine);
            if text::same(form.as_str(), normalized) {
                proof {
                    lists::lemma_position_at(all, p, i as int);
                }
                return Some(i);
            }
        }
        i = i + 1;
    }
    proof {
        lists::lemma_position(all, p);
    }
    None
}

/// Whether an equivalent of the entry is present.
pub open spec fn present(path: Seq<char>, normalized: Seq<char>, machine: Machine) -> bool {
    lists::position(segments(path), is_equivalent(normalized, machine)) is Some
}

/// Whether an equivalent of the entry is present.
pub fn contains_equivalent(path: &str, normalized: &str, machine: &Machine) -> (r: bool)
    ensures
        r == present(path@, normalized@, *machine),
{
    let parts = split(path);
    equivalent_index(&parts, normalized, machine).is_some()
}

/// The text with `raw` as the last entry; a trailing empty segment stays
/// trailing.
pub open spec fn with_entry(path: Seq<char>, raw: Seq<char>) -> Seq<char> {
    if path.len() == 0 {
        raw
    } else if path.last() == ';' {
        path + raw + ";"@
    } else {
        path + ";"@ + raw
    }
}

/// The text with `raw` appended as the last entry. A trailing empty segment
/// (`...;`) is kept trailing.
pub fn appended(path: &str, raw: &str) -> (r: String)
    ensures
        r@ == with_entry(path@, raw@),
{
    let v = text::chars_of(path);
    if v.len() == 0 {
        text::owned(raw)
    } else if v[v.len() - 1] == ';' {
        text::cat3(path, raw, ";")
    } else {
        text::cat3(path, ";", raw)
    }
}

/// The text without the owned entry, when it holds one.
pub open spec fn without_entry(
    path: Seq<char>,
    raw: Seq<char>,
    normalized: Seq<char>,
    machine: Machine,
) -> Option<Seq<char>> {
    match owned_index(path, raw, normalized, machine) {
        Some(i) => Some(text::join(segments(path).remove(i), ";"@)),
        None => None,
    }
}

/// The text without the owned entry, or `None` when it holds none.
pub fn removed(path: &str, raw: &str, normalized: &str, machine: &Machine) -> (r: Option<String>)
    ensures
        text::option_view(r) == without_entry(path@, raw@, normalized@, *machine),
{
    match find_owned(path, raw, normalized, machine) {
        None => None,
        Some(index) => {
            let mut parts = split(path);
            let ghost before = text::views(parts@);
            parts.remove(index);
            assert(text::views(parts@) =~= before.remove(index as int));
            Some(text::join_of(&parts, ";"))
        },
    }
}

/// What a `Path` value of another type is refused with.
pub open spec fn unreadable(environment_key: KeyView, found: DataView) -> ErrorView {
    ErrorView {
        code: "path_value_unreadable"@,
        message: environment_key.text() + "\\Path is a "@ + found.kind()
            + " value, not a string"@,
    }
}

/// The `Path` text a value holds, and whether there is one.
pub open spec fn path_text(current: Option<DataView>) -> Option<(Seq<char>, bool)> {
    match current {
        None => Some((Seq::<char>::empty(), false)),
        Some(DataView::String(path)) => Some((path, true)),
        Some(DataView::ExpandString(path)) => Some((path, true)),
        Some(_) => None,
    }
}

/// The current `Path` text of the environment key and whether the value
/// exists.
pub fn read(current: Option<&Data>, environment_key: &KeyPath) -> (r: Result<
    (String, bool),
    Error,
>)
    ensures
        match r {
            Ok((path, exists)) => path_text(text::option_view(current)) == Some((path@, exists)),
            Err(e) => path_text(text::option_view(current)) is None && e@ == unreadable(
                environment_key@,
                current.unwrap()@,
            ),
        },
{
    match current {
        None => Ok((String::new(), false)),
        Some(Data::String(path)) => Ok((path.clone(), true)),
        Some(Data::ExpandString(path)) => Ok((path.clone(), true)),
        Some(other) => {
            let key = environment_key.to_string();
            let kind = other.kind_name();
            let message = text::cat4(
                key.as_str(),
                "\\Path is a ",
                kind.as_str(),
                " value, not a string",
            );
            Err(Error::new("path_value_unreadable", message.as_str()))
        },
    }
}

/// What is to be done with the `Path` value.
#[derive(Debug, PartialEq, Eq)]
pub enum PathChange {
    /// It stays as it is.
    Unchanged,
    /// It is deleted.
    Delete,
    /// It is written as a `REG_EXPAND_SZ` with this text.
    Write(String),
}

/// What a [`PathChange`] makes of a value.
pub open spec fn after(change: PathChange, current: Option<DataView>) -> Option<DataView> {
    match change {
        PathChange::Unchanged => current,
        PathChange::Delete => None,
        PathChange::Write(path) => Some(DataView::ExpandString(path@)),
    }
}

/// Appends the entry unless an equivalent is present.
pub fn add(current: Option<&Data>, environment_key: &KeyPath, raw: &str, machine: &Machine) -> (r:
    Result<PathChange, Error>)
    ensures
        match path_text(text::option_view(current)) {
            None => r matches Err(e) && e@ == unreadable(environment_key@, current.unwrap()@),
            Some((path, _)) => if present(path, normal(raw@, *machine), *machine) {
                r == Ok::<PathChange, Error>(PathChange::Unchanged)
            } else {
                r matches Ok(PathChange::Write(next)) && next@ == with_entry(path, raw@)
            },
        },
{
    let (path, _exists) = match read(current, environment_key) {
        Ok(found) => found,
        Err(e) => return Err(e),
    };
    let normalized = normalize(raw, machine);
    if contains_equivalent(path.as_str(), normalized.as_str(), machine) {
        return Ok(PathChange::Unchanged);
    }
    Ok(PathChange::Write(appended(path.as_str(), raw)))
}

/// Removes the owned entry if present. With `delete_when_empty`, a `Path`
/// left empty is deleted (it did not exist before the entry was written).
pub fn remove(
    current: Option<&Data>,
    environment_key: &KeyPath,
    raw: &str,
    delete_when_empty: bool,
    machine: &Machine,
) -> (r: Result<PathChange, Error>)
    ensures
        match path_text(text::option_view(current)) {
            None => r matches Err(e) && e@ == unreadable(environment_key@, current.unwrap()@),
            Some((path, exists)) => match without_entry(
                path,
                raw@,
                normal(raw@, *machine),
                *machine,
            ) {
                Some(next) => if !exists {
                    r == Ok::<PathChange, Error>(PathChange::Unchanged)
                } else if next.len() == 0 && delete_when_empty {
                    r == Ok::<PathChange, Error>(PathChange::Delete)
                } else {
                    r matches Ok(PathChange::Write(written)) && written@ == next
                },
                None => r == Ok::<PathChange, Error>(PathChange::Unchanged),
            },
        },
{
    let (path, exists) = match read(current, environment_key) {
        Ok(found) => found,
        Err(e) => return Err(e),
    };
    if !exists {
        return Ok(PathChange::Unchanged);
    }
    let normalized = normalize(raw, machine);
    match removed(path.as_str(), raw, normalized.as_str(), machine) {
        None => Ok(PathChange::Unchanged),
        Some(next) => if next.as_str().is_empty() && delete_when_empty {
            Ok(PathChange::Delete)
        } else {
            Ok(PathChange::Write(next))
        },
    }
}

/// The pieces of a text with one more piece behind it.
proof fn lemma_split_append(path: Seq<char>, piece: Seq<char>)
    requires
        !piece.contains(';'),
    ensures
        text::split(path + ";"@ + piece, ';') == text::split(path, ';').push(piece),
    decreases piece.len(),
{
    reveal_strlit(";");
    assert(";"@ =~= seq![';']);
    let whole = path + ";"@ + piece;
    if piece.len() == 0 {
        assert(whole.drop_last() =~= path);
        assert(whole.last() == ';');
        assert(piece =~= Seq::<char>::empty());
        assert(text::split(whole, ';') =~= text::split(path, ';').push(piece));
    } else {
        let shorter = piece.drop_last();
        assert forall|i: int| 0 <= i < shorter.len() implies shorter[i] != ';' by {
            assert(piece[i] == shorter[i]);
            assert(piece.contains(piece[i]));
        }
        lemma_split_append(path, shorter);
        assert(whole.drop_last() =~= path + ";"@ + shorter);
        assert(whole.last() == piece.last());
        assert(piece.contains(piece.last()));
        let before = text::split(path, ';');
        assert(before.push(shorter).drop_last() =~= before);
        assert(text::split(whole, ';') =~= before.push(shorter.push(piece.last())));
        assert(shorter.push(piece.last()) =~= piece);
    }
}

/// The segments of a `Path` with an entry appended: the segments there were,
/// then the entry — in front of a trailing empty segment, where there is one.
pub proof fn lemma_segments_with_entry(path: Seq<char>, raw: Seq<char>)
    requires
        raw.len() > 0,
        !raw.contains(';'),
    ensures
        segments(with_entry(path, raw)) == if path.len() == 0 {
            seq![raw]
        } else if path.last() == ';' {
            segments(path).drop_last().push(raw).push(Seq::<char>::empty())
        } else {
            segments(path).push(raw)
        },
        path.len() > 0 && path.last() == ';' ==> segments(path).last().len() == 0,
{
    reveal_strlit(";");
    assert(";"@ =~= seq![';']);
    let empty = Seq::<char>::empty();
    if path.len() == 0 {
        let nothing = text::split(empty, ';');
        assert(nothing =~= seq![empty]);
        lemma_split_append(empty, raw);
        // An entry without a separator is one segment.
        lemma_split_whole(raw);
    } else if path.last() == ';' {
        let head = path.drop_last();
        assert(path =~= head + ";"@ + empty);
        lemma_split_append(head, empty);
        lemma_split_append(head, raw);
        assert(path + raw =~= head + ";"@ + raw);
        let with_raw = path + raw;
        lemma_split_append(with_raw, empty);
        assert(with_entry(path, raw) =~= with_raw + ";"@ + empty);
        assert(segments(path).drop_last() =~= text::split(head, ';'));
    } else {
        lemma_split_append(path, raw);
    }
}

/// A text without a separator is its one piece.
proof fn lemma_split_whole(piece: Seq<char>)
    requires
        !piece.contains(';'),
    ensures
        text::split(piece, ';') == seq![piece],
    decreases piece.len(),
{
    if piece.len() > 0 {
        let shorter = piece.drop_last();
        assert forall|i: int| 0 <= i < shorter.len() implies shorter[i] != ';' by {
            assert(piece[i] == shorter[i]);
            assert(piece.contains(piece[i]));
        }
        lemma_split_whole(shorter);
        assert(piece.contains(piece.last()));
        assert(text::split(piece, ';') =~= seq![shorter.push(piece.last())]);
        assert(shorter.push(piece.last()) =~= piece);
    } else {
        assert(piece =~= Seq::<char>::empty());
        assert(text::split(piece, ';') =~= seq![piece]);
    }
}

/// An entry that is a segment has its own equivalent present.
proof fn lemma_segment_is_equivalent(
    path: Seq<char>,
    i: int,
    raw: Seq<char>,
    machine: Machine,
)
    requires
        0 <= i < segments(path).len(),
        segments(path)[i] == raw,
        raw.len() > 0,
    ensures
        present(path, normal(raw, machine), machine),
{
    let p = is_equivalent(normal(raw, machine), machine);
    lists::lemma_position(segments(path), p);
    assert(p(segments(path)[i]));
}

/// An entry that was just appended is there: a second install of it finds
/// its equivalent and appends nothing.
pub proof fn lemma_appended_is_present(path: Seq<char>, raw: Seq<char>, machine: Machine)
    requires
        raw.len() > 0,
        !raw.contains(';'),
    ensures
        present(with_entry(path, raw), normal(raw, machine), machine),
{
    lemma_segments_with_entry(path, raw);
    let all = segments(with_entry(path, raw));
    let i = if path.len() > 0 && path.last() == ';' {
        all.len() - 2
    } else {
        all.len() - 1
    };
    assert(all[i] == raw);
    lemma_segment_is_equivalent(with_entry(path, raw), i, raw, machine);
}

/// Taking away an entry that was appended where it was no segment yet gives
/// the text back exactly, its empty segments and every equivalent of the entry
/// included, whatever form the entry is recorded in.
pub proof fn lemma_removal_undoes_append(
    path: Seq<char>,
    raw: Seq<char>,
    normalized: Seq<char>,
    machine: Machine,
)
    requires
        raw.len() > 0,
        !raw.contains(';'),
        !segments(path).contains(raw),
    ensures
        without_entry(with_entry(path, raw), raw, normalized, machine) == Some(path),
{
    reveal_strlit(";");
    assert(";"@ =~= seq![';']);
    lemma_segments_with_entry(path, raw);
    let before = segments(path);
    let all = segments(with_entry(path, raw));
    let trailing = path.len() > 0 && path.last() == ';';
    let k = if trailing {
        all.len() - 2
    } else {
        all.len() - 1
    };
    assert(all[k] == raw);
    assert forall|j: int| 0 <= j < k implies !is_raw(raw)(#[trigger] all[j]) by {
        assert(all[j] == before[j]);
        assert(before.contains(before[j]));
    }
    lists::lemma_position_at(all, is_raw(raw), k);
    if path.len() == 0 {
        assert(all.remove(k) =~= Seq::<Seq<char>>::empty());
        assert(text::join(all.remove(k), ";"@) =~= path);
    } else {
        text::lemma_split_nonempty(path, ';');
        if trailing {
            assert(before.last() =~= Seq::<char>::empty());
            assert(all.remove(k) =~= before);
        } else {
            assert(all.remove(k) =~= before);
        }
        text::lemma_join_split(path, ';');
    }
}

/// Adding an entry and removing it again leaves the `Path` value holding the
/// text it held, and no value where there was none.
pub proof fn lemma_remove_undoes_add(
    path: Seq<char>,
    existed: bool,
    raw: Seq<char>,
    machine: Machine,
)
    requires
        raw.len() > 0,
        !raw.contains(';'),
        !segments(path).contains(raw),
        !existed ==> path.len() == 0,
    ensures
        ({
            let written = Some(DataView::ExpandString(with_entry(path, raw)));
            let normalized = normal(raw, machine);
            &&& path_text(written) == Some((with_entry(path, raw), true))
            &&& without_entry(with_entry(path, raw), raw, normalized, machine) == Some(path)
            &&& !existed ==> without_entry(
                with_entry(path, raw),
                raw,
                normalized,
                machine,
            ).unwrap().len() == 0
        }),
{
    lemma_removal_undoes_append(path, raw, normal(raw, machine), machine);
}

/// Removal takes away exactly one segment: every other one stays, in its
/// place.
pub proof fn lemma_removal_takes_one_segment(
    path: Seq<char>,
    raw: Seq<char>,
    normalized: Seq<char>,
    machine: Machine,
)
    ensures
        match owned_index(path, raw, normalized, machine) {
            Some(i) => {
                let left = segments(path).remove(i);
                &&& 0 <= i < segments(path).len()
                &&& left.len() == segments(path).len() - 1
                &&& without_entry(path, raw, normalized, machine) == Some(text::join(left, ";"@))
                &&& forall|j: int|
                    0 <= j < left.len() ==> #[trigger] left[j] == segments(path)[if j < i {
                        j
                    } else {
                        j + 1
                    }]
            },
            None => without_entry(path, raw, normalized, machine) is None,
        },
{
    lists::lemma_position(segments(path), is_raw(raw));
    lists::lemma_position(segments(path), is_equivalent(normalized, machine));
}

/// Every `%NAME%` in front of the rest of a text stands for the variable's
/// value, or for itself where the environment knows no such variable; what is
/// in front of it stays.
pub proof fn lemma_a_named_variable_is_expanded(
    before: Seq<char>,
    name: Seq<char>,
    rest: Seq<char>,
    machine: Machine,
)
    requires
        !before.contains('%'),
        !name.contains('%'),
        name.len() > 0,
    ensures
        expanded(before + seq!['%'] + name + seq!['%'] + rest, machine) == before + (
        match machine.variable(name) {
            Some(value) => value,
            None => seq!['%'] + name + seq!['%'],
        }) + expanded(rest, machine),
{
    let s = before + seq!['%'] + name + seq!['%'] + rest;
    let start = before.len() as int;
    assert forall|j: int| 0 <= j < start implies #[trigger] s[j] != '%' by {
        assert(s[j] == before[j]);
        assert(before.contains(before[j]));
    }
    text::lemma_find_at(s, '%', start);
    let after = s.skip(start + 1);
    let end = name.len() as int;
    assert forall|j: int| 0 <= j < end implies #[trigger] after[j] != '%' by {
        assert(after[j] == name[j]);
        assert(name.contains(name[j]));
    }
    assert(after[end] == '%');
    text::lemma_find_at(after, '%', end);
    assert(after.take(end) =~= name);
    assert(after.skip(end + 1) =~= rest);
    assert(s.take(start) =~= before);
}

/// A text without `%` is expanded to itself, and a `%` that closes no name
/// stays.
pub proof fn lemma_nothing_else_is_expanded(before: Seq<char>, rest: Seq<char>, machine: Machine)
    requires
        !before.contains('%'),
        !rest.contains('%'),
    ensures
        expanded(before, machine) == before,
        expanded(before + seq!['%'] + rest, machine) == before + seq!['%'] + rest,
{
    text::lemma_find(before, '%');
    text::lemma_find(rest, '%');
    let s = before + seq!['%'] + rest;
    let start = before.len() as int;
    assert forall|j: int| 0 <= j < start implies #[trigger] s[j] != '%' by {
        assert(s[j] == before[j]);
        assert(before.contains(before[j]));
    }
    text::lemma_find_at(s, '%', start);
    assert(s.skip(start + 1) =~= rest);
    assert(s.take(start) =~= before);
    if text::find(before, '%') is Some {
        assert(before.contains(before[text::find(before, '%')->Some_0]));
    }
    if text::find(rest, '%') is Some {
        assert(rest.contains(rest[text::find(rest, '%')->Some_0]));
    }
    assert(expanded(rest, machine) == rest);
}

/// Whether a text is a path as PATH entries name it: nothing around it, no
/// variable in it, no separator at its end, and more than a drive.
pub open spec fn is_ordinary(path: Seq<char>) -> bool {
    &&& path.len() > 0
    &&& !path.contains('%')
    &&& !path.contains('"')
    &&& !path.contains('/')
    &&& !text::is_white(path[0])
    &&& !text::is_white(path.last())
    &&& path.last() != '\\'
    &&& !(path.len() == 2 && path[1] == ':')
}

/// An ordinary path is what its entry names, whole: of white space and quotes
/// around it and of separators behind it nothing counts, and of itself
/// everything does.
pub proof fn lemma_an_entry_names_its_path(
    before: Seq<char>,
    opening: Seq<char>,
    path: Seq<char>,
    separators: Seq<char>,
    closing: Seq<char>,
    behind: Seq<char>,
    machine: Machine,
)
    requires
        is_ordinary(path),
        forall|i: int| 0 <= i < before.len() ==> text::is_white(#[trigger] before[i]),
        forall|i: int| 0 <= i < behind.len() ==> text::is_white(#[trigger] behind[i]),
        forall|i: int| 0 <= i < opening.len() ==> #[trigger] opening[i] == '"',
        forall|i: int| 0 <= i < closing.len() ==> #[trigger] closing[i] == '"',
        forall|i: int|
            0 <= i < separators.len() ==> #[trigger] separators[i] == '\\' || separators[i] == '/',
    ensures
        named(before + opening + path + separators + closing + behind, machine) == path,
        named(path, machine) == path,
        normal(before + opening + path + separators + closing + behind, machine) == normal(
            path,
            machine,
        ),
        normal(path, machine) == text::lowercase(path),
{
    lemma_entry_names(before, opening, path, separators, closing, behind, machine);
    let none = Seq::<char>::empty();
    lemma_entry_names(none, none, path, none, none, none, machine);
    assert(none + none + path + none + none + none =~= path);
}

proof fn lemma_entry_names(
    before: Seq<char>,
    opening: Seq<char>,
    path: Seq<char>,
    separators: Seq<char>,
    closing: Seq<char>,
    behind: Seq<char>,
    machine: Machine,
)
    requires
        is_ordinary(path),
        forall|i: int| 0 <= i < before.len() ==> text::is_white(#[trigger] before[i]),
        forall|i: int| 0 <= i < behind.len() ==> text::is_white(#[trigger] behind[i]),
        forall|i: int| 0 <= i < opening.len() ==> #[trigger] opening[i] == '"',
        forall|i: int| 0 <= i < closing.len() ==> #[trigger] closing[i] == '"',
        forall|i: int|
            0 <= i < separators.len() ==> #[trigger] separators[i] == '\\' || separators[i] == '/',
    ensures
        named(before + opening + path + separators + closing + behind, machine) == path,
{
    let none = Seq::<char>::empty();
    let entry = before + opening + path + separators + closing + behind;
    let body = path + separators;
    let inner = opening + body + closing;
    assert(entry =~= before + inner + behind);
    if opening.len() > 0 {
        assert(inner[0] == opening[0]);
    } else {
        assert(inner[0] == path[0]);
    }
    if closing.len() > 0 {
        assert(inner.last() == closing[closing.len() - 1]);
    } else if separators.len() > 0 {
        assert(inner.last() == separators[separators.len() - 1]);
    } else {
        assert(inner.last() == path.last());
    }
    text::lemma_trim_of_white(before, inner, behind);
    assert(inner =~= opening + (body + closing));
    assert((body + closing)[0] == path[0]);
    assert(path.contains(path[0]));
    text::lemma_trim_start_of_run(opening, body + closing, '"');
    if separators.len() > 0 {
        assert(body.last() == separators[separators.len() - 1]);
    } else {
        assert(body.last() == path.last());
        assert(path.contains(path.last()));
    }
    text::lemma_trim_end_of_run(body, closing, '"');
    text::lemma_trim_of_white(none, body, none);
    assert(none + body + none =~= body);
    assert(unquoted(entry) == body);
    assert(!body.contains('%')) by {
        if body.contains('%') {
            let i = choose|i: int| 0 <= i < body.len() && body[i] == '%';
            if i < path.len() {
                assert(path.contains(path[i]));
            } else {
                assert(separators[i - path.len()] == '%');
            }
        }
    }
    lemma_nothing_else_is_expanded(body, none, machine);
    let run = text::replaced(separators, '/', '\\');
    assert(text::replaced(body, '/', '\\') =~= path + run) by {
        assert forall|i: int| 0 <= i < path.len() implies path[i] != '/' by {
            assert(path.contains(path[i]));
        }
    }
    assert forall|i: int| 0 <= i < run.len() implies #[trigger] run[i] == '\\' by {
        assert(separators[i] == '\\' || separators[i] == '/');
    }
    text::lemma_trim_end_of_run(path, run, '\\');
}

/// Two ordinary paths are equivalent entries exactly where their lower-case
/// forms agree: nothing but the case of a path is lost.
pub proof fn lemma_equivalent_entries_differ_in_case(
    x: Seq<char>,
    y: Seq<char>,
    machine: Machine,
)
    requires
        is_ordinary(x),
        is_ordinary(y),
    ensures
        is_equivalent(normal(x, machine), machine)(y) <==> text::lowercase(x) == text::lowercase(y),
{
    let none = Seq::<char>::empty();
    lemma_an_entry_names_its_path(none, none, x, none, none, none, machine);
    lemma_an_entry_names_its_path(none, none, y, none, none, none, machine);
}

/// Which segment of a path is the entry's: the first that is spelled as it
/// was, or else the first that names the same directory.
pub proof fn lemma_which_segment_is_the_entrys(
    path: Seq<char>,
    raw: Seq<char>,
    normalized: Seq<char>,
    machine: Machine,
)
    ensures
        ({
            let s = segments(path);
            match owned_index(path, raw, normalized, machine) {
                Some(i) => {
                    &&& 0 <= i < s.len()
                    &&& s[i] == raw || (s[i].len() > 0 && normal(s[i], machine) == normalized)
                    &&& s.contains(raw) ==> s[i] == raw
                    &&& forall|j: int| 0 <= j < i ==> #[trigger] s[j] != raw
                    &&& s[i] != raw ==> forall|j: int|
                        0 <= j < i ==> (#[trigger] s[j]).len() == 0 || normal(s[j], machine)
                            != normalized
                },
                None => forall|j: int|
                    0 <= j < s.len() ==> #[trigger] s[j] != raw && (s[j].len() == 0 || normal(
                        s[j],
                        machine,
                    ) != normalized),
            }
        }),
        present(path, normalized, machine) <==> exists|j: int|
            0 <= j < segments(path).len() && (#[trigger] segments(path)[j]).len() > 0 && normal(
                segments(path)[j],
                machine,
            ) == normalized,
{
    let s = segments(path);
    let p = is_raw(raw);
    let q = is_equivalent(normalized, machine);
    lists::lemma_position(s, p);
    lists::lemma_position(s, q);
    if lists::position(s, p) is None {
        assert forall|j: int| 0 <= j < s.len() implies #[trigger] s[j] != raw by {
            assert(!p(s[j]));
        }
    } else {
        let i = lists::position(s, p)->Some_0;
        assert forall|j: int| 0 <= j < i implies #[trigger] s[j] != raw by {
            assert(!p(s[j]));
        }
    }
    if lists::position(s, q) is None {
        assert forall|j: int| 0 <= j < s.len() implies (#[trigger] s[j]).len() == 0 || normal(
            s[j],
            machine,
        ) != normalized by {
            assert(!q(s[j]));
        }
    } else {
        let i = lists::position(s, q)->Some_0;
        assert(q(s[i]));
        assert forall|j: int| 0 <= j < i implies (#[trigger] s[j]).len() == 0 || normal(
            s[j],
            machine,
        ) != normalized by {
            assert(!q(s[j]));
        }
    }
}

/// A path is its segments with semicolons between them.
pub proof fn lemma_a_path_is_its_segments(a: Seq<char>, b: Seq<char>)
    requires
        a.len() > 0,
        b.len() > 0,
    ensures
        segments(a + seq![';'] + b) == segments(a) + segments(b),
        !a.contains(';') ==> segments(a) == seq![a],
        segments(Seq::<char>::empty()).len() == 0,
{
    text::lemma_split_concat(a, b, ';');
    if !a.contains(';') {
        text::lemma_split_single(a, ';');
    }
}

}
