//! The regular-expression subset detector patterns use, matched against a
//! whole string without regard to letter case: literals, `.`, character
//! classes (`[0-9]`, `[^a-z]`), the escapes `\d`, `\w`, `\s` and `\<char>`,
//! the quantifiers `*`, `+`, `?` and `{m}`, `{m,}`, `{m,n}`, groups and
//! alternation. A pattern matches a name only as a whole, so `10\..*`
//! matches `10.0.11` and not `110.0.1`; `^` and `$` are accepted at the ends
//! and mean nothing more than the whole-string rule already does.

use vstd::prelude::*;

use crate::error::{Error, ErrorView};
use crate::text;

verus! {

/// The ranges of a character class.
#[derive(Debug, PartialEq, Eq)]
pub enum Ranges {
    Done,
    More(char, char, Box<Ranges>),
}

/// What one repetition matches.
#[derive(Debug, PartialEq, Eq)]
pub enum Atom {
    Any,
    Char(char),
    Class { negated: bool, ranges: Ranges },
    Group(Box<Choice>),
}

/// An atom and how often it is repeated.
#[derive(Debug, PartialEq, Eq)]
pub struct Piece {
    pub atom: Atom,
    pub min: u32,
    pub max: Option<u32>,
}

/// Pieces one after another.
#[derive(Debug, PartialEq, Eq)]
pub enum Sequence {
    Done,
    Next(Piece, Box<Sequence>),
}

/// Sequences of which one matches.
#[derive(Debug, PartialEq, Eq)]
pub enum Choice {
    Last(Sequence),
    Or(Sequence, Box<Choice>),
}

/// Whether a character is in one of the ranges.
pub open spec fn in_ranges(ranges: Ranges, c: char) -> bool
    decreases ranges,
{
    match ranges {
        Ranges::Done => false,
        Ranges::More(low, high, more) => low <= c <= high || in_ranges(*more, c),
    }
}

/// Whether `n` is a place in a text: in front of a character or at the end.
pub open spec fn within(text: Seq<char>, n: int) -> bool {
    0 <= n <= text.len()
}

/// Whether a piece allows that many repetitions.
pub open spec fn allows(piece: Piece, k: nat) -> bool {
    piece.min <= k && (piece.max matches Some(max) ==> k <= max)
}

/// Whether an atom matches `text` from `i` to `j`.
pub open spec fn atom_matches(atom: Atom, text: Seq<char>, i: int, j: int) -> bool
    decreases atom, 0nat, 0nat,
{
    match atom {
        Atom::Any => 0 <= i < text.len() && j == i + 1,
        Atom::Char(c) => 0 <= i < text.len() && j == i + 1 && text[i] == c,
        Atom::Class { negated, ranges } => 0 <= i < text.len() && j == i + 1 && in_ranges(
            ranges,
            text[i],
        ) != negated,
        Atom::Group(choice) => choice_matches(*choice, text, i, j),
    }
}

/// Whether `k` repetitions of an atom match `text` from `i` to `j`, each of
/// them at least one character.
pub open spec fn repeated(atom: Atom, k: nat, text: Seq<char>, i: int, j: int) -> bool
    decreases atom, 1nat, k,
{
    if k == 0 {
        i == j
    } else {
        exists|n: int| #[trigger]
            within(text, n) && n < j && repeated(atom, (k - 1) as nat, text, i, n) && atom_matches(
                atom,
                text,
                n,
                j,
            )
    }
}

/// Whether a piece matches `text` from `i` to `j`: as many repetitions as it
/// allows.
pub open spec fn piece_matches(piece: Piece, text: Seq<char>, i: int, j: int) -> bool
    decreases piece, 0nat, 0nat,
{
    exists|k: nat| #[trigger] allows(piece, k) && repeated(piece.atom, k, text, i, j)
}

/// Whether a sequence matches `text` from `i` to `j`: each piece from where
/// the one before it ended.
pub open spec fn sequence_matches(sequence: Sequence, text: Seq<char>, i: int, j: int) -> bool
    decreases sequence, 0nat, 0nat,
{
    match sequence {
        Sequence::Done => i == j,
        Sequence::Next(piece, more) => exists|n: int| #[trigger]
            within(text, n) && piece_matches(piece, text, i, n) && sequence_matches(
                *more,
                text,
                n,
                j,
            ),
    }
}

/// Whether one of the sequences matches `text` from `i` to `j`.
pub open spec fn choice_matches(choice: Choice, text: Seq<char>, i: int, j: int) -> bool
    decreases choice, 0nat, 0nat,
{
    match choice {
        Choice::Last(sequence) => sequence_matches(sequence, text, i, j),
        Choice::Or(sequence, more) => sequence_matches(sequence, text, i, j) || choice_matches(
            *more,
            text,
            i,
            j,
        ),
    }
}

/// The digits.
pub open spec fn digits() -> Ranges {
    Ranges::More('0', '9', Box::new(Ranges::Done))
}

/// The letters, the digits and the underscore.
pub open spec fn word_characters() -> Ranges {
    Ranges::More('a', 'z', Box::new(Ranges::More('0', '9', Box::new(Ranges::More(
        '_',
        '_',
        Box::new(Ranges::Done),
    )))))
}

/// The blanks.
pub open spec fn blanks() -> Ranges {
    Ranges::More(' ', ' ', Box::new(Ranges::More('\t', '\t', Box::new(Ranges::More(
        '\n',
        '\n',
        Box::new(Ranges::More('\r', '\r', Box::new(Ranges::Done))),
    )))))
}

/// Whether a text starts with a character.
pub open spec fn leads(s: Seq<char>, c: char) -> bool {
    s.len() > 0 && s[0] == c
}

/// One bound of a range: a character, or an escaped one.
pub open spec fn bound(s: Seq<char>) -> Result<(char, Seq<char>), Seq<char>> {
    if s.len() == 0 {
        Err("unclosed ["@)
    } else if s[0] != '\\' {
        Ok((s[0], s.skip(1)))
    } else if s.len() == 1 {
        Err("dangling backslash"@)
    } else {
        Ok((s[1], s.skip(2)))
    }
}

/// The ranges of a class up to the bracket that closes it; a bracket at the
/// very start is a member.
pub open spec fn ranges_in(s: Seq<char>, first: bool) -> Result<(Ranges, Seq<char>), Seq<char>>
    decreases s.len(),
{
    if leads(s, ']') && !first {
        Ok((Ranges::Done, s.skip(1)))
    } else {
        match bound(s) {
            Err(e) => Err(e),
            Ok((low, rest)) => {
                let upper = if leads(rest, '-') && !leads(rest.skip(1), ']') {
                    bound(rest.skip(1))
                } else {
                    Ok((low, rest))
                };
                match upper {
                    Err(e) => Err(e),
                    Ok((high, rest)) => match ranges_in(rest, false) {
                        Err(e) => Err(e),
                        Ok((more, rest)) => Ok(
                            (Ranges::More(text::folded(low), text::folded(high), Box::new(more)), rest),
                        ),
                    },
                }
            },
        }
    }
}

/// How many digits a text starts with.
pub open spec fn digit_run(s: Seq<char>) -> nat
    decreases s.len(),
{
    if s.len() > 0 && text::is_digit(s[0]) {
        1 + digit_run(s.skip(1))
    } else {
        0
    }
}

/// The number a text starts with, where it has one that fits.
pub open spec fn number_in(s: Seq<char>) -> Option<u32> {
    text::spells_u32(s.take(digit_run(s) as int))
}

/// How often an atom is repeated.
pub open spec fn quantifier_in(s: Seq<char>) -> Result<((u32, Option<u32>), Seq<char>), Seq<char>> {
    if leads(s, '*') {
        Ok(((0u32, None), s.skip(1)))
    } else if leads(s, '+') {
        Ok(((1u32, None), s.skip(1)))
    } else if leads(s, '?') {
        Ok(((0u32, Some(1u32)), s.skip(1)))
    } else if leads(s, '{') {
        match number_in(s.skip(1)) {
            None => Err("bad {m,n}"@),
            Some(min) => {
                let rest = s.skip(1).skip(digit_run(s.skip(1)) as int);
                let (max, rest) = if leads(rest, ',') {
                    (
                        number_in(rest.skip(1)),
                        rest.skip(1).skip(digit_run(rest.skip(1)) as int),
                    )
                } else {
                    (Some(min), rest)
                };
                if !leads(rest, '}') || (max matches Some(max) && max < min) {
                    Err("bad {m,n}"@)
                } else {
                    Ok(((min, max), rest.skip(1)))
                }
            },
        }
    } else {
        Ok(((1u32, Some(1u32)), s))
    }
}

/// What an escape stands for.
pub open spec fn escape_in(s: Seq<char>) -> Result<(Atom, Seq<char>), Seq<char>> {
    if s.len() == 0 {
        Err("dangling backslash"@)
    } else if s[0] == 'd' {
        Ok((Atom::Class { negated: false, ranges: digits() }, s.skip(1)))
    } else if s[0] == 'w' {
        Ok((Atom::Class { negated: false, ranges: word_characters() }, s.skip(1)))
    } else if s[0] == 's' {
        Ok((Atom::Class { negated: false, ranges: blanks() }, s.skip(1)))
    } else {
        Ok((Atom::Char(text::folded(s[0])), s.skip(1)))
    }
}

/// The inside of a group: what stands behind `(` or `(?:`.
pub open spec fn group_in(s: Seq<char>) -> Result<Seq<char>, Seq<char>> {
    if leads(s, '?') {
        if leads(s.skip(1), ':') {
            Ok(s.skip(2))
        } else {
            Err("only (?: groups are supported"@)
        }
    } else {
        Ok(s)
    }
}

/// The atom a text starts with; `n` is the length of the whole pattern.
pub open spec fn atom_in(s: Seq<char>, n: nat) -> Result<(Atom, Seq<char>), Seq<char>>
    decreases s.len(), 0nat,
{
    if s.len() == 0 {
        Err("unexpected end"@)
    } else if s[0] == '(' {
        match group_in(s.skip(1)) {
            Err(e) => Err(e),
            Ok(inside) => if inside.len() < s.len() {
                match choice_in(inside, n, true) {
                    Err(e) => Err(e),
                    Ok((choice, rest)) => if leads(rest, ')') {
                        Ok((Atom::Group(Box::new(choice)), rest.skip(1)))
                    } else {
                        Err("unclosed group"@)
                    },
                }
            } else {
                Err("unclosed group"@)
            },
        }
    } else if s[0] == ')' {
        Err("unmatched )"@)
    } else if s[0] == '[' {
        let negated = leads(s.skip(1), '^');
        let inside = if negated {
            s.skip(2)
        } else {
            s.skip(1)
        };
        match ranges_in(inside, true) {
            Err(e) => Err(e),
            Ok((ranges, rest)) => Ok((Atom::Class { negated, ranges }, rest)),
        }
    } else if s[0] == '.' {
        Ok((Atom::Any, s.skip(1)))
    } else if s[0] == '\\' {
        escape_in(s.skip(1))
    } else if s[0] == '*' || s[0] == '+' || s[0] == '?' {
        Err("quantifier without an atom"@)
    } else {
        Ok((Atom::Char(text::folded(s[0])), s.skip(1)))
    }
}

/// The sequence a text starts with: up to an alternative, the end of the group
/// it stands in, or the end.
pub open spec fn sequence_in(s: Seq<char>, n: nat, inside: bool) -> Result<
    (Sequence, Seq<char>),
    Seq<char>,
>
    decreases s.len(), 1nat,
{
    if s.len() == 0 || s[0] == '|' || (s[0] == ')' && inside) {
        Ok((Sequence::Done, s))
    } else if (s[0] == '^' && s.len() == n) || (s[0] == '$' && s.len() == 1) {
        sequence_in(s.skip(1), n, inside)
    } else {
        match atom_in(s, n) {
            Err(e) => Err(e),
            Ok((atom, rest)) => match quantifier_in(rest) {
                Err(e) => Err(e),
                Ok(((min, max), rest)) => if rest.len() < s.len() {
                    match sequence_in(rest, n, inside) {
                        Err(e) => Err(e),
                        Ok((more, rest)) => Ok(
                            (Sequence::Next(Piece { atom, min, max }, Box::new(more)), rest),
                        ),
                    }
                } else {
                    Err("unexpected end"@)
                },
            },
        }
    }
}

/// The alternatives a text starts with.
pub open spec fn choice_in(s: Seq<char>, n: nat, inside: bool) -> Result<
    (Choice, Seq<char>),
    Seq<char>,
>
    decreases s.len(), 2nat,
{
    match sequence_in(s, n, inside) {
        Err(e) => Err(e),
        Ok((sequence, rest)) => if leads(rest, '|') && rest.len() <= s.len() {
            match choice_in(rest.skip(1), n, inside) {
                Err(e) => Err(e),
                Ok((more, rest)) => Ok((Choice::Or(sequence, Box::new(more)), rest)),
            }
        } else {
            Ok((Choice::Last(sequence), rest))
        },
    }
}

/// What a pattern says, or why it says nothing.
pub open spec fn pattern_in(source: Seq<char>) -> Result<Choice, Seq<char>> {
    match choice_in(source, source.len(), false) {
        Err(e) => Err(e),
        Ok((choice, rest)) => if rest.len() == 0 {
            Ok(choice)
        } else {
            Err("unmatched )"@)
        },
    }
}

/// How a pattern that says nothing is refused.
pub open spec fn refused(source: Seq<char>, why: Seq<char>) -> ErrorView {
    ErrorView { code: "metadata_invalid"@, message: "pattern "@ + text::quoted(source) + ": "@ + why }
}

/// Whether what was read agrees with what there is to read: the value and the
/// place behind it, or why there is none.
spec fn reads<T>(
    r: Result<(T, usize), &'static str>,
    says: Result<(T, Seq<char>), Seq<char>>,
    s: Seq<char>,
    at: int,
) -> bool {
    match (r, says) {
        (Ok((value, end)), Ok((said, rest))) => value == said && at <= end <= s.len() && s.skip(
            end as int,
        ) == rest,
        (Err(why), Err(said)) => why@ == said,
        _ => false,
    }
}

fn peek(v: &Vec<char>, at: usize, c: char) -> (r: bool)
    requires
        at <= v@.len(),
    ensures
        r == leads(v@.skip(at as int), c),
        r ==> at < usize::MAX,
{
    at < v.len() && v[at] == c
}

fn read_bound(v: &Vec<char>, at: usize) -> (r: Result<(char, usize), &'static str>)
    requires
        at <= v@.len(),
    ensures
        reads(r, bound(v@.skip(at as int)), v@, at as int),
        r matches Ok((_, end)) ==> end > at,
{
    let n = v.len();
    let ghost s = v@.skip(at as int);
    if at >= n {
        return Err("unclosed [");
    }
    assert(v@.skip(at + 1) =~= s.skip(1));
    if v[at] != '\\' {
        return Ok((v[at], at + 1));
    }
    if at + 1 >= n {
        return Err("dangling backslash");
    }
    assert(v@.skip(at + 2) =~= s.skip(2));
    Ok((v[at + 1], at + 2))
}

fn read_ranges(v: &Vec<char>, at: usize, first: bool) -> (r: Result<(Ranges, usize), &'static str>)
    requires
        at <= v@.len(),
    ensures
        reads(r, ranges_in(v@.skip(at as int), first), v@, at as int),
    decreases v@.len() - at,
{
    let ghost s = v@.skip(at as int);
    if peek(v, at, ']') && !first {
        assert(v@.skip(at + 1) =~= s.skip(1));
        return Ok((Ranges::Done, at + 1));
    }
    let (low, end) = read_bound(v, at)?;
    let ghost rest = v@.skip(end as int);
    let mut dash = false;
    if peek(v, end, '-') {
        assert(v@.skip(end + 1) =~= rest.skip(1));
        dash = !peek(v, end + 1, ']');
    }
    let (high, end) = if dash {
        read_bound(v, end + 1)?
    } else {
        (low, end)
    };
    let (more, end) = read_ranges(v, end, false)?;
    Ok((Ranges::More(text::fold_of(low), text::fold_of(high), Box::new(more)), end))
}

fn read_number(v: &Vec<char>, at: usize) -> (r: (Option<u32>, usize))
    requires
        at <= v@.len(),
    ensures
        r.0 == number_in(v@.skip(at as int)),
        at <= r.1 <= v@.len(),
        v@.skip(r.1 as int) == v@.skip(at as int).skip(digit_run(v@.skip(at as int)) as int),
{
    let ghost s = v@.skip(at as int);
    let mut end: usize = at;
    while end < v.len() && '0' <= v[end] && v[end] <= '9'
        invariant
            at <= end <= v@.len(),
            s == v@.skip(at as int),
            digit_run(s) == end - at + digit_run(v@.skip(end as int)),
        decreases v@.len() - end,
    {
        assert(v@.skip(end as int).skip(1) =~= v@.skip(end + 1));
        end = end + 1;
    }
    let run = text::slice_of(v, at, end);
    assert(digit_run(v@.skip(end as int)) == 0);
    assert(run@ =~= s.take(digit_run(s) as int));
    assert(v@.skip(end as int) =~= s.skip(digit_run(s) as int));
    let run = text::string_of(&run);
    (text::parse_u32(run.as_str()), end)
}

fn read_quantifier(v: &Vec<char>, at: usize) -> (r: Result<
    ((u32, Option<u32>), usize),
    &'static str,
>)
    requires
        at <= v@.len(),
    ensures
        reads(r, quantifier_in(v@.skip(at as int)), v@, at as int),
{
    let ghost s = v@.skip(at as int);
    if at < v.len() {
        assert(v@.skip(at + 1) =~= s.skip(1));
    }
    if peek(v, at, '*') {
        return Ok(((0, None), at + 1));
    }
    if peek(v, at, '+') {
        return Ok(((1, None), at + 1));
    }
    if peek(v, at, '?') {
        return Ok(((0, Some(1)), at + 1));
    }
    if !peek(v, at, '{') {
        return Ok(((1, Some(1)), at));
    }
    let (min, end) = read_number(v, at + 1);
    let min = match min {
        Some(min) => min,
        None => {
            return Err("bad {m,n}");
        },
    };
    let ghost rest = v@.skip(end as int);
    let (max, end) = if peek(v, end, ',') {
        assert(v@.skip(end + 1) =~= rest.skip(1));
        read_number(v, end + 1)
    } else {
        (Some(min), end)
    };
    if !peek(v, end, '}') {
        return Err("bad {m,n}");
    }
    let ghost rest = v@.skip(end as int);
    assert(v@.skip(end + 1) =~= rest.skip(1));
    match max {
        Some(most) => if most < min {
            return Err("bad {m,n}");
        },
        None => {},
    }
    Ok(((min, max), end + 1))
}

fn read_escape(v: &Vec<char>, at: usize) -> (r: Result<(Atom, usize), &'static str>)
    requires
        at <= v@.len(),
    ensures
        reads(r, escape_in(v@.skip(at as int)), v@, at as int),
{
    let ghost s = v@.skip(at as int);
    if at >= v.len() {
        return Err("dangling backslash");
    }
    assert(v@.skip(at + 1) =~= s.skip(1));
    let atom = if v[at] == 'd' {
        let digits = Ranges::More('0', '9', Box::new(Ranges::Done));
        Atom::Class { negated: false, ranges: digits }
    } else if v[at] == 'w' {
        let underscore = Ranges::More('_', '_', Box::new(Ranges::Done));
        let digits = Ranges::More('0', '9', Box::new(underscore));
        Atom::Class { negated: false, ranges: Ranges::More('a', 'z', Box::new(digits)) }
    } else if v[at] == 's' {
        let carriage = Ranges::More('\r', '\r', Box::new(Ranges::Done));
        let feed = Ranges::More('\n', '\n', Box::new(carriage));
        let tab = Ranges::More('\t', '\t', Box::new(feed));
        Atom::Class { negated: false, ranges: Ranges::More(' ', ' ', Box::new(tab)) }
    } else {
        Atom::Char(text::fold_of(v[at]))
    };
    Ok((atom, at + 1))
}

fn read_atom(v: &Vec<char>, at: usize) -> (r: Result<(Atom, usize), &'static str>)
    requires
        at <= v@.len(),
    ensures
        reads(r, atom_in(v@.skip(at as int), v@.len()), v@, at as int),
        r matches Ok((_, end)) ==> end > at,
    decreases v@.len() - at, 0nat,
{
    let n = v.len();
    let ghost s = v@.skip(at as int);
    if at >= n {
        return Err("unexpected end");
    }
    assert(v@.skip(at + 1) =~= s.skip(1));
    let c = v[at];
    if c == '(' {
        let mut inside: usize = at + 1;
        if peek(v, inside, '?') {
            assert(v@.skip(at + 2) =~= s.skip(1).skip(1));
            if !peek(v, at + 2, ':') {
                return Err("only (?: groups are supported");
            }
            assert(v@.skip(at + 3) =~= s.skip(1).skip(2));
            inside = at + 3;
        }
        assert(group_in(s.skip(1)) == Ok::<Seq<char>, Seq<char>>(v@.skip(inside as int)));
        let (choice, end) = read_choice(v, inside, true)?;
        let ghost rest = v@.skip(end as int);
        if !peek(v, end, ')') {
            return Err("unclosed group");
        }
        assert(v@.skip(end + 1) =~= rest.skip(1));
        Ok((Atom::Group(Box::new(choice)), end + 1))
    } else if c == ')' {
        Err("unmatched )")
    } else if c == '[' {
        let negated = peek(v, at + 1, '^');
        let inside = if negated {
            assert(v@.skip(at + 2) =~= s.skip(2));
            at + 2
        } else {
            at + 1
        };
        let (ranges, end) = read_ranges(v, inside, true)?;
        Ok((Atom::Class { negated, ranges }, end))
    } else if c == '.' {
        Ok((Atom::Any, at + 1))
    } else if c == '\\' {
        read_escape(v, at + 1)
    } else if c == '*' || c == '+' || c == '?' {
        Err("quantifier without an atom")
    } else {
        Ok((Atom::Char(text::fold_of(c)), at + 1))
    }
}

fn read_sequence(v: &Vec<char>, at: usize, inside: bool) -> (r: Result<
    (Sequence, usize),
    &'static str,
>)
    requires
        at <= v@.len(),
    ensures
        reads(r, sequence_in(v@.skip(at as int), v@.len(), inside), v@, at as int),
    decreases v@.len() - at, 1nat,
{
    let ghost s = v@.skip(at as int);
    let n = v.len();
    if at >= n || v[at] == '|' || (v[at] == ')' && inside) {
        return Ok((Sequence::Done, at));
    }
    if (v[at] == '^' && at == 0) || (v[at] == '$' && at + 1 == n) {
        assert(v@.skip(at + 1) =~= s.skip(1));
        return read_sequence(v, at + 1, inside);
    }
    let (atom, end) = read_atom(v, at)?;
    let ((min, max), end) = read_quantifier(v, end)?;
    let (more, end) = read_sequence(v, end, inside)?;
    Ok((Sequence::Next(Piece { atom, min, max }, Box::new(more)), end))
}

fn read_choice(v: &Vec<char>, at: usize, inside: bool) -> (r: Result<
    (Choice, usize),
    &'static str,
>)
    requires
        at <= v@.len(),
    ensures
        reads(r, choice_in(v@.skip(at as int), v@.len(), inside), v@, at as int),
    decreases v@.len() - at, 2nat,
{
    let (sequence, end) = read_sequence(v, at, inside)?;
    let ghost rest = v@.skip(end as int);
    if peek(v, end, '|') {
        assert(v@.skip(end + 1) =~= rest.skip(1));
        let (more, end) = read_choice(v, end + 1, inside)?;
        Ok((Choice::Or(sequence, Box::new(more)), end))
    } else {
        Ok((Choice::Last(sequence), end))
    }
}

/// Whether one of the starts leads to `j` by a relation of `text`.
spec fn led(starts: Seq<usize>, hop: spec_fn(int, int) -> bool, j: int) -> bool {
    exists|i: usize| #[trigger] starts.contains(i) && hop(i as int, j)
}

/// Whether a list of places is those the starts lead to.
spec fn leads_to(starts: Seq<usize>, hop: spec_fn(int, int) -> bool, ends: Seq<usize>, n: nat) -> bool {
    &&& forall|k: int| 0 <= k < ends.len() ==> #[trigger] ends[k] <= n
    &&& forall|j: usize| #[trigger] ends.contains(j) <==> led(starts, hop, j as int)
}

fn listed(places: &Vec<usize>, place: usize) -> (r: bool)
    ensures
        r == places@.contains(place),
{
    let mut i: usize = 0;
    while i < places.len()
        invariant
            i <= places@.len(),
            forall|j: int| 0 <= j < i ==> places@[j] != place,
        decreases places@.len() - i,
    {
        if places[i] == place {
            return true;
        }
        i = i + 1;
    }
    false
}

fn put(places: &mut Vec<usize>, place: usize, Ghost(n): Ghost<nat>)
    requires
        forall|k: int| 0 <= k < old(places)@.len() ==> #[trigger] old(places)@[k] <= n,
        place <= n,
    ensures
        forall|k: int| 0 <= k < final(places)@.len() ==> #[trigger] final(places)@[k] <= n,
        forall|j: usize| #[trigger]
            final(places)@.contains(j) <==> old(places)@.contains(j) || j == place,
{
    if !listed(places, place) {
        let ghost was = places@;
        places.push(place);
        assert forall|j: usize| #[trigger] places@.contains(j) <==> was.contains(j) || j
            == place by {
            if was.contains(j) {
                let k = choose|k: int| 0 <= k < was.len() && was[k] == j;
                assert(places@[k] == j);
            }
            assert(places@[was.len() as int] == place);
        }
    }
}

fn put_all(places: &mut Vec<usize>, more: &Vec<usize>, Ghost(n): Ghost<nat>)
    requires
        forall|k: int| 0 <= k < old(places)@.len() ==> #[trigger] old(places)@[k] <= n,
        forall|k: int| 0 <= k < more@.len() ==> #[trigger] more@[k] <= n,
    ensures
        forall|k: int| 0 <= k < final(places)@.len() ==> #[trigger] final(places)@[k] <= n,
        forall|j: usize| #[trigger]
            final(places)@.contains(j) <==> old(places)@.contains(j) || more@.contains(j),
{
    let mut i: usize = 0;
    while i < more.len()
        invariant
            i <= more@.len(),
            forall|k: int| 0 <= k < places@.len() ==> #[trigger] places@[k] <= n,
            forall|k: int| 0 <= k < more@.len() ==> #[trigger] more@[k] <= n,
            forall|j: usize| #[trigger]
                places@.contains(j) <==> old(places)@.contains(j) || more@.take(
                    i as int,
                ).contains(j),
        decreases more@.len() - i,
    {
        proof {
            let before = more@.take(i as int);
            let after = more@.take(i + 1);
            assert forall|j: usize| #[trigger] after.contains(j) <==> before.contains(j) || j
                == more@[i as int] by {
                if before.contains(j) {
                    let k = choose|k: int| 0 <= k < before.len() && before[k] == j;
                    assert(after[k] == j);
                }
                if after.contains(j) && j != more@[i as int] {
                    let k = choose|k: int| 0 <= k < after.len() && after[k] == j;
                    assert(before[k] == j);
                }
                assert(after[i as int] == more@[i as int]);
            }
        }
        put(places, more[i], Ghost(n));
        i = i + 1;
    }
    assert(more@.take(i as int) =~= more@);
}

fn class_has(ranges: &Ranges, c: char) -> (r: bool)
    ensures
        r == in_ranges(*ranges, c),
    decreases ranges,
{
    match ranges {
        Ranges::Done => false,
        Ranges::More(low, high, more) => (*low <= c && c <= *high) || class_has(more, c),
    }
}

/// Where an atom that starts at `i` may end.
fn atom_ends(atom: &Atom, text: &Vec<char>, i: usize) -> (r: Vec<usize>)
    requires
        i <= text@.len(),
    ensures
        forall|k: int| 0 <= k < r@.len() ==> #[trigger] r@[k] <= text@.len(),
        forall|j: usize| #[trigger]
            r@.contains(j) <==> atom_matches(*atom, text@, i as int, j as int),
    decreases atom, 1nat,
{
    let mut ends: Vec<usize> = Vec::new();
    match atom {
        Atom::Group(choice) => {
            let mut starts: Vec<usize> = Vec::new();
            starts.push(i);
            let found = choice_ends(choice, text, &starts);
            proof {
                let hop = |a: int, b: int| choice_matches(**choice, text@, a, b);
                assert forall|j: usize| #[trigger] found@.contains(j) <==> atom_matches(
                    *atom,
                    text@,
                    i as int,
                    j as int,
                ) by {
                    assert(starts@[0] == i);
                    if led(starts@, hop, j as int) {
                        let a = choose|a: usize| #[trigger] starts@.contains(a) && hop(
                            a as int,
                            j as int,
                        );
                        assert(a == i);
                    }
                    if atom_matches(*atom, text@, i as int, j as int) {
                        assert(starts@.contains(i) && hop(i as int, j as int));
                    }
                }
            }
            found
        },
        _ => {
            let n = text.len();
            let fits = i < n && match atom {
                Atom::Any => true,
                Atom::Char(c) => text[i] == *c,
                Atom::Class { negated, ranges } => class_has(ranges, text[i]) != *negated,
                Atom::Group(_) => false,
            };
            if fits {
                ends.push(i + 1);
                assert(ends@[0] == i + 1);
            }
            ends
        },
    }
}

/// Where an atom that starts at one of some places may end, further on.
fn further(atom: &Atom, text: &Vec<char>, starts: &Vec<usize>) -> (r: Vec<usize>)
    requires
        forall|k: int| 0 <= k < starts@.len() ==> #[trigger] starts@[k] <= text@.len(),
    ensures
        leads_to(
            starts@,
            |i: int, j: int| i < j && atom_matches(*atom, text@, i, j),
            r@,
            text@.len(),
        ),
    decreases atom, 2nat,
{
    let ghost hop = |i: int, j: int| i < j && atom_matches(*atom, text@, i, j);
    let ghost n = text@.len();
    let mut out: Vec<usize> = Vec::new();
    let mut s: usize = 0;
    assert(forall|j: usize| !led(starts@.take(0), hop, j as int));
    while s < starts.len()
        invariant
            s <= starts@.len(),
            n == text@.len(),
            hop == (|i: int, j: int| i < j && atom_matches(*atom, text@, i, j)),
            forall|k: int| 0 <= k < starts@.len() ==> #[trigger] starts@[k] <= text@.len(),
            leads_to(starts@.take(s as int), hop, out@, n),
        decreases starts@.len() - s,
    {
        let start = starts[s];
        let ends = atom_ends(atom, text, start);
        let ghost was = out@;
        let mut e: usize = 0;
        while e < ends.len()
            invariant
                e <= ends@.len(),
                n == text@.len(),
                forall|k: int| 0 <= k < ends@.len() ==> #[trigger] ends@[k] <= n,
                forall|k: int| 0 <= k < out@.len() ==> #[trigger] out@[k] <= n,
                forall|j: usize| #[trigger]
                    out@.contains(j) <==> was.contains(j) || (start < j && ends@.take(
                        e as int,
                    ).contains(j)),
            decreases ends@.len() - e,
        {
            proof {
                let before = ends@.take(e as int);
                let after = ends@.take(e + 1);
                assert forall|j: usize| #[trigger] after.contains(j) <==> before.contains(j) || j
                    == ends@[e as int] by {
                    if before.contains(j) {
                        let k = choose|k: int| 0 <= k < before.len() && before[k] == j;
                        assert(after[k] == j);
                    }
                    if after.contains(j) && j != ends@[e as int] {
                        let k = choose|k: int| 0 <= k < after.len() && after[k] == j;
                        assert(before[k] == j);
                    }
                    assert(after[e as int] == ends@[e as int]);
                }
            }
            if ends[e] > start {
                put(&mut out, ends[e], Ghost(n));
            }
            e = e + 1;
        }
        assert(ends@.take(e as int) =~= ends@);
        proof {
            let before = starts@.take(s as int);
            let after = starts@.take(s + 1);
            assert forall|j: usize| #[trigger] out@.contains(j) <==> led(after, hop, j as int) by {
                if led(before, hop, j as int) {
                    let i = choose|i: usize| #[trigger] before.contains(i) && hop(
                        i as int,
                        j as int,
                    );
                    let k = choose|k: int| 0 <= k < before.len() && before[k] == i;
                    assert(after[k] == i);
                    assert(after.contains(i));
                }
                if led(after, hop, j as int) {
                    let i = choose|i: usize| #[trigger] after.contains(i) && hop(i as int, j as int);
                    let k = choose|k: int| 0 <= k < after.len() && after[k] == i;
                    if k < s {
                        assert(before[k] == i);
                        assert(before.contains(i));
                    } else {
                        assert(i == start);
                    }
                }
                assert(after[s as int] == start);
                if start < j && ends@.contains(j) {
                    assert(after.contains(start) && hop(start as int, j as int));
                }
            }
        }
        s = s + 1;
    }
    assert(starts@.take(s as int) =~= starts@);
    out
}

/// The relation of `k` repetitions.
spec fn times(atom: Atom, k: nat, text: Seq<char>) -> spec_fn(int, int) -> bool {
    |i: int, j: int| repeated(atom, k, text, i, j)
}

/// The relation of a piece.
spec fn spans(piece: Piece, text: Seq<char>) -> spec_fn(int, int) -> bool {
    |i: int, j: int| piece_matches(piece, text, i, j)
}

proof fn lemma_repeated_moves(atom: Atom, k: nat, text: Seq<char>, i: int, j: int)
    requires
        repeated(atom, k, text, i, j),
    ensures
        i + k <= j,
    decreases k,
{
    if k > 0 {
        let n = choose|n: int| #[trigger]
            within(text, n) && n < j && repeated(atom, (k - 1) as nat, text, i, n) && atom_matches(
                atom,
                text,
                n,
                j,
            );
        lemma_repeated_moves(atom, (k - 1) as nat, text, i, n);
    }
}

/// Where nothing is reached by `k` repetitions, nothing is by more.
proof fn lemma_repeated_stops(atom: Atom, k: nat, more: nat, text: Seq<char>, i: int, j: int)
    requires
        k <= more,
        repeated(atom, more, text, i, j),
    ensures
        exists|n: int| #[trigger] repeated(atom, k, text, i, n) && n <= j,
    decreases more - k,
{
    if k < more {
        let n = choose|n: int| #[trigger]
            within(text, n) && n < j && repeated(atom, (more - 1) as nat, text, i, n) && atom_matches(
                atom,
                text,
                n,
                j,
            );
        lemma_repeated_stops(atom, k, (more - 1) as nat, text, i, n);
    }
}

/// Whether a piece reaches `j` with fewer than `k` repetitions.
spec fn spanned(piece: Piece, text: Seq<char>, k: nat, starts: Seq<usize>, j: int) -> bool {
    exists|i: usize, m: nat|
        starts.contains(i) && m < k && allows(piece, m)
            && #[trigger] repeated(piece.atom, m, text, i as int, j)
}

/// Where a piece that starts at one of some places may end.
fn piece_ends(piece: &Piece, text: &Vec<char>, starts: &Vec<usize>) -> (r: Vec<usize>)
    requires
        forall|k: int| 0 <= k < starts@.len() ==> #[trigger] starts@[k] <= text@.len(),
    ensures
        leads_to(starts@, spans(*piece, text@), r@, text@.len()),
    decreases piece, 0nat,
{
    let ghost n = text@.len();
    let ghost atom = piece.atom;
    let mut out: Vec<usize> = Vec::new();
    let mut at: Vec<usize> = Vec::new();
    put_all(&mut at, starts, Ghost(n));
    let mut k: usize = 0;
    proof {
        assert forall|j: usize| #[trigger] at@.contains(j) <==> led(
            starts@,
            times(atom, 0, text@),
            j as int,
        ) by {
            if starts@.contains(j) {
                assert(times(atom, 0, text@)(j as int, j as int));
            }
        }
    }
    loop
        invariant_except_break
            piece.max matches Some(max) ==> k <= max,
            leads_to(starts@, times(atom, k as nat, text@), at@, n),
            forall|j: usize| #[trigger]
                out@.contains(j) <==> spanned(*piece, text@, k as nat, starts@, j as int),
        invariant
            n == text@.len(),
            atom == piece.atom,
            forall|i: int| 0 <= i < starts@.len() ==> #[trigger] starts@[i] <= text@.len(),
            forall|i: int| 0 <= i < out@.len() ==> #[trigger] out@[i] <= n,
        ensures
            leads_to(starts@, spans(*piece, text@), out@, n),
        decreases n - k,
    {
        let ghost hop = times(atom, k as nat, text@);
        let ghost had = out@;
        if k >= piece.min as usize {
            put_all(&mut out, &at, Ghost(n));
        }
        let full = match piece.max {
            Some(max) => k >= max as usize,
            None => false,
        };
        proof {
            // What is reached with up to `k` repetitions.
            assert forall|j: usize| #[trigger] out@.contains(j) <==> spanned(
                *piece,
                text@,
                (k + 1) as nat,
                starts@,
                j as int,
            ) by {
                if spanned(*piece, text@, k as nat, starts@, j as int) {
                    let (i, m) = choose|i: usize, m: nat|
                        starts@.contains(i) && m < k && allows(*piece, m) && #[trigger] repeated(
                            piece.atom,
                            m,
                            text@,
                            i as int,
                            j as int,
                        );
                    assert(repeated(piece.atom, m, text@, i as int, j as int));
                }
                if led(starts@, hop, j as int) {
                    let i = choose|i: usize| #[trigger] starts@.contains(i) && hop(
                        i as int,
                        j as int,
                    );
                    assert(repeated(piece.atom, k as nat, text@, i as int, j as int));
                }
                if spanned(*piece, text@, (k + 1) as nat, starts@, j as int) {
                    let (i, m) = choose|i: usize, m: nat|
                        starts@.contains(i) && m < k + 1 && allows(*piece, m) && #[trigger] repeated(
                            piece.atom,
                            m,
                            text@,
                            i as int,
                            j as int,
                        );
                    if m == k {
                        assert(hop(i as int, j as int));
                        assert(led(starts@, hop, j as int));
                        assert(at@.contains(j));
                    } else {
                        assert(spanned(*piece, text@, k as nat, starts@, j as int));
                        assert(had.contains(j));
                    }
                }
            }
        }
        if full {
            proof {
                lemma_all_spanned(*piece, text@, (k + 1) as nat, starts@, out@);
            }
            break;
        }
        let next = further(&piece.atom, text, &at);
        let ghost step = |i: int, j: int| i < j && atom_matches(piece.atom, text@, i, j);
        proof {
            let then = times(atom, (k + 1) as nat, text@);
            assert forall|j: usize| #[trigger] next@.contains(j) <==> led(
                starts@,
                then,
                j as int,
            ) by {
                if led(at@, step, j as int) {
                    let m = choose|m: usize| #[trigger] at@.contains(m) && step(m as int, j as int);
                    assert(led(starts@, hop, m as int));
                    let i = choose|i: usize| #[trigger] starts@.contains(i) && hop(
                        i as int,
                        m as int,
                    );
                    assert(within(text@, m as int));
                    assert(repeated(atom, k as nat, text@, i as int, m as int));
                    assert(((k + 1) as nat - 1) as nat == k as nat);
                    assert(then(i as int, j as int));
                }
                if led(starts@, then, j as int) {
                    let i = choose|i: usize| #[trigger] starts@.contains(i) && then(
                        i as int,
                        j as int,
                    );
                    let m = choose|m: int| #[trigger]
                        within(text@, m) && m < j && repeated(
                            atom,
                            ((k + 1) as nat - 1) as nat,
                            text@,
                            i as int,
                            m,
                        ) && atom_matches(atom, text@, m, j as int);
                    let m = m as usize;
                    assert(hop(i as int, m as int));
                    assert(led(starts@, hop, m as int));
                    assert(at@.contains(m) && step(m as int, j as int));
                }
            }
        }
        if next.len() == 0 {
            proof {
                assert forall|i: usize, m: nat, j: usize| #[trigger] starts@.contains(i) && m > k
                    implies !(#[trigger] repeated(atom, m, text@, i as int, j as int)) by {
                    if repeated(atom, m, text@, i as int, j as int) {
                        lemma_repeated_stops(atom, (k + 1) as nat, m, text@, i as int, j as int);
                        let e = choose|e: int| #[trigger]
                            repeated(atom, (k + 1) as nat, text@, i as int, e) && e <= j;
                        lemma_repeated_moves(atom, (k + 1) as nat, text@, i as int, e);
                        let e = e as usize;
                        assert(times(atom, (k + 1) as nat, text@)(i as int, e as int));
                        assert(led(starts@, times(atom, (k + 1) as nat, text@), e as int));
                        assert(next@.contains(e));
                    }
                }
                lemma_all_spanned(*piece, text@, (k + 1) as nat, starts@, out@);
            }
            break;
        }
        proof {
            assert(next@.contains(next@[0]));
            let j = next@[0];
            let i = choose|i: usize| #[trigger] starts@.contains(i) && times(
                atom,
                (k + 1) as nat,
                text@,
            )(i as int, j as int);
            lemma_repeated_moves(atom, (k + 1) as nat, text@, i as int, j as int);
        }
        at = next;
        k = k + 1;
    }
    out
}

/// What is reached with fewer than `k` repetitions is all there is, where more
/// reach nothing.
proof fn lemma_all_spanned(
    piece: Piece,
    text: Seq<char>,
    k: nat,
    starts: Seq<usize>,
    out: Seq<usize>,
)
    requires
        forall|i: int| 0 <= i < out.len() ==> #[trigger] out[i] <= text.len(),
        forall|j: usize| #[trigger]
            out.contains(j) <==> spanned(piece, text, k, starts, j as int),
        forall|i: usize, m: nat, j: usize| #[trigger]
            starts.contains(i) && m >= k && (piece.max matches Some(max) ==> m <= max) ==> !(
            #[trigger] repeated(piece.atom, m, text, i as int, j as int)),
    ensures
        leads_to(starts, spans(piece, text), out, text.len()),
{
    let hop = spans(piece, text);
    assert forall|j: usize| #[trigger] out.contains(j) <==> led(starts, hop, j as int) by {
        if spanned(piece, text, k, starts, j as int) {
            let (i, m) = choose|i: usize, m: nat|
                starts.contains(i) && m < k && allows(piece, m) && #[trigger] repeated(piece.atom, m, text, i as int, j as int);
            assert(hop(i as int, j as int));
        }
        if led(starts, hop, j as int) {
            let i = choose|i: usize| #[trigger] starts.contains(i) && hop(i as int, j as int);
            let m = choose|m: nat| #[trigger]
                allows(piece, m) && repeated(piece.atom, m, text, i as int, j as int);
            assert(m < k);
            assert(spanned(piece, text, k, starts, j as int));
        }
    }
}

/// Where a sequence that starts at one of some places may end.
fn sequence_ends(sequence: &Sequence, text: &Vec<char>, starts: &Vec<usize>) -> (r: Vec<usize>)
    requires
        forall|k: int| 0 <= k < starts@.len() ==> #[trigger] starts@[k] <= text@.len(),
    ensures
        leads_to(
            starts@,
            |i: int, j: int| sequence_matches(*sequence, text@, i, j),
            r@,
            text@.len(),
        ),
    decreases sequence, 0nat,
{
    let ghost hop = |i: int, j: int| sequence_matches(*sequence, text@, i, j);
    match sequence {
        Sequence::Done => {
            let mut out: Vec<usize> = Vec::new();
            put_all(&mut out, starts, Ghost(text@.len()));
            assert forall|j: usize| #[trigger] out@.contains(j) <==> led(
                starts@,
                hop,
                j as int,
            ) by {
                if starts@.contains(j) {
                    assert(hop(j as int, j as int));
                }
            }
            out
        },
        Sequence::Next(piece, more) => {
            let length = text.len();
            let middle = piece_ends(piece, text, starts);
            let out = sequence_ends(more, text, &middle);
            proof {
                let one = spans(*piece, text@);
                let rest = |i: int, j: int| sequence_matches(**more, text@, i, j);
                assert forall|j: usize| #[trigger] out@.contains(j) <==> led(
                    starts@,
                    hop,
                    j as int,
                ) by {
                    if led(middle@, rest, j as int) {
                        let m = choose|m: usize| #[trigger] middle@.contains(m) && rest(
                            m as int,
                            j as int,
                        );
                        assert(led(starts@, one, m as int));
                        let i = choose|i: usize| #[trigger] starts@.contains(i) && one(
                            i as int,
                            m as int,
                        );
                        assert(within(text@, m as int));
                        assert(piece_matches(*piece, text@, i as int, m as int));
                        assert(hop(i as int, j as int));
                    }
                    if led(starts@, hop, j as int) {
                        let i = choose|i: usize| #[trigger] starts@.contains(i) && hop(
                            i as int,
                            j as int,
                        );
                        let m = choose|m: int| #[trigger]
                            within(text@, m) && piece_matches(
                                *piece,
                                text@,
                                i as int,
                                m,
                            ) && sequence_matches(
                                **more,
                                text@,
                                m,
                                j as int,
                            );
                        assert(m <= length);
                        let m = m as usize;
                        assert(one(i as int, m as int));
                        assert(led(starts@, one, m as int));
                        assert(middle@.contains(m) && rest(m as int, j as int));
                    }
                }
            }
            out
        },
    }
}

/// Where one of several sequences that start at one of some places may end.
fn choice_ends(choice: &Choice, text: &Vec<char>, starts: &Vec<usize>) -> (r: Vec<usize>)
    requires
        forall|k: int| 0 <= k < starts@.len() ==> #[trigger] starts@[k] <= text@.len(),
    ensures
        leads_to(
            starts@,
            |i: int, j: int| choice_matches(*choice, text@, i, j),
            r@,
            text@.len(),
        ),
    decreases choice, 0nat,
{
    let ghost hop = |i: int, j: int| choice_matches(*choice, text@, i, j);
    match choice {
        Choice::Last(sequence) => {
            let out = sequence_ends(sequence, text, starts);
            proof {
                let one = |i: int, j: int| sequence_matches(*sequence, text@, i, j);
                assert(hop =~= one);
            }
            out
        },
        Choice::Or(sequence, more) => {
            let mut out = sequence_ends(sequence, text, starts);
            let others = choice_ends(more, text, starts);
            let ghost first = out@;
            put_all(&mut out, &others, Ghost(text@.len()));
            proof {
                let one = |i: int, j: int| sequence_matches(*sequence, text@, i, j);
                let rest = |i: int, j: int| choice_matches(**more, text@, i, j);
                assert forall|j: usize| #[trigger] out@.contains(j) <==> led(
                    starts@,
                    hop,
                    j as int,
                ) by {
                    if led(starts@, one, j as int) {
                        let i = choose|i: usize| #[trigger] starts@.contains(i) && one(
                            i as int,
                            j as int,
                        );
                        assert(hop(i as int, j as int));
                    }
                    if led(starts@, rest, j as int) {
                        let i = choose|i: usize| #[trigger] starts@.contains(i) && rest(
                            i as int,
                            j as int,
                        );
                        assert(hop(i as int, j as int));
                    }
                    if led(starts@, hop, j as int) {
                        let i = choose|i: usize| #[trigger] starts@.contains(i) && hop(
                            i as int,
                            j as int,
                        );
                        assert(one(i as int, j as int) || rest(i as int, j as int));
                        assert(led(starts@, one, j as int) || led(starts@, rest, j as int));
                    }
                    assert(first.contains(j) <==> led(starts@, one, j as int));
                }
            }
            out
        },
    }
}

/// A compiled pattern.
#[derive(Debug, PartialEq, Eq)]
pub struct Pattern {
    choice: Choice,
    source: String,
}

impl Pattern {
    /// What the pattern says.
    pub closed spec fn says(self) -> Choice {
        self.choice
    }

    /// The text the pattern was compiled from.
    pub closed spec fn text(self) -> Seq<char> {
        self.source@
    }

    /// Compiles a pattern.
    pub fn compile(source: &str) -> (r: Result<Pattern, Error>)
        ensures
            match pattern_in(source@) {
                Ok(choice) => (r matches Ok(p) && p.says() == choice && p.text() == source@),
                Err(why) => (r matches Err(e) && e@ == refused(source@, why)),
            },
    {
        let chars = text::chars_of(source);
        assert(chars@.skip(0) =~= source@);
        let why = match read_choice(&chars, 0, false) {
            Ok((choice, end)) => {
                if end == chars.len() {
                    return Ok(Pattern { choice, source: text::owned(source) });
                }
                "unmatched )"
            },
            Err(why) => why,
        };
        let shown = text::quoted_of(source);
        let message = text::cat4("pattern ", shown.as_str(), ": ", why);
        Err(Error::new("metadata_invalid", message.as_str()))
    }

    /// The text the pattern was compiled from.
    pub fn source(&self) -> (r: &str)
        ensures
            r@ == self.text(),
    {
        self.source.as_str()
    }

    /// Whether the whole of `text` matches, without regard to letter case.
    pub fn is_match(&self, text: &str) -> (r: bool)
        ensures
            r == choice_matches(
                self.says(),
                text@.map_values(|c: char| text::folded(c)),
                0,
                text@.len() as int,
            ),
    {
        let given = text::chars_of(text);
        let ghost wanted = text@.map_values(|c: char| text::folded(c));
        let mut chars: Vec<char> = Vec::new();
        let mut i: usize = 0;
        while i < given.len()
            invariant
                i <= given@.len(),
                given@ == text@,
                wanted == text@.map_values(|c: char| text::folded(c)),
                chars@ == wanted.take(i as int),
            decreases given@.len() - i,
        {
            chars.push(text::fold_of(given[i]));
            assert(chars@ =~= wanted.take(i + 1));
            i = i + 1;
        }
        assert(chars@ =~= wanted);
        let mut starts: Vec<usize> = Vec::new();
        starts.push(0);
        let ends = choice_ends(&self.choice, &chars, &starts);
        let r = listed(&ends, chars.len());
        proof {
            let hop = |i: int, j: int| choice_matches(self.choice, chars@, i, j);
            let n = chars@.len() as int;
            assert(starts@[0] == 0);
            if led(starts@, hop, n) {
                let i = choose|i: usize| #[trigger] starts@.contains(i) && hop(i as int, n);
                assert(i == 0);
            }
            if choice_matches(self.choice, chars@, 0, n) {
                assert(starts@.contains(0usize) && hop(0, n));
            }
        }
        r
    }
}

proof fn lemma_ranges_consume(s: Seq<char>, first: bool)
    ensures
        ranges_in(s, first) matches Ok((_, rest)) ==> rest.len() < s.len(),
    decreases s.len(),
{
    match bound(s) {
        Ok((low, rest)) => {
            let upper = if leads(rest, '-') && !leads(rest.skip(1), ']') {
                bound(rest.skip(1))
            } else {
                Ok((low, rest))
            };
            match upper {
                Ok((_, rest)) => {
                    lemma_ranges_consume(rest, false);
                },
                Err(_) => {},
            }
        },
        Err(_) => {},
    }
}

proof fn lemma_digit_run_fits(s: Seq<char>)
    ensures
        digit_run(s) <= s.len(),
    decreases s.len(),
{
    if s.len() > 0 {
        lemma_digit_run_fits(s.skip(1));
    }
}

proof fn lemma_quantifier_consumes(s: Seq<char>)
    ensures
        quantifier_in(s) matches Ok((_, rest)) ==> rest.len() <= s.len(),
{
    if leads(s, '{') {
        lemma_digit_run_fits(s.skip(1));
        let rest = s.skip(1).skip(digit_run(s.skip(1)) as int);
        if leads(rest, ',') {
            lemma_digit_run_fits(rest.skip(1));
        }
    }
}

/// What stands behind what was read is an end of what there was to read.
proof fn lemma_reading_consumes(s: Seq<char>, n: nat, inside: bool)
    ensures
        atom_in(s, n) matches Ok((_, rest)) ==> rest.len() < s.len(),
        sequence_in(s, n, inside) matches Ok((_, rest)) ==> rest.len() <= s.len(),
        choice_in(s, n, inside) matches Ok((_, rest)) ==> rest.len() <= s.len(),
    decreases s.len(),
{
    if s.len() > 0 {
        match group_in(s.skip(1)) {
            Ok(within) => {
                lemma_reading_consumes(within, n, true);
            },
            Err(_) => {},
        }
        lemma_ranges_consume(s.skip(1), true);
        if s.len() > 1 {
            lemma_ranges_consume(s.skip(2), true);
        }
        lemma_reading_consumes(s.skip(1), n, inside);
        assert(atom_in(s, n) matches Ok((_, rest)) ==> rest.len() < s.len());
        match atom_in(s, n) {
            Ok((_, rest)) => {
                lemma_quantifier_consumes(rest);
                match quantifier_in(rest) {
                    Ok((_, rest)) => {
                        lemma_reading_consumes(rest, n, inside);
                    },
                    Err(_) => {},
                }
            },
            Err(_) => {},
        }
        match sequence_in(s, n, inside) {
            Ok((_, rest)) => {
                if leads(rest, '|') {
                    lemma_reading_consumes(rest.skip(1), n, inside);
                }
            },
            Err(_) => {},
        }
    }
}

/// Behind its first character a pattern reads the same however long it is.
proof fn lemma_length_is_no_matter(s: Seq<char>, inside: bool, m: nat, n: nat)
    requires
        leads(s, '^') ==> s.len() < m && s.len() < n,
        s.len() <= m,
        s.len() <= n,
    ensures
        atom_in(s, m) == atom_in(s, n),
        sequence_in(s, m, inside) == sequence_in(s, n, inside),
        choice_in(s, m, inside) == choice_in(s, n, inside),
    decreases s.len(),
{
    if s.len() > 0 {
        match group_in(s.skip(1)) {
            Ok(within) => {
                lemma_length_is_no_matter(within, true, m, n);
            },
            Err(_) => {},
        }
        lemma_length_is_no_matter(s.skip(1), inside, m, n);
        match atom_in(s, n) {
            Ok((_, rest)) => {
                match quantifier_in(rest) {
                    Ok((_, rest)) => {
                        if rest.len() < s.len() {
                            lemma_length_is_no_matter(rest, inside, m, n);
                        }
                    },
                    Err(_) => {},
                }
            },
            Err(_) => {},
        }
        match sequence_in(s, n, inside) {
            Ok((_, rest)) => {
                if leads(rest, '|') && rest.len() <= s.len() {
                    lemma_length_is_no_matter(rest.skip(1), inside, m, n);
                }
            },
            Err(_) => {},
        }
    }
}

/// A `^` at the start means nothing more than the whole-string rule already
/// does: a pattern says the same with it and without it.
pub proof fn lemma_a_leading_anchor_means_nothing(source: Seq<char>)
    requires
        !leads(source, '^'),
    ensures
        pattern_in(seq!['^'] + source) == pattern_in(source),
{
    let anchored = seq!['^'] + source;
    let n = source.len();
    assert(anchored.skip(1) =~= source);
    lemma_reading_consumes(source, n, false);
    lemma_length_is_no_matter(source, false, n, n + 1);
    match sequence_in(source, n, false) {
        Ok((_, rest)) => {
            if leads(rest, '|') && rest.len() <= source.len() {
                lemma_length_is_no_matter(rest.skip(1), false, n, n + 1);
            }
        },
        Err(_) => {},
    }
    assert(sequence_in(anchored, n + 1, false) == sequence_in(source, n + 1, false));
}

/// Whether a character of a pattern stands for itself.
pub open spec fn is_plain(c: char) -> bool {
    &&& c != '(' && c != ')' && c != '[' && c != '.' && c != '\\'
    &&& c != '*' && c != '+' && c != '?' && c != '{'
    &&& c != '|' && c != '^' && c != '$'
}

/// Whether a text stands at a place of another, without regard to case.
pub open spec fn stands_at(literal: Seq<char>, t: Seq<char>, i: int) -> bool {
    0 <= i && i + literal.len() <= t.len() && forall|k: int|
        0 <= k < literal.len() ==> t[i + k] == text::folded(#[trigger] literal[k])
}

/// The sequence that plain characters are read as, before another.
pub open spec fn spelled(literal: Seq<char>, tail: Sequence) -> Sequence
    decreases literal.len(),
{
    if literal.len() == 0 {
        tail
    } else {
        Sequence::Next(
            Piece { atom: Atom::Char(text::folded(literal[0])), min: 1, max: Some(1) },
            Box::new(spelled(literal.skip(1), tail)),
        )
    }
}

proof fn lemma_plain_is_read(literal: Seq<char>, rest: Seq<char>, n: nat, inside: bool)
    requires
        forall|i: int| 0 <= i < literal.len() ==> is_plain(#[trigger] literal[i]),
        rest.len() == 0 || (rest[0] != '*' && rest[0] != '+' && rest[0] != '?' && rest[0] != '{'),
        sequence_in(rest, n, inside) is Ok,
    ensures
        sequence_in(literal + rest, n, inside) == Ok::<(Sequence, Seq<char>), Seq<char>>(
            (
                spelled(literal, sequence_in(rest, n, inside)->Ok_0.0),
                sequence_in(rest, n, inside)->Ok_0.1,
            ),
        ),
    decreases literal.len(),
{
    let s = literal + rest;
    if literal.len() == 0 {
        assert(s =~= rest);
    } else {
        let less = literal.skip(1);
        assert(s[0] == literal[0]);
        assert(is_plain(literal[0]));
        assert(s.skip(1) =~= less + rest);
        lemma_plain_is_read(less, rest, n, inside);
        let next = less + rest;
        if less.len() > 0 {
            assert(next[0] == less[0]);
            assert(is_plain(literal[1]));
        } else {
            assert(next =~= rest);
        }
        assert(quantifier_in(next) == Ok::<((u32, Option<u32>), Seq<char>), Seq<char>>(
            ((1u32, Some(1u32)), next),
        ));
        let c = Atom::Char(text::folded(s[0]));
        let (tail, left) = sequence_in(rest, n, inside)->Ok_0;
        let piece = Piece { atom: c, min: 1, max: Some(1) };
        assert(atom_in(s, n) == Ok::<(Atom, Seq<char>), Seq<char>>((c, next)));
        assert(next.len() < s.len());
        assert(sequence_in(next, n, inside) == Ok::<(Sequence, Seq<char>), Seq<char>>(
            (spelled(less, tail), left),
        ));
        assert(sequence_in(s, n, inside) == Ok::<(Sequence, Seq<char>), Seq<char>>(
            (Sequence::Next(piece, Box::new(spelled(less, tail))), left),
        ));
    }
}

proof fn lemma_plain_matches(literal: Seq<char>, tail: Sequence, t: Seq<char>, i: int, j: int)
    requires
        0 <= i <= t.len(),
    ensures
        sequence_matches(spelled(literal, tail), t, i, j) <==> stands_at(literal, t, i)
            && sequence_matches(tail, t, i + literal.len(), j),
    decreases literal.len(),
{
    if literal.len() > 0 {
        let less = literal.skip(1);
        let piece = Piece { atom: Atom::Char(text::folded(literal[0])), min: 1, max: Some(1) };
        let whole = spelled(literal, tail);
        let more = spelled(less, tail);
        assert(whole == Sequence::Next(piece, Box::new(more)));
        assert forall|m: int| within(t, m) implies (piece_matches(piece, t, i, m) <==> m == i + 1
            && i < t.len() && t[i] == text::folded(literal[0])) by {
            lemma_once(piece.atom, t, i, m);
            if piece_matches(piece, t, i, m) {
                let k = choose|k: nat| #[trigger]
                    allows(piece, k) && repeated(piece.atom, k, t, i, m);
                assert(k == 1);
            }
            if m == i + 1 && i < t.len() && t[i] == text::folded(literal[0]) {
                assert(allows(piece, 1));
            }
        }
        if i < t.len() {
            lemma_plain_matches(less, tail, t, i + 1, j);
        }
        if sequence_matches(whole, t, i, j) {
            let m = choose|m: int| #[trigger]
                within(t, m) && piece_matches(piece, t, i, m) && sequence_matches(more, t, m, j);
            assert forall|k: int| 0 <= k < literal.len() implies t[i + k] == text::folded(
                #[trigger] literal[k],
            ) by {
                if k > 0 {
                    assert(less[k - 1] == literal[k]);
                }
            }
        }
        if stands_at(literal, t, i) && sequence_matches(tail, t, i + literal.len(), j) {
            assert(t[i + 0] == text::folded(literal[0]));
            assert forall|k: int| 0 <= k < less.len() implies t[i + 1 + k] == text::folded(
                #[trigger] less[k],
            ) by {
                assert(literal[k + 1] == less[k]);
                assert(t[i + (k + 1)] == text::folded(literal[k + 1]));
            }
            assert(within(t, i + 1));
        }
    }
}

proof fn lemma_once(atom: Atom, t: Seq<char>, i: int, j: int)
    requires
        0 <= i <= t.len(),
        !(atom is Group),
    ensures
        repeated(atom, 1, t, i, j) <==> atom_matches(atom, t, i, j),
{
    reveal_with_fuel(repeated, 2);
    if atom_matches(atom, t, i, j) {
        assert(within(t, i));
        assert(repeated(atom, 0, t, i, i));
    }
}

/// A pattern of plain characters names itself and nothing else, without regard
/// to case.
pub proof fn lemma_a_plain_pattern_names_itself(literal: Seq<char>, t: Seq<char>)
    requires
        forall|i: int| 0 <= i < literal.len() ==> is_plain(#[trigger] literal[i]),
    ensures
        pattern_in(literal) is Ok,
        choice_matches(pattern_in(literal)->Ok_0, t, 0, t.len() as int) <==> t.len()
            == literal.len() && stands_at(literal, t, 0),
{
    let none = Seq::<char>::empty();
    let n = literal.len();
    assert(sequence_in(none, n, false) == Ok::<(Sequence, Seq<char>), Seq<char>>(
        (Sequence::Done, none),
    ));
    lemma_plain_is_read(literal, none, n, false);
    assert(literal + none =~= literal);
    lemma_plain_matches(literal, Sequence::Done, t, 0, t.len() as int);
}

/// Either side of a bar may be met.
pub proof fn lemma_either_side_of_a_bar(a: Seq<char>, b: Seq<char>, t: Seq<char>)
    requires
        forall|i: int| 0 <= i < a.len() ==> is_plain(#[trigger] a[i]),
        forall|i: int| 0 <= i < b.len() ==> is_plain(#[trigger] b[i]),
    ensures
        pattern_in(a + seq!['|'] + b) is Ok,
        choice_matches(pattern_in(a + seq!['|'] + b)->Ok_0, t, 0, t.len() as int) <==> (t.len()
            == a.len() && stands_at(a, t, 0)) || (t.len() == b.len() && stands_at(b, t, 0)),
{
    let none = Seq::<char>::empty();
    let s = a + seq!['|'] + b;
    let n = s.len();
    let rest = seq!['|'] + b;
    assert(sequence_in(rest, n, false) == Ok::<(Sequence, Seq<char>), Seq<char>>(
        (Sequence::Done, rest),
    ));
    assert(sequence_in(none, n, false) == Ok::<(Sequence, Seq<char>), Seq<char>>(
        (Sequence::Done, none),
    ));
    lemma_plain_is_read(a, rest, n, false);
    lemma_plain_is_read(b, none, n, false);
    assert(a + rest =~= s);
    assert(b + none =~= b);
    assert(rest.skip(1) =~= b);
    lemma_plain_matches(a, Sequence::Done, t, 0, t.len() as int);
    lemma_plain_matches(b, Sequence::Done, t, 0, t.len() as int);
    let second = Choice::Last(spelled(b, Sequence::Done));
    assert(choice_in(b, n, false) == Ok::<(Choice, Seq<char>), Seq<char>>((second, none)));
    assert(choice_matches(second, t, 0, t.len() as int) <==> sequence_matches(
        spelled(b, Sequence::Done),
        t,
        0,
        t.len() as int,
    ));
}

proof fn lemma_any_repeated(k: nat, t: Seq<char>, i: int, j: int)
    requires
        0 <= i <= t.len(),
    ensures
        repeated(Atom::Any, k, t, i, j) <==> j == i + k && j <= t.len(),
    decreases k,
{
    if k > 0 {
        let less = (k - 1) as nat;
        if repeated(Atom::Any, k, t, i, j) {
            let m = choose|m: int| #[trigger]
                within(t, m) && m < j && repeated(Atom::Any, less, t, i, m) && atom_matches(
                    Atom::Any,
                    t,
                    m,
                    j,
                );
            lemma_any_repeated(less, t, i, m);
            assert(m == i + less);
            assert(j == m + 1);
        }
        if j == i + k && j <= t.len() {
            lemma_any_repeated(less, t, i, j - 1);
            assert(within(t, j - 1));
            assert(atom_matches(Atom::Any, t, j - 1, j));
            assert(repeated(Atom::Any, less, t, i, j - 1));
            assert(repeated(Atom::Any, k, t, i, j));
        }
    }
}

/// A plain beginning with `.*` behind it names whatever begins so.
pub proof fn lemma_a_beginning_names_what_goes_on(literal: Seq<char>, t: Seq<char>)
    requires
        forall|i: int| 0 <= i < literal.len() ==> is_plain(#[trigger] literal[i]),
    ensures
        pattern_in(literal + seq!['.', '*']) is Ok,
        choice_matches(pattern_in(literal + seq!['.', '*'])->Ok_0, t, 0, t.len() as int)
            <==> stands_at(literal, t, 0),
{
    let none = Seq::<char>::empty();
    let rest = seq!['.', '*'];
    let s = literal + rest;
    let n = s.len();
    let piece = Piece { atom: Atom::Any, min: 0, max: None };
    let tail = Sequence::Next(piece, Box::new(Sequence::Done));
    assert(rest.skip(1) =~= seq!['*']);
    assert(seq!['*'].skip(1) =~= none);
    assert(sequence_in(none, n, false) == Ok::<(Sequence, Seq<char>), Seq<char>>(
        (Sequence::Done, none),
    ));
    assert(atom_in(rest, n) == Ok::<(Atom, Seq<char>), Seq<char>>((Atom::Any, seq!['*'])));
    assert(quantifier_in(seq!['*']) == Ok::<((u32, Option<u32>), Seq<char>), Seq<char>>(
        ((0u32, None), none),
    ));
    assert(sequence_in(rest, n, false) == Ok::<(Sequence, Seq<char>), Seq<char>>((tail, none)));
    lemma_plain_is_read(literal, rest, n, false);
    let end = t.len() as int;
    lemma_plain_matches(literal, tail, t, 0, end);
    let from = literal.len() as int;
    if stands_at(literal, t, 0) {
        let k = (end - from) as nat;
        lemma_any_repeated(k, t, from, end);
        assert(allows(piece, k));
        assert(piece_matches(piece, t, from, end));
        assert(within(t, end));
        assert(sequence_matches(Sequence::Done, t, end, end));
        assert(sequence_matches(tail, t, from, end));
    }
}

/// What the classes hold: digits, the characters of words, and blanks.
pub proof fn lemma_what_the_classes_hold(c: char)
    ensures
        in_ranges(digits(), c) <==> '0' <= c <= '9',
        in_ranges(word_characters(), c) <==> 'a' <= c <= 'z' || '0' <= c <= '9' || c == '_',
        in_ranges(blanks(), c) <==> c == ' ' || c == '\t' || c == '\n' || c == '\r',
{
    reveal_with_fuel(in_ranges, 6);
}

}
