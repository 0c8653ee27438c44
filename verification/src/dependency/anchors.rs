//! What a `$` at the end of a pattern means: nothing more than the
//! whole-string rule already does.

use vstd::prelude::*;

use crate::dependency::pattern;
use crate::dependency::pattern::{Ranges, Sequence};

verus! {

/// Whether reading a sequence takes a `$` at the very end as an anchor.
pub open spec fn sequence_ends_anchored(s: Seq<char>, n: nat, inside: bool) -> bool
    decreases s.len(),
{
    if s.len() == 0 || s[0] == '|' || (s[0] == ')' && inside) {
        false
    } else if s[0] == '^' && s.len() == n {
        sequence_ends_anchored(s.skip(1), n, inside)
    } else if s[0] == '$' && s.len() == 1 {
        true
    } else {
        match pattern::atom_in(s, n) {
            Err(_) => false,
            Ok((_, rest)) => match pattern::quantifier_in(rest) {
                Err(_) => false,
                Ok((_, rest)) => rest.len() < s.len() && sequence_ends_anchored(rest, n, inside),
            },
        }
    }
}

/// Whether reading a choice takes a `$` at the very end as an anchor.
pub open spec fn choice_ends_anchored(s: Seq<char>, n: nat, inside: bool) -> bool
    decreases s.len(),
{
    match pattern::sequence_in(s, n, inside) {
        Err(_) => false,
        Ok((_, rest)) => if pattern::leads(rest, '|') && rest.len() <= s.len() {
            choice_ends_anchored(rest.skip(1), n, inside)
        } else {
            sequence_ends_anchored(s, n, inside)
        },
    }
}

/// Whether a pattern ends in an anchor already.
pub open spec fn ends_anchored(source: Seq<char>) -> bool {
    choice_ends_anchored(source, source.len(), false)
}

proof fn lemma_skip(s: Seq<char>, k: int)
    requires
        0 <= k <= s.len(),
    ensures
        s.push('$').skip(k) =~= s.skip(k).push('$'),
{
}

proof fn lemma_ranges(s: Seq<char>, first: bool)
    ensures
        pattern::ranges_in(s, first) matches Ok((r, rest)) ==> pattern::ranges_in(
            s.push('$'),
            first,
        ) == Ok::<(Ranges, Seq<char>), Seq<char>>((r, rest.push('$'))),
    decreases s.len(),
{
    let t = s.push('$');
    if s.len() > 0 {
        lemma_skip(s, 1);
        if s.len() > 1 {
            lemma_skip(s, 2);
        }
        match pattern::bound(s) {
            Ok((_, rest)) => {
                if rest.len() > 0 {
                    lemma_skip(rest, 1);
                    let behind = rest.skip(1);
                    if pattern::leads(rest, '-') && !pattern::leads(behind, ']') {
                        match pattern::bound(behind) {
                            Ok((_, last)) => {
                                lemma_skip(behind, 1);
                                if behind.len() > 1 {
                                    lemma_skip(behind, 2);
                                }
                                lemma_ranges(last, false);
                            },
                            Err(_) => {},
                        }
                    } else {
                        lemma_ranges(rest, false);
                    }
                }
            },
            Err(_) => {},
        }
    }
}

proof fn lemma_digits(s: Seq<char>)
    ensures
        pattern::digit_run(s.push('$')) == pattern::digit_run(s),
        pattern::digit_run(s) <= s.len(),
        pattern::number_in(s.push('$')) == pattern::number_in(s),
    decreases s.len(),
{
    if s.len() > 0 {
        lemma_skip(s, 1);
        lemma_digits(s.skip(1));
    } else {
        assert(s.push('$').skip(1) =~= s);
    }
    let k = pattern::digit_run(s) as int;
    assert(s.push('$').take(k) =~= s.take(k));
}

proof fn lemma_quantifier(s: Seq<char>)
    ensures
        pattern::quantifier_in(s) matches Ok((q, rest)) ==> pattern::quantifier_in(s.push('$'))
            == Ok::<((u32, Option<u32>), Seq<char>), Seq<char>>((q, rest.push('$'))),
{
    if s.len() > 0 {
        lemma_skip(s, 1);
        let inner = s.skip(1);
        lemma_digits(inner);
        let k = pattern::digit_run(inner) as int;
        lemma_skip(inner, k);
        let rest = inner.skip(k);
        if rest.len() > 0 {
            lemma_skip(rest, 1);
            let behind = rest.skip(1);
            lemma_digits(behind);
            let m = pattern::digit_run(behind) as int;
            lemma_skip(behind, m);
            let last = behind.skip(m);
            if last.len() > 0 {
                lemma_skip(last, 1);
            }
        }
    }
}

/// What reading a text comes to with a `$` behind it.
proof fn lemma_reading(s: Seq<char>, n: nat, inside: bool)
    ensures
        pattern::atom_in(s, n) matches Ok((a, rest)) ==> pattern::atom_in(s.push('$'), n + 1)
            == Ok::<_, Seq<char>>((a, rest.push('$'))),
        pattern::sequence_in(s, n, inside) matches Ok((x, rest)) ==> (rest.len() > 0
            ==> pattern::sequence_in(s.push('$'), n + 1, inside) == Ok::<_, Seq<char>>(
            (x, rest.push('$')),
        )) && (rest.len() == 0 && !sequence_ends_anchored(s, n, inside) ==> pattern::sequence_in(
            s.push('$'),
            n + 1,
            inside,
        ) == Ok::<_, Seq<char>>((x, rest))),
        pattern::choice_in(s, n, inside) matches Ok((x, rest)) ==> (rest.len() > 0
            ==> pattern::choice_in(s.push('$'), n + 1, inside) == Ok::<_, Seq<char>>(
            (x, rest.push('$')),
        )) && (rest.len() == 0 && !choice_ends_anchored(s, n, inside) ==> pattern::choice_in(
            s.push('$'),
            n + 1,
            inside,
        ) == Ok::<_, Seq<char>>((x, rest))),
    decreases s.len(),
{
    let t = s.push('$');
    if s.len() == 0 {
        let none = Seq::<char>::empty();
        assert(s =~= none);
        assert(t.skip(1) =~= none);
        assert(pattern::sequence_in(none, n + 1, inside) == Ok::<_, Seq<char>>(
            (Sequence::Done, none),
        ));
        assert(pattern::sequence_in(t, n + 1, inside) == Ok::<_, Seq<char>>(
            (Sequence::Done, none),
        ));
    } else {
        lemma_skip(s, 1);
        if s.len() > 1 {
            lemma_skip(s, 2);
        }
        lemma_atom(s, n);
        lemma_sequence(s, n, inside);
        match pattern::sequence_in(s, n, inside) {
            Ok((_, rest)) => {
                if pattern::leads(rest, '|') && rest.len() <= s.len() {
                    lemma_skip(rest, 1);
                    lemma_reading(rest.skip(1), n, inside);
                }
            },
            Err(_) => {},
        }
    }
}

proof fn lemma_atom(s: Seq<char>, n: nat)
    requires
        s.len() > 0,
    ensures
        pattern::atom_in(s, n) matches Ok((a, rest)) ==> pattern::atom_in(s.push('$'), n + 1)
            == Ok::<_, Seq<char>>((a, rest.push('$'))),
    decreases s.len(), 0nat,
{
    let t = s.push('$');
    lemma_skip(s, 1);
    if s.len() > 1 {
        lemma_skip(s, 2);
    }
    if s[0] == '(' {
        let behind = s.skip(1);
        if behind.len() > 0 {
            lemma_skip(behind, 1);
            if behind.len() > 1 {
                lemma_skip(behind, 2);
            }
            match pattern::group_in(behind) {
                Ok(within) => {
                    assert(pattern::group_in(t.skip(1)) == Ok::<_, Seq<char>>(within.push('$')));
                    lemma_reading(within, n, true);
                    match pattern::choice_in(within, n, true) {
                        Ok((_, rest)) => {
                            if rest.len() > 0 {
                                lemma_skip(rest, 1);
                            }
                        },
                        Err(_) => {},
                    }
                },
                Err(_) => {},
            }
        }
    } else if s[0] == '[' {
        let behind = s.skip(1);
        lemma_ranges(behind, true);
        if s.len() > 1 {
            lemma_ranges(s.skip(2), true);
        }
    } else if s[0] == '\\' {
        let behind = s.skip(1);
        if behind.len() > 0 {
            lemma_skip(behind, 1);
        }
    }
}

proof fn lemma_sequence(s: Seq<char>, n: nat, inside: bool)
    requires
        s.len() > 0,
    ensures
        pattern::sequence_in(s, n, inside) matches Ok((x, rest)) ==> (rest.len() > 0
            ==> pattern::sequence_in(s.push('$'), n + 1, inside) == Ok::<_, Seq<char>>(
            (x, rest.push('$')),
        )) && (rest.len() == 0 && !sequence_ends_anchored(s, n, inside) ==> pattern::sequence_in(
            s.push('$'),
            n + 1,
            inside,
        ) == Ok::<_, Seq<char>>((x, rest))),
    decreases s.len(), 1nat,
{
    let t = s.push('$');
    lemma_skip(s, 1);
    if s[0] == '|' || (s[0] == ')' && inside) {
    } else if s[0] == '^' && s.len() == n {
        lemma_reading(s.skip(1), n, inside);
    } else if s[0] == '$' && s.len() == 1 {
        assert(s.skip(1).len() == 0);
        assert(pattern::sequence_in(s.skip(1), n, inside) matches Ok((_, rest)) && rest.len() == 0);
    } else {
        lemma_atom(s, n);
        match pattern::atom_in(s, n) {
            Ok((_, rest)) => {
                lemma_quantifier(rest);
                match pattern::quantifier_in(rest) {
                    Ok((_, rest)) => {
                        if rest.len() < s.len() {
                            lemma_reading(rest, n, inside);
                        }
                    },
                    Err(_) => {},
                }
            },
            Err(_) => {},
        }
    }
}

/// A `$` at the end means nothing more than the whole-string rule already
/// does: a pattern that does not end in an anchor yet says the same with it
/// and without it.
pub proof fn lemma_a_trailing_anchor_means_nothing(source: Seq<char>)
    requires
        pattern::pattern_in(source) is Ok,
        !ends_anchored(source),
    ensures
        pattern::pattern_in(source + seq!['$']) == pattern::pattern_in(source),
{
    assert(source + seq!['$'] =~= source.push('$'));
    lemma_reading(source, source.len(), false);
}

}
