//! What holds of the stamps that instants are told with.

use vstd::prelude::*;

use crate::report::time;
use crate::text;

verus! {

/// An instant has one stamp.
pub proof fn lemma_an_instant_has_one_stamp(
    a: Seq<char>,
    b: Seq<char>,
    seconds: int,
    millis: int,
)
    requires
        time::is_stamp(a, seconds, millis),
        time::is_stamp(b, seconds, millis),
    ensures
        a == b,
{
    let (y1, m1, d1) = choose|y: int, m: int, d: int| #[trigger]
        time::is_date(y, m, d) && time::day_number(y, m, d) == seconds / 86_400 && a == time::spelled(
            y,
            m,
            d,
            seconds % 86_400,
            millis,
        );
    let (y2, m2, d2) = choose|y: int, m: int, d: int| #[trigger]
        time::is_date(y, m, d) && time::day_number(y, m, d) == seconds / 86_400 && b == time::spelled(
            y,
            m,
            d,
            seconds % 86_400,
            millis,
        );
    time::lemma_dates_are_told_apart(y1, m1, d1, y2, m2, d2);
}

/// A number is filled up with noughts to its width, and none is left out.
pub proof fn lemma_how_a_number_is_filled_up(n: nat, width: nat)
    ensures
        text::decimal(n).len() <= width ==> time::padded(n as int, width).len() == width,
        text::decimal(n).len() > width ==> time::padded(n as int, width) == text::decimal(n),
        text::number(time::padded(n as int, width)) == n,
{
    let digits = text::decimal(n);
    let room = width - digits.len();
    let fill = Seq::new(
        if room > 0 {
            room as nat
        } else {
            0
        },
        |i: int| '0',
    );
    assert(time::padded(n as int, width) =~= fill + digits);
    if room <= 0 {
        assert(fill + digits =~= digits);
    }
    lemma_noughts_count_for_nothing(fill.len(), digits);
    assert(fill =~= Seq::new(fill.len(), |i: int| '0'));
    text::lemma_decimal_number(n);
}

proof fn lemma_noughts_count_for_nothing(k: nat, digits: Seq<char>)
    ensures
        text::number(Seq::new(k, |i: int| '0') + digits) == text::number(digits),
    decreases digits.len() + k,
{
    let fill = Seq::new(k, |i: int| '0');
    let s = fill + digits;
    if digits.len() > 0 {
        assert(s.drop_last() =~= fill + digits.drop_last());
        lemma_noughts_count_for_nothing(k, digits.drop_last());
    } else if k > 0 {
        let less = (k - 1) as nat;
        assert(s.drop_last() =~= Seq::new(less, |i: int| '0') + digits);
        lemma_noughts_count_for_nothing(less, digits);
        assert(s.last() == '0');
    }
}

}
