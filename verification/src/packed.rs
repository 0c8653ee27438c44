//! Several texts stored as one, so that each reads back exactly: every text
//! is written as its length in decimal, a colon and its characters.

use vstd::prelude::*;
use vstd::string::*;

use crate::text;

verus! {

/// One text as it is stored.
pub open spec fn framed(s: Seq<char>) -> Seq<char> {
    text::decimal(s.len()) + seq![':'] + s
}

/// A list of texts as it is stored.
pub open spec fn packed(fields: Seq<Seq<char>>) -> Seq<char>
    decreases fields.len(),
{
    if fields.len() == 0 {
        Seq::<char>::empty()
    } else {
        packed(fields.drop_last()) + framed(fields.last())
    }
}

/// The stored form of two lists, one behind the other.
pub proof fn lemma_packed_concat(a: Seq<Seq<char>>, b: Seq<Seq<char>>)
    ensures
        packed(a + b) == packed(a) + packed(b),
    decreases b.len(),
{
    if b.len() == 0 {
        assert(a + b =~= a);
        assert(packed(a) + packed(b) =~= packed(a));
    } else {
        lemma_packed_concat(a, b.drop_last());
        assert((a + b).drop_last() =~= a + b.drop_last());
        assert(packed(a + b) =~= packed(a) + packed(b));
    }
}

/// Where a framed text starts decides the text and what follows it.
pub proof fn lemma_framed_head(a: Seq<char>, x: Seq<char>, b: Seq<char>, y: Seq<char>)
    requires
        framed(a) + x == framed(b) + y,
    ensures
        a == b,
        x == y,
{
    let da = text::decimal(a.len());
    let db = text::decimal(b.len());
    let whole = framed(a) + x;
    text::lemma_decimal_number(a.len());
    text::lemma_decimal_number(b.len());
    assert(whole[da.len() as int] == ':');
    assert((framed(b) + y)[db.len() as int] == ':');
    if da.len() < db.len() {
        assert((framed(b) + y)[da.len() as int] == db[da.len() as int]);
        assert(text::is_digit(db[da.len() as int]));
        assert(false);
    }
    if db.len() < da.len() {
        assert(whole[db.len() as int] == da[db.len() as int]);
        assert(text::is_digit(da[db.len() as int]));
        assert(false);
    }
    assert(whole.take(da.len() as int) =~= da);
    assert((framed(b) + y).take(db.len() as int) =~= db);
    assert(a.len() == b.len());
    let n = da.len() + 1;
    assert(whole.subrange(n as int, (n + a.len()) as int) =~= a);
    assert((framed(b) + y).subrange(n as int, (n + b.len()) as int) =~= b);
    assert(whole.skip((n + a.len()) as int) =~= x);
    assert((framed(b) + y).skip((n + b.len()) as int) =~= y);
}

/// Splits the first field off a stored list.
proof fn lemma_packed_first(f: Seq<Seq<char>>)
    requires
        f.len() > 0,
    ensures
        packed(f) == framed(f[0]) + packed(f.drop_first()),
{
    assert(f =~= seq![f[0]] + f.drop_first());
    lemma_packed_concat(seq![f[0]], f.drop_first());
    assert(packed(seq![f[0]]) =~= framed(f[0])) by {
        assert(seq![f[0]].drop_last() =~= Seq::<Seq<char>>::empty());
        reveal_with_fuel(packed, 2);
    }
}

/// A stored list that starts as another starts with that list's fields.
proof fn lemma_packed_prefix(o: Seq<Seq<char>>, rest: Seq<char>, f: Seq<Seq<char>>)
    requires
        packed(f) == packed(o) + rest,
    ensures
        o.is_prefix_of(f),
        packed(f.skip(o.len() as int)) == rest,
    decreases o.len(),
{
    if o.len() == 0 {
        assert(packed(o) + rest =~= rest);
        assert(f.skip(0) =~= f);
        assert(f.take(0) =~= o);
    } else {
        lemma_packed_first(o);
        let tail = packed(o.drop_first()) + rest;
        assert(packed(o) + rest =~= framed(o[0]) + tail);
        if f.len() == 0 {
            assert(packed(f).len() == 0);
            assert((framed(o[0]) + tail).len() >= 1);
            assert(false);
        }
        lemma_packed_first(f);
        lemma_framed_head(f[0], packed(f.drop_first()), o[0], tail);
        lemma_packed_prefix(o.drop_first(), rest, f.drop_first());
        assert(f.drop_first().skip(o.len() - 1) =~= f.skip(o.len() as int));
        assert forall|i: int| 0 <= i < o.len() implies o[i] == f[i] by {
            if i > 0 {
                assert(o.drop_first()[i - 1] == o[i]);
                assert(f.drop_first()[i - 1] == f[i]);
                assert(f.drop_first().take(o.len() - 1)[i - 1] == o.drop_first()[i - 1]);
            }
        }
        assert(f.take(o.len() as int) =~= o);
    }
}

/// Two lists stored alike are the same list.
pub proof fn lemma_packed_injective(a: Seq<Seq<char>>, b: Seq<Seq<char>>)
    requires
        packed(a) == packed(b),
    ensures
        a == b,
{
    assert(packed(a) + Seq::<char>::empty() =~= packed(b));
    lemma_packed_prefix(a, Seq::<char>::empty(), b);
    let more = b.skip(a.len() as int);
    if more.len() > 0 {
        lemma_packed_first(more);
        assert(packed(more).len() >= 1);
        assert(false);
    }
    assert(b =~= a);
}

/// Stores a list of texts as one text.
pub fn pack(fields: &Vec<String>) -> (r: String)
    ensures
        r@ == packed(text::views(fields@)),
{
    let mut out = String::new();
    let mut i: usize = 0;
    assert(text::views(fields@).take(0) =~= Seq::<Seq<char>>::empty());
    while i < fields.len()
        invariant
            i <= fields@.len(),
            out@ == packed(text::views(fields@).take(i as int)),
        decreases fields@.len() - i,
    {
        let ghost all = text::views(fields@);
        let chars = text::chars_of(fields[i].as_str());
        let size = text::decimal_of(chars.len() as u64);
        out.append(size.as_str());
        out.push(':');
        out.append(fields[i].as_str());
        assert(all.take(i + 1).drop_last() =~= all.take(i as int));
        assert(out@ =~= packed(all.take(i + 1)));
        i = i + 1;
    }
    assert(text::views(fields@).take(i as int) =~= text::views(fields@));
    out
}

/// The end of the digits that start at `from`.
fn digits_end(v: &Vec<char>, from: usize) -> (r: usize)
    requires
        from <= v@.len(),
    ensures
        from <= r <= v@.len(),
        forall|j: int| from <= j < r ==> text::is_digit(#[trigger] v@[j]),
        r < v@.len() ==> !text::is_digit(v@[r as int]),
{
    let mut i: usize = from;
    while i < v.len() && '0' <= v[i] && v[i] <= '9'
        invariant
            from <= i <= v@.len(),
            forall|j: int| from <= j < i ==> text::is_digit(#[trigger] v@[j]),
        decreases v@.len() - i,
    {
        i = i + 1;
    }
    i
}

/// Reads one framed text at `from`: where it ends, or nothing when no framed
/// text starts there.
fn read_framed(v: &Vec<char>, from: usize) -> (r: Option<(String, usize)>)
    requires
        from <= v@.len(),
    ensures
        match r {
            Some((s, to)) => {
                &&& from < to <= v@.len()
                &&& v@.skip(from as int) == framed(s@) + v@.skip(to as int)
            },
            None => forall|s: Seq<char>, rest: Seq<char>|
                v@.skip(from as int) != #[trigger] (framed(s) + rest),
        },
{
    let end = digits_end(v, from);
    let ghost tail = v@.skip(from as int);
    proof {
        assert forall|s: Seq<char>, rest: Seq<char>|
            tail == #[trigger] (framed(s) + rest) implies end - from == text::decimal(s.len()).len()
            && tail.take(end - from) == text::decimal(s.len()) && end < v@.len() && v@[end as int]
            == ':' && end + 1 + s.len() <= v@.len() by {
            let d = text::decimal(s.len());
            text::lemma_decimal_number(s.len());
            assert(tail[d.len() as int] == ':');
            assert(tail.len() == d.len() + 1 + s.len() + rest.len());
            if end - from < d.len() {
                assert(tail[end - from] == d[end - from]);
                assert(text::is_digit(d[end - from]));
                assert(v@[end as int] == tail[end - from]);
                assert(false);
            }
            if end - from > d.len() {
                assert(v@[from + d.len()] == tail[d.len() as int]);
                assert(text::is_digit(v@[from + d.len()]));
                assert(false);
            }
            assert(tail.take(end - from) =~= d);
            assert(v@[end as int] == tail[end - from]);
        }
    }
    if end >= v.len() || v[end] != ':' {
        return None;
    }
    let digits = text::slice_of(v, from, end);
    assert(digits@ =~= tail.take(end - from));
    let spelled = text::string_of(&digits);
    let n: u64 = match text::parse_u64(spelled.as_str()) {
        None => {
            proof {
                assert forall|s: Seq<char>, rest: Seq<char>| tail != #[trigger] (framed(s)
                    + rest) by {
                    if tail == framed(s) + rest {
                        text::lemma_decimal_number(s.len());
                        assert(s.len() <= v@.len());
                    }
                }
            }
            return None;
        },
        Some(n) => n,
    };
    let canonical = text::decimal_of(n);
    if !text::same(canonical.as_str(), spelled.as_str()) || n > (v.len() - end - 1) as u64 {
        proof {
            assert forall|s: Seq<char>, rest: Seq<char>| tail != #[trigger] (framed(s) + rest) by {
                if tail == framed(s) + rest {
                    text::lemma_decimal_number(s.len());
                }
            }
        }
        return None;
    }
    let to = end + 1 + n as usize;
    let body = text::slice_of(v, end + 1, to);
    let s = text::string_of(&body);
    proof {
        assert(tail =~= framed(s@) + v@.skip(to as int));
    }
    Some((s, to))
}

/// Reads a stored list back: its texts, or nothing when `stored` is not the
/// stored form of any list.
pub fn unpack(stored: &str) -> (r: Option<Vec<String>>)
    ensures
        match r {
            Some(fields) => packed(text::views(fields@)) == stored@,
            None => forall|f: Seq<Seq<char>>| #[trigger] packed(f) != stored@,
        },
{
    let v = text::chars_of(stored);
    let mut out: Vec<String> = Vec::new();
    let mut at: usize = 0;
    assert(text::views(out@) =~= Seq::<Seq<char>>::empty());
    assert(v@.skip(0) =~= v@);
    assert(packed(text::views(out@)) + v@.skip(0) =~= v@);
    while at < v.len()
        invariant
            at <= v@.len(),
            v@ == stored@,
            packed(text::views(out@)) + v@.skip(at as int) == v@,
        decreases v@.len() - at,
    {
        let ghost before = text::views(out@);
        match read_framed(&v, at) {
            None => {
                proof {
                    assert forall|f: Seq<Seq<char>>| #[trigger] packed(f) != stored@ by {
                        if packed(f) == stored@ {
                            let tail = v@.skip(at as int);
                            lemma_packed_prefix(before, tail, f);
                            let more = f.skip(before.len() as int);
                            assert(tail.len() > 0);
                            if more.len() > 0 {
                                lemma_packed_first(more);
                                assert(tail == framed(more[0]) + packed(more.drop_first()));
                            }
                        }
                    }
                }
                return None;
            },
            Some((s, to)) => {
                proof {
                    text::lemma_views_push(out@, s);
                    let after = before.push(s@);
                    assert(after.drop_last() =~= before);
                    assert(packed(after) + v@.skip(to as int) =~= v@);
                }
                out.push(s);
                at = to;
            },
        }
    }
    assert(v@.skip(at as int) =~= Seq::<char>::empty());
    assert(packed(text::views(out@)) =~= v@);
    Some(out)
}

/// The texts a stored list holds; nothing when it is the stored form of
/// none.
pub open spec fn unpacked(stored: Seq<char>) -> Option<Seq<Seq<char>>> {
    if exists|f: Seq<Seq<char>>| #[trigger] packed(f) == stored {
        Some(choose|f: Seq<Seq<char>>| #[trigger] packed(f) == stored)
    } else {
        None
    }
}

/// What a list was stored from is what it holds.
pub proof fn lemma_unpacked(f: Seq<Seq<char>>)
    ensures
        unpacked(packed(f)) == Some(f),
{
    let found = choose|g: Seq<Seq<char>>| #[trigger] packed(g) == packed(f);
    lemma_packed_injective(found, f);
}

/// The texts a stored list holds.
pub fn unpacked_of(stored: &str) -> (r: Option<Vec<String>>)
    ensures
        match r {
            Some(fields) => unpacked(stored@) == Some(text::views(fields@)),
            None => unpacked(stored@) is None,
        },
{
    let r = unpack(stored);
    proof {
        if let Some(fields) = &r {
            lemma_unpacked(text::views(fields@));
        }
    }
    r
}

}
