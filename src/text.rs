//! Character-level building blocks: string equality, dot-separated segments
//! and decimal numerals, each with its mathematical model.
use vstd::prelude::*;

verus! {

/// Relies on `str`'s `==`: two string slices are equal exactly when they
/// hold the same characters.
pub assume_specification[ <str as PartialEq>::eq ](a: &str, b: &str) -> (r: bool)
    ensures
        r == (a@ == b@),
;

/// The characters of `s`, in order.
pub fn chars_of(s: &str) -> (r: Vec<char>)
    ensures
        r@ == s@,
{
    let mut r: Vec<char> = Vec::new();
    for c in it: s.chars()
        invariant
            r@ == it.seq().take(it.index() as int),
    {
        r.push(c);
    }
    r
}

// ---------------------------------------------------------------------------
// Dot-separated segments
// ---------------------------------------------------------------------------

/// `s` cut at every `.`, as `str::split('.')` does: `n` dots give `n + 1`
/// segments, empty ones included.
pub open spec fn split_on_dots(s: Seq<char>) -> Seq<Seq<char>>
    decreases s.len(),
{
    if s.len() == 0 {
        seq![Seq::empty()]
    } else {
        let init = split_on_dots(s.drop_last());
        if s.last() == '.' {
            init.push(Seq::empty())
        } else {
            init.update(init.len() - 1, init.last().push(s.last()))
        }
    }
}

/// The segments written one after the other, with a `.` between neighbours.
pub open spec fn join_with_dots(parts: Seq<Seq<char>>) -> Seq<char>
    decreases parts.len(),
{
    if parts.len() == 0 {
        Seq::empty()
    } else if parts.len() == 1 {
        parts[0]
    } else {
        join_with_dots(parts.drop_last()) + seq!['.'] + parts.last()
    }
}

pub open spec fn has_no_dot(s: Seq<char>) -> bool {
    forall|i: int| 0 <= i < s.len() ==> s[i] != '.'
}

/// Splitting always gives at least one segment.
pub proof fn lemma_split_nonempty(s: Seq<char>)
    ensures
        split_on_dots(s).len() >= 1,
    decreases s.len(),
{
    if s.len() > 0 {
        lemma_split_nonempty(s.drop_last());
    }
}

/// Joining the segments of `s` gives `s` back.
pub proof fn lemma_join_split(s: Seq<char>)
    ensures
        join_with_dots(split_on_dots(s)) == s,
    decreases s.len(),
{
    if s.len() > 0 {
        let prev = s.drop_last();
        let p = split_on_dots(prev);
        lemma_split_nonempty(prev);
        lemma_join_split(prev);
        let q = split_on_dots(s);
        if s.last() == '.' {
            assert(q.drop_last() =~= p);
            assert(s =~= prev + seq!['.'] + Seq::<char>::empty());
        } else if p.len() == 1 {
            assert(s =~= prev.push(s.last()));
        } else {
            assert(q.drop_last() =~= p.drop_last());
            assert(prev == join_with_dots(p.drop_last()) + seq!['.'] + p.last());
            assert(s =~= prev.push(s.last()));
            assert(s =~= join_with_dots(p.drop_last()) + seq!['.'] + p.last().push(s.last()));
        }
    }
}

/// A string without dots is one segment.
pub proof fn lemma_split_no_dot(s: Seq<char>)
    requires
        has_no_dot(s),
    ensures
        split_on_dots(s) == seq![s],
    decreases s.len(),
{
    if s.len() > 0 {
        let prev = s.drop_last();
        assert(has_no_dot(prev));
        lemma_split_no_dot(prev);
        assert(prev.push(s.last()) =~= s);
        assert(split_on_dots(s) =~= seq![s]);
    } else {
        assert(s =~= Seq::<char>::empty());
    }
}

/// Splitting at a dot splits the two sides separately.
pub proof fn lemma_split_concat(u: Seq<char>, v: Seq<char>)
    ensures
        split_on_dots(u + seq!['.'] + v) == split_on_dots(u) + split_on_dots(v),
    decreases v.len(),
{
    let w = u + seq!['.'] + v;
    if v.len() == 0 {
        assert(w.drop_last() =~= u);
        assert(split_on_dots(w) =~= split_on_dots(u) + split_on_dots(v));
    } else {
        let vp = v.drop_last();
        assert(w.drop_last() =~= u + seq!['.'] + vp);
        lemma_split_concat(u, vp);
        lemma_split_nonempty(vp);
        let a = split_on_dots(u);
        let b = split_on_dots(vp);
        if v.last() == '.' {
            assert(split_on_dots(w) =~= a + b.push(Seq::empty()));
        } else {
            assert(split_on_dots(w) =~= a + b.update(b.len() - 1, b.last().push(v.last())));
        }
        assert(split_on_dots(w) =~= split_on_dots(u) + split_on_dots(v));
    }
}

// ---------------------------------------------------------------------------
// Decimal numerals
// ---------------------------------------------------------------------------

pub open spec fn is_digit(c: char) -> bool {
    '0' <= c && c <= '9'
}

pub open spec fn digit_value(c: char) -> int {
    c as int - '0' as int
}

pub open spec fn digit_char(d: int) -> char {
    (d + '0' as int) as char
}

/// The number that a run of decimal digits denotes (leading zeros allowed).
pub open spec fn decimal_value(d: Seq<char>) -> int
    decreases d.len(),
{
    if d.len() == 0 {
        0
    } else {
        decimal_value(d.drop_last()) * 10 + digit_value(d.last())
    }
}

/// The decimal numeral of `n`, without leading zeros.
pub open spec fn decimal_digits(n: nat) -> Seq<char>
    decreases n,
{
    if n < 10 {
        seq![digit_char(n as int)]
    } else {
        decimal_digits(n / 10).push(digit_char((n % 10) as int))
    }
}

pub open spec fn all_digits(d: Seq<char>) -> bool {
    forall|i: int| 0 <= i < d.len() ==> is_digit(#[trigger] d[i])
}

/// The numeral of `n` is a non-empty run of digits that denotes `n`.
pub proof fn lemma_decimal_round_trip(n: nat)
    ensures
        decimal_digits(n).len() >= 1,
        all_digits(decimal_digits(n)),
        decimal_value(decimal_digits(n)) == n,
    decreases n,
{
    if n < 10 {
        let d = decimal_digits(n);
        assert(digit_value(digit_char(n as int)) == n);
        assert(d.drop_last() =~= Seq::<char>::empty());
        assert(decimal_value(d.drop_last()) == 0);
        assert(decimal_value(d) == decimal_value(d.drop_last()) * 10 + digit_value(d.last()));
    } else {
        lemma_decimal_round_trip(n / 10);
        let d = decimal_digits(n);
        assert(d.drop_last() =~= decimal_digits(n / 10));
        assert(digit_value(digit_char((n % 10) as int)) == n % 10);
        assert(n == (n / 10) * 10 + n % 10);
        assert(decimal_value(d) == decimal_value(d.drop_last()) * 10 + digit_value(d.last()));
        assert(all_digits(d)) by {
            assert forall|i: int| 0 <= i < d.len() implies is_digit(#[trigger] d[i]) by {
                if i < d.len() - 1 {
                    assert(d[i] == decimal_digits(n / 10)[i]);
                }
            }
        }
    }
}

/// The one-character string of the digit `d`.
fn digit_str(d: u16) -> (r: &'static str)
    requires
        d < 10,
    ensures
        r@ == seq![digit_char(d as int)],
{
    let all = "0123456789";
    proof {
        reveal_strlit("0123456789");
    }
    let r = all.substring_char(d as usize, d as usize + 1);
    assert(r@ =~= seq![digit_char(d as int)]);
    r
}

/// The decimal numeral of `n`.
pub fn decimal_string(n: u16) -> (r: String)
    ensures
        r@ == decimal_digits(n as nat),
    decreases n,
{
    if n < 10 {
        let mut r = String::new();
        r.append(digit_str(n));
        assert(r@ =~= decimal_digits(n as nat));
        r
    } else {
        let mut r = decimal_string(n / 10);
        r.append(digit_str(n % 10));
        r
    }
}

} // verus!
