//! Text-building primitives shared by the wire codec and the binding emitter.
//!
//! All generated source text and all wire payloads are specified as
//! `Seq<char>` values; the executable builders are proved to produce exactly
//! the specified text.

use vstd::prelude::*;

verus! {

/// The concatenation of `f` applied to every element of `s`, in order.
pub open spec fn concat_map<A>(s: Seq<A>, f: spec_fn(A) -> Seq<char>) -> Seq<char>
    decreases s.len(),
{
    if s.len() == 0 {
        Seq::<char>::empty()
    } else {
        concat_map(s.drop_last(), f) + f(s.last())
    }
}

pub proof fn lemma_concat_map_step<A>(s: Seq<A>, f: spec_fn(A) -> Seq<char>, i: int)
    requires
        0 <= i < s.len(),
    ensures
        concat_map(s.take(i + 1), f) == concat_map(s.take(i), f) + f(s[i]),
{
    assert(s.take(i + 1).drop_last() =~= s.take(i));
    assert(s.take(i + 1).last() == s[i]);
}

pub proof fn lemma_concat_map_full<A>(s: Seq<A>, f: spec_fn(A) -> Seq<char>)
    ensures
        concat_map(s.take(s.len() as int), f) == concat_map(s, f),
{
    assert(s.take(s.len() as int) =~= s);
}

/// The concatenation of `f` over `s`, failing if `f` fails on any element.
pub open spec fn concat_map_opt<A>(s: Seq<A>, f: spec_fn(A) -> Option<Seq<char>>) -> Option<
    Seq<char>,
>
    decreases s.len(),
{
    if s.len() == 0 {
        Some(Seq::<char>::empty())
    } else {
        match (concat_map_opt(s.drop_last(), f), f(s.last())) {
            (Some(a), Some(b)) => Some(a + b),
            _ => None,
        }
    }
}

pub proof fn lemma_concat_map_opt_step<A>(s: Seq<A>, f: spec_fn(A) -> Option<Seq<char>>, i: int)
    requires
        0 <= i < s.len(),
    ensures
        concat_map_opt(s.take(i + 1), f) == match (concat_map_opt(s.take(i), f), f(s[i])) {
            (Some(a), Some(b)) => Some(a + b),
            _ => None::<Seq<char>>,
        },
{
    assert(s.take(i + 1).drop_last() =~= s.take(i));
    assert(s.take(i + 1).last() == s[i]);
}

pub proof fn lemma_concat_map_opt_full<A>(s: Seq<A>, f: spec_fn(A) -> Option<Seq<char>>)
    ensures
        concat_map_opt(s.take(s.len() as int), f) == concat_map_opt(s, f),
{
    assert(s.take(s.len() as int) =~= s);
}

/// A failed element makes the whole concatenation fail.
pub proof fn lemma_concat_map_opt_fail<A>(s: Seq<A>, f: spec_fn(A) -> Option<Seq<char>>, i: int)
    requires
        0 <= i < s.len(),
        f(s[i]) is None,
    ensures
        concat_map_opt(s, f) is None,
    decreases s.len(),
{
    if i == s.len() - 1 {
    } else {
        lemma_concat_map_opt_fail(s.drop_last(), f, i);
    }
}

/// The digit character for one decimal digit.
pub open spec fn digit(d: nat) -> char {
    if d == 0 {
        '0'
    } else if d == 1 {
        '1'
    } else if d == 2 {
        '2'
    } else if d == 3 {
        '3'
    } else if d == 4 {
        '4'
    } else if d == 5 {
        '5'
    } else if d == 6 {
        '6'
    } else if d == 7 {
        '7'
    } else if d == 8 {
        '8'
    } else {
        '9'
    }
}

/// The decimal representation of `n`, most significant digit first, no sign,
/// no leading zeros (a single `'0'` for zero).
pub open spec fn dec_str(n: nat) -> Seq<char>
    decreases n,
{
    if n < 10 {
        seq![digit(n)]
    } else {
        dec_str(n / 10) + seq![digit(n % 10)]
    }
}

/// Appends the decimal representation of `n` to `out`.
pub fn append_dec(out: &mut String, n: u64)
    ensures
        final(out)@ == old(out)@ + dec_str(n as nat),
    decreases n,
{
    if n >= 10 {
        append_dec(out, n / 10);
    }
    let d: u64 = n % 10;
    let c: char = if d == 0 {
        '0'
    } else if d == 1 {
        '1'
    } else if d == 2 {
        '2'
    } else if d == 3 {
        '3'
    } else if d == 4 {
        '4'
    } else if d == 5 {
        '5'
    } else if d == 6 {
        '6'
    } else if d == 7 {
        '7'
    } else if d == 8 {
        '8'
    } else {
        '9'
    };
    crate::push_char(out, c);
    proof {
        assert(c == digit((n % 10) as nat));
        if n < 10 {
            assert(dec_str(n as nat) =~= seq![digit(n as nat)]);
        }
    }
}

} // verus!
