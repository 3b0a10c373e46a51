//! Decimal numerals in ASCII, the only kind of field a rendezvous message
//! has: how a number is spelled, and how the numeral at a position of a
//! buffer is read.

use vstd::prelude::*;

verus! {

/// The ASCII code of the digit zero.
pub const ZERO: u8 = 48;

/// Whether `b` is an ASCII decimal digit.
pub open spec fn is_digit(b: u8) -> bool {
    48 <= b <= 57
}

/// Whether `s` consists of decimal digits only.
pub open spec fn all_digits(s: Seq<u8>) -> bool {
    forall|i: int| 0 <= i < s.len() ==> is_digit(#[trigger] s[i])
}

/// The number that the digits of `s` spell, most significant first. Leading
/// zeros do not count; the empty numeral spells zero.
pub open spec fn decimal_value(s: Seq<u8>) -> nat
    decreases s.len(),
{
    if s.len() == 0 {
        0
    } else {
        decimal_value(s.drop_last()) * 10 + (s.last() - 48) as nat
    }
}

/// The shortest numeral that spells `n`: no leading zero, and a single `0`
/// for zero.
pub open spec fn decimal(n: nat) -> Seq<u8>
    decreases n,
{
    if n < 10 {
        seq![(48 + n) as u8]
    } else {
        decimal(n / 10).push((48 + n % 10) as u8)
    }
}

/// Where the run of digits that starts at `from` ends: the index of the first
/// byte at or after `from` that is no digit, or the length of `s`.
pub open spec fn digits_end(s: Seq<u8>, from: int) -> int
    decreases s.len() - from,
{
    if 0 <= from < s.len() && is_digit(s[from]) {
        digits_end(s, from + 1)
    } else {
        from
    }
}

/// The numeral at `from`, read as a number of at most `max`: the value of the
/// run of digits that starts there and the index behind it. There is none if
/// no digit stands at `from` or the run spells more than `max`.
pub open spec fn number_at(s: Seq<u8>, from: int, max: nat) -> Option<(nat, int)> {
    let end = digits_end(s, from);
    let value = decimal_value(s.subrange(from, end));
    if from < end && value <= max {
        Some((value, end))
    } else {
        None
    }
}

/// A run of digits ends at or behind its start, within the buffer, and holds
/// digits only.
pub proof fn lemma_digits_end(s: Seq<u8>, from: int)
    requires
        0 <= from <= s.len(),
    ensures
        from <= digits_end(s, from) <= s.len(),
        all_digits(s.subrange(from, digits_end(s, from))),
        digits_end(s, from) < s.len() ==> !is_digit(s[digits_end(s, from)]),
        forall|i: int| from <= i <= digits_end(s, from) ==> digits_end(s, i) == digits_end(s, from),
    decreases s.len() - from,
{
    if from < s.len() && is_digit(s[from]) {
        lemma_digits_end(s, from + 1);
        let end = digits_end(s, from);
        assert forall|i: int| 0 <= i < end - from implies is_digit(
            #[trigger] s.subrange(from, end)[i],
        ) by {
            if i > 0 {
                assert(s.subrange(from, end)[i] == s.subrange(from + 1, end)[i - 1]);
            }
        }
    }
}

/// A numeral is worth at least as much as each of its prefixes.
pub proof fn lemma_decimal_value_grows(s: Seq<u8>, n: int)
    requires
        all_digits(s),
        0 <= n <= s.len(),
    ensures
        decimal_value(s.take(n)) <= decimal_value(s),
    decreases s.len(),
{
    if n < s.len() {
        let shorter = s.drop_last();
        assert(is_digit(s[s.len() - 1]));
        lemma_decimal_value_grows(shorter, n);
        assert(shorter.take(n) == s.take(n));
    } else {
        assert(s.take(n) == s);
    }
}

/// The shortest numeral of a number is a numeral of that number: between one
/// digit and as many as needed, all digits, no leading zero.
pub proof fn lemma_decimal(n: nat)
    ensures
        decimal(n).len() >= 1,
        all_digits(decimal(n)),
        decimal_value(decimal(n)) == n,
        decimal(n).len() > 1 ==> decimal(n)[0] != 48,
        n < 10 <==> decimal(n).len() == 1,
        10 <= n < 100 <==> decimal(n).len() == 2,
        100 <= n < 1000 <==> decimal(n).len() == 3,
    decreases n,
{
    if n < 10 {
        let s = decimal(n);
        assert(s.drop_last().len() == 0);
        assert(decimal_value(s) == decimal_value(s.drop_last()) * 10 + (s.last() - 48) as nat);
    } else {
        lemma_decimal(n / 10);
        let head = decimal(n / 10);
        let s = decimal(n);
        assert(s == head.push((48 + n % 10) as u8));
        assert(s.drop_last() == head);
        assert(s[0] == head[0]);
        if n / 10 < 10 {
            assert(head[0] == (48 + n / 10) as u8);
        }
    }
}

/// A run of digits between two other pieces of a buffer is read whole: where
/// `run` holds digits only and `post` does not start with one, the run that
/// starts behind `pre` ends in front of `post`.
pub proof fn lemma_digits_end_of_run(pre: Seq<u8>, run: Seq<u8>, post: Seq<u8>)
    requires
        all_digits(run),
        post.len() == 0 || !is_digit(post[0]),
    ensures
        digits_end(pre + run + post, pre.len() as int) == pre.len() + run.len(),
        (pre + run + post).subrange(pre.len() as int, (pre.len() + run.len()) as int) == run,
    decreases run.len(),
{
    let s = pre + run + post;
    assert(s.subrange(pre.len() as int, (pre.len() + run.len()) as int) =~= run);
    if run.len() == 0 {
        if post.len() > 0 {
            assert(s[pre.len() as int] == post[0]);
        }
    } else {
        assert(s[pre.len() as int] == run[0]);
        let pre1 = pre.push(run[0]);
        let run1 = run.skip(1);
        assert(pre1 + run1 + post =~= s);
        assert forall|i: int| 0 <= i < run1.len() implies is_digit(#[trigger] run1[i]) by {
            assert(run1[i] == run[i + 1]);
        }
        lemma_digits_end_of_run(pre1, run1, post);
    }
}

/// Reading the shortest numeral of `n` gives `n` back: behind `pre` and in
/// front of a `post` that starts with no digit, it is read whole.
pub proof fn lemma_number_at_decimal(pre: Seq<u8>, n: nat, post: Seq<u8>, max: nat)
    requires
        n <= max,
        post.len() == 0 || !is_digit(post[0]),
    ensures
        number_at(pre + decimal(n) + post, pre.len() as int, max) == Some(
            (n, (pre.len() + decimal(n).len()) as int),
        ),
{
    lemma_decimal(n);
    lemma_digits_end_of_run(pre, decimal(n), post);
}

/// Appends the shortest numeral of `n` to `out`.
pub fn push_decimal(out: &mut Vec<u8>, n: u16)
    ensures
        final(out)@ == old(out)@ + decimal(n as nat),
{
    let ghost before = out@;
    if n >= 10000 {
        out.push(ZERO + (n / 10000) as u8);
    }
    if n >= 1000 {
        out.push(ZERO + (n / 1000 % 10) as u8);
    }
    if n >= 100 {
        out.push(ZERO + (n / 100 % 10) as u8);
    }
    if n >= 10 {
        out.push(ZERO + (n / 10 % 10) as u8);
    }
    out.push(ZERO + (n % 10) as u8);
    proof {
        let v = n as nat;
        reveal_with_fuel(decimal, 5);
        assert(out@ =~= before + decimal(v));
    }
}

/// Reads the numeral at `from` as a number of at most `max`, and says where
/// it ends.
pub fn read_number(s: &[u8], from: usize, max: u16) -> (r: Option<(u16, usize)>)
    ensures
        match r {
            Some((value, end)) => number_at(s@, from as int, max as nat) == Some(
                (value as nat, end as int),
            ),
            None => number_at(s@, from as int, max as nat) is None,
        },
        r matches Some((_, end)) ==> from < end <= s@.len(),
{
    if from > s.len() {
        return None;
    }
    let mut i: usize = from;
    let mut value: u32 = 0;
    proof {
        lemma_digits_end(s@, from as int);
        assert(s@.subrange(from as int, from as int).len() == 0);
    }
    while i < s.len() && s[i] >= 48 && s[i] <= 57
        invariant
            from <= i <= digits_end(s@, from as int) <= s@.len(),
            digits_end(s@, i as int) == digits_end(s@, from as int),
            value == decimal_value(s@.subrange(from as int, i as int)),
            value <= max,
        decreases s@.len() - i,
    {
        let digit: u32 = (s[i] - 48) as u32;
        let next: u32 = value * 10 + digit;
        proof {
            let end = digits_end(s@, from as int);
            lemma_digits_end(s@, from as int);
            let longer = s@.subrange(from as int, i + 1);
            assert(longer.drop_last() == s@.subrange(from as int, i as int));
            assert(longer.last() == s@[i as int]);
            assert(next == decimal_value(longer));
            let whole = s@.subrange(from as int, end);
            assert(i + 1 <= end);
            assert(whole.take(i + 1 - from) == longer);
            lemma_decimal_value_grows(whole, i + 1 - from);
        }
        if next > max as u32 {
            return None;
        }
        value = next;
        i += 1;
    }
    proof {
        lemma_digits_end(s@, from as int);
    }
    if i == from {
        None
    } else {
        Some((value as u16, i))
    }
}

} // verus!
