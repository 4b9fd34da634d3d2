//! Decimal text for signed 64-bit integers.
use vstd::prelude::*;
use crate::text::push_char;

verus! {

pub open spec fn is_digit(c: char) -> bool {
    '0' <= c && c <= '9'
}

pub open spec fn digit_value(c: char) -> int {
    c as int - '0' as int
}

/// The character of decimal digit `d`.
pub open spec fn digit_char(d: int) -> char {
    (d + '0' as int) as char
}

pub open spec fn all_digits(s: Seq<char>) -> bool {
    forall|i: int| 0 <= i < s.len() ==> is_digit(#[trigger] s[i])
}

/// The number that the digits `s` write, most significant first.
pub open spec fn digits_value(s: Seq<char>) -> int
    decreases s.len(),
{
    if s.len() == 0 {
        0
    } else {
        digits_value(s.drop_last()) * 10 + digit_value(s.last())
    }
}

/// The integer that `s` writes: one or more digits, with an optional
/// leading `+` or `-`; `None` for any other text.
pub open spec fn int_value(s: Seq<char>) -> Option<int> {
    if s.len() >= 1 && all_digits(s) {
        Some(digits_value(s))
    } else if s.len() >= 2 && s[0] == '-' && all_digits(s.drop_first()) {
        Some(-digits_value(s.drop_first()))
    } else if s.len() >= 2 && s[0] == '+' && all_digits(s.drop_first()) {
        Some(digits_value(s.drop_first()))
    } else {
        None
    }
}

/// The shortest decimal digits of `n`.
pub open spec fn nat_text(n: nat) -> Seq<char>
    decreases n,
{
    if n < 10 {
        seq![digit_char(n as int)]
    } else {
        nat_text(n / 10).push(digit_char((n % 10) as int))
    }
}

/// The decimal text of `n`: its digits, after a `-` when it is negative.
pub open spec fn int_text(n: int) -> Seq<char> {
    if n < 0 {
        seq!['-'] + nat_text((-n) as nat)
    } else {
        nat_text(n as nat)
    }
}

pub open spec fn fits_i64(v: int) -> bool {
    i64::MIN <= v && v <= i64::MAX
}

pub proof fn lemma_nat_text(n: nat)
    ensures
        nat_text(n).len() >= 1,
        all_digits(nat_text(n)),
        digits_value(nat_text(n)) == n,
    decreases n,
{
    let d = (n % 10) as int;
    assert(digit_value(digit_char(d)) == d);
    assert(is_digit(digit_char(d)));
    if n < 10 {
        let s = nat_text(n);
        assert(s.drop_last() =~= Seq::<char>::empty());
        assert(s.last() == digit_char(d));
        assert(digits_value(s.drop_last()) == 0);
        assert(digits_value(s) == d);
    }
    if n >= 10 {
        lemma_nat_text(n / 10);
        let s = nat_text(n);
        assert(s.drop_last() == nat_text(n / 10));
        assert(s.last() == digit_char(d));
        assert(digits_value(s) == digits_value(nat_text(n / 10)) * 10 + d);
        assert((n / 10) as int * 10 + d == n as int);
        assert forall|i: int| 0 <= i < s.len() implies is_digit(#[trigger] s[i]) by {
            if i < s.len() - 1 {
                assert(s[i] == nat_text(n / 10)[i]);
            }
        }
    }
}

/// Reading back the decimal text of an integer gives that integer.
pub proof fn lemma_int_text_value(n: int)
    ensures
        int_value(int_text(n)) == Some(n),
{
    if n < 0 {
        let m = (-n) as nat;
        lemma_nat_text(m);
        let s = int_text(n);
        assert(s.drop_first() =~= nat_text(m));
        assert(s[0] == '-');
        assert(!is_digit(s[0]));
    } else {
        lemma_nat_text(n as nat);
    }
}

proof fn lemma_digits_monotone(s: Seq<char>, i: int, j: int)
    requires
        all_digits(s),
        0 <= i <= j <= s.len(),
    ensures
        digits_value(s.take(i)) <= digits_value(s.take(j)),
        digits_value(s.take(j)) >= 0,
    decreases j,
{
    if j > 0 {
        let t = s.take(j);
        assert(t.drop_last() =~= s.take(j - 1));
        assert(is_digit(s[j - 1]));
        if i < j {
            lemma_digits_monotone(s, i, j - 1);
        } else {
            lemma_digits_monotone(s, j - 1, j - 1);
        }
    } else {
        assert(s.take(0) =~= Seq::<char>::empty());
    }
}

/// `int_value` of a text, read as a sign and the digits after it.
proof fn lemma_int_value_parts(cs: Seq<char>, start: int)
    requires
        0 <= start < cs.len(),
        start == (if cs[0] == '-' || cs[0] == '+' { 1int } else { 0int }),
    ensures
        int_value(cs) == (if all_digits(cs.subrange(start, cs.len() as int)) {
            let v = digits_value(cs.subrange(start, cs.len() as int));
            Some(if cs[0] == '-' { -v } else { v })
        } else {
            None::<int>
        }),
{
    let ds = cs.subrange(start, cs.len() as int);
    if start == 0 {
        assert(ds =~= cs);
    } else {
        assert(ds =~= cs.drop_first());
        assert(!is_digit(cs[0]));
    }
}

/// Appends the decimal digits of `n`.
pub fn push_digits(out: &mut String, n: u64)
    ensures
        final(out)@ == old(out)@ + nat_text(n as nat),
    decreases n,
{
    if n >= 10 {
        push_digits(out, n / 10);
    }
    let d: u64 = n % 10;
    let c = ((d as u8) + 48u8) as char;
    assert(c == digit_char(d as int));
    push_char(out, c);
    proof {
        if n >= 10 {
            assert(old(out)@ + nat_text((n / 10) as nat) + seq![c] =~= old(out)@ + nat_text(
                n as nat,
            ));
        } else {
            assert(old(out)@ + seq![c] =~= old(out)@ + nat_text(n as nat));
        }
    }
}

/// The decimal text of `n`.
pub fn format_int(n: i64) -> (r: String)
    ensures
        r@ == int_text(n as int),
{
    let mut out = String::new();
    if n < 0 {
        push_char(&mut out, '-');
        let m: u64 = ((-(n + 1)) as u64) + 1;
        push_digits(&mut out, m);
        assert(out@ =~= int_text(n as int));
    } else {
        push_digits(&mut out, n as u64);
        assert(out@ =~= int_text(n as int));
    }
    out
}

/// The characters of `s`, in order.
pub fn chars_of(s: &str) -> (r: Vec<char>)
    ensures
        r@ == s@,
{
    broadcast use vstd::string::group_string_axioms;
    let mut out: Vec<char> = Vec::new();
    for c in it: s.chars()
        invariant
            it.seq() == s@,
            out@ == s@.take(it.index() as int),
    {
        out.push(c);
        assert(out@ =~= s@.take(it.index() as int + 1));
    }
    assert(s@.take(s@.len() as int) =~= s@);
    out
}

/// Reads an integer written as `int_value` describes; `None` when the text
/// is no such integer or the integer does not fit in 64 bits.
pub fn parse_int(s: &str) -> (r: Option<i64>)
    ensures
        r is Some <==> (int_value(s@) is Some && fits_i64(int_value(s@)->0)),
        r is Some ==> r->0 as int == int_value(s@)->0,
{
    let cs = chars_of(s);
    let n = cs.len();
    if n == 0 {
        return None;
    }
    let neg = cs[0] == '-';
    let start: usize = if cs[0] == '-' || cs[0] == '+' { 1 } else { 0 };
    if start == n {
        assert(!all_digits(cs@)) by {
            assert(!is_digit(cs@[0]));
        }
        return None;
    }
    let ghost ds = cs@.subrange(start as int, n as int);
    let limit: u64 = if neg { 9223372036854775808 } else { 9223372036854775807 };
    let mut v: u64 = 0;
    let mut i: usize = start;
    while i < n
        invariant
            start <= i <= n,
            n == cs.len(),
            cs@ == s@,
            ds == cs@.subrange(start as int, n as int),
            all_digits(ds.take(i - start)),
            v as int == digits_value(ds.take(i - start)),
            v <= limit,
            n > 0,
            start == (if cs@[0] == '-' || cs@[0] == '+' { 1int } else { 0int }),
            neg == (cs@[0] == '-'),
            limit == (if neg { 9223372036854775808u64 } else { 9223372036854775807u64 }),
        decreases n - i,
    {
        let c = cs[i];
        proof {
            assert(ds[i - start] == c);
        }
        if !('0' <= c && c <= '9') {
            proof {
                assert(!all_digits(ds));
                lemma_int_value_parts(cs@, start as int);
                assert(int_value(cs@) is None);
            }
            return None;
        }
        let d: u64 = (c as u32 - 48) as u64;
        let next: u128 = v as u128 * 10 + d as u128;
        proof {
            let t = ds.take(i - start + 1);
            assert(t.drop_last() =~= ds.take(i - start));
            assert(t.last() == c);
            assert(digit_value(c) == d as int);
            assert(digits_value(t) == next as int);
        }
        if next > limit as u128 {
            proof {
                lemma_int_value_parts(cs@, start as int);
                if all_digits(ds) {
                    lemma_digits_monotone(ds, i - start + 1, ds.len() as int);
                    assert(ds.take(ds.len() as int) =~= ds);
                    assert(digits_value(ds) > limit as int);
                }
            }
            return None;
        }
        v = next as u64;
        proof {
            assert forall|k: int| 0 <= k < i - start + 1 implies is_digit(
                #[trigger] ds.take(i - start + 1)[k],
            ) by {
                if k < i - start {
                    assert(ds.take(i - start + 1)[k] == ds.take(i - start)[k]);
                }
            }
        }
        i = i + 1;
    }
    proof {
        assert(ds.take(n - start) =~= ds);
        lemma_int_value_parts(cs@, start as int);
    }
    if neg {
        if v == 9223372036854775808 {
            Some(-9223372036854775807 - 1)
        } else {
            Some(-(v as i64))
        }
    } else {
        Some(v as i64)
    }
}

} // verus!
