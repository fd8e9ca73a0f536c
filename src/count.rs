use vstd::prelude::*;
use crate::report::DEFAULT_TOP;

verus! {

/// `c` is an ASCII decimal digit.
pub open spec fn is_digit(c: char) -> bool {
    '0' <= c && c <= '9'
}

/// The number that the decimal digits `s` write.
pub open spec fn digits_value(s: Seq<char>) -> int
    decreases s.len(),
{
    if s.len() == 0 {
        0
    } else {
        10 * digits_value(s.drop_last()) + (s.last() as u32 - '0' as u32)
    }
}

/// The digits of a count: what follows one optional leading `'+'`.
pub open spec fn count_digits(s: Seq<char>) -> Seq<char> {
    if s.len() > 0 && s[0] == '+' {
        s.subrange(1, s.len() as int)
    } else {
        s
    }
}

/// `s` writes a positive count that fits in a `usize`.
pub open spec fn valid_count(s: Seq<char>) -> bool {
    let d = count_digits(s);
    &&& d.len() > 0
    &&& forall|i: int| 0 <= i < d.len() ==> is_digit(#[trigger] d[i])
    &&& 0 < digits_value(d) <= usize::MAX
}

/// How many application rows the argument `s` asks for: the count it
/// writes, or the default where it writes none.
pub open spec fn top_count_of(s: Seq<char>) -> int {
    if valid_count(s) {
        digits_value(count_digits(s))
    } else {
        DEFAULT_TOP as int
    }
}

proof fn lemma_digits_prefix(d: Seq<char>, k: int)
    requires
        0 <= k <= d.len(),
        forall|i: int| 0 <= i < d.len() ==> is_digit(#[trigger] d[i]),
    ensures
        0 <= digits_value(d.subrange(0, k)) <= digits_value(d),
    decreases d.len() - k,
{
    if k < d.len() {
        lemma_digits_prefix(d, k + 1);
        assert(d.subrange(0, k + 1).drop_last() =~= d.subrange(0, k));
        assert(d.subrange(0, k + 1).last() == d[k]);
    } else {
        assert(d.subrange(0, k) =~= d);
        lemma_digits_nonneg(d);
    }
}

proof fn lemma_digits_nonneg(d: Seq<char>)
    requires
        forall|i: int| 0 <= i < d.len() ==> is_digit(#[trigger] d[i]),
    ensures
        digits_value(d) >= 0,
    decreases d.len(),
{
    if d.len() > 0 {
        let init = d.drop_last();
        assert forall|i: int| 0 <= i < init.len() implies is_digit(#[trigger] init[i]) by {
            assert(init[i] == d[i]);
        }
        lemma_digits_nonneg(init);
    }
}

/// The number of application rows to show for the argument `arg`: the
/// positive count it writes in decimal (after an optional `'+'`), or
/// `DEFAULT_TOP` where it is empty, zero, negative, malformed or too large.
pub fn parse_top_count(arg: &str) -> (r: usize)
    ensures
        r == top_count_of(arg@),
        r > 0,
{
    let n = arg.unicode_len();
    let mut start: usize = 0;
    if n > 0 && arg.get_char(0) == '+' {
        start = 1;
    }
    let ghost d = count_digits(arg@);
    assert(d =~= arg@.subrange(start as int, n as int));
    if start >= n {
        return DEFAULT_TOP;
    }
    let mut value: u128 = 0;
    let mut i: usize = start;
    while i < n
        invariant
            n == arg@.len(),
            start <= i <= n,
            d == arg@.subrange(start as int, n as int),
            d == count_digits(arg@),
            forall|j: int| 0 <= j < i - start ==> is_digit(#[trigger] d[j]),
            value == digits_value(d.subrange(0, i - start)),
            value <= usize::MAX,
        decreases n - i,
    {
        let c = arg.get_char(i);
        if !('0' <= c && c <= '9') {
            assert(d[i - start] == c);
            assert(!is_digit(d[i - start]));
            return DEFAULT_TOP;
        }
        let ghost k = i - start;
        assert(d.subrange(0, k + 1).drop_last() =~= d.subrange(0, k));
        assert(d.subrange(0, k + 1).last() == c);
        assert(d[k] == c);
        assert(digits_value(d.subrange(0, k + 1)) == 10 * value + (c as u32 - '0' as u32));
        value = 10 * value + ((c as u32 - '0' as u32) as u128);
        i += 1;
        if value > usize::MAX as u128 {
            proof {
                if forall|j: int| 0 <= j < d.len() ==> is_digit(#[trigger] d[j]) {
                    lemma_digits_prefix(d, k + 1);
                }
            }
            return DEFAULT_TOP;
        }
    }
    assert(d.subrange(0, d.len() as int) =~= d);
    if value == 0 {
        return DEFAULT_TOP;
    }
    value as usize
}

} // verus!
