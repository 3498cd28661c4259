use vstd::prelude::*;

verus! {

pub open spec fn is_digit(b: u8) -> bool {
    48 <= b <= 57
}

pub open spec fn all_digits(s: Seq<u8>) -> bool {
    forall|i: int| 0 <= i < s.len() ==> is_digit(#[trigger] s[i])
}

/// The number that the decimal digits `s` write.
pub open spec fn digits_value(s: Seq<u8>) -> nat
    decreases s.len(),
{
    if s.len() == 0 {
        0
    } else {
        digits_value(s.drop_last()) * 10 + (s.last() - 48) as nat
    }
}

/// The decimal digits of `n`, without leading zeros.
pub open spec fn decimal_of(n: nat) -> Seq<u8>
    decreases n,
{
    if n < 10 {
        seq![(48 + n) as u8]
    } else {
        decimal_of(n / 10).push((48 + n % 10) as u8)
    }
}

/// The index of the first `b` in `s`, or -1 when there is none.
pub open spec fn first_index_of(s: Seq<u8>, b: u8) -> int
    decreases s.len(),
{
    if s.len() == 0 {
        -1
    } else if s[0] == b {
        0
    } else {
        let k = first_index_of(s.drop_first(), b);
        if k < 0 {
            -1
        } else {
            k + 1
        }
    }
}

pub proof fn lemma_first_index_at(s: Seq<u8>, b: u8, k: int)
    requires
        0 <= k < s.len(),
        s[k] == b,
        forall|j: int| 0 <= j < k ==> #[trigger] s[j] != b,
    ensures
        first_index_of(s, b) == k,
    decreases k,
{
    if k > 0 {
        let t = s.drop_first();
        assert(s[0] != b);
        assert forall|j: int| 0 <= j < k - 1 implies #[trigger] t[j] != b by {
            assert(t[j] == s[j + 1]);
        }
        lemma_first_index_at(t, b, k - 1);
    }
}

pub proof fn lemma_first_index_none(s: Seq<u8>, b: u8)
    requires
        forall|j: int| 0 <= j < s.len() ==> #[trigger] s[j] != b,
    ensures
        first_index_of(s, b) == -1,
    decreases s.len(),
{
    if s.len() > 0 {
        let t = s.drop_first();
        assert(s[0] != b);
        assert forall|j: int| 0 <= j < t.len() implies #[trigger] t[j] != b by {
            assert(t[j] == s[j + 1]);
        }
        lemma_first_index_none(t, b);
    }
}

/// The decimal digits of a number are digits, at least one, and write it.
pub proof fn lemma_decimal_of(n: nat)
    ensures
        decimal_of(n).len() >= 1,
        all_digits(decimal_of(n)),
        digits_value(decimal_of(n)) == n,
    decreases n,
{
    if n < 10 {
        let d = decimal_of(n);
        assert(d.drop_last() =~= Seq::<u8>::empty());
        assert(digits_value(d.drop_last()) == 0);
        assert(digits_value(d) == digits_value(d.drop_last()) * 10 + (d.last() - 48) as nat);
    } else {
        lemma_decimal_of(n / 10);
        let d = decimal_of(n);
        assert(d.drop_last() =~= decimal_of(n / 10));
        assert(d.last() == (48 + n % 10) as u8);
        assert((n / 10) * 10 + n % 10 == n) by (nonlinear_arith);
        assert(digits_value(d) == digits_value(d.drop_last()) * 10 + (d.last() - 48) as nat);
        assert forall|i: int| 0 <= i < d.len() implies is_digit(#[trigger] d[i]) by {
            if i < d.len() - 1 {
                assert(d[i] == decimal_of(n / 10)[i]);
            }
        }
    }
}

/// A string of digits writes a number at least as large as any of its prefixes does.
pub proof fn lemma_digits_prefix(s: Seq<u8>, m: int)
    requires
        0 <= m <= s.len(),
        all_digits(s),
    ensures
        digits_value(s) >= digits_value(s.subrange(0, m)),
    decreases s.len(),
{
    if m < s.len() {
        let t = s.drop_last();
        assert(all_digits(t)) by {
            assert forall|i: int| 0 <= i < t.len() implies is_digit(#[trigger] t[i]) by {
                assert(t[i] == s[i]);
            }
        }
        lemma_digits_prefix(t, m);
        assert(t.subrange(0, m) =~= s.subrange(0, m));
    } else {
        assert(s.subrange(0, m) =~= s);
    }
}

/// Appends the decimal digits of `n` to `out`.
pub fn push_decimal(out: &mut Vec<u8>, n: u32)
    ensures
        final(out)@ == old(out)@ + decimal_of(n as nat),
    decreases n,
{
    if n >= 10 {
        push_decimal(out, n / 10);
    }
    out.push((48 + n % 10) as u8);
    proof {
        if n < 10 {
            assert(decimal_of(n as nat) =~= seq![(48 + n) as u8]);
        }
    }
    assert(final(out)@ =~= old(out)@ + decimal_of(n as nat));
}

/// Whether the first `end` bytes of `s` are exactly `expected`.
pub fn prefix_equals(s: &Vec<u8>, end: usize, expected: &Vec<u8>) -> (r: bool)
    requires
        end <= s@.len(),
    ensures
        r == (s@.subrange(0, end as int) == expected@),
{
    if end != expected.len() {
        return false;
    }
    let mut i: usize = 0;
    while i < end
        invariant
            end == expected@.len(),
            end <= s@.len(),
            i <= end,
            forall|j: int| 0 <= j < i ==> s@[j] == expected@[j],
        decreases end - i,
    {
        if s[i] != expected[i] {
            assert(s@.subrange(0, end as int)[i as int] != expected@[i as int]);
            return false;
        }
        i = i + 1;
    }
    assert(s@.subrange(0, end as int) =~= expected@);
    true
}

/// The bytes of `s` from `from` up to `to`.
pub fn copy_range(s: &Vec<u8>, from: usize, to: usize) -> (r: Vec<u8>)
    requires
        from <= to <= s@.len(),
    ensures
        r@ == s@.subrange(from as int, to as int),
{
    let mut out: Vec<u8> = Vec::new();
    let mut i: usize = from;
    while i < to
        invariant
            from <= i <= to,
            to <= s@.len(),
            out@ == s@.subrange(from as int, i as int),
        decreases to - i,
    {
        out.push(s[i]);
        assert(out@ =~= s@.subrange(from as int, i as int + 1));
        i = i + 1;
    }
    out
}

/// Whether `b` separates the numbers of a line: a space or a tab.
pub open spec fn is_blank(b: u8) -> bool {
    b == 32 || b == 9
}

/// The first index from `i` on where `s` holds no blank.
pub open spec fn skip_blanks(s: Seq<u8>, i: int) -> int
    decreases s.len() - i,
{
    if 0 <= i < s.len() && is_blank(s[i]) {
        skip_blanks(s, i + 1)
    } else {
        i
    }
}

/// The first index from `i` on where `s` holds no digit.
pub open spec fn digits_end(s: Seq<u8>, i: int) -> int
    decreases s.len() - i,
{
    if 0 <= i < s.len() && is_digit(s[i]) {
        digits_end(s, i + 1)
    } else {
        i
    }
}

/// The number written at `i` in `s`, with the index just past it: at least
/// one digit, for a value that fits in `u32`.
pub open spec fn number_at(s: Seq<u8>, i: int) -> Option<(u32, int)> {
    let e = digits_end(s, i);
    if e > i && digits_value(s.subrange(i, e)) <= u32::MAX {
        Some((digits_value(s.subrange(i, e)) as u32, e))
    } else {
        None
    }
}

/// The index past `i` blanks and one number, with the number.
pub open spec fn field_at(s: Seq<u8>, i: int) -> Option<(u32, int)> {
    number_at(s, skip_blanks(s, i))
}

pub fn skip_blanks_exec(s: &Vec<u8>, i: usize) -> (r: usize)
    requires
        i <= s@.len(),
    ensures
        r == skip_blanks(s@, i as int),
        i <= r <= s@.len(),
{
    let mut j = i;
    while j < s.len() && (s[j] == 32 || s[j] == 9)
        invariant
            i <= j <= s@.len(),
            skip_blanks(s@, i as int) == skip_blanks(s@, j as int),
        decreases s@.len() - j,
    {
        j = j + 1;
    }
    j
}

pub fn number_at_exec(s: &Vec<u8>, i: usize) -> (r: Option<(u32, usize)>)
    requires
        i <= s@.len(),
    ensures
        match r {
            Some((v, e)) => number_at(s@, i as int) == Some((v, e as int)),
            None => number_at(s@, i as int) is None,
        },
        r matches Some((v, e)) ==> i < e <= s@.len(),
{
    let n = s.len();
    let mut e = i;
    while e < n && s[e] >= 48 && s[e] <= 57
        invariant
            n == s@.len(),
            i <= e <= n,
            digits_end(s@, i as int) == digits_end(s@, e as int),
            all_digits(s@.subrange(i as int, e as int)),
        decreases n - e,
    {
        assert(all_digits(s@.subrange(i as int, e as int + 1))) by {
            assert forall|k: int| 0 <= k < e + 1 - i implies is_digit(
                #[trigger] s@.subrange(i as int, e as int + 1)[k],
            ) by {
                if k < e - i {
                    assert(s@.subrange(i as int, e as int + 1)[k] == s@.subrange(
                        i as int,
                        e as int,
                    )[k]);
                }
            }
        }
        e = e + 1;
    }
    let ghost t = s@.subrange(i as int, e as int);
    assert(digits_end(s@, e as int) == e as int);
    if e == i {
        return None;
    }
    let mut j = i;
    let mut val: u64 = 0;
    while j < e
        invariant
            n == s@.len(),
            i <= j <= e <= n,
            t == s@.subrange(i as int, e as int),
            digits_end(s@, i as int) == e as int,
            all_digits(t),
            val == digits_value(s@.subrange(i as int, j as int)),
            val <= u32::MAX,
        decreases e - j,
    {
        let ghost pre = s@.subrange(i as int, j as int);
        let ghost next = s@.subrange(i as int, j as int + 1);
        assert(next.drop_last() =~= pre);
        assert(is_digit(t[j - i]));
        val = val * 10 + (s[j] - 48) as u64;
        assert(val == digits_value(next));
        if val > u32::MAX as u64 {
            proof {
                lemma_digits_prefix(t, j - i + 1);
                assert(t.subrange(0, j - i + 1) =~= next);
            }
            return None;
        }
        j = j + 1;
    }
    assert(s@.subrange(i as int, j as int) =~= t);
    Some((val as u32, e))
}

pub fn field_at_exec(s: &Vec<u8>, i: usize) -> (r: Option<(u32, usize)>)
    requires
        i <= s@.len(),
    ensures
        match r {
            Some((v, e)) => field_at(s@, i as int) == Some((v, e as int)),
            None => field_at(s@, i as int) is None,
        },
        r matches Some((v, e)) ==> i < e <= s@.len(),
{
    let a = skip_blanks_exec(s, i);
    number_at_exec(s, a)
}

} // verus!
