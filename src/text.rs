//! Byte-level helpers shared by the wire codec: ASCII views of string
//! literals, searching, comparing and decimal numbers.
use vstd::prelude::*;

verus! {

pub const NEWLINE: u8 = 10;

pub const SPACE: u8 = 32;

pub const PLUS: u8 = 43;

pub const SLASH: u8 = 47;

pub const ZERO: u8 = 48;

pub const NINE: u8 = 57;

/// The bytes of an ASCII character sequence.
pub open spec fn ascii(s: Seq<char>) -> Seq<u8> {
    s.map_values(|c: char| c as u8)
}

/// The bytes of an ASCII string literal.
pub fn ascii_bytes(s: &str) -> (r: &[u8])
    requires
        s.is_ascii(),
    ensures
        r@ == ascii(s@),
{
    proof {
        vstd::string::is_ascii_spec_bytes(s);
    }
    let r = s.as_bytes();
    assert(r@ =~= ascii(s@));
    r
}

/// Byte-wise equality of two slices.
pub fn bytes_eq(a: &[u8], b: &[u8]) -> (r: bool)
    ensures
        r == (a@ == b@),
{
    if a.len() != b.len() {
        return false;
    }
    let mut i: usize = 0;
    while i < a.len()
        invariant
            a@.len() == b@.len(),
            i <= a@.len(),
            forall|j: int| 0 <= j < i ==> a@[j] == b@[j],
        decreases a@.len() - i,
    {
        if a[i] != b[i] {
            return false;
        }
        i = i + 1;
    }
    assert(a@ =~= b@);
    true
}

/// Index of the first `c` in `s` at or after `i`, or the length of `s` when
/// there is none.
pub open spec fn find_from(s: Seq<u8>, c: u8, i: int) -> int
    decreases s.len() - i,
{
    if i >= s.len() {
        s.len() as int
    } else if s[i] == c {
        i
    } else {
        find_from(s, c, i + 1)
    }
}

/// Index of the last `c` in `s`, or -1 when there is none.
pub open spec fn find_last(s: Seq<u8>, c: u8) -> int
    decreases s.len(),
{
    if s.len() == 0 {
        -1
    } else if s.last() == c {
        s.len() - 1
    } else {
        find_last(s.drop_last(), c)
    }
}

/// `find_from` lands on a `c` or at the end, passing no `c` on the way.
pub proof fn lemma_find_from_bounds(s: Seq<u8>, c: u8, i: int)
    requires
        0 <= i <= s.len(),
    ensures
        i <= find_from(s, c, i) <= s.len(),
        find_from(s, c, i) < s.len() ==> s[find_from(s, c, i)] == c,
        forall|j: int| i <= j < find_from(s, c, i) ==> s[j] != c,
    decreases s.len() - i,
{
    if i < s.len() && s[i] != c {
        lemma_find_from_bounds(s, c, i + 1);
    }
}

/// `find_last` lands on a `c`, or at -1, with no `c` after it.
pub proof fn lemma_find_last_bounds(s: Seq<u8>, c: u8)
    ensures
        -1 <= find_last(s, c) < s.len(),
        find_last(s, c) >= 0 ==> s[find_last(s, c)] == c,
        forall|j: int| find_last(s, c) < j < s.len() ==> s[j] != c,
    decreases s.len(),
{
    if s.len() > 0 && s.last() != c {
        lemma_find_last_bounds(s.drop_last(), c);
        assert forall|j: int| find_last(s, c) < j < s.len() implies s[j] != c by {
            if j < s.len() - 1 {
                assert(s[j] == s.drop_last()[j]);
            }
        }
    }
}

/// The first `c` in `s` at or after `from`, or `s.len()`.
pub fn find_byte(s: &[u8], c: u8, from: usize) -> (r: usize)
    requires
        from <= s@.len(),
    ensures
        r == find_from(s@, c, from as int),
{
    let mut i = from;
    while i < s.len() && s[i] != c
        invariant
            from <= i <= s@.len(),
            find_from(s@, c, i as int) == find_from(s@, c, from as int),
        decreases s@.len() - i,
    {
        i = i + 1;
    }
    i
}

/// One past the last `c` in `s`, or 0 when `s` holds none.
pub fn after_last_byte(s: &[u8], c: u8) -> (r: usize)
    ensures
        r == find_last(s@, c) + 1,
{
    let mut i = s.len();
    assert(s@.subrange(0, i as int) =~= s@);
    while i > 0 && s[i - 1] != c
        invariant
            i <= s@.len(),
            find_last(s@.subrange(0, i as int), c) == find_last(s@, c),
        decreases i,
    {
        assert(s@.subrange(0, i - 1) =~= s@.subrange(0, i as int).drop_last());
        i = i - 1;
    }
    if i > 0 {
        assert(s@.subrange(0, i as int).last() == s@[i - 1]);
    }
    i
}

pub open spec fn is_digit(b: u8) -> bool {
    ZERO <= b <= NINE
}

/// The value of a run of decimal digits, most significant first.
pub open spec fn digits_value(s: Seq<u8>) -> nat
    decreases s.len(),
{
    if s.len() == 0 {
        0
    } else {
        digits_value(s.drop_last()) * 10 + (s.last() - ZERO) as nat
    }
}

/// `s` without its leading `+`, if it has one.
pub open spec fn unsigned_part(s: Seq<u8>) -> Seq<u8> {
    if s.len() > 0 && s[0] == PLUS {
        s.drop_first()
    } else {
        s
    }
}

/// The 8-bit unsigned number that `s` spells in decimal: an optional `+`,
/// then one or more digits (leading zeros allowed), with a value of at most
/// 255. `None` for anything else.
pub open spec fn decimal_u8(s: Seq<u8>) -> Option<u8> {
    let d = unsigned_part(s);
    if d.len() > 0 && (forall|i: int| 0 <= i < d.len() ==> is_digit(#[trigger] d[i]))
        && digits_value(d) <= 255 {
        Some(digits_value(d) as u8)
    } else {
        None
    }
}

/// The canonical decimal spelling of `n`: no sign, no leading zeros.
pub open spec fn decimal(n: nat) -> Seq<u8>
    decreases n,
{
    if n < 10 {
        seq![(ZERO + n) as u8]
    } else {
        decimal(n / 10).push((ZERO + n % 10) as u8)
    }
}

/// A prefix of a run of digits is worth no more than the whole run.
proof fn lemma_digits_prefix_le(s: Seq<u8>, i: int)
    requires
        0 <= i <= s.len(),
        forall|j: int| 0 <= j < s.len() ==> is_digit(#[trigger] s[j]),
    ensures
        digits_value(s.subrange(0, i)) <= digits_value(s),
    decreases s.len(),
{
    if i < s.len() {
        assert(s.drop_last().subrange(0, i) =~= s.subrange(0, i));
        assert forall|j: int| 0 <= j < s.drop_last().len() implies is_digit(
            #[trigger] s.drop_last()[j],
        ) by {
            assert(s.drop_last()[j] == s[j]);
        }
        lemma_digits_prefix_le(s.drop_last(), i);
    } else {
        assert(s.subrange(0, i) =~= s);
    }
}

/// Reads `s[start..end]` as an 8-bit unsigned decimal number.
pub fn parse_decimal_u8(s: &[u8], start: usize, end: usize) -> (r: Option<u8>)
    requires
        start <= end <= s@.len(),
    ensures
        r == decimal_u8(s@.subrange(start as int, end as int)),
{
    let ghost field = s@.subrange(start as int, end as int);
    let mut i = start;
    if i < end && s[i] == PLUS {
        i = i + 1;
    }
    let ghost d = s@.subrange(i as int, end as int);
    assert(d =~= unsigned_part(field));
    if i == end {
        return None;
    }
    let first = i;
    let mut value: u32 = 0;
    while i < end
        invariant
            first <= i <= end <= s@.len(),
            d == s@.subrange(first as int, end as int),
            field == s@.subrange(start as int, end as int),
            d == unsigned_part(field),
            d.len() > 0,
            value <= 255,
            value == digits_value(d.subrange(0, i - first)),
            forall|j: int| 0 <= j < i - first ==> is_digit(#[trigger] d[j]),
        decreases end - i,
    {
        let b = s[i];
        if b < ZERO || b > NINE {
            assert(d[i - first] == b);
            assert(!is_digit(d[i - first]));
            return None;
        }
        let ghost k = i - first;
        assert(d.subrange(0, k + 1).drop_last() =~= d.subrange(0, k));
        assert(d.subrange(0, k + 1).last() == b);
        value = value * 10 + (b - ZERO) as u32;
        i = i + 1;
        assert(value == digits_value(d.subrange(0, k + 1)));
        if value > 255 {
            proof {
                if forall|j: int| 0 <= j < d.len() ==> is_digit(#[trigger] d[j]) {
                    lemma_digits_prefix_le(d, k + 1);
                }
            }
            return None;
        }
    }
    assert(d.subrange(0, d.len() as int) =~= d);
    Some(value as u8)
}

/// Appends the canonical decimal spelling of `n` to `out`.
pub fn push_decimal(out: &mut Vec<u8>, n: u8)
    ensures
        final(out)@ == old(out)@ + decimal(n as nat),
{
    let ghost start = out@;
    if n >= 100 {
        out.push(ZERO + n / 100);
        out.push(ZERO + n / 10 % 10);
        out.push(ZERO + n % 10);
        proof {
            let v = n as nat;
            assert(decimal(v / 100) == seq![(ZERO + v / 100) as u8]);
            assert(v / 10 / 10 == v / 100);
            assert(decimal(v / 10) == decimal(v / 100).push((ZERO + v / 10 % 10) as u8));
        }
    } else if n >= 10 {
        out.push(ZERO + n / 10);
        out.push(ZERO + n % 10);
        proof {
            let v = n as nat;
            assert(decimal(v / 10) == seq![(ZERO + v / 10) as u8]);
        }
    } else {
        out.push(ZERO + n);
    }
    assert(out@ =~= start + decimal(n as nat));
}

/// `find_from` stops at the first `c` from `i` on.
pub proof fn lemma_find_from_is(s: Seq<u8>, c: u8, i: int, k: int)
    requires
        0 <= i <= k <= s.len(),
        forall|j: int| i <= j < k ==> s[j] != c,
        k == s.len() || s[k] == c,
    ensures
        find_from(s, c, i) == k,
    decreases k - i,
{
    if i < k {
        lemma_find_from_is(s, c, i + 1, k);
    }
}

/// `find_last` finds the last `c`.
pub proof fn lemma_find_last_is(s: Seq<u8>, c: u8, k: int)
    requires
        -1 <= k < s.len(),
        k == -1 || s[k] == c,
        forall|j: int| k < j < s.len() ==> s[j] != c,
    ensures
        find_last(s, c) == k,
    decreases s.len(),
{
    if s.len() > 0 && k < s.len() - 1 {
        let t = s.drop_last();
        assert forall|j: int| k < j < t.len() implies t[j] != c by {
            assert(t[j] == s[j]);
        }
        if k >= 0 {
            assert(t[k] == s[k]);
        }
        lemma_find_last_is(t, c, k);
    }
}

/// The canonical spelling of a number is a nonempty run of digits with
/// that value.
pub proof fn lemma_decimal(n: nat)
    ensures
        decimal(n).len() > 0,
        forall|i: int| 0 <= i < decimal(n).len() ==> is_digit(#[trigger] decimal(n)[i]),
        digits_value(decimal(n)) == n,
    decreases n,
{
    if n >= 10 {
        lemma_decimal(n / 10);
        let d = decimal(n);
        assert(d.drop_last() =~= decimal(n / 10));
        assert(d.last() == (ZERO + n % 10) as u8);
        assert(d.last() - ZERO == n % 10);
        assert(digits_value(d) == digits_value(decimal(n / 10)) * 10 + (d.last() - ZERO) as nat);
        assert((n / 10) * 10 + n % 10 == n) by (nonlinear_arith);
        assert forall|i: int| 0 <= i < d.len() implies is_digit(#[trigger] d[i]) by {
            if i < d.len() - 1 {
                assert(d[i] == decimal(n / 10)[i]);
            }
        }
    } else {
        let d = decimal(n);
        assert(d.drop_last() =~= Seq::<u8>::empty());
        assert(d.last() == (ZERO + n) as u8);
        assert(digits_value(d) == digits_value(d.drop_last()) * 10 + (d.last() - ZERO) as nat);
        assert(digits_value(d.drop_last()) == 0);
    }
}

/// Every 8-bit number reads back from its canonical spelling.
pub proof fn lemma_decimal_u8_round_trip(n: u8)
    ensures
        decimal_u8(decimal(n as nat)) == Some(n),
{
    lemma_decimal(n as nat);
    assert(unsigned_part(decimal(n as nat)) == decimal(n as nat)) by {
        assert(is_digit(decimal(n as nat)[0]));
    }
}

/// Relies on `std::str::from_utf8`: it succeeds exactly when the bytes are
/// well-formed UTF-8.
#[verifier::external_body]
pub(crate) fn is_utf8(bytes: &[u8]) -> (r: bool)
    ensures
        r == vstd::utf8::valid_utf8(bytes@),
{
    std::str::from_utf8(bytes).is_ok()
}

/// Bytes below 0x80 are well-formed UTF-8, one character each.
pub proof fn lemma_ascii_valid_utf8(s: Seq<u8>)
    requires
        forall|i: int| 0 <= i < s.len() ==> #[trigger] s[i] < 128,
    ensures
        vstd::utf8::valid_utf8(s),
    decreases s.len(),
{
    if s.len() > 0 {
        let rest = vstd::utf8::pop_first_scalar(s);
        assert(vstd::utf8::is_leading_byte_width_1(s[0]));
        assert(rest =~= s.subrange(1, s.len() as int));
        assert forall|i: int| 0 <= i < rest.len() implies #[trigger] rest[i] < 128 by {
            assert(rest[i] == s[i + 1]);
        }
        lemma_ascii_valid_utf8(rest);
    }
}

} // verus!
