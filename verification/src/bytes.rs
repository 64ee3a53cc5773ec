//! Byte-sequence helpers shared by the wire codec: first-occurrence
//! searches, subrange extraction, ASCII lowercasing and decimal numerals.

use vstd::prelude::*;

verus! {

/// True when the two-byte pattern `a, b` occurs nowhere in `s`.
pub open spec fn pair_free(s: Seq<u8>, a: u8, b: u8) -> bool {
    forall|i: int| 0 <= i && i + 1 < s.len() ==> !((#[trigger] s[i]) == a && s[i + 1] == b)
}

/// True when the byte `a` occurs nowhere in `s`.
pub open spec fn byte_free(s: Seq<u8>, a: u8) -> bool {
    forall|i: int| 0 <= i < s.len() ==> (#[trigger] s[i]) != a
}

/// Index of the first occurrence of the two-byte pattern `a, b` in `s`,
/// or -1 when there is none.
pub open spec fn find_pair(s: Seq<u8>, a: u8, b: u8) -> int
    decreases s.len(),
{
    if s.len() < 2 {
        -1
    } else if s[0] == a && s[1] == b {
        0
    } else {
        let r = find_pair(s.skip(1), a, b);
        if r < 0 {
            -1
        } else {
            r + 1
        }
    }
}

/// Index of the first occurrence of the byte `a` in `s`, or -1 when
/// there is none.
pub open spec fn find_byte(s: Seq<u8>, a: u8) -> int
    decreases s.len(),
{
    if s.len() == 0 {
        -1
    } else if s[0] == a {
        0
    } else {
        let r = find_byte(s.skip(1), a);
        if r < 0 {
            -1
        } else {
            r + 1
        }
    }
}

/// `find_pair` returns -1 exactly when the pattern is absent, and
/// otherwise the position of its first occurrence.
pub proof fn lemma_find_pair_spec(s: Seq<u8>, a: u8, b: u8)
    ensures
        find_pair(s, a, b) == -1 ==> pair_free(s, a, b),
        find_pair(s, a, b) != -1 ==> {
            let r = find_pair(s, a, b);
            &&& 0 <= r
            &&& r + 1 < s.len()
            &&& s[r] == a
            &&& s[r + 1] == b
            &&& forall|j: int| 0 <= j < r ==> !((#[trigger] s[j]) == a && s[j + 1] == b)
        },
    decreases s.len(),
{
    if s.len() < 2 {
    } else if s[0] == a && s[1] == b {
    } else {
        lemma_find_pair_spec(s.skip(1), a, b);
        let t = s.skip(1);
        assert forall|i: int| 0 <= i && i + 1 < s.len() implies
            (t[i - 1] == s[i] || i == 0) by {
            if i > 0 {
                assert(t[i - 1] == s[i]);
            }
        }
        if find_pair(t, a, b) == -1 {
            assert forall|i: int| 0 <= i && i + 1 < s.len() implies
                !((#[trigger] s[i]) == a && s[i + 1] == b) by {
                if i > 0 {
                    assert(t[i - 1] == s[i] && t[i] == s[i + 1]);
                }
            }
        } else {
            let r = find_pair(t, a, b);
            assert(s[r + 1] == t[r] && s[r + 2] == t[r + 1]);
            assert forall|j: int| 0 <= j < r + 1 implies
                !((#[trigger] s[j]) == a && s[j + 1] == b) by {
                if j > 0 {
                    assert(t[j - 1] == s[j] && t[j] == s[j + 1]);
                }
            }
        }
    }
}

/// `find_byte` returns -1 exactly when the byte is absent, and
/// otherwise the position of its first occurrence.
pub proof fn lemma_find_byte_spec(s: Seq<u8>, a: u8)
    ensures
        find_byte(s, a) == -1 ==> byte_free(s, a),
        find_byte(s, a) != -1 ==> {
            let r = find_byte(s, a);
            &&& 0 <= r < s.len()
            &&& s[r] == a
            &&& forall|j: int| 0 <= j < r ==> (#[trigger] s[j]) != a
        },
    decreases s.len(),
{
    if s.len() == 0 {
    } else if s[0] == a {
    } else {
        lemma_find_byte_spec(s.skip(1), a);
        let t = s.skip(1);
        if find_byte(t, a) == -1 {
            assert forall|i: int| 0 <= i < s.len() implies (#[trigger] s[i]) != a by {
                if i > 0 {
                    assert(t[i - 1] == s[i]);
                }
            }
        } else {
            let r = find_byte(t, a);
            assert(s[r + 1] == t[r]);
            assert forall|j: int| 0 <= j < r + 1 implies (#[trigger] s[j]) != a by {
                if j > 0 {
                    assert(t[j - 1] == s[j]);
                }
            }
        }
    }
}

/// When the pattern is absent from `u` and `v` begins with it, the first
/// occurrence in `u + v` sits exactly at the seam. (A pattern whose two
/// bytes differ can never straddle the seam, because the byte right after
/// `u` is the pattern's own first byte.)
pub proof fn lemma_find_pair_concat(u: Seq<u8>, v: Seq<u8>, a: u8, b: u8)
    requires
        pair_free(u, a, b),
        a != b,
        v.len() >= 2,
        v[0] == a,
        v[1] == b,
    ensures
        find_pair(u + v, a, b) == u.len(),
{
    let s = u + v;
    assert(s[u.len() as int] == a && s[u.len() as int + 1] == b);
    assert forall|j: int| 0 <= j < u.len() implies
        !((#[trigger] s[j]) == a && s[j + 1] == b) by {
        if j + 1 < u.len() {
            assert(s[j] == u[j] && s[j + 1] == u[j + 1]);
        } else {
            // The straddling position: the byte after `u` is `a`, not `b`.
            assert(s[j + 1] == v[0]);
        }
    }
    lemma_find_pair_spec(s, a, b);
    if find_pair(s, a, b) == -1 {
        assert(!(s[u.len() as int] == a && s[u.len() as int + 1] == b));
        assert(false);
    }
}

/// When the byte is absent from `u` and `v` begins with it, the first
/// occurrence in `u + v` sits exactly at the seam.
pub proof fn lemma_find_byte_concat(u: Seq<u8>, v: Seq<u8>, a: u8)
    requires
        byte_free(u, a),
        v.len() >= 1,
        v[0] == a,
    ensures
        find_byte(u + v, a) == u.len(),
{
    let s = u + v;
    assert(s[u.len() as int] == a);
    assert forall|j: int| 0 <= j < u.len() implies (#[trigger] s[j]) != a by {
        assert(s[j] == u[j]);
    }
    lemma_find_byte_spec(s, a);
    if find_byte(s, a) == -1 {
        assert(!byte_free(s, a));
        assert(false);
    }
}

/// The pattern is absent from a whole concatenation when it is absent
/// from both halves and cannot straddle the seam.
pub proof fn lemma_pair_free_concat(u: Seq<u8>, v: Seq<u8>, a: u8, b: u8)
    requires
        pair_free(u, a, b),
        pair_free(v, a, b),
        u.len() == 0 || v.len() == 0 || !(u.last() == a && v[0] == b),
    ensures
        pair_free(u + v, a, b),
{
    let s = u + v;
    assert forall|i: int| 0 <= i && i + 1 < s.len() implies
        !((#[trigger] s[i]) == a && s[i + 1] == b) by {
        if i + 1 < u.len() {
            assert(s[i] == u[i] && s[i + 1] == u[i + 1]);
        } else if i >= u.len() {
            assert(s[i] == v[i - u.len()] && s[i + 1] == v[i + 1 - u.len()]);
        } else {
            assert(s[i] == u.last() && s[i + 1] == v[0]);
        }
    }
}

/// Exec search for the first occurrence of the two-byte pattern `a, b`.
pub fn seek_pair(s: &Vec<u8>, a: u8, b: u8) -> (r: Option<usize>)
    ensures
        match r {
            Some(i) => find_pair(s@, a, b) == i,
            None => find_pair(s@, a, b) == -1,
        },
{
    proof {
        lemma_find_pair_spec(s@, a, b);
    }
    if s.len() < 2 {
        return None;
    }
    let mut i: usize = 0;
    while i < s.len() - 1
        invariant
            s@.len() >= 2,
            i + 1 <= s@.len(),
            forall|j: int| 0 <= j < i ==> !((#[trigger] s@[j]) == a && s@[j + 1] == b),
            find_pair(s@, a, b) == -1 ==> pair_free(s@, a, b),
            find_pair(s@, a, b) != -1 ==> {
                let r = find_pair(s@, a, b);
                &&& 0 <= r
                &&& r + 1 < s@.len()
                &&& s@[r] == a
                &&& s@[r + 1] == b
                &&& forall|j: int| 0 <= j < r ==> !((#[trigger] s@[j]) == a && s@[j + 1] == b)
            },
        decreases s@.len() - i,
    {
        if s[i] == a && s[i + 1] == b {
            return Some(i);
        }
        i = i + 1;
    }
    None
}

/// Exec search for the first occurrence of the byte `a`.
pub fn seek_byte(s: &Vec<u8>, a: u8) -> (r: Option<usize>)
    ensures
        match r {
            Some(i) => find_byte(s@, a) == i,
            None => find_byte(s@, a) == -1,
        },
{
    proof {
        lemma_find_byte_spec(s@, a);
    }
    let mut i: usize = 0;
    while i < s.len()
        invariant
            i <= s@.len(),
            forall|j: int| 0 <= j < i ==> (#[trigger] s@[j]) != a,
            find_byte(s@, a) == -1 ==> byte_free(s@, a),
            find_byte(s@, a) != -1 ==> {
                let r = find_byte(s@, a);
                &&& 0 <= r < s@.len()
                &&& s@[r] == a
                &&& forall|j: int| 0 <= j < r ==> (#[trigger] s@[j]) != a
            },
        decreases s@.len() - i,
    {
        if s[i] == a {
            return Some(i);
        }
        i = i + 1;
    }
    None
}

/// Copy of `s[from..to]` as a fresh vector.
pub fn subvec(s: &Vec<u8>, from: usize, to: usize) -> (r: Vec<u8>)
    requires
        from <= to <= s@.len(),
    ensures
        r@ == s@.subrange(from as int, to as int),
{
    let mut r: Vec<u8> = Vec::new();
    let mut i: usize = from;
    while i < to
        invariant
            from <= i <= to <= s@.len(),
            r@ == s@.subrange(from as int, i as int),
        decreases to - i,
    {
        r.push(s[i]);
        assert(r@ =~= s@.subrange(from as int, i + 1 as int));
        i = i + 1;
    }
    r
}


/// ASCII lowercase of one byte; bytes outside `A`..`Z` are unchanged.
pub open spec fn lower_byte(b: u8) -> u8 {
    if 65 <= b <= 90 {
        (b + 32) as u8
    } else {
        b
    }
}

/// ASCII lowercase of a whole byte sequence.
pub open spec fn lower(s: Seq<u8>) -> Seq<u8> {
    Seq::new(s.len(), |i: int| lower_byte(s[i]))
}

/// Exec ASCII lowercasing.
pub fn to_lower(s: &Vec<u8>) -> (r: Vec<u8>)
    ensures
        r@ == lower(s@),
{
    let mut r: Vec<u8> = Vec::new();
    let mut i: usize = 0;
    while i < s.len()
        invariant
            i <= s@.len(),
            r@.len() == i,
            forall|j: int| 0 <= j < i ==> r@[j] == lower_byte(#[trigger] s@[j]),
        decreases s@.len() - i,
    {
        let b = s[i];
        if 65 <= b && b <= 90 {
            r.push(b + 32);
        } else {
            r.push(b);
        }
        i = i + 1;
    }
    assert(r@ =~= lower(s@));
    r
}

/// True when `b` is an ASCII decimal digit.
pub open spec fn is_digit(b: u8) -> bool {
    48 <= b <= 57
}

/// True when `s` is made of ASCII decimal digits only.
pub open spec fn all_digits(s: Seq<u8>) -> bool {
    forall|i: int| 0 <= i < s.len() ==> is_digit(#[trigger] s[i])
}

/// The shortest decimal numeral of `n`, as ASCII digit bytes.
pub open spec fn dec_digits(n: nat) -> Seq<u8>
    decreases n,
{
    if n < 10 {
        seq![(48 + n) as u8]
    } else {
        dec_digits(n / 10).push((48 + n % 10) as u8)
    }
}

/// Numeric value of a digit string (left-to-right, base ten).
pub open spec fn dec_value(s: Seq<u8>) -> int
    decreases s.len(),
{
    if s.len() == 0 {
        0
    } else {
        dec_value(s.drop_last()) * 10 + (s.last() - 48)
    }
}

/// The numeral of `n` is a nonempty digit string whose value is `n`.
pub proof fn lemma_dec_digits(n: nat)
    ensures
        dec_digits(n).len() >= 1,
        all_digits(dec_digits(n)),
        dec_value(dec_digits(n)) == n,
    decreases n,
{
    if n < 10 {
        let s = dec_digits(n);
        assert(s.drop_last() =~= Seq::<u8>::empty());
        assert(s.last() == (48 + n) as u8);
        assert(dec_value(s) == dec_value(s.drop_last()) * 10 + (s.last() - 48));
        assert(dec_value(s.drop_last()) == 0);
        assert(s.last() - 48 == n);
    } else {
        lemma_dec_digits(n / 10);
        let p = dec_digits(n / 10);
        let s = dec_digits(n);
        assert(s.drop_last() =~= p);
        assert(s.last() == (48 + n % 10) as u8);
        assert(dec_value(s) == dec_value(p) * 10 + n % 10);
        assert(n / 10 * 10 + n % 10 == n) by {
            vstd::arithmetic::div_mod::lemma_fundamental_div_mod(n as int, 10);
        }
        assert forall|i: int| 0 <= i < s.len() implies is_digit(#[trigger] s[i]) by {
            if i < p.len() {
                assert(s[i] == p[i]);
            }
        }
    }
}

/// A digit string has a non-negative value.
pub proof fn lemma_dec_value_nonneg(s: Seq<u8>)
    requires
        all_digits(s),
    ensures
        dec_value(s) >= 0,
    decreases s.len(),
{
    if s.len() > 0 {
        assert forall|i: int| 0 <= i < s.drop_last().len() implies
            is_digit(#[trigger] s.drop_last()[i]) by {
            assert(s.drop_last()[i] == s[i]);
        }
        lemma_dec_value_nonneg(s.drop_last());
    }
}

/// Extending a digit string can only increase its value.
pub proof fn lemma_dec_value_prefix(s: Seq<u8>, j: int)
    requires
        all_digits(s),
        0 <= j <= s.len(),
    ensures
        dec_value(s.subrange(0, j)) <= dec_value(s),
    decreases s.len() - j,
{
    if j == s.len() {
        assert(s.subrange(0, j) =~= s);
    } else {
        lemma_dec_value_prefix(s, j + 1);
        let p = s.subrange(0, j);
        let q = s.subrange(0, j + 1);
        assert(q.drop_last() =~= p);
        assert(q.last() == s[j]);
        assert forall|i: int| 0 <= i < p.len() implies is_digit(#[trigger] p[i]) by {
            assert(p[i] == s[i]);
        }
        lemma_dec_value_nonneg(p);
        assert(dec_value(q) == dec_value(p) * 10 + (s[j] - 48));
    }
}

/// Exec rendering of `n` as its decimal numeral.
pub fn usize_to_dec(n: usize) -> (r: Vec<u8>)
    ensures
        r@ == dec_digits(n as nat),
    decreases n,
{
    if n < 10 {
        let mut v: Vec<u8> = Vec::new();
        v.push(48 + n as u8);
        assert(v@ =~= dec_digits(n as nat));
        v
    } else {
        let mut v = usize_to_dec(n / 10);
        v.push(48 + (n % 10) as u8);
        assert(v@ =~= dec_digits(n as nat));
        v
    }
}

/// Exec parsing of a decimal numeral. Returns `None` when the input is
/// empty, holds a non-digit, or exceeds the machine's integer range.
pub fn parse_dec(s: &Vec<u8>) -> (r: Option<usize>)
    ensures
        match r {
            Some(v) => s@.len() > 0 && all_digits(s@) && v == dec_value(s@),
            None => s@.len() == 0 || !all_digits(s@) || dec_value(s@) > usize::MAX,
        },
{
    if s.len() == 0 {
        return None;
    }
    let mut acc: usize = 0;
    let mut i: usize = 0;
    while i < s.len()
        invariant
            0 < s@.len(),
            i <= s@.len(),
            all_digits(s@.subrange(0, i as int)),
            acc == dec_value(s@.subrange(0, i as int)),
        decreases s@.len() - i,
    {
        let b = s[i];
        if !(48 <= b && b <= 57) {
            assert(!is_digit(s@[i as int]));
            return None;
        }
        let d = (b - 48) as usize;
        let ghost p = s@.subrange(0, i as int);
        let ghost q = s@.subrange(0, i + 1);
        assert(q.drop_last() =~= p);
        assert(q.last() == s@[i as int]);
        assert forall|k: int| 0 <= k < q.len() implies is_digit(#[trigger] q[k]) by {
            if k < p.len() {
                assert(q[k] == p[k]);
            }
        }
        if acc > (usize::MAX - d) / 10 {
            proof {
                vstd::arithmetic::div_mod::lemma_fundamental_div_mod(
                    usize::MAX - d,
                    10,
                );
                assert(acc * 10 + d > usize::MAX);
                assert(dec_value(q) > usize::MAX);
                if all_digits(s@) {
                    lemma_dec_value_prefix(s@, i + 1);
                }
            }
            return None;
        }
        proof {
            vstd::arithmetic::div_mod::lemma_fundamental_div_mod(usize::MAX - d, 10);
            assert(acc * 10 + d <= usize::MAX);
        }
        acc = acc * 10 + d;
        i = i + 1;
    }
    assert(s@.subrange(0, s@.len() as int) =~= s@);
    Some(acc)
}

/// True when `p` is a prefix of `s`.
pub open spec fn starts_with(s: Seq<u8>, p: Seq<u8>) -> bool {
    s.len() >= p.len() && s.subrange(0, p.len() as int) == p
}

/// Exec prefix test.
pub fn begins_with(s: &Vec<u8>, p: &Vec<u8>) -> (r: bool)
    ensures
        r == starts_with(s@, p@),
{
    if s.len() < p.len() {
        return false;
    }
    let mut i: usize = 0;
    while i < p.len()
        invariant
            s@.len() >= p@.len(),
            i <= p@.len(),
            forall|j: int| 0 <= j < i ==> s@[j] == #[trigger] p@[j],
        decreases p@.len() - i,
    {
        if s[i] != p[i] {
            assert(s@.subrange(0, p@.len() as int)[i as int] != p@[i as int]);
            return false;
        }
        i = i + 1;
    }
    assert(s@.subrange(0, p@.len() as int) =~= p@);
    true
}

/// Exec byte-sequence equality.
pub fn bytes_eq(a: &Vec<u8>, b: &Vec<u8>) -> (r: bool)
    ensures
        r == (a@ == b@),
{
    if a.len() != b.len() {
        return false;
    }
    let mut i: usize = 0;
    while i < a.len()
        invariant
            a@.len() == b@.len(),
            i <= a@.len(),
            forall|j: int| 0 <= j < i ==> a@[j] == #[trigger] b@[j],
        decreases a@.len() - i,
    {
        if a[i] != b[i] {
            return false;
        }
        i = i + 1;
    }
    assert(a@ =~= b@);
    true
}

/// Append every byte of `src` to `dst`.
pub fn append_bytes(dst: &mut Vec<u8>, src: &Vec<u8>)
    ensures
        final(dst)@ == old(dst)@ + src@,
{
    let mut i: usize = 0;
    while i < src.len()
        invariant
            i <= src@.len(),
            dst@ == old(dst)@ + src@.subrange(0, i as int),
        decreases src@.len() - i,
    {
        dst.push(src[i]);
        assert(dst@ =~= old(dst)@ + src@.subrange(0, i + 1));
        i = i + 1;
    }
    assert(dst@ =~= old(dst)@ + src@);
}

} // verus!
