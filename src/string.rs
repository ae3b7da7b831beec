//! Classic bounded C-string operations on caller-owned buffers.
//!
//! A buffer is a slice of signed bytes; the slice's length is the bound that
//! every operation is held to. A string ends at its first zero byte.
use vstd::prelude::*;

verus! {

/// A C `char`, signed as in the kernel's C code.
#[allow(non_camel_case_types)]
pub type c_char = i8;

/// The buffer holds a zero byte somewhere.
pub open spec fn has_nul(s: Seq<c_char>) -> bool {
    exists|i: int| 0 <= i < s.len() && s[i] == 0
}

/// The first zero byte at or after `i`, or `s.len()` if there is none.
pub open spec fn nul_from(s: Seq<c_char>, i: int) -> int
    decreases s.len() - i,
{
    if i >= s.len() {
        s.len() as int
    } else if s[i] == 0 {
        i
    } else {
        nul_from(s, i + 1)
    }
}

/// The length of the string in `s`: the number of bytes before the first zero
/// byte (the whole buffer if it has none).
pub open spec fn c_len(s: Seq<c_char>) -> int {
    nul_from(s, 0)
}

/// `nul_from` is the first zero byte at or after `i`.
pub proof fn lemma_nul_from(s: Seq<c_char>, i: int)
    requires
        0 <= i <= s.len(),
    ensures
        i <= nul_from(s, i) <= s.len(),
        forall|j: int| i <= j < nul_from(s, i) ==> s[j] != 0,
        nul_from(s, i) < s.len() ==> s[nul_from(s, i)] == 0,
    decreases s.len() - i,
{
    if i < s.len() && s[i] != 0 {
        lemma_nul_from(s, i + 1);
    }
}

/// The length of a zero-terminated buffer's string is the count of non-zero
/// bytes before its first zero byte, and that zero byte lies in the buffer.
pub proof fn lemma_c_len(s: Seq<c_char>)
    requires
        has_nul(s),
    ensures
        0 <= c_len(s) < s.len(),
        s[c_len(s)] == 0,
        forall|j: int| 0 <= j < c_len(s) ==> s[j] != 0,
{
    lemma_nul_from(s, 0);
    let z = choose|z: int| 0 <= z < s.len() && s[z] == 0;
    assert(c_len(s) <= z);
}

/// The length of the zero-terminated string in `s`.
pub fn strlen(s: &[c_char]) -> (n: isize)
    requires
        has_nul(s@),
        s@.len() <= isize::MAX,
    ensures
        n == c_len(s@),
        0 <= n < s@.len(),
        s@[n as int] == 0,
        forall|j: int| 0 <= j < n ==> s@[j] != 0,
{
    proof {
        lemma_c_len(s@);
    }
    let mut n: usize = 0;
    while s[n] != 0
        invariant
            0 <= n <= c_len(s@) < s@.len(),
            s@[c_len(s@)] == 0,
            forall|j: int| 0 <= j < c_len(s@) ==> s@[j] != 0,
        decreases c_len(s@) - n,
    {
        n = n + 1;
    }
    n as isize
}

/// The result of comparing `s` with `t` from index `i` on, at indices below
/// `n`: the difference of the first differing pair of bytes, or 0 once a zero
/// byte of `s` has matched or the bound is reached.
pub open spec fn compare_from(s: Seq<c_char>, t: Seq<c_char>, i: int, n: int) -> int
    decreases n - i,
{
    if i >= n {
        0
    } else if s[i] != t[i] {
        s[i] - t[i]
    } else if s[i] == 0 {
        0
    } else {
        compare_from(s, t, i + 1, n)
    }
}

/// The bounded comparison of the strings in `s` and `t` over at most `n` bytes.
pub open spec fn compare(s: Seq<c_char>, t: Seq<c_char>, n: int) -> int {
    compare_from(s, t, 0, n)
}

/// Every index that the comparison from `i` on reads lies in both buffers.
/// The scan is bounded by `n` and by the first zero byte of `s`, not by that
/// of `t`: a `t` shorter than `s` is read past its end unless a byte differs
/// first.
pub open spec fn compare_reads_in(s: Seq<c_char>, t: Seq<c_char>, i: int, n: int) -> bool
    decreases n - i,
{
    i >= n || (i < s.len() && i < t.len() && (s[i] != t[i] || s[i] == 0
        || compare_reads_in(s, t, i + 1, n)))
}

/// Compares at most `n` bytes of the strings in `s` and `t`: 0 when they
/// agree up to the end of `s`'s string or the bound, else `s`'s byte minus
/// `t`'s at the first difference.
pub fn strncmp(s: &[c_char], t: &[c_char], n: usize) -> (r: isize)
    requires
        compare_reads_in(s@, t@, 0, n as int),
    ensures
        r == compare(s@, t@, n as int),
{
    let mut i: usize = 0;
    while i < n
        invariant
            i <= n,
            compare(s@, t@, n as int) == compare_from(s@, t@, i as int, n as int),
            compare_reads_in(s@, t@, i as int, n as int),
        decreases n - i,
    {
        let l = s[i];
        let r = t[i];
        if l != r {
            return l as isize - r as isize;
        }
        if l == 0 {
            return 0;
        }
        i = i + 1;
    }
    0
}

/// `dst` after its first `n` bytes have been overwritten by those of `src`.
pub open spec fn copied(dst: Seq<c_char>, src: Seq<c_char>, n: int) -> Seq<c_char> {
    Seq::new(dst.len(), |i: int| if i < n { src[i] } else { dst[i] })
}

/// Copies exactly `n` bytes of `t` into `s`, zero bytes included and with no
/// terminator added; leaves `s` as it was when `n <= 0`. Returns `s`.
pub fn strncpy<'a>(s: &'a mut [c_char], t: &[c_char], n: isize) -> (r: &'a [c_char])
    requires
        n <= 0 || (n <= old(s)@.len() && n <= t@.len()),
    ensures
        n <= 0 ==> final(s)@ == old(s)@,
        n > 0 ==> final(s)@ == copied(old(s)@, t@, n as int),
        r@ == final(s)@,
{
    if n <= 0 {
        return s;
    }
    let n = n as usize;
    let mut i: usize = 0;
    while i < n
        invariant
            i <= n <= s@.len(),
            n <= t@.len(),
            s@.len() == old(s)@.len(),
            forall|j: int| 0 <= j < i ==> s@[j] == t@[j],
            forall|j: int| i <= j < s@.len() ==> s@[j] == old(s)@[j],
        decreases n - i,
    {
        s[i] = t[i];
        i = i + 1;
    }
    assert(s@ == copied(old(s)@, t@, n as int));
    s
}

/// `dst` after a terminating copy of `src` bounded by `n`: the string of `src`,
/// cut to `n - 1` bytes, then zero bytes up to index `n - 1`, then the rest
/// of `dst` unchanged.
pub open spec fn safe_copied(dst: Seq<c_char>, src: Seq<c_char>, n: int) -> Seq<c_char> {
    let k = if c_len(src) < n - 1 {
        c_len(src)
    } else {
        n - 1
    };
    Seq::new(dst.len(), |i: int| if i < k { src[i] } else if i < n { 0 } else { dst[i] })
}

/// Copies the string in `t` into `s`, at most `n - 1` bytes of it, and fills
/// `s` with zero bytes up to index `n - 1`, so that the first `n` bytes of `s`
/// always hold a terminated string; leaves `s` as it was when `n <= 0`.
/// Returns `s`.
pub fn safestrcpy<'a>(s: &'a mut [c_char], t: &[c_char], n: isize) -> (r: &'a [c_char])
    requires
        n <= 0 || (n <= old(s)@.len() && (n - 1 <= t@.len() || has_nul(t@))),
    ensures
        n <= 0 ==> final(s)@ == old(s)@,
        n > 0 ==> final(s)@ == safe_copied(old(s)@, t@, n as int),
        n > 0 ==> has_nul(final(s)@.subrange(0, n as int)),
        r@ == final(s)@,
{
    if n <= 0 {
        return s;
    }
    let n = n as usize;
    let last = n - 1;
    proof {
        lemma_nul_from(t@, 0);
    }
    let mut i: usize = 0;
    while i < last && t[i] != 0
        invariant
            i <= last < n <= s@.len(),
            last <= t@.len() || c_len(t@) < t@.len(),
            i <= c_len(t@) <= t@.len(),
            c_len(t@) < t@.len() ==> t@[c_len(t@)] == 0,
            forall|j: int| 0 <= j < c_len(t@) ==> t@[j] != 0,
            s@.len() == old(s)@.len(),
            forall|j: int| 0 <= j < i ==> s@[j] == t@[j],
            forall|j: int| i <= j < s@.len() ==> s@[j] == old(s)@[j],
        decreases last - i,
    {
        s[i] = t[i];
        i = i + 1;
    }
    let copied_len = i;
    assert(copied_len == if c_len(t@) < n - 1 { c_len(t@) } else { n - 1 });
    while i < n
        invariant
            copied_len <= i <= n <= s@.len(),
            s@.len() == old(s)@.len(),
            forall|j: int| 0 <= j < copied_len ==> s@[j] == t@[j],
            forall|j: int| copied_len <= j < i ==> s@[j] == 0,
            forall|j: int| i <= j < s@.len() ==> s@[j] == old(s)@[j],
        decreases n - i,
    {
        s[i] = 0;
        i = i + 1;
    }
    assert(s@ == safe_copied(old(s)@, t@, n as int));
    assert(s@.subrange(0, n as int)[last as int] == 0);
    s
}

/// A comparison of two zero-terminated buffers never reads outside them,
/// whatever the bound: the scan stops at the first difference, and at the
/// latest where the shorter string ends.
pub proof fn lemma_compare_reads_in(s: Seq<c_char>, t: Seq<c_char>, i: int, n: int)
    requires
        has_nul(s),
        has_nul(t),
        0 <= i <= c_len(s),
        i <= c_len(t),
    ensures
        compare_reads_in(s, t, i, n),
    decreases c_len(s) - i,
{
    lemma_c_len(s);
    lemma_c_len(t);
    if i < n && s[i] == t[i] && s[i] != 0 {
        lemma_compare_reads_in(s, t, i + 1, n);
    }
}

proof fn lemma_compare_from_reflexive(s: Seq<c_char>, i: int, n: int)
    ensures
        compare_from(s, s, i, n) == 0,
    decreases n - i,
{
    if i < n {
        lemma_compare_from_reflexive(s, i + 1, n);
    }
}

/// A zero-terminated string compares equal to itself over its length and
/// terminator, and that comparison stays inside the buffer.
pub proof fn lemma_compare_reflexive(s: Seq<c_char>)
    requires
        has_nul(s),
    ensures
        compare_reads_in(s, s, 0, c_len(s) + 1),
        compare(s, s, c_len(s) + 1) == 0,
{
    lemma_c_len(s);
    lemma_compare_reads_in(s, s, 0, c_len(s) + 1);
    lemma_compare_from_reflexive(s, 0, c_len(s) + 1);
}

proof fn lemma_compare_from_antisymmetric(s: Seq<c_char>, t: Seq<c_char>, i: int, n: int)
    ensures
        compare_from(s, t, i, n) == -compare_from(t, s, i, n),
    decreases n - i,
{
    if i < n {
        lemma_compare_from_antisymmetric(s, t, i + 1, n);
    }
}

/// Swapping the operands of a comparison of two zero-terminated strings,
/// bounded by one more than the longer length, negates the result; both
/// comparisons stay inside the buffers.
pub proof fn lemma_compare_antisymmetric(s: Seq<c_char>, t: Seq<c_char>)
    requires
        has_nul(s),
        has_nul(t),
    ensures
        ({
            let n = if c_len(s) >= c_len(t) { c_len(s) + 1 } else { c_len(t) + 1 };
            &&& compare_reads_in(s, t, 0, n)
            &&& compare_reads_in(t, s, 0, n)
            &&& compare(s, t, n) == -compare(t, s, n)
        }),
{
    lemma_c_len(s);
    lemma_c_len(t);
    let n = if c_len(s) >= c_len(t) { c_len(s) + 1 } else { c_len(t) + 1 };
    lemma_compare_reads_in(s, t, 0, n);
    lemma_compare_reads_in(t, s, 0, n);
    lemma_compare_from_antisymmetric(s, t, 0, n);
}

proof fn lemma_compare_from_distinct(s: Seq<c_char>, t: Seq<c_char>, i: int)
    requires
        has_nul(s),
        has_nul(t),
        s.subrange(0, c_len(s)) != t.subrange(0, c_len(t)),
        0 <= i <= c_len(s),
        i <= c_len(t),
        forall|j: int| 0 <= j < i ==> s[j] == t[j],
    ensures
        compare_from(s, t, i, c_len(s) + 1) != 0,
    decreases c_len(s) - i,
{
    lemma_c_len(s);
    lemma_c_len(t);
    if s[i] == t[i] {
        if s[i] == 0 {
            assert(s.subrange(0, c_len(s)) =~= t.subrange(0, c_len(t)));
        } else {
            lemma_compare_from_distinct(s, t, i + 1);
        }
    }
}

/// Two zero-terminated buffers whose strings differ compare unequal over the
/// first one's length and terminator, and that comparison stays inside both.
pub proof fn lemma_compare_distinct(s: Seq<c_char>, t: Seq<c_char>)
    requires
        has_nul(s),
        has_nul(t),
        s.subrange(0, c_len(s)) != t.subrange(0, c_len(t)),
    ensures
        compare_reads_in(s, t, 0, c_len(s) + 1),
        compare(s, t, c_len(s) + 1) != 0,
{
    lemma_c_len(s);
    lemma_c_len(t);
    lemma_compare_reads_in(s, t, 0, c_len(s) + 1);
    lemma_compare_from_distinct(s, t, 0);
}

} // verus!
