//! Byte-string helpers for capture names, node kinds and query
//! properties.

use vstd::prelude::*;

verus! {

/// Whether two byte strings hold the same bytes.
pub fn bytes_eq(a: &Vec<u8>, b: &Vec<u8>) -> (r: bool)
    ensures
        r == (a@ == b@),
{
    if a.len() != b.len() {
        proof {
            assert(a@ != b@);
        }
        return false;
    }
    let mut i: usize = 0;
    while i < a.len()
        invariant
            i <= a@.len() == b@.len(),
            forall|j: int| 0 <= j < i ==> a@[j] == b@[j],
        decreases a@.len() - i,
    {
        if a[i] != b[i] {
            return false;
        }
        i = i + 1;
    }
    proof {
        assert(a@ =~= b@);
    }
    true
}

/// Whether `a` starts with the bytes of `b`.
pub open spec fn spec_starts_with(a: Seq<u8>, b: Seq<u8>) -> bool {
    b.len() <= a.len() && a.subrange(0, b.len() as int) == b
}

pub fn starts_with(a: &Vec<u8>, b: &Vec<u8>) -> (r: bool)
    ensures
        r == spec_starts_with(a@, b@),
{
    if b.len() > a.len() {
        return false;
    }
    let mut i: usize = 0;
    while i < b.len()
        invariant
            b@.len() <= a@.len(),
            i <= b@.len(),
            forall|j: int| 0 <= j < i ==> a@[j] == b@[j],
        decreases b@.len() - i,
    {
        if a[i] != b[i] {
            proof {
                assert(a@.subrange(0, b@.len() as int)[i as int] != b@[i as int]);
            }
            return false;
        }
        i = i + 1;
    }
    proof {
        assert(a@.subrange(0, b@.len() as int) =~= b@);
    }
    true
}

/// Whether the bytes of `b` occur at position `i` of `a`.
pub open spec fn spec_matches_at(a: Seq<u8>, b: Seq<u8>, i: int) -> bool {
    0 <= i && i + b.len() <= a.len() && a.subrange(i, i + b.len()) == b
}

/// Whether the bytes of `b` occur anywhere in `a`.
pub open spec fn spec_contains_bytes(a: Seq<u8>, b: Seq<u8>) -> bool {
    exists|i: int| spec_matches_at(a, b, i)
}

fn matches_at(a: &Vec<u8>, b: &Vec<u8>, i: usize) -> (r: bool)
    requires
        i + b@.len() <= a@.len(),
    ensures
        r == spec_matches_at(a@, b@, i as int),
{
    let alen = a.len();
    let mut j: usize = 0;
    while j < b.len()
        invariant
            alen == a@.len(),
            i + b@.len() <= a@.len(),
            j <= b@.len(),
            forall|k: int| 0 <= k < j ==> a@[i + k] == b@[k],
        decreases b@.len() - j,
    {
        if a[i + j] != b[j] {
            proof {
                assert(a@.subrange(i as int, i + b@.len())[j as int] != b@[j as int]);
            }
            return false;
        }
        j = j + 1;
    }
    proof {
        assert(a@.subrange(i as int, i + b@.len()) =~= b@);
    }
    true
}

/// Whether `b` occurs as a contiguous run of bytes inside `a`.
pub fn contains_bytes(a: &Vec<u8>, b: &Vec<u8>) -> (r: bool)
    ensures
        r == spec_contains_bytes(a@, b@),
{
    if b.len() > a.len() {
        return false;
    }
    if b.len() == 0 {
        proof {
            assert(a@.subrange(0, 0) =~= b@);
            assert(spec_matches_at(a@, b@, 0));
        }
        return true;
    }
    let mut i: usize = 0;
    let last = a.len() - b.len();
    while i <= last
        invariant
            0 < b@.len() <= a@.len(),
            a@.len() <= usize::MAX,
            last == a@.len() - b@.len(),
            i <= last + 1,
            forall|k: int| 0 <= k < i ==> !spec_matches_at(a@, b@, k),
        decreases last + 1 - i,
    {
        if matches_at(a, b, i) {
            return true;
        }
        i = i + 1;
    }
    false
}

/// An owned copy of a byte string.
pub fn clone_bytes(v: &Vec<u8>) -> (r: Vec<u8>)
    ensures
        r@ == v@,
{
    vstd::slice::slice_to_vec(v.as_slice())
}

/// The bytes of `a` from position `i` on.
pub fn suffix_from(a: &Vec<u8>, i: usize) -> (r: Vec<u8>)
    requires
        i <= a@.len(),
    ensures
        r@ == a@.subrange(i as int, a@.len() as int),
{
    let mut out: Vec<u8> = Vec::new();
    let mut j = i;
    while j < a.len()
        invariant
            i <= j <= a@.len(),
            out@ == a@.subrange(i as int, j as int),
        decreases a@.len() - j,
    {
        out.push(a[j]);
        proof {
            assert(out@ =~= a@.subrange(i as int, j + 1));
        }
        j = j + 1;
    }
    out
}

/// A copy of the bytes of `a` in `[start, end)`.
pub fn slice_of(a: &Vec<u8>, start: usize, end: usize) -> (r: Vec<u8>)
    requires
        start <= end <= a@.len(),
    ensures
        r@ == a@.subrange(start as int, end as int),
{
    let mut out: Vec<u8> = Vec::new();
    let mut j = start;
    while j < end
        invariant
            start <= j <= end <= a@.len(),
            out@ == a@.subrange(start as int, j as int),
        decreases end - j,
    {
        out.push(a[j]);
        proof {
            assert(out@ =~= a@.subrange(start as int, j + 1));
        }
        j = j + 1;
    }
    out
}

/// The value of a string of ASCII digits.
pub open spec fn spec_digits_val(s: Seq<u8>) -> int
    decreases s.len(),
{
    if s.len() == 0 {
        0
    } else {
        spec_digits_val(s.drop_last()) * 10 + (s.last() - 48)
    }
}

/// Whether `s` is a non-empty string of ASCII digits.
pub open spec fn spec_all_digits(s: Seq<u8>) -> bool {
    s.len() > 0 && forall|j: int| 0 <= j < s.len() ==> 48 <= #[trigger] s[j] <= 57
}

/// Parses an unsigned decimal number, rejecting anything that is not a
/// non-empty digit string or whose value does not fit in usize.
pub fn parse_usize(s: &Vec<u8>) -> (r: Option<usize>)
    ensures
        match r {
            Some(v) => spec_all_digits(s@) && v == spec_digits_val(s@),
            None => !spec_all_digits(s@) || spec_digits_val(s@) > usize::MAX,
        },
{
    if s.len() == 0 {
        return None;
    }
    let mut acc: usize = 0;
    let mut i: usize = 0;
    while i < s.len()
        invariant
            0 < s@.len(),
            i <= s@.len(),
            forall|j: int| 0 <= j < i ==> 48 <= #[trigger] s@[j] <= 57,
            acc == spec_digits_val(s@.subrange(0, i as int)),
        decreases s@.len() - i,
    {
        let b = s[i];
        if b < 48 || b > 57 {
            return None;
        }
        let d = (b - 48) as usize;
        if acc > (usize::MAX - d) / 10 {
            proof {
                assert(acc * 10 + d > usize::MAX) by (nonlinear_arith)
                    requires
                        acc > (usize::MAX - d) / 10,
                        d <= 9,
                ;
                if spec_all_digits(s@) {
                    assert(s@.subrange(0, i + 1).drop_last() =~= s@.subrange(0, i as int));
                    assert(spec_digits_val(s@.subrange(0, i + 1)) == acc * 10 + d);
                    lemma_digits_val_grows(s@, i + 1);
                }
            }
            return None;
        }
        proof {
            assert(acc * 10 + d <= usize::MAX) by (nonlinear_arith)
                requires
                    acc <= (usize::MAX - d) / 10,
                    d <= 9,
            ;
            assert(s@.subrange(0, i + 1).drop_last() =~= s@.subrange(0, i as int));
        }
        acc = acc * 10 + d;
        i = i + 1;
    }
    proof {
        assert(s@.subrange(0, s@.len() as int) =~= s@);
    }
    Some(acc)
}

/// A digit string's value only grows as digits are appended.
proof fn lemma_digits_val_grows(s: Seq<u8>, i: int)
    requires
        0 <= i <= s.len(),
        forall|j: int| 0 <= j < s.len() ==> 48 <= #[trigger] s[j] <= 57,
    ensures
        spec_digits_val(s.subrange(0, i)) <= spec_digits_val(s),
    decreases s.len() - i,
{
    if i == s.len() {
        assert(s.subrange(0, i) =~= s);
    } else {
        lemma_digits_val_grows(s, i + 1);
        let a = s.subrange(0, i);
        let b = s.subrange(0, i + 1);
        assert(b.drop_last() =~= a);
        assert(spec_digits_val(b) == spec_digits_val(a) * 10 + (s[i] - 48));
        assert(forall|j: int| 0 <= j < a.len() ==> 48 <= #[trigger] a[j] <= 57);
        lemma_digits_val_nonneg(a);
        assert(spec_digits_val(a) <= spec_digits_val(a) * 10 + (s[i] - 48)) by (nonlinear_arith)
            requires
                spec_digits_val(a) >= 0,
                s[i] >= 48,
        ;
    }
}

proof fn lemma_digits_val_nonneg(s: Seq<u8>)
    requires
        forall|j: int| 0 <= j < s.len() ==> 48 <= #[trigger] s[j] <= 57,
    ensures
        spec_digits_val(s) >= 0,
    decreases s.len(),
{
    if s.len() > 0 {
        lemma_digits_val_nonneg(s.drop_last());
        assert(spec_digits_val(s.drop_last()) * 10 >= 0) by (nonlinear_arith)
            requires
                spec_digits_val(s.drop_last()) >= 0,
        ;
    }
}

} // verus!
