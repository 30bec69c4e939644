use vstd::prelude::*;

verus! {

/// ASCII lower-casing of one byte; other bytes are left alone.
pub open spec fn lower(b: u8) -> u8 {
    if 65 <= b && b <= 90 {
        (b + 32) as u8
    } else {
        b
    }
}

/// `a` and `b` are equal up to ASCII case.
pub open spec fn same_ignoring_case(a: Seq<u8>, b: Seq<u8>) -> bool {
    a.len() == b.len() && forall|k: int| 0 <= k < a.len() ==> lower(#[trigger] a[k]) == lower(b[k])
}

/// `needle` occurs in `hay` at `i`, up to ASCII case.
pub open spec fn occurs_ignoring_case_at(hay: Seq<u8>, needle: Seq<u8>, i: int) -> bool {
    0 <= i && i + needle.len() <= hay.len() && same_ignoring_case(
        hay.subrange(i, i + needle.len()),
        needle,
    )
}

/// `needle` occurs somewhere in `hay`, up to ASCII case.
pub open spec fn contains_ignoring_case(hay: Seq<u8>, needle: Seq<u8>) -> bool {
    exists|i: int| occurs_ignoring_case_at(hay, needle, i)
}

fn lower_byte(b: u8) -> (r: u8)
    ensures
        r == lower(b),
{
    if 65 <= b && b <= 90 {
        b + 32
    } else {
        b
    }
}

fn matches_at(hay: &[u8], needle: &[u8], i: usize) -> (r: bool)
    requires
        i + needle@.len() <= hay@.len(),
    ensures
        r == occurs_ignoring_case_at(hay@, needle@, i as int),
{
    let n: usize = hay.len();
    let mut k: usize = 0;
    while k < needle.len()
        invariant
            n == hay@.len(),
            i + needle@.len() <= hay@.len(),
            k <= needle@.len(),
            forall|j: int| 0 <= j < k ==> lower(#[trigger] hay@[i + j]) == lower(needle@[j]),
        decreases needle@.len() - k,
    {
        if lower_byte(hay[i + k]) != lower_byte(needle[k]) {
            assert(hay@.subrange(i as int, i + needle@.len())[k as int] == hay@[i + k]);
            return false;
        }
        k = k + 1;
    }
    assert forall|j: int| 0 <= j < needle@.len() implies lower(
        #[trigger] hay@.subrange(i as int, i + needle@.len())[j],
    ) == lower(needle@[j]) by {
        assert(hay@.subrange(i as int, i + needle@.len())[j] == hay@[i + j]);
    }
    true
}

/// Whether `a` and `b` are equal when ASCII letters are compared without case.
pub fn eq_ignore_case(a: &[u8], b: &[u8]) -> (r: bool)
    ensures
        r == same_ignoring_case(a@, b@),
{
    if a.len() != b.len() {
        return false;
    }
    let r = matches_at(a, b, 0);
    assert(a@.subrange(0, b@.len() as int) =~= a@);
    r
}

/// Whether `needle` occurs in `hay` when ASCII letters are compared without case.
pub fn contains_ignore_case(hay: &[u8], needle: &[u8]) -> (r: bool)
    ensures
        r == contains_ignoring_case(hay@, needle@),
{
    if needle.len() > hay.len() {
        return false;
    }
    let last: usize = hay.len() - needle.len();
    let mut i: usize = 0;
    loop
        invariant
            i <= last,
            last + needle@.len() == hay@.len(),
            forall|j: int| 0 <= j < i ==> !occurs_ignoring_case_at(hay@, needle@, j),
        decreases last - i,
    {
        if matches_at(hay, needle, i) {
            return true;
        }
        if i == last {
            return false;
        }
        i = i + 1;
    }
}

} // verus!

verus! {

/// A copy of `v`.
pub fn copy_bytes(v: &Vec<u8>) -> (r: Vec<u8>)
    ensures
        r@ == v@,
{
    let r = v.clone();
    assert(r@ =~= v@);
    r
}

/// Whether `a` and `b` hold the same bytes.
pub fn same_bytes(a: &[u8], b: &[u8]) -> (r: bool)
    ensures
        r == (a@ == b@),
{
    if a.len() != b.len() {
        return false;
    }
    let mut k: usize = 0;
    while k < a.len()
        invariant
            a@.len() == b@.len(),
            k <= a@.len(),
            forall|j: int| 0 <= j < k ==> a@[j] == b@[j],
        decreases a@.len() - k,
    {
        if a[k] != b[k] {
            return false;
        }
        k = k + 1;
    }
    assert(a@ =~= b@);
    true
}

} // verus!
