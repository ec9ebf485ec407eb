//! Byte strings: copying, joining, equality and lexicographic order.
use vstd::prelude::*;
use vstd::string::*;

verus! {

/// Whether `a` comes before `b` in lexicographic order, looking from index `from` on.
pub open spec fn less_from(a: Seq<u8>, b: Seq<u8>, from: int) -> bool
    decreases a.len() - from,
{
    if from < 0 || from >= b.len() {
        false
    } else if from >= a.len() {
        true
    } else if a[from] != b[from] {
        a[from] < b[from]
    } else {
        less_from(a, b, from + 1)
    }
}

/// Strict lexicographic order on byte strings.
pub open spec fn less(a: Seq<u8>, b: Seq<u8>) -> bool {
    less_from(a, b, 0)
}

/// Copies the bytes `source[from..to]`.
pub fn copy_range(source: &Vec<u8>, from: usize, to: usize) -> (copy: Vec<u8>)
    requires
        from <= to <= source.len(),
    ensures
        copy@ == source@.subrange(from as int, to as int),
{
    let mut copy: Vec<u8> = Vec::new();
    let mut i: usize = from;
    while i < to
        invariant
            from <= i <= to <= source.len(),
            copy@ == source@.subrange(from as int, i as int),
        decreases to - i,
    {
        copy.push(source[i]);
        i += 1;
        assert(copy@ =~= source@.subrange(from as int, i as int));
    }
    copy
}

/// Copies a whole byte string.
pub fn copy(source: &Vec<u8>) -> (copy: Vec<u8>)
    ensures
        copy@ == source@,
{
    let copy = copy_range(source, 0, source.len());
    assert(source@.subrange(0, source.len() as int) =~= source@);
    copy
}

/// The bytes of `a` followed by the bytes of `b`.
pub fn join(a: &Vec<u8>, b: &Vec<u8>) -> (joined: Vec<u8>)
    ensures
        joined@ == a@ + b@,
{
    let mut joined = copy(a);
    let mut i: usize = 0;
    while i < b.len()
        invariant
            i <= b.len(),
            joined@ == a@ + b@.subrange(0, i as int),
        decreases b.len() - i,
    {
        joined.push(b[i]);
        i += 1;
        assert(joined@ =~= a@ + b@.subrange(0, i as int));
    }
    assert(b@.subrange(0, b.len() as int) =~= b@);
    joined
}

/// Whether two byte strings hold the same bytes.
pub fn same(a: &Vec<u8>, b: &Vec<u8>) -> (equal: bool)
    ensures
        equal == (a@ == b@),
{
    if a.len() != b.len() {
        return false;
    }
    let mut i: usize = 0;
    while i < a.len()
        invariant
            i <= a.len() == b.len(),
            forall|j: int| 0 <= j < i ==> a@[j] == b@[j],
        decreases a.len() - i,
    {
        if a[i] != b[i] {
            return false;
        }
        i += 1;
    }
    assert(a@ =~= b@);
    true
}

/// Whether `a` comes strictly before `b` in lexicographic order.
pub fn precedes(a: &Vec<u8>, b: &Vec<u8>) -> (before: bool)
    ensures
        before == less(a@, b@),
{
    let mut i: usize = 0;
    loop
        invariant
            i <= a.len(),
            i <= b.len(),
            less_from(a@, b@, i as int) == less(a@, b@),
        decreases a.len() - i,
    {
        if i >= b.len() {
            return false;
        }
        if i >= a.len() {
            return true;
        }
        if a[i] != b[i] {
            return a[i] < b[i];
        }
        i += 1;
    }
}

/// The decimal digits of a number, most significant first.
pub open spec fn decimal_digits(n: nat) -> Seq<u8>
    decreases n,
{
    if n < 10 {
        seq![(48 + n) as u8]
    } else {
        decimal_digits(n / 10).push((48 + n % 10) as u8)
    }
}

/// Writes a number in decimal digits.
pub fn decimal(n: usize) -> (digits: Vec<u8>)
    ensures
        digits@ == decimal_digits(n as nat),
    decreases n,
{
    if n < 10 {
        let mut digits: Vec<u8> = Vec::new();
        digits.push(48 + n as u8);
        assert(digits@ =~= decimal_digits(n as nat));
        digits
    } else {
        let mut digits = decimal(n / 10);
        digits.push(48 + (n % 10) as u8);
        digits
    }
}

/// The bytes of a piece of program text.
pub fn bytes_of(text: &str) -> (bytes: Vec<u8>)
    ensures
        bytes@ == text.spec_bytes(),
{
    text.as_bytes_vec()
}

} // verus!
