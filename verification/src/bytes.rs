//! Byte-level building blocks: copying, ASCII case folding and search.

use vstd::prelude::*;

verus! {

/// Appends `bytes` to `out`.
pub fn push_bytes(out: &mut Vec<u8>, bytes: &[u8])
    ensures
        final(out)@ == old(out)@ + bytes@,
{
    let mut i: usize = 0;
    while i < bytes.len()
        invariant
            i <= bytes.len(),
            out@ == old(out)@ + bytes@.subrange(0, i as int),
        decreases bytes.len() - i,
    {
        out.push(bytes[i]);
        i += 1;
        assert(old(out)@ + bytes@.subrange(0, i as int) =~= (old(out)@ + bytes@.subrange(
            0,
            i - 1,
        )).push(bytes@[i - 1]));
    }
    assert(bytes@.subrange(0, bytes.len() as int) =~= bytes@);
}

/// Copies the bytes of `s` from `from` up to `to`.
pub fn slice_bytes(s: &Vec<u8>, from: usize, to: usize) -> (r: Vec<u8>)
    requires
        from <= to <= s.len(),
    ensures
        r@ == s@.subrange(from as int, to as int),
{
    let mut r: Vec<u8> = Vec::new();
    let mut i: usize = from;
    while i < to
        invariant
            from <= i <= to <= s.len(),
            r@ == s@.subrange(from as int, i as int),
        decreases to - i,
    {
        r.push(s[i]);
        i += 1;
        assert(s@.subrange(from as int, i as int) =~= s@.subrange(from as int, i - 1).push(
            s@[i - 1],
        ));
    }
    r
}

/// The byte `b` with an ASCII capital letter turned into its small letter;
/// every other byte is left as it is.
pub open spec fn lowered_byte(b: u8) -> u8 {
    if 0x41 <= b <= 0x5A {
        (b + 0x20) as u8
    } else {
        b
    }
}

/// `bytes` with every ASCII capital letter turned into its small letter.
pub open spec fn lowered(bytes: Seq<u8>) -> Seq<u8> {
    Seq::new(bytes.len(), |i: int| lowered_byte(bytes[i]))
}

/// Turns every ASCII capital letter of `bytes` into its small letter.
pub fn lower_bytes(bytes: &Vec<u8>) -> (r: Vec<u8>)
    ensures
        r@ == lowered(bytes@),
{
    let mut r: Vec<u8> = Vec::new();
    let mut i: usize = 0;
    while i < bytes.len()
        invariant
            i <= bytes.len(),
            r@.len() == i,
            forall|j: int| 0 <= j < i ==> r@[j] == lowered_byte(bytes@[j]),
        decreases bytes.len() - i,
    {
        let b: u8 = bytes[i];
        if b >= 0x41 && b <= 0x5A {
            r.push(b + 0x20);
        } else {
            r.push(b);
        }
        i += 1;
    }
    assert(r@ =~= lowered(bytes@));
    r
}

/// Whether `pattern` stands in `s` at position `at`.
pub open spec fn bytes_occur_at(s: Seq<u8>, pattern: Seq<u8>, at: int) -> bool {
    0 <= at && at + pattern.len() <= s.len() && s.subrange(at, at + pattern.len()) == pattern
}

/// Whether `pattern` stands somewhere in `s`.
pub open spec fn bytes_occur(s: Seq<u8>, pattern: Seq<u8>) -> bool {
    exists|at: int| bytes_occur_at(s, pattern, at)
}

/// Whether `pattern` stands in `s` at position `at`.
pub fn bytes_match_at(s: &Vec<u8>, pattern: &[u8], at: usize) -> (b: bool)
    ensures
        b == bytes_occur_at(s@, pattern@, at as int),
{
    if pattern.len() > s.len() || at > s.len() - pattern.len() {
        return false;
    }
    let mut i: usize = 0;
    while i < pattern.len()
        invariant
            i <= pattern.len(),
            at + pattern.len() <= s.len(),
            forall|j: int| 0 <= j < i ==> s@[at + j] == pattern@[j],
        decreases pattern.len() - i,
    {
        if s[at + i] != pattern[i] {
            assert(s@.subrange(at as int, at + pattern.len())[i as int] != pattern@[i as int]);
            return false;
        }
        i += 1;
    }
    assert(s@.subrange(at as int, at + pattern.len()) =~= pattern@);
    true
}

/// Whether `pattern` stands somewhere in `s`.
pub fn contains_bytes(s: &Vec<u8>, pattern: &[u8]) -> (b: bool)
    ensures
        b == bytes_occur(s@, pattern@),
{
    if pattern.len() > s.len() {
        return false;
    }
    let last: usize = s.len() - pattern.len();
    let mut at: usize = 0;
    while at < last
        invariant
            at <= last,
            last == s.len() - pattern.len(),
            forall|k: int| 0 <= k < at ==> !bytes_occur_at(s@, pattern@, k),
        decreases last - at,
    {
        if bytes_match_at(s, pattern, at) {
            return true;
        }
        at += 1;
    }
    bytes_match_at(s, pattern, last)
}

} // verus!
