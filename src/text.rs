//! Small text helpers shared by the sanitizer, the hasher and the rewriter.
use vstd::prelude::*;
use vstd::utf8::*;
use vstd::string::*;

verus! {

/// Collects the characters of `s` into a vector.
pub fn chars_of(s: &str) -> (r: Vec<char>)
    ensures
        r@ == s@,
{
    let mut out: Vec<char> = Vec::new();
    for c in it: s.chars()
        invariant
            it.seq() == s@,
            out@ == it.seq().subrange(0, it.index() as int),
    {
        out.push(c);
        assert(out@ =~= it.seq().subrange(0, it.index() + 1));
    }
    assert(out@ =~= s@);
    out
}

/// Relies on `FromIterator<char>` for `String`: the string holds exactly the given characters.
#[verifier::external_body]
pub fn string_from_chars(v: &Vec<char>) -> (r: String)
    ensures
        r@ == v@,
{
    v.iter().collect::<String>()
}

/// Whether `a` and `b` hold the same characters.
pub fn str_equals(a: &str, b: &str) -> (r: bool)
    ensures
        r == (a@ == b@),
{
    let n = a.unicode_len();
    let m = b.unicode_len();
    if n != m {
        return false;
    }
    let mut i: usize = 0;
    while i < n
        invariant
            n == a@.len(),
            m == b@.len(),
            n == m,
            i <= n,
            forall|k: int| 0 <= k < i ==> a@[k] == b@[k],
        decreases n - i,
    {
        if a.get_char(i) != b.get_char(i) {
            return false;
        }
        i = i + 1;
    }
    assert(a@ =~= b@);
    true
}

/// Boundaries of a valid byte sequence stay boundaries, shifted, in a piece cut
/// out of it at two boundaries.
pub proof fn lemma_boundary_in_piece(b: Seq<u8>, lo: int, hi: int, k: int)
    requires
        valid_utf8(b),
        0 <= lo <= k <= hi <= b.len(),
        is_char_boundary(b, lo),
        is_char_boundary(b, hi),
        is_char_boundary(b, k),
    ensures
        valid_utf8(b.subrange(lo, hi)),
        is_char_boundary(b.subrange(lo, hi), k - lo),
{
    broadcast use valid_utf8_split, is_char_boundary_start_end_of_seq;

    let head = b.subrange(0, hi);
    valid_utf8_split(b, hi);
    assert(valid_utf8(head));
    if lo < hi {
        is_char_boundary_iff_not_is_continuation_byte(b, lo);
        is_char_boundary_iff_not_is_continuation_byte(head, lo);
    }
    valid_utf8_split(head, lo);
    assert(head.subrange(lo, head.len() as int) =~= b.subrange(lo, hi));
    let piece = b.subrange(lo, hi);
    if k < hi {
        is_char_boundary_iff_not_is_continuation_byte(b, k);
        is_char_boundary_iff_not_is_continuation_byte(piece, k - lo);
    } else {
        is_char_boundary_start_end_of_seq(piece);
    }
}

/// The bytes of `s` from `start` to `end`, where both are character boundaries.
pub fn byte_slice(s: &str, start: usize, end: usize) -> (r: Option<&str>)
    ensures
        r is Some <==> (start <= end <= s.spec_bytes().len() && is_char_boundary(
            s.spec_bytes(),
            start as int,
        ) && is_char_boundary(s.spec_bytes(), end as int)),
        r is Some ==> r->0.spec_bytes() == s.spec_bytes().subrange(start as int, end as int),
{
    broadcast use encode_utf8_valid_utf8;

    if !(start <= end && s.is_char_boundary(start) && s.is_char_boundary(end)) {
        return None;
    }
    let ghost b = s.spec_bytes();
    proof {
        lemma_boundary_in_piece(b, 0, end as int, start as int);
        assert(b.subrange(0, end as int) =~= b.subrange(0, end as int).subrange(0, end as int));
    }
    let (head, _) = s.split_at(end);
    proof {
        assert(head.spec_bytes() =~= b.subrange(0, end as int));
    }
    let (_, piece) = head.split_at(start);
    proof {
        assert(piece.spec_bytes() =~= b.subrange(start as int, end as int));
    }
    Some(piece)
}

} // verus!
