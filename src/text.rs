//! UTF-8 text seen as bytes: decoding a buffer and cutting it at ASCII delimiters.

use vstd::prelude::*;
use vstd::string::StringSliceAdditionalSpecFns;
use vstd::utf8::*;

verus! {

broadcast use vstd::utf8::group_utf8_lib;

/// Relies on `std::str::from_utf8`: it succeeds exactly on valid UTF-8, and the
/// text it returns is made of those same bytes.
#[verifier::external_body]
pub(crate) fn utf8_text(bytes: &[u8]) -> (r: Option<&str>)
    ensures
        r is Some <==> valid_utf8(bytes@),
        r matches Some(t) ==> t.spec_bytes() == bytes@,
{
    std::str::from_utf8(bytes).ok()
}

/// An ASCII byte.
pub open spec fn is_ascii_byte(c: u8) -> bool {
    c <= 0x7f
}

/// The position just after an ASCII byte is a character boundary.
pub proof fn lemma_boundary_after_ascii(b: Seq<u8>, i: int)
    requires
        valid_utf8(b),
        0 <= i < b.len(),
        is_ascii_byte(b[i]),
    ensures
        is_char_boundary(b, i + 1),
    decreases b.len(),
{
    reveal_with_fuel(is_char_boundary, 2);
    let l = length_of_first_scalar(b);
    if i == 0 {
    } else if i < l {
        assert(is_continuation_byte(b[i]));
    } else {
        let rest = pop_first_scalar(b);
        assert(rest[i - l] == b[i]);
        lemma_boundary_after_ascii(rest, i - l);
    }
}

/// The position of an ASCII byte is a character boundary.
pub proof fn lemma_boundary_at_ascii(b: Seq<u8>, i: int)
    requires
        valid_utf8(b),
        0 <= i < b.len(),
        is_ascii_byte(b[i]),
    ensures
        is_char_boundary(b, i),
{
    is_char_boundary_iff_not_is_continuation_byte(b, i);
}

/// The text made of the bytes `a..b` of `t`, both of them character boundaries.
pub(crate) fn text_between(t: &str, a: usize, b: usize) -> (r: String)
    requires
        a <= b <= t.spec_bytes().len(),
        is_char_boundary(t.spec_bytes(), a as int),
        is_char_boundary(t.spec_bytes(), b as int),
    ensures
        r@ == decode_utf8(t.spec_bytes().subrange(a as int, b as int)),
        encode_utf8(r@) == t.spec_bytes().subrange(a as int, b as int),
{
    let ghost whole = t.spec_bytes();
    proof {
        encode_utf8_valid_utf8(t@);
        valid_utf8_split(whole, b as int);
    }
    let (left, _) = t.split_at(b);
    let ghost lb = left.spec_bytes();
    proof {
        assert(lb =~= whole.subrange(0, b as int));
        is_char_boundary_start_end_of_seq(lb);
        if 0 < a && a < b {
            is_char_boundary_iff_not_is_continuation_byte(whole, a as int);
            is_char_boundary_iff_not_is_continuation_byte(lb, a as int);
        }
    }
    let (_, mid) = left.split_at(a);
    proof {
        assert(mid.spec_bytes() =~= whole.subrange(a as int, b as int));
        encode_utf8_decode_utf8(mid@);
    }
    mid.to_owned()
}

/// Whether two texts hold the same characters, compared byte by byte.
pub(crate) fn same_text(x: &str, y: &str) -> (r: bool)
    ensures
        r == (x@ == y@),
{
    let xb = x.as_bytes();
    let yb = y.as_bytes();
    proof {
        encode_utf8_decode_utf8(x@);
        encode_utf8_decode_utf8(y@);
    }
    if xb.len() != yb.len() {
        return false;
    }
    let mut i: usize = 0;
    while i < xb.len()
        invariant
            xb@.len() == yb@.len(),
            0 <= i <= xb@.len(),
            xb@ == x.spec_bytes(),
            yb@ == y.spec_bytes(),
            forall|j: int| 0 <= j < i ==> xb@[j] == yb@[j],
        decreases xb@.len() - i,
    {
        if xb[i] != yb[i] {
            return false;
        }
        i = i + 1;
    }
    proof {
        assert(xb@ =~= yb@);
    }
    true
}

} // verus!
