//! The order of texts: by the bytes of their UTF-8 form, first difference first.

use vstd::prelude::*;
use vstd::utf8::*;

verus! {

/// `a` comes before `b`: at the first place where they differ it has the smaller
/// byte, or it ends there.
pub open spec fn bytes_before(a: Seq<u8>, b: Seq<u8>) -> bool
    decreases a.len(),
{
    if b.len() == 0 {
        false
    } else if a.len() == 0 {
        true
    } else if a.first() != b.first() {
        a.first() < b.first()
    } else {
        bytes_before(a.drop_first(), b.drop_first())
    }
}

/// `a` comes before `b` in the order of their UTF-8 bytes.
pub open spec fn text_before(a: Seq<char>, b: Seq<char>) -> bool {
    bytes_before(encode_utf8(a), encode_utf8(b))
}

/// Nothing comes before itself.
pub proof fn lemma_bytes_irreflexive(a: Seq<u8>)
    ensures
        !bytes_before(a, a),
    decreases a.len(),
{
    if a.len() > 0 {
        lemma_bytes_irreflexive(a.drop_first());
    }
}

/// Of two different byte sequences one comes before the other.
pub proof fn lemma_bytes_total(a: Seq<u8>, b: Seq<u8>)
    ensures
        bytes_before(a, b) || bytes_before(b, a) || a == b,
    decreases a.len(),
{
    if a.len() > 0 && b.len() > 0 && a.first() == b.first() {
        lemma_bytes_total(a.drop_first(), b.drop_first());
        if a.drop_first() == b.drop_first() {
            assert(a == seq![a.first()] + a.drop_first());
            assert(b == seq![b.first()] + b.drop_first());
        }
    } else if a.len() == 0 && b.len() == 0 {
        assert(a == b);
    }
}

/// What comes before comes before everything after it.
pub proof fn lemma_bytes_transitive(a: Seq<u8>, b: Seq<u8>, c: Seq<u8>)
    requires
        bytes_before(a, b),
        bytes_before(b, c),
    ensures
        bytes_before(a, c),
    decreases a.len(),
{
    if a.len() > 0 && a.first() == b.first() && b.first() == c.first() {
        lemma_bytes_transitive(a.drop_first(), b.drop_first(), c.drop_first());
    }
}

/// The order of texts is a strict total order: no text comes before itself, the
/// relation is transitive, and of two different texts one comes first.
pub proof fn law_text_order(a: Seq<char>, b: Seq<char>, c: Seq<char>)
    ensures
        !text_before(a, a),
        text_before(a, b) && text_before(b, c) ==> text_before(a, c),
        text_before(a, b) || text_before(b, a) || a == b,
        !(text_before(a, b) && text_before(b, a)),
{
    let (x, y, z) = (encode_utf8(a), encode_utf8(b), encode_utf8(c));
    lemma_bytes_irreflexive(x);
    if bytes_before(x, y) && bytes_before(y, z) {
        lemma_bytes_transitive(x, y, z);
    }
    if bytes_before(x, y) && bytes_before(y, x) {
        lemma_bytes_transitive(x, y, x);
    }
    lemma_bytes_total(x, y);
    encode_utf8_decode_utf8(a);
    encode_utf8_decode_utf8(b);
}

/// Whether `a` comes before `b` in the order of their UTF-8 bytes.
pub fn comes_before(a: &str, b: &str) -> (r: bool)
    ensures
        r == text_before(a@, b@),
{
    let x: &[u8] = a.as_bytes();
    let y: &[u8] = b.as_bytes();
    let mut i: usize = 0;
    assert(x@.skip(0) == x@);
    assert(y@.skip(0) == y@);
    while i < x.len() && i < y.len()
        invariant
            x@ == encode_utf8(a@),
            y@ == encode_utf8(b@),
            i <= x@.len(),
            i <= y@.len(),
            bytes_before(x@.skip(i as int), y@.skip(i as int)) == bytes_before(x@, y@),
        decreases x.len() - i,
    {
        assert(x@.skip(i as int).drop_first() == x@.skip(i + 1));
        assert(y@.skip(i as int).drop_first() == y@.skip(i + 1));
        if x[i] != y[i] {
            return x[i] < y[i];
        }
        i = i + 1;
    }
    i < y.len()
}

/// The first difference decides: of two texts whose bytes agree up to some place, the one
/// with the smaller byte there comes first, and one that ends there comes before all that
/// go on.
pub proof fn law_first_difference_decides(a: Seq<u8>, b: Seq<u8>, at: int)
    requires
        0 <= at <= a.len(),
        at < b.len(),
        forall|i: int| 0 <= i < at ==> a[i] == b[i],
        at == a.len() || a[at] < b[at],
    ensures
        bytes_before(a, b),
        !bytes_before(b, a),
    decreases at,
{
    if at > 0 {
        let (x, y) = (a.drop_first(), b.drop_first());
        assert forall|i: int| 0 <= i < at - 1 implies x[i] == y[i] by {
            assert(a[i + 1] == b[i + 1]);
        }
        assert(a[0] == b[0]);
        law_first_difference_decides(x, y, at - 1);
    }
}

/// Texts stand in the order of the bytes of their UTF-8 form.
pub proof fn law_texts_stand_as_their_bytes(a: Seq<char>, b: Seq<char>)
    ensures
        text_before(a, b) == bytes_before(encode_utf8(a), encode_utf8(b)),
{
}

} // verus!
