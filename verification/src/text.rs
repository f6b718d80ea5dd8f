//! Case-normalized byte strings.
//!
//! Property names and property values are compared by exact equality after
//! normalization: ASCII upper-case letters are folded to lower case at
//! construction time, so stored text is always in normal form and equality
//! on views is plain sequence equality.

use vstd::prelude::*;

verus! {

/// The normal form of one byte: ASCII upper-case letters fold to lower case,
/// every other byte is unchanged.
pub open spec fn norm_byte(b: u8) -> u8 {
    if 65 <= b && b <= 90 {
        (b + 32) as u8
    } else {
        b
    }
}

/// The normal form of a byte sequence: every byte folded by `norm_byte`.
pub open spec fn norm_seq(s: Seq<u8>) -> Seq<u8> {
    s.map_values(|b: u8| norm_byte(b))
}

/// Folding to normal form twice is the same as folding once.
pub proof fn lemma_norm_idempotent(s: Seq<u8>)
    ensures
        norm_seq(norm_seq(s)) == norm_seq(s),
{
    assert(norm_seq(norm_seq(s)) =~= norm_seq(s));
}

/// A case-normalized piece of text. The constructor folds its input to
/// normal form, so the view of a `Text` is always its own normal form.
pub struct Text {
    pub bytes: Vec<u8>,
}

impl View for Text {
    type V = Seq<u8>;

    open spec fn view(&self) -> Seq<u8> {
        self.bytes@
    }
}

impl Text {
    /// The stored bytes are in normal form.
    pub open spec fn is_norm(self) -> bool {
        norm_seq(self@) == self@
    }

    /// Builds a `Text` from arbitrary bytes, folding them to normal form.
    pub fn new(bytes: Vec<u8>) -> (t: Text)
        ensures
            t@ == norm_seq(bytes@),
            t.is_norm(),
    {
        let folded = normalize_bytes(&bytes);
        proof {
            lemma_norm_idempotent(bytes@);
        }
        Text { bytes: folded }
    }

    /// Equality of two texts, decided byte by byte.
    pub fn equals(&self, other: &Text) -> (r: bool)
        ensures
            r == (self@ == other@),
    {
        bytes_eq(&self.bytes, &other.bytes)
    }
}

/// Returns a copy of `v` with every byte folded to normal form.
pub fn normalize_bytes(v: &Vec<u8>) -> (r: Vec<u8>)
    ensures
        r@ == norm_seq(v@),
{
    let mut out: Vec<u8> = Vec::new();
    let mut i: usize = 0;
    while i < v.len()
        invariant
            i <= v@.len(),
            out@ == norm_seq(v@.take(i as int)),
        decreases v@.len() - i,
    {
        let b = v[i];
        let nb: u8 = if 65 <= b && b <= 90 {
            b + 32
        } else {
            b
        };
        out.push(nb);
        proof {
            assert(v@.take(i + 1) =~= v@.take(i as int).push(v@[i as int]));
            assert(norm_seq(v@.take(i + 1)) =~= norm_seq(v@.take(i as int)).push(norm_byte(v@[i as int])));
        }
        i = i + 1;
    }
    proof {
        assert(v@.take(v@.len() as int) =~= v@);
    }
    out
}

/// A copy of a byte vector.
pub fn copy_bytes(v: &Vec<u8>) -> (r: Vec<u8>)
    ensures
        r@ == v@,
{
    let mut out: Vec<u8> = Vec::new();
    let mut i: usize = 0;
    while i < v.len()
        invariant
            i <= v@.len(),
            out@ == v@.take(i as int),
        decreases v@.len() - i,
    {
        out.push(v[i]);
        proof {
            assert(v@.take(i + 1) =~= v@.take(i as int).push(v@[i as int]));
        }
        i = i + 1;
    }
    proof {
        assert(v@.take(v@.len() as int) =~= v@);
    }
    out
}

/// Byte-for-byte equality of two byte vectors.
pub fn bytes_eq(a: &Vec<u8>, b: &Vec<u8>) -> (r: bool)
    ensures
        r == (a@ == b@),
{
    if a.len() != b.len() {
        return false;
    }
    let mut i: usize = 0;
    while i < a.len()
        invariant
            i <= a@.len(),
            a@.len() == b@.len(),
            forall|k: int| 0 <= k < i ==> a@[k] == b@[k],
        decreases a@.len() - i,
    {
        if a[i] != b[i] {
            return false;
        }
        i = i + 1;
    }
    proof {
        assert(a@ =~= b@);
    }
    true
}

} // verus!
