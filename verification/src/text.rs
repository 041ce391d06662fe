//! Text helpers: verified character-wise string equality, a lexicographic
//! order on character sequences, and the case-folding used for the
//! case-insensitive artist ordering.

use vstd::prelude::*;

verus! {

/// Character-wise string equality, proved against the views.
pub fn str_eq(a: &str, b: &str) -> (r: bool)
    ensures
        r == (a@ == b@),
{
    let la = a.unicode_len();
    let lb = b.unicode_len();
    if la != lb {
        proof {
            assert(a@ != b@);
        }
        return false;
    }
    let mut i: usize = 0;
    while i < la
        invariant
            la == a@.len(),
            la == b@.len(),
            i <= la,
            forall|k: int| 0 <= k < i ==> a@[k] == b@[k],
        decreases la - i,
    {
        if a.get_char(i) != b.get_char(i) {
            proof {
                assert(a@[i as int] != b@[i as int]);
            }
            return false;
        }
        i = i + 1;
    }
    proof {
        assert(a@ =~= b@);
    }
    true
}

/// Lexicographic "less than or equal" on character sequences, comparing by
/// scalar value.
pub open spec fn seq_le(a: Seq<char>, b: Seq<char>) -> bool
    decreases a.len(),
{
    if a.len() == 0 {
        true
    } else if b.len() == 0 {
        false
    } else if (a[0] as u32) < (b[0] as u32) {
        true
    } else if (b[0] as u32) < (a[0] as u32) {
        false
    } else {
        seq_le(a.drop_first(), b.drop_first())
    }
}

pub proof fn lemma_seq_le_total(a: Seq<char>, b: Seq<char>)
    ensures
        seq_le(a, b) || seq_le(b, a),
    decreases a.len(),
{
    if a.len() > 0 && b.len() > 0 && a[0] as u32 == b[0] as u32 {
        lemma_seq_le_total(a.drop_first(), b.drop_first());
    }
}

pub proof fn lemma_seq_le_trans(a: Seq<char>, b: Seq<char>, c: Seq<char>)
    requires
        seq_le(a, b),
        seq_le(b, c),
    ensures
        seq_le(a, c),
    decreases a.len(),
{
    if a.len() > 0 && b.len() > 0 && c.len() > 0 && a[0] as u32 == b[0] as u32 && b[0] as u32
        == c[0] as u32 {
        lemma_seq_le_trans(a.drop_first(), b.drop_first(), c.drop_first());
    }
}

/// The lower-cased form of a character sequence, as str::to_lowercase
/// computes it. The result depends on the characters alone.
pub uninterp spec fn lower_of(s: Seq<char>) -> Seq<char>;

/// Relies on str::to_lowercase: Unicode lower-casing, a function of the
/// characters alone.
#[verifier::external_body]
pub fn lowercase(s: &str) -> (r: String)
    ensures
        r@ == lower_of(s@),
{
    s.to_lowercase()
}

/// Relies on str's `<=`: lexicographic comparison of the UTF-8 bytes, which
/// for valid UTF-8 orders exactly as comparison by character scalar values.
#[verifier::external_body]
pub fn str_le(a: &str, b: &str) -> (r: bool)
    ensures
        r == seq_le(a@, b@),
{
    a <= b
}

/// Case-insensitive "less than or equal" on titles.
pub open spec fn ci_le(a: Seq<char>, b: Seq<char>) -> bool {
    seq_le(lower_of(a), lower_of(b))
}

pub proof fn lemma_ci_le_total(a: Seq<char>, b: Seq<char>)
    ensures
        ci_le(a, b) || ci_le(b, a),
{
    lemma_seq_le_total(lower_of(a), lower_of(b));
}

pub proof fn lemma_ci_le_trans(a: Seq<char>, b: Seq<char>, c: Seq<char>)
    requires
        ci_le(a, b),
        ci_le(b, c),
    ensures
        ci_le(a, c),
{
    lemma_seq_le_trans(lower_of(a), lower_of(b), lower_of(c));
}

} // verus!
