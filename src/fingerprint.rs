use vstd::prelude::*;

use crate::text::{chars_of, string_of};

verus! {

/// Width of each half of a stored fingerprint.
pub const CACHE_HASH_PART_LENGTH: usize = 34;

/// A digit or a lowercase letter from `a` to `f`.
pub open spec fn is_lower_hex(c: char) -> bool {
    ('0' <= c <= '9') || ('a' <= c <= 'f')
}

/// The lowercase hex MD5 digest of the UTF-8 bytes of a text.
pub uninterp spec fn md5_hex(s: Seq<char>) -> Seq<char>;

/// Relies on `md5::compute` printed with `{:x}`: the digest is a function of
/// the input bytes, and `Digest`'s `LowerHex` writes each of its 16 bytes as
/// two hex digits.
#[verifier::external_body]
pub fn hash_string(input: &str) -> (r: String)
    ensures
        r@ == md5_hex(input@),
        r@.len() == 32,
        forall|k: int| 0 <= k < r@.len() ==> #[trigger] is_lower_hex(r@[k]),
{
    format!("{:x}", md5::compute(input))
}

/// The key of a card in a fingerprint table.
pub open spec fn key_of(deck: Seq<char>, id: Seq<char>) -> Seq<char> {
    deck + seq!['_'] + id
}

pub fn card_key(deck_name: &str, card_id: &str) -> (r: String)
    ensures
        r@ == key_of(deck_name@, card_id@),
{
    let mut v = chars_of(deck_name);
    v.push('_');
    let id = chars_of(card_id);
    let mut k: usize = 0;
    while k < id.len()
        invariant
            k <= id.len(),
            id@ == card_id@,
            v@ == deck_name@ + seq!['_'] + id@.subrange(0, k as int),
        decreases id.len() - k,
    {
        v.push(id[k]);
        k = k + 1;
        assert(v@ =~= deck_name@ + seq!['_'] + id@.subrange(0, k as int));
    }
    assert(id@.subrange(0, id.len() as int) =~= id@);
    string_of(&v)
}

pub open spec fn zeros(n: nat) -> Seq<char> {
    Seq::new(n, |_i: int| '0')
}

/// How many zeros bring `h` to the width of a half.
pub open spec fn pad_len(h: Seq<char>) -> nat {
    if h.len() < CACHE_HASH_PART_LENGTH {
        (CACHE_HASH_PART_LENGTH - h.len()) as nat
    } else {
        0
    }
}

/// The stored fingerprint: the static hash padded on the right, then the
/// content hash padded on the left.
pub open spec fn composite(static_hash: Seq<char>, content_hash: Seq<char>) -> Seq<char> {
    static_hash + zeros(pad_len(static_hash)) + zeros(pad_len(content_hash)) + content_hash
}

/// The first half of a stored fingerprint.
pub open spec fn static_half(v: Seq<char>) -> Seq<char> {
    if v.len() < CACHE_HASH_PART_LENGTH {
        v
    } else {
        v.subrange(0, CACHE_HASH_PART_LENGTH as int)
    }
}

/// The second half of a stored fingerprint.
pub open spec fn content_half(v: Seq<char>) -> Seq<char> {
    if v.len() < CACHE_HASH_PART_LENGTH {
        Seq::empty()
    } else {
        v.subrange(CACHE_HASH_PART_LENGTH as int, v.len() as int)
    }
}

fn push_zeros(v: &mut Vec<char>, n: usize)
    ensures
        final(v)@ == old(v)@ + zeros(n as nat),
{
    let mut k: usize = 0;
    while k < n
        invariant
            k <= n,
            v@ == old(v)@ + zeros(k as nat),
        decreases n - k,
    {
        v.push('0');
        k = k + 1;
        assert(v@ =~= old(v)@ + zeros(k as nat));
    }
}

/// Joins a static hash and a content hash into one fingerprint whose halves
/// can be compared apart.
pub fn cache_concat_hashes_padding(hash1: &str, hash2: &str) -> (r: String)
    ensures
        r@ == composite(hash1@, hash2@),
{
    let mut v = chars_of(hash1);
    let a = v.len();
    let pad_static: usize = if a < CACHE_HASH_PART_LENGTH {
        CACHE_HASH_PART_LENGTH - a
    } else {
        0
    };
    push_zeros(&mut v, pad_static);
    let h2 = chars_of(hash2);
    let pad_content: usize = if h2.len() < CACHE_HASH_PART_LENGTH {
        CACHE_HASH_PART_LENGTH - h2.len()
    } else {
        0
    };
    push_zeros(&mut v, pad_content);
    let ghost before = v@;
    let mut k: usize = 0;
    while k < h2.len()
        invariant
            k <= h2.len(),
            v@ == before + h2@.subrange(0, k as int),
        decreases h2.len() - k,
    {
        v.push(h2[k]);
        k = k + 1;
        assert(v@ =~= before + h2@.subrange(0, k as int));
    }
    assert(h2@.subrange(0, h2.len() as int) =~= h2@);
    string_of(&v)
}

/// The halves of a fingerprint built from hashes no wider than a half are
/// those hashes, padded.
pub proof fn lemma_composite_halves(static_hash: Seq<char>, content_hash: Seq<char>)
    requires
        static_hash.len() <= CACHE_HASH_PART_LENGTH,
        content_hash.len() <= CACHE_HASH_PART_LENGTH,
    ensures
        static_half(composite(static_hash, content_hash)) == static_hash + zeros(
            pad_len(static_hash),
        ),
        content_half(composite(static_hash, content_hash)) == zeros(pad_len(content_hash))
            + content_hash,
{
    let c = composite(static_hash, content_hash);
    assert(c.len() == 2 * CACHE_HASH_PART_LENGTH);
    assert(c.subrange(0, CACHE_HASH_PART_LENGTH as int) =~= static_hash + zeros(
        pad_len(static_hash),
    ));
    assert(c.subrange(CACHE_HASH_PART_LENGTH as int, c.len() as int) =~= zeros(
        pad_len(content_hash),
    ) + content_hash);
}

/// The first `min(len, width)` characters of `s`.
pub fn static_half_of(s: &String) -> (r: Vec<char>)
    ensures
        r@ == static_half(s@),
{
    let v = chars_of(s.as_str());
    if v.len() < CACHE_HASH_PART_LENGTH {
        v
    } else {
        crate::text::slice_chars(&v, 0, CACHE_HASH_PART_LENGTH)
    }
}

/// What follows the first half of `s`.
pub fn content_half_of(s: &String) -> (r: Vec<char>)
    ensures
        r@ == content_half(s@),
{
    let v = chars_of(s.as_str());
    if v.len() < CACHE_HASH_PART_LENGTH {
        Vec::new()
    } else {
        crate::text::slice_chars(&v, CACHE_HASH_PART_LENGTH, v.len())
    }
}

} // verus!
