//! Equality, ordering and hashing, written once over the projection that
//! every [`Key`] offers, and the std comparison traits of both key shapes.
use crate::key::{BorrowedKey, Key, KeyView, OwnedKey};
use crate::lex::{
    bytes_equal, compare_bytes, lemma_lex_antisymmetric, lemma_lex_equal, lemma_lex_transitive,
    lex_order, reversed,
};
use std::cmp::Ordering;
use std::collections::hash_map::DefaultHasher;
use std::hash::Hasher;
use vstd::prelude::*;
use vstd::std_specs::cmp::{PartialEqSpec, PartialOrdSpec};
use vstd::std_specs::hash::DefaultHasherAdditionalSpecFns;
use vstd::utf8::{encode_utf8, encode_utf8_decode_utf8};

verus! {

/// The UTF-8 bytes of a text, the form in which texts are compared.
pub open spec fn text_bytes(t: Seq<char>) -> Seq<u8> {
    encode_utf8(t)
}

/// The total order of keys: texts first, by their UTF-8 bytes; on equal
/// texts, the byte sequences.
pub open spec fn key_order(a: KeyView, b: KeyView) -> Ordering {
    match lex_order(text_bytes(a.0), text_bytes(b.0)) {
        Ordering::Equal => lex_order(a.1, b.1),
        o => o,
    }
}

/// The eight bytes of `n`, least significant first.
pub open spec fn le_bytes(n: u64) -> Seq<u8> {
    seq![
        n as u8,
        (n >> 8u64) as u8,
        (n >> 16u64) as u8,
        (n >> 24u64) as u8,
        (n >> 32u64) as u8,
        (n >> 40u64) as u8,
        (n >> 48u64) as u8,
        (n >> 56u64) as u8,
    ]
}

/// The writes that hashing a key hands to the hasher, those of the
/// structural hash of its fields: the text's bytes, a byte 0xff that no
/// UTF-8 text holds, the number of bytes as a length prefix, then the bytes.
pub open spec fn hash_writes(k: KeyView) -> Seq<Seq<u8>> {
    seq![text_bytes(k.0), seq![0xffu8], le_bytes(k.1.len() as u64), k.1]
}

/// The hash of a key under a freshly made `DefaultHasher`.
pub open spec fn hash_value(k: KeyView) -> u64 {
    DefaultHasher::spec_finish(hash_writes(k))
}

/// Distinct texts have distinct UTF-8 encodings.
pub proof fn lemma_text_bytes_injective(a: Seq<char>, b: Seq<char>)
    ensures
        (text_bytes(a) == text_bytes(b)) == (a == b),
{
    encode_utf8_decode_utf8(a);
    encode_utf8_decode_utf8(b);
}

/// Keys compare equal exactly when they are the same key.
pub proof fn lemma_key_order_equal(a: KeyView, b: KeyView)
    ensures
        (key_order(a, b) == Ordering::Equal) == (a == b),
{
    lemma_lex_equal(text_bytes(a.0), text_bytes(b.0));
    lemma_lex_equal(a.1, b.1);
    lemma_text_bytes_injective(a.0, b.0);
}

/// Swapping two keys reverses their order.
pub proof fn lemma_key_order_antisymmetric(a: KeyView, b: KeyView)
    ensures
        key_order(b, a) == reversed(key_order(a, b)),
{
    lemma_lex_antisymmetric(text_bytes(a.0), text_bytes(b.0));
    lemma_lex_antisymmetric(a.1, b.1);
}

/// The order of keys is transitive.
pub proof fn lemma_key_order_transitive(a: KeyView, b: KeyView, c: KeyView)
    requires
        key_order(a, b) == Ordering::Less,
        key_order(b, c) == Ordering::Less,
    ensures
        key_order(a, c) == Ordering::Less,
{
    let (ta, tb, tc) = (text_bytes(a.0), text_bytes(b.0), text_bytes(c.0));
    lemma_lex_equal(ta, tb);
    lemma_lex_equal(tb, tc);
    if lex_order(ta, tb) == Ordering::Less && lex_order(tb, tc) == Ordering::Less {
        lemma_lex_transitive(ta, tb, tc);
    } else if lex_order(ta, tb) == Ordering::Equal && lex_order(tb, tc) == Ordering::Equal {
        lemma_lex_transitive(a.1, b.1, c.1);
    }
}

/// Two owned keys are equal exactly when their borrowed projections are, as
/// borrowed keys and through the shared key equality alike.
pub proof fn lemma_eq_consistent(o1: OwnedKey, o2: OwnedKey, b1: BorrowedKey, b2: BorrowedKey)
    requires
        b1@ == o1@,
        b2@ == o2@,
    ensures
        o1.eq_spec(&o2) == b1.eq_spec(&b2),
        o1.eq_spec(&o2) == (b1.key_view() == b2.key_view()),
{
}

/// Two owned keys are ordered as their borrowed projections are, as
/// borrowed keys and through the shared key order alike; the order is total.
pub proof fn lemma_order_consistent(
    o1: OwnedKey,
    o2: OwnedKey,
    b1: BorrowedKey,
    b2: BorrowedKey,
)
    requires
        b1@ == o1@,
        b2@ == o2@,
    ensures
        o1.partial_cmp_spec(&o2) == b1.partial_cmp_spec(&b2),
        o1.partial_cmp_spec(&o2) == Some(key_order(b1.key_view(), b2.key_view())),
        (key_order(o1.key_view(), o2.key_view()) == Ordering::Equal) == o1.eq_spec(&o2),
        key_order(o2.key_view(), o1.key_view()) == reversed(
            key_order(o1.key_view(), o2.key_view()),
        ),
{
    lemma_key_order_equal(o1@, o2@);
    lemma_key_order_antisymmetric(o1@, o2@);
}

/// An owned key and its borrowed projection hand the hasher the same writes,
/// and so hash alike.
pub proof fn lemma_hash_consistent(o: OwnedKey, b: BorrowedKey)
    requires
        b@ == o@,
    ensures
        hash_writes(o.key_view()) == hash_writes(b.key_view()),
        hash_value(o.key_view()) == hash_value(b.key_view()),
{
}

/// Tells whether two keys, of either shape, are the same key.
pub fn key_eq<A: Key, B: Key>(a: &A, b: &B) -> (r: bool)
    ensures
        r == (a.key_view() == b.key_view()),
{
    let x = a.key();
    let y = b.key();
    proof {
        lemma_text_bytes_injective(x.s@, y.s@);
    }
    bytes_equal(x.s.as_bytes(), y.s.as_bytes()) && bytes_equal(x.bytes, y.bytes)
}

/// Orders two keys, of either shape.
pub fn key_cmp<A: Key, B: Key>(a: &A, b: &B) -> (r: Ordering)
    ensures
        r == key_order(a.key_view(), b.key_view()),
{
    let x = a.key();
    let y = b.key();
    match compare_bytes(x.s.as_bytes(), y.s.as_bytes()) {
        Ordering::Equal => compare_bytes(x.bytes, y.bytes),
        o => o,
    }
}

/// Orders two keys, of either shape; keys are always comparable.
pub fn key_partial_cmp<A: Key, B: Key>(a: &A, b: &B) -> (r: Option<Ordering>)
    ensures
        r == Some(key_order(a.key_view(), b.key_view())),
{
    Some(key_cmp(a, b))
}

/// The length prefix that a byte slice's hash writes: `n` in eight bytes,
/// least significant first, as `usize::to_ne_bytes` gives it on a 64-bit
/// little-endian target.
fn length_prefix(n: u64) -> (r: [u8; 8])
    ensures
        r@ == le_bytes(n),
{
    let r: [u8; 8] = [
        n as u8,
        (n >> 8u64) as u8,
        (n >> 16u64) as u8,
        (n >> 24u64) as u8,
        (n >> 32u64) as u8,
        (n >> 40u64) as u8,
        (n >> 48u64) as u8,
        (n >> 56u64) as u8,
    ];
    assert(r@ =~= le_bytes(n));
    r
}

/// Feeds a key, of either shape, to a hasher, making the writes that the
/// derived `Hash` of either shape makes on a `DefaultHasher`: the text as a
/// `str` hashes (its bytes, then 0xff), then the bytes as a `[u8]` hashes
/// (a length prefix, then the bytes).
pub fn key_hash<K: Key>(k: &K, state: &mut DefaultHasher)
    ensures
        final(state)@ == old(state)@ + hash_writes(k.key_view()),
{
    let x = k.key();
    let sep: [u8; 1] = [0xffu8];
    let sep_slice = sep.as_slice();
    assert(sep_slice@ =~= seq![0xffu8]);
    state.write(x.s.as_bytes());
    state.write(sep_slice);
    let prefix = length_prefix(x.bytes.len() as u64);
    state.write(prefix.as_slice());
    state.write(x.bytes);
    assert(final(state)@ =~= old(state)@ + hash_writes(k.key_view()));
}

/// Hashes a key, of either shape, with a freshly made `DefaultHasher`.
pub fn key_hash_value<K: Key>(k: &K) -> (r: u64)
    ensures
        r == hash_value(k.key_view()),
{
    let mut state = DefaultHasher::new();
    key_hash(k, &mut state);
    assert(state@ =~= hash_writes(k.key_view()));
    state.finish()
}

impl PartialEq for OwnedKey {
    fn eq(&self, other: &OwnedKey) -> (r: bool) {
        key_eq(self, other)
    }
}

impl vstd::std_specs::cmp::PartialEqSpecImpl for OwnedKey {
    open spec fn obeys_eq_spec() -> bool {
        true
    }

    open spec fn eq_spec(&self, other: &OwnedKey) -> bool {
        self@ == other@
    }
}

impl PartialOrd for OwnedKey {
    fn partial_cmp(&self, other: &OwnedKey) -> (r: Option<Ordering>) {
        key_partial_cmp(self, other)
    }
}

impl vstd::std_specs::cmp::PartialOrdSpecImpl for OwnedKey {
    open spec fn obeys_partial_cmp_spec() -> bool {
        true
    }

    open spec fn partial_cmp_spec(&self, other: &OwnedKey) -> Option<Ordering> {
        Some(key_order(self@, other@))
    }
}

impl<'a> PartialEq for BorrowedKey<'a> {
    fn eq(&self, other: &BorrowedKey<'a>) -> (r: bool) {
        key_eq(self, other)
    }
}

impl<'a> vstd::std_specs::cmp::PartialEqSpecImpl for BorrowedKey<'a> {
    open spec fn obeys_eq_spec() -> bool {
        true
    }

    open spec fn eq_spec(&self, other: &BorrowedKey<'a>) -> bool {
        self@ == other@
    }
}

impl<'a> PartialOrd for BorrowedKey<'a> {
    fn partial_cmp(&self, other: &BorrowedKey<'a>) -> (r: Option<Ordering>) {
        key_partial_cmp(self, other)
    }
}

impl<'a> vstd::std_specs::cmp::PartialOrdSpecImpl for BorrowedKey<'a> {
    open spec fn obeys_partial_cmp_spec() -> bool {
        true
    }

    open spec fn partial_cmp_spec(&self, other: &BorrowedKey<'a>) -> Option<Ordering> {
        Some(key_order(self@, other@))
    }
}

} // verus!
