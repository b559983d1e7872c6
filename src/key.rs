//! The two shapes of a key and the projection that both offer.
use vstd::prelude::*;

verus! {

/// What a key means: its text, then its bytes.
pub type KeyView = (Seq<char>, Seq<u8>);

/// A key whose fields own their storage.
#[derive(Clone, Debug, Eq, Ord, Hash)]
pub struct OwnedKey {
    pub s: String,
    pub bytes: Vec<u8>,
}

/// A key made of two references into storage owned elsewhere.
#[derive(Copy, Clone, Debug, Eq, Ord, Hash)]
pub struct BorrowedKey<'a> {
    pub s: &'a str,
    pub bytes: &'a [u8],
}

impl View for OwnedKey {
    type V = KeyView;

    open spec fn view(&self) -> KeyView {
        (self.s@, self.bytes@)
    }
}

impl<'a> View for BorrowedKey<'a> {
    type V = KeyView;

    open spec fn view(&self) -> KeyView {
        (self.s@, self.bytes@)
    }
}

impl OwnedKey {
    /// Makes an owned key from its text and its bytes.
    pub fn new(s: String, bytes: Vec<u8>) -> (r: OwnedKey)
        ensures
            r@ == (s@, bytes@),
    {
        OwnedKey { s, bytes }
    }
}

impl<'a> BorrowedKey<'a> {
    /// Makes a borrowed key from a text and a byte slice.
    pub fn new(s: &'a str, bytes: &'a [u8]) -> (r: BorrowedKey<'a>)
        ensures
            r@ == (s@, bytes@),
    {
        BorrowedKey { s, bytes }
    }
}

/// A value that can present itself as a borrowed key.
pub trait Key {
    /// The key this value stands for.
    spec fn key_view(&self) -> KeyView;

    /// The canonical borrowed projection of this value.
    fn key(&self) -> (r: BorrowedKey<'_>)
        ensures
            r@ == self.key_view(),
    ;
}

impl Key for OwnedKey {
    open spec fn key_view(&self) -> KeyView {
        self@
    }

    /// Refers to this key's own fields; nothing is copied.
    fn key(&self) -> (r: BorrowedKey<'_>) {
        BorrowedKey { s: self.s.as_str(), bytes: self.bytes.as_slice() }
    }
}

impl<'a> Key for BorrowedKey<'a> {
    open spec fn key_view(&self) -> KeyView {
        self@
    }

    /// A copy of this key, whose references may live shorter.
    fn key(&self) -> (r: BorrowedKey<'_>) {
        *self
    }
}

} // verus!
