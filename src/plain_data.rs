//! Fixed-layout plain values that can be stored in guest memory as little-endian bytes.
use vstd::prelude::*;

verus! {

/// A value with a fixed byte layout: any sequence of `byte_len()` bytes reads back as a
/// value, and a value written out and read back is unchanged.
pub trait PlainData: Sized + Copy {
    spec fn byte_len() -> nat;

    spec fn spec_to_bytes(self) -> Seq<u8>;

    spec fn spec_from_bytes(b: Seq<u8>) -> Self;

    /// The number of bytes of the layout.
    fn size() -> (r: usize)
        ensures
            r == Self::byte_len(),
    ;

    /// The value's bytes, in little-endian order.
    fn to_bytes(&self) -> (r: Vec<u8>)
        ensures
            r@ == self.spec_to_bytes(),
            r@.len() == Self::byte_len(),
    ;

    /// Reads a value from exactly `byte_len()` little-endian bytes.
    fn from_bytes(b: &[u8]) -> (r: Self)
        requires
            b@.len() == Self::byte_len(),
        ensures
            r == Self::spec_from_bytes(b@),
    ;

    /// Writing a value out and reading it back gives the same value.
    proof fn lemma_round_trip(v: Self)
        ensures
            Self::spec_from_bytes(v.spec_to_bytes()) == v,
            v.spec_to_bytes().len() == Self::byte_len(),
    ;
}

impl PlainData for u8 {
    open spec fn byte_len() -> nat {
        1
    }

    open spec fn spec_to_bytes(self) -> Seq<u8> {
        seq![self]
    }

    open spec fn spec_from_bytes(b: Seq<u8>) -> u8 {
        b[0]
    }

    fn size() -> (r: usize) {
        1
    }

    fn to_bytes(&self) -> (r: Vec<u8>) {
        let mut r: Vec<u8> = Vec::new();
        r.push(*self);
        assert(r@ =~= seq![*self]);
        r
    }

    fn from_bytes(b: &[u8]) -> (r: u8) {
        b[0]
    }

    proof fn lemma_round_trip(v: u8) {
    }
}

impl PlainData for u16 {
    open spec fn byte_len() -> nat {
        2
    }

    open spec fn spec_to_bytes(self) -> Seq<u8> {
        seq![self as u8, (self >> 8u16) as u8]
    }

    open spec fn spec_from_bytes(b: Seq<u8>) -> u16 {
        (b[0] as u16) | ((b[1] as u16) << 8u16)
    }

    fn size() -> (r: usize) {
        2
    }

    fn to_bytes(&self) -> (r: Vec<u8>) {
        let v = *self;
        let mut r: Vec<u8> = Vec::new();
        r.push(v as u8);
        r.push((v >> 8u16) as u8);
        assert(r@ =~= v.spec_to_bytes());
        r
    }

    fn from_bytes(b: &[u8]) -> (r: u16) {
        (b[0] as u16) | ((b[1] as u16) << 8u16)
    }

    proof fn lemma_round_trip(v: u16) {
        let b = v.spec_to_bytes();
        assert(b[0] == v as u8 && b[1] == (v >> 8u16) as u8);
        assert(((v as u8) as u16) | ((((v >> 8u16) as u8) as u16) << 8u16) == v) by (bit_vector);
    }
}

impl PlainData for u32 {
    open spec fn byte_len() -> nat {
        4
    }

    open spec fn spec_to_bytes(self) -> Seq<u8> {
        seq![self as u8, (self >> 8u32) as u8, (self >> 16u32) as u8, (self >> 24u32) as u8]
    }

    open spec fn spec_from_bytes(b: Seq<u8>) -> u32 {
        (b[0] as u32) | ((b[1] as u32) << 8u32) | ((b[2] as u32) << 16u32) | ((b[3] as u32)
            << 24u32)
    }

    fn size() -> (r: usize) {
        4
    }

    fn to_bytes(&self) -> (r: Vec<u8>) {
        let v = *self;
        let mut r: Vec<u8> = Vec::new();
        r.push(v as u8);
        r.push((v >> 8u32) as u8);
        r.push((v >> 16u32) as u8);
        r.push((v >> 24u32) as u8);
        assert(r@ =~= v.spec_to_bytes());
        r
    }

    fn from_bytes(b: &[u8]) -> (r: u32) {
        (b[0] as u32) | ((b[1] as u32) << 8u32) | ((b[2] as u32) << 16u32) | ((b[3] as u32)
            << 24u32)
    }

    proof fn lemma_round_trip(v: u32) {
        let b = v.spec_to_bytes();
        assert(b[0] == v as u8 && b[1] == (v >> 8u32) as u8 && b[2] == (v >> 16u32) as u8 && b[3]
            == (v >> 24u32) as u8);
        assert(((v as u8) as u32) | ((((v >> 8u32) as u8) as u32) << 8u32) | ((((v >> 16u32)
            as u8) as u32) << 16u32) | ((((v >> 24u32) as u8) as u32) << 24u32) == v)
            by (bit_vector);
    }
}

impl PlainData for u64 {
    open spec fn byte_len() -> nat {
        8
    }

    open spec fn spec_to_bytes(self) -> Seq<u8> {
        seq![
            self as u8,
            (self >> 8u64) as u8,
            (self >> 16u64) as u8,
            (self >> 24u64) as u8,
            (self >> 32u64) as u8,
            (self >> 40u64) as u8,
            (self >> 48u64) as u8,
            (self >> 56u64) as u8,
        ]
    }

    open spec fn spec_from_bytes(b: Seq<u8>) -> u64 {
        (b[0] as u64) | ((b[1] as u64) << 8u64) | ((b[2] as u64) << 16u64) | ((b[3] as u64)
            << 24u64) | ((b[4] as u64) << 32u64) | ((b[5] as u64) << 40u64) | ((b[6] as u64)
            << 48u64) | ((b[7] as u64) << 56u64)
    }

    fn size() -> (r: usize) {
        8
    }

    fn to_bytes(&self) -> (r: Vec<u8>) {
        let v = *self;
        let mut r: Vec<u8> = Vec::new();
        r.push(v as u8);
        r.push((v >> 8u64) as u8);
        r.push((v >> 16u64) as u8);
        r.push((v >> 24u64) as u8);
        r.push((v >> 32u64) as u8);
        r.push((v >> 40u64) as u8);
        r.push((v >> 48u64) as u8);
        r.push((v >> 56u64) as u8);
        assert(r@ =~= v.spec_to_bytes());
        r
    }

    fn from_bytes(b: &[u8]) -> (r: u64) {
        (b[0] as u64) | ((b[1] as u64) << 8u64) | ((b[2] as u64) << 16u64) | ((b[3] as u64)
            << 24u64) | ((b[4] as u64) << 32u64) | ((b[5] as u64) << 40u64) | ((b[6] as u64)
            << 48u64) | ((b[7] as u64) << 56u64)
    }

    proof fn lemma_round_trip(v: u64) {
        let b = v.spec_to_bytes();
        assert(b[0] == v as u8 && b[1] == (v >> 8u64) as u8 && b[2] == (v >> 16u64) as u8 && b[3]
            == (v >> 24u64) as u8 && b[4] == (v >> 32u64) as u8 && b[5] == (v >> 40u64) as u8
            && b[6] == (v >> 48u64) as u8 && b[7] == (v >> 56u64) as u8);
        assert(((v as u8) as u64) | ((((v >> 8u64) as u8) as u64) << 8u64) | ((((v >> 16u64)
            as u8) as u64) << 16u64) | ((((v >> 24u64) as u8) as u64) << 24u64) | ((((v
            >> 32u64) as u8) as u64) << 32u64) | ((((v >> 40u64) as u8) as u64) << 40u64) | ((((v
            >> 48u64) as u8) as u64) << 48u64) | ((((v >> 56u64) as u8) as u64) << 56u64) == v)
            by (bit_vector);
    }
}

} // verus!
