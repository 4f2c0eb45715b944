//! AES-128 keys and the key-derivation scheme of the mesh.
//!
//! The signing and the encryption key are both derived from the root key
//! by a single AES-128 block encryption over a fixed 16-byte input: an
//! all-zero block for the signing key, a block whose first byte is `0x01`
//! for the encryption key.  A non-zero legacy signing key configured
//! beside the root key takes precedence over the derived one.

use vstd::prelude::*;

use aes::cipher::{BlockEncrypt, KeyInit};

use crate::error::Error;

verus! {

/// A 128-bit AES key.
#[derive(Clone, Copy)]
pub struct Aes128Key([u8; 16]);

impl View for Aes128Key {
    type V = Seq<u8>;

    closed spec fn view(&self) -> Seq<u8> {
        self.0@
    }
}

/// What AES-128 block encryption returns for a key and a 16-byte block.
pub uninterp spec fn aes128_block(key: Seq<u8>, block: Seq<u8>) -> Seq<u8>;

/// Relies on the aes crate (`Aes128::new`, `encrypt_block`): AES-128 block
/// encryption, a function of the key and the block alone.
#[verifier::external_body]
pub(crate) fn aes128_encrypt_block(key: &Aes128Key, block: &[u8; 16]) -> (r: [u8; 16])
    ensures
        r@ == aes128_block(key@, block@),
{
    let cipher = aes::Aes128::new(&key.to_bytes().into());
    let mut b: aes::Block = (*block).into();
    cipher.encrypt_block(&mut b);
    b.into()
}

/// The all-zero 16-byte block.
pub open spec fn zero_block() -> Seq<u8> {
    Seq::new(16, |i: int| 0u8)
}

/// The 16-byte block whose first byte is one, the rest zero.
pub open spec fn one_block() -> Seq<u8> {
    Seq::new(16, |i: int| if i == 0 { 1u8 } else { 0u8 })
}

impl Aes128Key {
    /// The all-zero key.
    pub fn null() -> (r: Self)
        ensures
            r@ == zero_block(),
    {
        let r = Aes128Key([0; 16]);
        proof {
            assert(r@ =~= zero_block());
        }
        r
    }

    /// Whether this is the all-zero key.
    pub open spec fn spec_is_null(&self) -> bool {
        self@ == zero_block()
    }

    /// Whether this is the all-zero key.
    pub fn is_null(&self) -> (r: bool)
        ensures
            r == self.spec_is_null(),
    {
        let mut i: usize = 0;
        while i < 16
            invariant
                i <= 16,
                forall|j: int| 0 <= j < i ==> self@[j] == 0u8,
            decreases 16 - i,
        {
            if self.0[i] != 0 {
                proof {
                    assert(self@[i as int] != zero_block()[i as int]);
                }
                return false;
            }
            i = i + 1;
        }
        proof {
            assert(self@ =~= zero_block());
        }
        true
    }

    /// Reads a key out of a slice, which must hold exactly sixteen bytes.
    pub fn from_slice(b: &[u8]) -> (r: Result<Self, Error>)
        ensures
            b@.len() == 16 ==> (r matches Ok(k) && k@ == b@),
            b@.len() != 16 ==> r == Err::<Self, Error>(Error::KeyLength),
    {
        if b.len() != 16 {
            return Err(Error::KeyLength);
        }
        let mut bb: [u8; 16] = [0; 16];
        let mut i: usize = 0;
        while i < 16
            invariant
                i <= 16,
                b@.len() == 16,
                bb@.len() == 16,
                forall|j: int| 0 <= j < i ==> bb@[j] == b@[j],
            decreases 16 - i,
        {
            bb[i] = b[i];
            i = i + 1;
        }
        proof {
            assert(bb@ =~= b@);
        }
        Ok(Aes128Key(bb))
    }

    pub fn from_bytes(b: [u8; 16]) -> (r: Self)
        ensures
            r@ == b@,
    {
        Aes128Key(b)
    }

    pub fn to_bytes(&self) -> (r: [u8; 16])
        ensures
            r@ == self@,
    {
        self.0
    }

    pub fn to_vec(&self) -> (r: Vec<u8>)
        ensures
            r@ == self@,
    {
        let mut v: Vec<u8> = Vec::new();
        let mut i: usize = 0;
        while i < 16
            invariant
                i <= 16,
                v@ =~= self@.subrange(0, i as int),
            decreases 16 - i,
        {
            v.push(self.0[i]);
            i = i + 1;
        }
        proof {
            assert(v@ =~= self@);
        }
        v
    }
}

/// The signing key derived from a root key: the AES-128 encryption of the
/// all-zero block under the root key.
pub open spec fn spec_signing_key(root_key: Seq<u8>) -> Seq<u8> {
    aes128_block(root_key, zero_block())
}

/// The encryption key derived from a root key: the AES-128 encryption of
/// the block `[0x01, 0, ..., 0]` under the root key.
pub open spec fn spec_encryption_key(root_key: Seq<u8>) -> Seq<u8> {
    aes128_block(root_key, one_block())
}

/// Derives the mesh signing key from the root key.
pub fn get_signing_key(key: Aes128Key) -> (r: Aes128Key)
    ensures
        r@ == spec_signing_key(key@),
{
    let block: [u8; 16] = [0; 16];
    proof {
        assert(block@ =~= zero_block());
    }
    Aes128Key::from_bytes(aes128_encrypt_block(&key, &block))
}

/// Derives the mesh encryption key from the root key.
pub fn get_encryption_key(key: Aes128Key) -> (r: Aes128Key)
    ensures
        r@ == spec_encryption_key(key@),
{
    let mut block: [u8; 16] = [0; 16];
    block[0] = 1;
    proof {
        assert(block@ =~= one_block());
    }
    Aes128Key::from_bytes(aes128_encrypt_block(&key, &block))
}

} // verus!
