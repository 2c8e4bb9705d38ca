//! Per-connection stream encryption: AES-128 in eight-bit cipher feedback
//! mode, armed with a 16-byte key that doubles as the initial feedback
//! block, applied to every byte from the moment it is armed.  The library
//! tracks the plain and wire streams of each cipher as ghost state; the one
//! named fact is `cfb8_decrypt`, the decryption of a wire stream, through
//! which encryption and decryption contracts meet.

use vstd::prelude::*;

verus! {

/// Holds cfb8's encryptor, whose generic bounds Verus cannot declare; the
/// struct is opaque and only the trusted wrappers below touch it.
#[verifier::external_body]
struct EncState {
    inner: cfb8::Encryptor<aes::Aes128>,
}

/// Holds cfb8's decryptor, whose generic bounds Verus cannot declare; the
/// struct is opaque and only the trusted wrappers below touch it.
#[verifier::external_body]
struct DecState {
    inner: cfb8::Decryptor<aes::Aes128>,
}

/// What AES-128 CFB-8 decryption under `key` (also used as the initial
/// feedback block) makes of the wire stream `wire`.  The result depends on
/// the key and the bytes alone.
pub uninterp spec fn cfb8_decrypt(key: Seq<u8>, wire: Seq<u8>) -> Seq<u8>;

/// The encrypting half of a connection's stream cipher, with the streams it
/// has processed since it was armed.
pub struct SendCipher {
    state: EncState,
    key: Ghost<Seq<u8>>,
    plain: Ghost<Seq<u8>>,
    wire: Ghost<Seq<u8>>,
}

/// The decrypting half, with the streams it has processed since it was
/// armed.
pub struct RecvCipher {
    state: DecState,
    key: Ghost<Seq<u8>>,
    plain: Ghost<Seq<u8>>,
    wire: Ghost<Seq<u8>>,
}

impl SendCipher {
    /// The 16-byte key the cipher was armed with.
    pub closed spec fn key_spec(&self) -> Seq<u8> {
        self.key@
    }

    /// Every plaintext byte processed since arming.
    pub closed spec fn plain_stream(&self) -> Seq<u8> {
        self.plain@
    }

    /// Every ciphertext byte processed since arming.
    pub closed spec fn wire_stream(&self) -> Seq<u8> {
        self.wire@
    }

    /// The produced wire stream decrypts back to the fed plain stream; a
    /// cipher that has processed nothing has two empty streams.
    pub open spec fn wf(&self) -> bool {
        self.key_spec().len() == 16 && if self.wire_stream().len() == 0 {
            self.plain_stream().len() == 0
        } else {
            cfb8_decrypt(self.key_spec(), self.wire_stream()) == self.plain_stream()
        }
    }

    /// Relies on cfb8's `Encryptor` with an `aes::Aes128` block cipher,
    /// keyed with `key`, the key doubling as the initial feedback block.
    #[verifier::external_body]
    fn new_inner(key: &[u8; 16]) -> EncState {
        EncState {
            inner: <cfb8::Encryptor<aes::Aes128> as cfb8::cipher::KeyIvInit>::new_from_slices(
                key,
                key,
            ).unwrap(),
        }
    }

    /// A freshly armed encrypting cipher: nothing processed yet.
    pub fn new(key: &[u8; 16]) -> (r: SendCipher)
        ensures
            r.key_spec() == key@,
            r.plain_stream() == Seq::<u8>::empty(),
            r.wire_stream() == Seq::<u8>::empty(),
            r.wf(),
    {
        SendCipher {
            state: Self::new_inner(key),
            key: Ghost(key@),
            plain: Ghost(Seq::empty()),
            wire: Ghost(Seq::empty()),
        }
    }

    /// Relies on cfb8's `Encryptor`: encrypting one byte extends the wire
    /// stream by one byte whose decryption under the same key extends the
    /// plain stream by exactly the byte fed in.
    #[verifier::external_body]
    pub(crate) fn encrypt_byte(&mut self, b: u8) -> (c: u8)
        ensures
            final(self).key_spec() == old(self).key_spec(),
            final(self).plain_stream() == old(self).plain_stream() + seq![b],
            final(self).wire_stream() == old(self).wire_stream() + seq![c],
            cfb8_decrypt(old(self).key_spec(), old(self).wire_stream() + seq![c])
                == old(self).plain_stream() + seq![b],
    {
        let mut block = [b];
        cfb8::cipher::BlockEncryptMut::encrypt_block_mut(
            &mut self.state.inner,
            cfb8::cipher::generic_array::GenericArray::from_mut_slice(&mut block),
        );
        block[0]
    }

    /// Encrypt a buffer, extending both streams by its length.
    pub fn encrypt_buf(&mut self, data: &[u8]) -> (out: Vec<u8>)
        requires
            old(self).wf(),
        ensures
            final(self).wf(),
            final(self).key_spec() == old(self).key_spec(),
            final(self).plain_stream() == old(self).plain_stream() + data@,
            final(self).wire_stream() == old(self).wire_stream() + out@,
            out@.len() == data@.len(),
    {
        let mut out: Vec<u8> = Vec::new();
        let mut i: usize = 0;
        while i < data.len()
            invariant
                i <= data@.len(),
                self.wf(),
                self.key_spec() == old(self).key_spec(),
                self.plain_stream() == old(self).plain_stream() + data@.subrange(0, i as int),
                self.wire_stream() == old(self).wire_stream() + out@,
                out@.len() == i,
            decreases data@.len() - i,
        {
            let c = self.encrypt_byte(data[i]);
            out.push(c);
            assert(self.plain_stream() =~= old(self).plain_stream() + data@.subrange(0, i + 1));
            assert(self.wire_stream() =~= old(self).wire_stream() + out@);
            i = i + 1;
        }
        assert(data@.subrange(0, data@.len() as int) =~= data@);
        out
    }
}

impl RecvCipher {
    /// The 16-byte key the cipher was armed with.
    pub closed spec fn key_spec(&self) -> Seq<u8> {
        self.key@
    }

    /// Every plaintext byte processed since arming.
    pub closed spec fn plain_stream(&self) -> Seq<u8> {
        self.plain@
    }

    /// Every ciphertext byte processed since arming.
    pub closed spec fn wire_stream(&self) -> Seq<u8> {
        self.wire@
    }

    /// The fed wire stream decrypts to the produced plain stream; a cipher
    /// that has processed nothing has two empty streams.
    pub open spec fn wf(&self) -> bool {
        self.key_spec().len() == 16 && if self.wire_stream().len() == 0 {
            self.plain_stream().len() == 0
        } else {
            cfb8_decrypt(self.key_spec(), self.wire_stream()) == self.plain_stream()
        }
    }

    /// Relies on cfb8's `Decryptor` with an `aes::Aes128` block cipher,
    /// keyed with `key`, the key doubling as the initial feedback block.
    #[verifier::external_body]
    fn new_inner(key: &[u8; 16]) -> DecState {
        DecState {
            inner: <cfb8::Decryptor<aes::Aes128> as cfb8::cipher::KeyIvInit>::new_from_slices(
                key,
                key,
            ).unwrap(),
        }
    }

    /// A freshly armed decrypting cipher: nothing processed yet.
    pub fn new(key: &[u8; 16]) -> (r: RecvCipher)
        ensures
            r.key_spec() == key@,
            r.plain_stream() == Seq::<u8>::empty(),
            r.wire_stream() == Seq::<u8>::empty(),
            r.wf(),
    {
        RecvCipher {
            state: Self::new_inner(key),
            key: Ghost(key@),
            plain: Ghost(Seq::empty()),
            wire: Ghost(Seq::empty()),
        }
    }

    /// Relies on cfb8's `Decryptor`: decrypting one byte extends the plain
    /// stream by the decryption of the extended wire stream.
    #[verifier::external_body]
    pub(crate) fn decrypt_byte(&mut self, c: u8) -> (b: u8)
        ensures
            final(self).key_spec() == old(self).key_spec(),
            final(self).wire_stream() == old(self).wire_stream() + seq![c],
            final(self).plain_stream() == old(self).plain_stream() + seq![b],
            cfb8_decrypt(old(self).key_spec(), old(self).wire_stream() + seq![c])
                == old(self).plain_stream() + seq![b],
    {
        let mut block = [c];
        cfb8::cipher::BlockDecryptMut::decrypt_block_mut(
            &mut self.state.inner,
            cfb8::cipher::generic_array::GenericArray::from_mut_slice(&mut block),
        );
        block[0]
    }

    /// Decrypt a buffer, extending both streams by its length.
    pub fn decrypt_buf(&mut self, data: &[u8]) -> (out: Vec<u8>)
        requires
            old(self).wf(),
        ensures
            final(self).wf(),
            final(self).key_spec() == old(self).key_spec(),
            final(self).wire_stream() == old(self).wire_stream() + data@,
            final(self).plain_stream() == old(self).plain_stream() + out@,
            out@.len() == data@.len(),
    {
        let mut out: Vec<u8> = Vec::new();
        let mut i: usize = 0;
        while i < data.len()
            invariant
                i <= data@.len(),
                self.wf(),
                self.key_spec() == old(self).key_spec(),
                self.wire_stream() == old(self).wire_stream() + data@.subrange(0, i as int),
                self.plain_stream() == old(self).plain_stream() + out@,
                out@.len() == i,
            decreases data@.len() - i,
        {
            let b = self.decrypt_byte(data[i]);
            out.push(b);
            assert(self.wire_stream() =~= old(self).wire_stream() + data@.subrange(0, i + 1));
            assert(self.plain_stream() =~= old(self).plain_stream() + out@);
            i = i + 1;
        }
        assert(data@.subrange(0, data@.len() as int) =~= data@);
        out
    }
}

} // verus!
