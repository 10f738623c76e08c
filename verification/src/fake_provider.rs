//! A deterministic crypto fake.
//!
//! Ciphertext layout: `MAGIC(4) || crc32(plaintext)(4) || plaintext ^ keystream
//! || padding`. The keystream is seeded from the provider key and, when context
//! binding is enabled, from the volume UUID, the format version, the
//! compatibility identifier and the unit index, so that a ciphertext that was
//! moved to another unit or volume meets another keystream.
//!
//! Injection points: queued errors, and deliberate violations of the provider
//! contract (reordered, dropped, duplicated, oversized or mislabelled results)
//! for tests of the caller's validation.

use std::collections::hash_map::DefaultHasher;
use std::hash::Hasher;
use vstd::bytes::{u32_from_le_bytes, u32_to_le_bytes, u64_to_le_bytes};
use vstd::prelude::*;
use vstd::std_specs::hash::DefaultHasherAdditionalSpecFns;
use vstd::string::StringSliceAdditionalSpecFns;

use crate::chance::chacha_stream;
use crate::model::copy_bytes;
use crate::text::{join2, join3, same, show};

verus! {

broadcast use vstd::seq::group_seq_axioms;

/// The CRC-32 of a byte string.
pub uninterp spec fn crc32(bytes: Seq<u8>) -> u32;

/// `crc32fast::hash`: the CRC-32 checksum, which the bytes determine.
pub assume_specification[ crc32fast::hash ](buf: &[u8]) -> (r: u32)
    ensures
        r == crc32(buf@),
;

/// The bytes `MKF1` that every ciphertext starts with.
pub open spec fn magic() -> Seq<u8> {
    seq![0x4du8, 0x4bu8, 0x46u8, 0x31u8]
}

/// Deliberate violations of the provider contract.
#[derive(Debug, Clone, Copy, PartialEq, Eq, Structural)]
pub enum Misbehavior {
    /// Swap the first two results.
    ReorderResults,
    /// Drop the last result.
    DropLastItem,
    /// Duplicate the first result.
    DuplicateFirstItem,
    /// Return a ciphertext larger than announced.
    OversizeCiphertext,
    /// Return a result with a wrong unit index.
    MismatchedIndex,
}

/// Why a batch was not processed.
#[derive(Debug)]
pub enum CryptoError {
    /// The provider cannot serve this volume at all.
    ProviderFatal(String),
    /// The provider cannot be reached for now.
    Retryable(String),
    /// The request is wrong and will stay wrong.
    NonRetryableRequest(String),
    /// A ciphertext failed verification.
    Integrity(String),
}

/// What a batch is encrypted for.
#[derive(Debug)]
pub struct CryptoContext {
    pub volume_uuid: [u8; 16],
    pub format_version: u32,
    pub crypto_compatibility_id: String,
}

/// One plaintext unit.
#[derive(Debug)]
pub struct PlaintextUnit {
    pub unit_index: u64,
    pub data: Vec<u8>,
}

/// One ciphertext unit.
#[derive(Debug)]
pub struct CiphertextUnit {
    pub unit_index: u64,
    pub data: Vec<u8>,
}

/// The model of a unit: its index and its bytes.
pub struct Unit {
    pub index: u64,
    pub data: Seq<u8>,
}

impl View for PlaintextUnit {
    type V = Unit;

    open spec fn view(&self) -> Unit {
        Unit { index: self.unit_index, data: self.data@ }
    }
}

impl View for CiphertextUnit {
    type V = Unit;

    open spec fn view(&self) -> Unit {
        Unit { index: self.unit_index, data: self.data@ }
    }
}

impl Clone for CiphertextUnit {
    fn clone(&self) -> (res: Self)
        ensures
            res@ == self@,
    {
        CiphertextUnit { unit_index: self.unit_index, data: copy_bytes(self.data.as_slice()) }
    }
}

/// The models of a list of plaintext units.
pub open spec fn plain_units(v: Seq<PlaintextUnit>) -> Seq<Unit> {
    v.map_values(|u: PlaintextUnit| u@)
}

/// The models of a list of ciphertext units.
pub open spec fn cipher_units(v: Seq<CiphertextUnit>) -> Seq<Unit> {
    v.map_values(|u: CiphertextUnit| u@)
}

/// How strongly a provider promises a property.
#[derive(Debug, Clone, Copy, PartialEq, Eq, Structural)]
pub enum Capability {
    Absent,
    Contractual,
}

impl Capability {
    pub fn present(&self) -> (r: bool)
        ensures
            r == (*self != Capability::Absent),
    {
        match self {
            Capability::Absent => false,
            Capability::Contractual => true,
        }
    }
}

/// What a provider says about batches.
#[derive(Debug, Clone, Copy)]
pub struct BatchCapability {
    pub supported: bool,
    pub max_items: u32,
    pub max_bytes: u64,
}

/// What a provider says about itself.
#[derive(Debug)]
pub struct CryptoCapabilities {
    pub provider_id: String,
    pub crypto_compatibility_id: String,
    pub supported_plaintext_sizes: Vec<u32>,
    pub max_ciphertext_size: u32,
    pub stateless: bool,
    pub retry_safe: bool,
    pub batch: BatchCapability,
    pub integrity: Capability,
    pub context_binding: Capability,
    pub replay_protection: Capability,
}

/// The fake provider.
pub struct FakeCryptoProvider {
    unit_size: u32,
    overhead: u32,
    context_binding: bool,
    key_seed: u64,
    compat_id: String,
    max_batch_items: u32,
    max_batch_bytes: u64,
    fail_queue: Vec<CryptoError>,
    misbehavior: Option<Misbehavior>,
    encrypt_calls: usize,
    decrypt_calls: usize,
    current_calls: usize,
    max_concurrent: usize,
}

/// The settings of a provider.
pub struct Settings {
    pub unit_size: nat,
    pub overhead: nat,
    pub context_binding: bool,
    pub key_seed: u64,
    pub compat_id: Seq<char>,
    pub max_batch_items: u32,
    pub max_batch_bytes: u64,
}

/// The counters of a provider.
pub struct Counters {
    pub encrypt_calls: usize,
    pub decrypt_calls: usize,
    pub current_calls: usize,
    pub max_concurrent: usize,
}

/// A counter after one more event.
pub open spec fn counted(n: usize) -> usize {
    if n == usize::MAX {
        0
    } else {
        (n + 1) as usize
    }
}

fn count(n: usize) -> (r: usize)
    ensures
        r == counted(n),
{
    if n == usize::MAX {
        0
    } else {
        n + 1
    }
}

/// What the keystream is seeded from, one piece after the other.
pub open spec fn seed_pieces(settings: Settings, context: CryptoContext, index: u64) -> Seq<
    Seq<u8>,
> {
    let key = seq![vstd::bytes::spec_u64_to_le_bytes(settings.key_seed)];
    if settings.context_binding {
        key + seq![
            vstd::bytes::spec_u64_to_le_bytes(16),
            context.volume_uuid@,
            vstd::bytes::spec_u32_to_le_bytes(context.format_version),
            vstd::utf8::encode_utf8(context.crypto_compatibility_id@),
            seq![0xffu8],
            vstd::bytes::spec_u64_to_le_bytes(index),
        ]
    } else {
        key
    }
}

/// The keystream of a unit.
pub open spec fn keystream_of(
    settings: Settings,
    context: CryptoContext,
    index: u64,
    len: nat,
) -> Seq<u8> {
    crate::chance::chacha8_stream(
        DefaultHasher::spec_finish(seed_pieces(settings, context, index)),
        len,
    )
}

/// Two byte strings combined bit by bit.
pub open spec fn xored(a: Seq<u8>, b: Seq<u8>) -> Seq<u8> {
    Seq::new(a.len(), |i: int| a[i] ^ b[i])
}

/// The layout of a ciphertext.
pub open spec fn sealed(plain: Seq<u8>, keystream: Seq<u8>, checksum: u32, overhead: nat) -> Seq<
    u8,
> {
    magic() + vstd::bytes::spec_u32_to_le_bytes(checksum) + xored(plain, keystream)
        + crate::model::zeros((overhead - 8) as nat)
}

/// The plaintext that a ciphertext holds under a keystream.
pub open spec fn unsealed(cipher: Seq<u8>, keystream: Seq<u8>, unit_size: nat) -> Seq<u8> {
    xored(cipher.subrange(8, 8 + unit_size as int), keystream)
}

/// The checksum that a ciphertext carries.
pub open spec fn stored_checksum(cipher: Seq<u8>) -> u32 {
    vstd::bytes::spec_u32_from_le_bytes(cipher.subrange(4, 8))
}

fn xor_bytes(a: &[u8], b: &[u8]) -> (r: Vec<u8>)
    requires
        b@.len() >= a@.len(),
    ensures
        r@ == xored(a@, b@),
{
    let mut out: Vec<u8> = Vec::new();
    let mut i: usize = 0;
    while i < a.len()
        invariant
            i <= a.len(),
            b@.len() >= a@.len(),
            out@.len() == i,
            forall|k: int| 0 <= k < i ==> out@[k] == a@[k] ^ b@[k],
        decreases a.len() - i,
    {
        out.push(a[i] ^ b[i]);
        i += 1;
    }
    assert(out@ =~= xored(a@, b@));
    out
}

/// Lay out the ciphertext of one unit.
pub fn seal_unit(plain: &[u8], keystream: &[u8], checksum: u32, overhead: usize) -> (r: Vec<u8>)
    requires
        keystream@.len() >= plain@.len(),
        overhead >= 8,
        plain@.len() + overhead <= usize::MAX,
    ensures
        r@ == sealed(plain@, keystream@, checksum, overhead as nat),
{
    let mut out: Vec<u8> = Vec::new();
    out.push(0x4d);
    out.push(0x4b);
    out.push(0x46);
    out.push(0x31);
    assert(out@ =~= magic());
    let crc = u32_to_le_bytes(checksum);
    out.extend_from_slice(crc.as_slice());
    let body = xor_bytes(plain, keystream);
    out.extend_from_slice(body.as_slice());
    let ghost front = out@;
    assert(front =~= magic() + vstd::bytes::spec_u32_to_le_bytes(checksum) + xored(
        plain@,
        keystream@,
    ));
    let mut i: usize = 8;
    while i < overhead
        invariant
            8 <= i <= overhead,
            out@ == front + crate::model::zeros((i - 8) as nat),
        decreases overhead - i,
    {
        let ghost before = out@;
        out.push(0);
        assert(out@ =~= front + crate::model::zeros((i + 1 - 8) as nat));
        i += 1;
    }
    out
}

/// Take a ciphertext of the right length and magic apart: the plaintext that
/// the keystream gives, and the checksum that it must have.
pub fn open_unit(cipher: &[u8], keystream: &[u8], unit_size: usize) -> (r: (Vec<u8>, u32))
    requires
        cipher@.len() >= 8 + unit_size,
        keystream@.len() >= unit_size,
    ensures
        r.0@ == unsealed(cipher@, keystream@, unit_size as nat),
        r.1 == stored_checksum(cipher@),
{
    let end: usize = cipher.len();
    assert(8 + unit_size <= end);
    let crc = vstd::slice::slice_subrange(cipher, 4, 8);
    let body = vstd::slice::slice_subrange(cipher, 8, 8 + unit_size);
    let plain = xor_bytes(body, keystream);
    assert(plain@ =~= unsealed(cipher@, keystream@, unit_size as nat));
    (plain, u32_from_le_bytes(crc))
}

fn has_magic(cipher: &Vec<u8>) -> (r: bool)
    requires
        cipher@.len() >= 4,
    ensures
        r == (cipher@.subrange(0, 4) == magic()),
{
    let r = cipher[0] == 0x4d && cipher[1] == 0x4b && cipher[2] == 0x46 && cipher[3] == 0x31;
    proof {
        let head = cipher@.subrange(0, 4);
        if r {
            assert(head =~= magic());
        } else {
            assert(head[0] == cipher@[0] && head[1] == cipher@[1] && head[2] == cipher@[2]
                && head[3] == cipher@[3]);
        }
    }
    r
}

/// The outcome of encrypting the first `n` units.
pub open spec fn encrypted(
    settings: Settings,
    context: CryptoContext,
    items: Seq<Unit>,
    n: nat,
) -> Result<Seq<Unit>, Seq<char>>
    decreases n,
{
    if n == 0 {
        Ok(Seq::empty())
    } else {
        match encrypted(settings, context, items, (n - 1) as nat) {
            Ok(done) => {
                let item = items[n - 1];
                if item.data.len() != settings.unit_size {
                    Err("unsupported plaintext size "@ + crate::text::decimal(item.data.len()))
                } else {
                    Ok(
                        done.push(
                            Unit {
                                index: item.index,
                                data: sealed(
                                    item.data,
                                    keystream_of(
                                        settings,
                                        context,
                                        item.index,
                                        item.data.len(),
                                    ),
                                    crc32(item.data),
                                    settings.overhead,
                                ),
                            },
                        ),
                    )
                }
            },
            Err(e) => Err(e),
        }
    }
}

/// The complaint about one ciphertext, or its plaintext.
pub open spec fn decrypted_unit(settings: Settings, context: CryptoContext, item: Unit) -> Result<
    Seq<u8>,
    Seq<char>,
> {
    let expected = settings.unit_size + settings.overhead;
    let plain = unsealed(
        item.data,
        keystream_of(settings, context, item.index, settings.unit_size),
        settings.unit_size,
    );
    if item.data.len() != expected {
        Err(
            "ciphertext length "@ + crate::text::decimal(item.data.len()) + " != "@
                + crate::text::decimal(expected),
        )
    } else if item.data.subrange(0, 4) != magic() {
        Err("bad magic"@)
    } else if crc32(plain) != stored_checksum(item.data) {
        Err("ciphertext failed integrity verification"@)
    } else {
        Ok(plain)
    }
}

/// The outcome of decrypting the first `n` units.
pub open spec fn decrypted(
    settings: Settings,
    context: CryptoContext,
    items: Seq<Unit>,
    n: nat,
) -> Result<Seq<Unit>, Seq<char>>
    decreases n,
{
    if n == 0 {
        Ok(Seq::empty())
    } else {
        match decrypted(settings, context, items, (n - 1) as nat) {
            Ok(done) => match decrypted_unit(settings, context, items[n - 1]) {
                Ok(plain) => Ok(done.push(Unit { index: items[n - 1].index, data: plain })),
                Err(e) => Err(e),
            },
            Err(e) => Err(e),
        }
    }
}

/// The complaint about a batch as a whole.
pub open spec fn batch_complaint(
    settings: Settings,
    context: CryptoContext,
    items: usize,
) -> Option<CryptoErrorView> {
    if context.crypto_compatibility_id@ != settings.compat_id {
        Some(
            CryptoErrorView::ProviderFatal(
                "crypto compatibility mismatch: volume="@ + context.crypto_compatibility_id@
                    + " provider="@ + settings.compat_id,
            ),
        )
    } else if (items as u32) > settings.max_batch_items {
        Some(
            CryptoErrorView::NonRetryableRequest(
                "batch of "@ + crate::text::decimal(items as nat) + " exceeds max_items "@
                    + crate::text::decimal(settings.max_batch_items as nat),
            ),
        )
    } else {
        None
    }
}

/// The texts of a [`CryptoError`].
pub enum CryptoErrorView {
    ProviderFatal(Seq<char>),
    Retryable(Seq<char>),
    NonRetryableRequest(Seq<char>),
    Integrity(Seq<char>),
}

impl View for CryptoError {
    type V = CryptoErrorView;

    open spec fn view(&self) -> CryptoErrorView {
        match *self {
            CryptoError::ProviderFatal(m) => CryptoErrorView::ProviderFatal(m@),
            CryptoError::Retryable(m) => CryptoErrorView::Retryable(m@),
            CryptoError::NonRetryableRequest(m) => CryptoErrorView::NonRetryableRequest(m@),
            CryptoError::Integrity(m) => CryptoErrorView::Integrity(m@),
        }
    }
}

/// The results after the deliberate violation.
pub open spec fn misbehaved(out: Seq<Unit>, how: Option<Misbehavior>, overhead: nat) -> Seq<Unit> {
    match how {
        None => out,
        Some(Misbehavior::ReorderResults) => if out.len() >= 2 {
            out.update(0, out[1]).update(1, out[0])
        } else {
            out
        },
        Some(Misbehavior::DropLastItem) => if out.len() > 0 {
            out.drop_last()
        } else {
            out
        },
        Some(Misbehavior::DuplicateFirstItem) => if out.len() > 0 {
            out.push(out[0])
        } else {
            out
        },
        Some(Misbehavior::OversizeCiphertext) => if out.len() > 0 {
            out.update(
                0,
                Unit {
                    index: out[0].index,
                    data: out[0].data + crate::model::zeros(overhead + 64),
                },
            )
        } else {
            out
        },
        Some(Misbehavior::MismatchedIndex) => if out.len() > 0 {
            out.update(
                0,
                Unit {
                    index: ((out[0].index + 1_000_000) % 0x1_0000_0000_0000_0000) as u64,
                    data: out[0].data,
                },
            )
        } else {
            out
        },
    }
}

impl FakeCryptoProvider {
    /// The settings.
    pub closed spec fn settings(&self) -> Settings {
        Settings {
            unit_size: self.unit_size as nat,
            overhead: self.overhead as nat,
            context_binding: self.context_binding,
            key_seed: self.key_seed,
            compat_id: self.compat_id@,
            max_batch_items: self.max_batch_items,
            max_batch_bytes: self.max_batch_bytes,
        }
    }

    /// The errors that the next calls will return.
    pub closed spec fn queue(&self) -> Seq<CryptoError> {
        self.fail_queue@
    }

    /// The violation that results suffer.
    pub closed spec fn violation(&self) -> Option<Misbehavior> {
        self.misbehavior
    }

    /// The counters.
    pub closed spec fn counters(&self) -> Counters {
        Counters {
            encrypt_calls: self.encrypt_calls,
            decrypt_calls: self.decrypt_calls,
            current_calls: self.current_calls,
            max_concurrent: self.max_concurrent,
        }
    }

    /// The overhead holds magic and checksum, and a ciphertext's size is
    /// representable.
    pub closed spec fn wf(&self) -> bool {
        self.overhead >= 8 && self.unit_size + self.overhead <= u32::MAX
    }

    pub fn new(unit_size: u32) -> (r: Self)
        requires
            unit_size + 8 <= u32::MAX,
        ensures
            r.wf(),
            r.settings() == (Settings {
                unit_size: unit_size as nat,
                overhead: 8,
                context_binding: true,
                key_seed: 0x6d616b69,
                compat_id: "test-profile-v1"@,
                max_batch_items: 128,
                max_batch_bytes: 1_048_576,
            }),
            r.queue().len() == 0,
            r.violation() is None,
            r.counters() == (Counters {
                encrypt_calls: 0,
                decrypt_calls: 0,
                current_calls: 0,
                max_concurrent: 0,
            }),
    {
        FakeCryptoProvider {
            unit_size,
            overhead: 8,
            context_binding: true,
            key_seed: 0x6d616b69,
            compat_id: "test-profile-v1".to_owned(),
            max_batch_items: 128,
            max_batch_bytes: 1_048_576,
            fail_queue: Vec::new(),
            misbehavior: None,
            encrypt_calls: 0,
            decrypt_calls: 0,
            current_calls: 0,
            max_concurrent: 0,
        }
    }

    /// All but the settings is the same.
    pub open spec fn state_kept(&self, old: &Self) -> bool {
        self.queue() == old.queue() && self.violation() == old.violation() && self.counters()
            == old.counters()
    }

    pub fn with_key(self, key_seed: u64) -> (r: Self)
        ensures
            r.settings() == (Settings { key_seed, ..self.settings() }),
            r.state_kept(&self),
            r.wf() == self.wf(),
    {
        let mut r = self;
        r.key_seed = key_seed;
        r
    }

    pub fn with_compat_id(self, id: &str) -> (r: Self)
        ensures
            r.settings() == (Settings { compat_id: id@, ..self.settings() }),
            r.state_kept(&self),
            r.wf() == self.wf(),
    {
        let mut r = self;
        r.compat_id = id.to_owned();
        r
    }

    pub fn with_overhead(self, overhead: u32) -> (r: Self)
        requires
            overhead >= 8,
            self.settings().unit_size + overhead <= u32::MAX,
        ensures
            r.settings() == (Settings { overhead: overhead as nat, ..self.settings() }),
            r.state_kept(&self),
            r.wf(),
    {
        let mut r = self;
        r.overhead = overhead;
        r
    }

    pub fn with_context_binding(self, on: bool) -> (r: Self)
        ensures
            r.settings() == (Settings { context_binding: on, ..self.settings() }),
            r.state_kept(&self),
            r.wf() == self.wf(),
    {
        let mut r = self;
        r.context_binding = on;
        r
    }

    pub fn with_max_batch(self, items: u32, bytes: u64) -> (r: Self)
        ensures
            r.settings() == (Settings {
                max_batch_items: items,
                max_batch_bytes: bytes,
                ..self.settings()
            }),
            r.state_kept(&self),
            r.wf() == self.wf(),
    {
        let mut r = self;
        r.max_batch_items = items;
        r.max_batch_bytes = bytes;
        r
    }

    /// Queue errors that are returned, one per call, before real work resumes.
    pub fn fail_next(&mut self, errors: Vec<CryptoError>)
        ensures
            final(self).queue() == old(self).queue() + errors@,
            final(self).settings() == old(self).settings(),
            final(self).violation() == old(self).violation(),
            final(self).counters() == old(self).counters(),
            final(self).wf() == old(self).wf(),
    {
        let mut errors = errors;
        self.fail_queue.append(&mut errors);
    }

    pub fn queued_failures(&self) -> (r: usize)
        ensures
            r == self.queue().len(),
    {
        self.fail_queue.len()
    }

    pub fn set_misbehavior(&mut self, m: Option<Misbehavior>)
        ensures
            final(self).violation() == m,
            final(self).queue() == old(self).queue(),
            final(self).settings() == old(self).settings(),
            final(self).counters() == old(self).counters(),
            final(self).wf() == old(self).wf(),
    {
        self.misbehavior = m;
    }

    pub fn encrypt_calls(&self) -> (r: usize)
        ensures
            r == self.counters().encrypt_calls,
    {
        self.encrypt_calls
    }

    pub fn decrypt_calls(&self) -> (r: usize)
        ensures
            r == self.counters().decrypt_calls,
    {
        self.decrypt_calls
    }

    /// Highest number of overlapping calls observed.
    pub fn max_concurrent_calls(&self) -> (r: usize)
        ensures
            r == self.counters().max_concurrent,
    {
        self.max_concurrent
    }

    /// The counters once a call has begun.
    pub open spec fn entered(counters: Counters) -> Counters {
        let now = counted(counters.current_calls);
        Counters {
            current_calls: now,
            max_concurrent: if now > counters.max_concurrent {
                now
            } else {
                counters.max_concurrent
            },
            ..counters
        }
    }

    /// The counters once a call has ended.
    pub open spec fn left(counters: Counters) -> Counters {
        Counters {
            current_calls: if counters.current_calls == 0 {
                usize::MAX
            } else {
                (counters.current_calls - 1) as usize
            },
            ..counters
        }
    }

    fn enter(&mut self)
        ensures
            final(self).counters() == Self::entered(old(self).counters()),
            final(self).queue() == old(self).queue(),
            final(self).settings() == old(self).settings(),
            final(self).violation() == old(self).violation(),
            final(self).wf() == old(self).wf(),
    {
        let now: usize = count(self.current_calls);
        self.current_calls = now;
        if now > self.max_concurrent {
            self.max_concurrent = now;
        }
    }

    /// Give up a call that was begun and will not be finished.
    pub fn leave(&mut self)
        ensures
            final(self).counters() == Self::left(old(self).counters()),
            final(self).queue() == old(self).queue(),
            final(self).settings() == old(self).settings(),
            final(self).violation() == old(self).violation(),
            final(self).wf() == old(self).wf(),
    {
        if self.current_calls == 0 {
            self.current_calls = usize::MAX;
        } else {
            self.current_calls = self.current_calls - 1;
        }
    }

    /// Begin an encryption: it is counted and overlaps with others until it is
    /// finished.
    pub fn begin_encrypt(&mut self)
        ensures
            final(self).counters() == (Counters {
                encrypt_calls: counted(old(self).counters().encrypt_calls),
                ..Self::entered(old(self).counters())
            }),
            final(self).queue() == old(self).queue(),
            final(self).settings() == old(self).settings(),
            final(self).violation() == old(self).violation(),
            final(self).wf() == old(self).wf(),
    {
        self.enter();
        self.encrypt_calls = count(self.encrypt_calls);
    }

    /// Begin a decryption: it is counted and overlaps with others until it is
    /// finished.
    pub fn begin_decrypt(&mut self)
        ensures
            final(self).counters() == (Counters {
                decrypt_calls: counted(old(self).counters().decrypt_calls),
                ..Self::entered(old(self).counters())
            }),
            final(self).queue() == old(self).queue(),
            final(self).settings() == old(self).settings(),
            final(self).violation() == old(self).violation(),
            final(self).wf() == old(self).wf(),
    {
        self.enter();
        self.decrypt_calls = count(self.decrypt_calls);
    }

    fn keystream(&self, context: &CryptoContext, unit_index: u64, len: usize) -> (r: Vec<u8>)
        ensures
            r@ == keystream_of(self.settings(), *context, unit_index, len as nat),
            r@.len() == len,
    {
        let mut hasher = DefaultHasher::new();
        hasher.write(u64_to_le_bytes(self.key_seed).as_slice());
        if self.context_binding {
            hasher.write(u64_to_le_bytes(16).as_slice());
            hasher.write(&context.volume_uuid);
            hasher.write(u32_to_le_bytes(context.format_version).as_slice());
            hasher.write(context.crypto_compatibility_id.as_str().as_bytes());
            let mut end: Vec<u8> = Vec::new();
            end.push(0xff);
            assert(end@ =~= seq![0xffu8]);
            hasher.write(end.as_slice());
            hasher.write(u64_to_le_bytes(unit_index).as_slice());
        }
        assert(hasher@ =~= seed_pieces(self.settings(), *context, unit_index));
        chacha_stream(hasher.finish(), len)
    }

    /// The queued error, or the complaint about the batch as a whole.
    fn common(&mut self, context: &CryptoContext, items: usize) -> (r: Result<(), CryptoError>)
        ensures
            final(self).settings() == old(self).settings(),
            final(self).violation() == old(self).violation(),
            final(self).counters() == old(self).counters(),
            final(self).wf() == old(self).wf(),
            old(self).queue().len() > 0 ==> {
                &&& r == Err::<(), CryptoError>(old(self).queue()[0])
                &&& final(self).queue() == old(self).queue().subrange(
                    1,
                    old(self).queue().len() as int,
                )
            },
            old(self).queue().len() == 0 ==> {
                &&& final(self).queue() == old(self).queue()
                &&& match r {
                    Ok(()) => batch_complaint(old(self).settings(), *context, items) is None,
                    Err(e) => batch_complaint(old(self).settings(), *context, items) == Some(e@),
                }
            },
    {
        if self.fail_queue.len() > 0 {
            let e = self.fail_queue.remove(0);
            assert(self.fail_queue@ =~= old(self).queue().subrange(
                1,
                old(self).queue().len() as int,
            ));
            return Err(e);
        }
        if !same(context.crypto_compatibility_id.as_str(), self.compat_id.as_str()) {
            let mut message = join3(
                "crypto compatibility mismatch: volume=",
                context.crypto_compatibility_id.as_str(),
                " provider=",
            );
            message.append(self.compat_id.as_str());
            return Err(CryptoError::ProviderFatal(message));
        }
        if items as u32 > self.max_batch_items {
            let mut message = join3("batch of ", show(items as u64).as_str(), " exceeds max_items ");
            message.append(show(self.max_batch_items as u64).as_str());
            return Err(CryptoError::NonRetryableRequest(message));
        }
        Ok(())
    }

    fn misbehave_ct(&self, out: Vec<CiphertextUnit>) -> (r: Vec<CiphertextUnit>)
        ensures
            cipher_units(r@) == misbehaved(
                cipher_units(out@),
                self.violation(),
                self.settings().overhead,
            ),
    {
        let ghost given = cipher_units(out@);
        let mut out = out;
        match self.misbehavior {
            None => {},
            Some(Misbehavior::ReorderResults) => {
                if out.len() >= 2 {
                    let first = out[0].clone();
                    let second = out[1].clone();
                    out.set(0, second);
                    out.set(1, first);
                    assert(cipher_units(out@) =~= given.update(0, given[1]).update(1, given[0]));
                }
            },
            Some(Misbehavior::DropLastItem) => {
                if out.len() > 0 {
                    out.pop();
                    assert(cipher_units(out@) =~= given.drop_last());
                }
            },
            Some(Misbehavior::DuplicateFirstItem) => {
                if out.len() > 0 {
                    let first = out[0].clone();
                    out.push(first);
                    assert(cipher_units(out@) =~= given.push(given[0]));
                }
            },
            Some(Misbehavior::OversizeCiphertext) => {
                if out.len() > 0 {
                    let mut first = out[0].clone();
                    let extra: u64 = self.overhead as u64 + 64;
                    let ghost data = first.data@;
                    let mut i: u64 = 0;
                    assert(first.data@ =~= data + crate::model::zeros(0));
                    while i < extra
                        invariant
                            i <= extra,
                            first.data@ == data + crate::model::zeros(i as nat),
                            first.unit_index == out@[0].unit_index,
                            out@.len() > 0,
                        decreases extra - i,
                    {
                        let ghost before = first.data@;
                        first.data.push(0);
                        assert(first.data@ =~= data + crate::model::zeros((i + 1) as nat));
                        i += 1;
                    }
                    out.set(0, first);
                    assert(cipher_units(out@) =~= given.update(
                        0,
                        Unit {
                            index: given[0].index,
                            data: given[0].data + crate::model::zeros(extra as nat),
                        },
                    ));
                }
            },
            Some(Misbehavior::MismatchedIndex) => {
                if out.len() > 0 {
                    let mut first = out[0].clone();
                    let index: u64 = first.unit_index;
                    let wrong: u64 = if index > u64::MAX - 1_000_000 {
                        index - (u64::MAX - 1_000_000) - 1
                    } else {
                        index + 1_000_000
                    };
                    assert(wrong == ((index + 1_000_000) % 0x1_0000_0000_0000_0000) as u64);
                    first.unit_index = wrong;
                    out.set(0, first);
                    assert(cipher_units(out@) =~= given.update(
                        0,
                        Unit { index: wrong, data: given[0].data },
                    ));
                }
            },
        }
        out
    }

    pub fn capabilities(&self) -> (r: CryptoCapabilities)
        requires
            self.wf(),
        ensures
            r.provider_id@ == "fake"@,
            r.crypto_compatibility_id@ == self.settings().compat_id,
            r.supported_plaintext_sizes@.len() == 1,
            r.supported_plaintext_sizes@[0] == self.settings().unit_size,
            r.max_ciphertext_size == self.settings().unit_size + self.settings().overhead,
            r.stateless,
            r.retry_safe,
            r.batch.supported,
            r.batch.max_items == self.settings().max_batch_items,
            r.batch.max_bytes == self.settings().max_batch_bytes,
            r.integrity == Capability::Contractual,
            r.context_binding == if self.settings().context_binding {
                Capability::Contractual
            } else {
                Capability::Absent
            },
            r.replay_protection == Capability::Absent,
    {
        let mut sizes: Vec<u32> = Vec::new();
        sizes.push(self.unit_size);
        CryptoCapabilities {
            provider_id: "fake".to_owned(),
            crypto_compatibility_id: self.compat_id.clone(),
            supported_plaintext_sizes: sizes,
            max_ciphertext_size: self.unit_size + self.overhead,
            stateless: true,
            retry_safe: true,
            batch: BatchCapability {
                supported: true,
                max_items: self.max_batch_items,
                max_bytes: self.max_batch_bytes,
            },
            integrity: Capability::Contractual,
            context_binding: if self.context_binding {
                Capability::Contractual
            } else {
                Capability::Absent
            },
            replay_protection: Capability::Absent,
        }
    }

    /// What finishing an encryption returns once no error is queued.
    pub open spec fn encryption(
        settings: Settings,
        violation: Option<Misbehavior>,
        context: CryptoContext,
        items: Seq<Unit>,
    ) -> Result<Seq<Unit>, CryptoErrorView> {
        match batch_complaint(settings, context, items.len() as usize) {
            Some(e) => Err(e),
            None => match encrypted(settings, context, items, items.len()) {
                Ok(out) => Ok(misbehaved(out, violation, settings.overhead)),
                Err(m) => Err(CryptoErrorView::NonRetryableRequest(m)),
            },
        }
    }

    /// What finishing a decryption returns once no error is queued.
    pub open spec fn decryption(
        settings: Settings,
        context: CryptoContext,
        items: Seq<Unit>,
    ) -> Result<Seq<Unit>, CryptoErrorView> {
        match batch_complaint(settings, context, items.len() as usize) {
            Some(e) => Err(e),
            None => match decrypted(settings, context, items, items.len()) {
                Ok(out) => Ok(out),
                Err(m) => Err(CryptoErrorView::Integrity(m)),
            },
        }
    }

    /// Finish an encryption that was begun: a queued error comes first, then
    /// the checks of the batch, then the work.
    pub fn finish_encrypt(&mut self, context: &CryptoContext, items: &[PlaintextUnit]) -> (r:
        Result<Vec<CiphertextUnit>, CryptoError>)
        requires
            old(self).wf(),
        ensures
            final(self).wf(),
            final(self).settings() == old(self).settings(),
            final(self).violation() == old(self).violation(),
            final(self).counters() == Self::left(old(self).counters()),
            old(self).queue().len() > 0 ==> {
                &&& r == Err::<Vec<CiphertextUnit>, CryptoError>(old(self).queue()[0])
                &&& final(self).queue() == old(self).queue().subrange(
                    1,
                    old(self).queue().len() as int,
                )
            },
            old(self).queue().len() == 0 ==> {
                &&& final(self).queue() == old(self).queue()
                &&& match r {
                    Ok(out) => Self::encryption(
                        old(self).settings(),
                        old(self).violation(),
                        *context,
                        plain_units(items@),
                    ) == Ok::<Seq<Unit>, CryptoErrorView>(cipher_units(out@)),
                    Err(e) => Self::encryption(
                        old(self).settings(),
                        old(self).violation(),
                        *context,
                        plain_units(items@),
                    ) == Err::<Seq<Unit>, CryptoErrorView>(e@),
                }
            },
    {
        self.leave();
        match self.common(context, items.len()) {
            Ok(()) => {},
            Err(e) => return Err(e),
        }
        let ghost settings = self.settings();
        let ghost all = plain_units(items@);
        let mut out: Vec<CiphertextUnit> = Vec::new();
        let mut i: usize = 0;
        assert(cipher_units(out@) =~= Seq::<Unit>::empty());
        while i < items.len()
            invariant
                i <= items.len(),
                self.wf(),
                settings == self.settings(),
                all == plain_units(items@),
                encrypted(settings, *context, all, i as nat) == Ok::<Seq<Unit>, Seq<char>>(
                    cipher_units(out@),
                ),
                self.settings() == old(self).settings(),
                self.violation() == old(self).violation(),
                self.queue() == old(self).queue(),
                old(self).queue().len() == 0,
                self.counters() == Self::left(old(self).counters()),
                batch_complaint(settings, *context, items@.len() as usize) is None,
            decreases items.len() - i,
        {
            assert(all[i as int] == items@[i as int]@);
            let item = &items[i];
            if item.data.len() != self.unit_size as usize {
                proof {
                    lemma_encrypt_stops(settings, *context, all, (i + 1) as nat);
                }
                return Err(
                    CryptoError::NonRetryableRequest(
                        join2("unsupported plaintext size ", show(item.data.len() as u64).as_str()),
                    ),
                );
            }
            let ks = self.keystream(context, item.unit_index, item.data.len());
            let checksum: u32 = crc32fast::hash(item.data.as_slice());
            assert(usize::MAX >= u32::MAX) by {
                assert(usize::BITS == 32 || usize::BITS == 64);
            }
            let data = seal_unit(
                item.data.as_slice(),
                ks.as_slice(),
                checksum,
                self.overhead as usize,
            );
            let ghost before = cipher_units(out@);
            out.push(CiphertextUnit { unit_index: item.unit_index, data });
            assert(cipher_units(out@) =~= before.push(
                Unit { index: item.unit_index, data: data@ },
            ));
            i += 1;
        }
        Ok(self.misbehave_ct(out))
    }

    /// Finish a decryption that was begun.
    pub fn finish_decrypt(&mut self, context: &CryptoContext, items: &[CiphertextUnit]) -> (r:
        Result<Vec<PlaintextUnit>, CryptoError>)
        requires
            old(self).wf(),
        ensures
            final(self).wf(),
            final(self).settings() == old(self).settings(),
            final(self).violation() == old(self).violation(),
            final(self).counters() == Self::left(old(self).counters()),
            old(self).queue().len() > 0 ==> {
                &&& r == Err::<Vec<PlaintextUnit>, CryptoError>(old(self).queue()[0])
                &&& final(self).queue() == old(self).queue().subrange(
                    1,
                    old(self).queue().len() as int,
                )
            },
            old(self).queue().len() == 0 ==> {
                &&& final(self).queue() == old(self).queue()
                &&& match r {
                    Ok(out) => Self::decryption(
                        old(self).settings(),
                        *context,
                        cipher_units(items@),
                    ) == Ok::<Seq<Unit>, CryptoErrorView>(plain_units(out@)),
                    Err(e) => Self::decryption(
                        old(self).settings(),
                        *context,
                        cipher_units(items@),
                    ) == Err::<Seq<Unit>, CryptoErrorView>(e@),
                }
            },
    {
        self.leave();
        match self.common(context, items.len()) {
            Ok(()) => {},
            Err(e) => return Err(e),
        }
        let ghost settings = self.settings();
        let ghost all = cipher_units(items@);
        let expected: usize = (self.unit_size + self.overhead) as usize;
        let unit_size: usize = self.unit_size as usize;
        let mut out: Vec<PlaintextUnit> = Vec::new();
        let mut i: usize = 0;
        assert(plain_units(out@) =~= Seq::<Unit>::empty());
        while i < items.len()
            invariant
                i <= items.len(),
                self.wf(),
                settings == self.settings(),
                expected == settings.unit_size + settings.overhead,
                unit_size == settings.unit_size,
                settings.overhead >= 8,
                all == cipher_units(items@),
                decrypted(settings, *context, all, i as nat) == Ok::<Seq<Unit>, Seq<char>>(
                    plain_units(out@),
                ),
                self.settings() == old(self).settings(),
                self.violation() == old(self).violation(),
                self.queue() == old(self).queue(),
                old(self).queue().len() == 0,
                self.counters() == Self::left(old(self).counters()),
                batch_complaint(settings, *context, items@.len() as usize) is None,
            decreases items.len() - i,
        {
            assert(all[i as int] == items@[i as int]@);
            let item = &items[i];
            if item.data.len() != expected {
                proof {
                    lemma_decrypt_stops(settings, *context, all, (i + 1) as nat);
                }
                let mut message = join3(
                    "ciphertext length ",
                    show(item.data.len() as u64).as_str(),
                    " != ",
                );
                message.append(show(expected as u64).as_str());
                return Err(CryptoError::Integrity(message));
            }
            if !has_magic(&item.data) {
                proof {
                    lemma_decrypt_stops(settings, *context, all, (i + 1) as nat);
                }
                return Err(CryptoError::Integrity("bad magic".to_owned()));
            }
            let ks = self.keystream(context, item.unit_index, unit_size);
            let (plain, stored) = open_unit(item.data.as_slice(), ks.as_slice(), unit_size);
            if crc32fast::hash(plain.as_slice()) != stored {
                proof {
                    lemma_decrypt_stops(settings, *context, all, (i + 1) as nat);
                }
                return Err(
                    CryptoError::Integrity("ciphertext failed integrity verification".to_owned()),
                );
            }
            let ghost before = plain_units(out@);
            out.push(PlaintextUnit { unit_index: item.unit_index, data: plain });
            assert(plain_units(out@) =~= before.push(
                Unit { index: item.unit_index, data: plain@ },
            ));
            i += 1;
        }
        Ok(out)
    }

    /// Encrypt a batch.
    pub fn encrypt_batch(&mut self, context: &CryptoContext, items: &[PlaintextUnit]) -> (r: Result<
        Vec<CiphertextUnit>,
        CryptoError,
    >)
        requires
            old(self).wf(),
        ensures
            final(self).wf(),
            final(self).settings() == old(self).settings(),
            final(self).violation() == old(self).violation(),
            final(self).counters().encrypt_calls == counted(old(self).counters().encrypt_calls),
            final(self).counters().decrypt_calls == old(self).counters().decrypt_calls,
            final(self).counters().max_concurrent == Self::entered(
                old(self).counters(),
            ).max_concurrent,
            final(self).counters().current_calls == old(self).counters().current_calls,
            old(self).queue().len() > 0 ==> {
                &&& r == Err::<Vec<CiphertextUnit>, CryptoError>(old(self).queue()[0])
                &&& final(self).queue() == old(self).queue().subrange(
                    1,
                    old(self).queue().len() as int,
                )
            },
            old(self).queue().len() == 0 ==> {
                &&& final(self).queue() == old(self).queue()
                &&& match r {
                    Ok(out) => Self::encryption(
                        old(self).settings(),
                        old(self).violation(),
                        *context,
                        plain_units(items@),
                    ) == Ok::<Seq<Unit>, CryptoErrorView>(cipher_units(out@)),
                    Err(e) => Self::encryption(
                        old(self).settings(),
                        old(self).violation(),
                        *context,
                        plain_units(items@),
                    ) == Err::<Seq<Unit>, CryptoErrorView>(e@),
                }
            },
    {
        self.begin_encrypt();
        self.finish_encrypt(context, items)
    }

    /// Decrypt a batch.
    pub fn decrypt_batch(&mut self, context: &CryptoContext, items: &[CiphertextUnit]) -> (r:
        Result<Vec<PlaintextUnit>, CryptoError>)
        requires
            old(self).wf(),
        ensures
            final(self).wf(),
            final(self).settings() == old(self).settings(),
            final(self).violation() == old(self).violation(),
            final(self).counters().decrypt_calls == counted(old(self).counters().decrypt_calls),
            final(self).counters().encrypt_calls == old(self).counters().encrypt_calls,
            final(self).counters().max_concurrent == Self::entered(
                old(self).counters(),
            ).max_concurrent,
            final(self).counters().current_calls == old(self).counters().current_calls,
            old(self).queue().len() > 0 ==> {
                &&& r == Err::<Vec<PlaintextUnit>, CryptoError>(old(self).queue()[0])
                &&& final(self).queue() == old(self).queue().subrange(
                    1,
                    old(self).queue().len() as int,
                )
            },
            old(self).queue().len() == 0 ==> {
                &&& final(self).queue() == old(self).queue()
                &&& match r {
                    Ok(out) => Self::decryption(
                        old(self).settings(),
                        *context,
                        cipher_units(items@),
                    ) == Ok::<Seq<Unit>, CryptoErrorView>(plain_units(out@)),
                    Err(e) => Self::decryption(
                        old(self).settings(),
                        *context,
                        cipher_units(items@),
                    ) == Err::<Seq<Unit>, CryptoErrorView>(e@),
                }
            },
    {
        self.begin_decrypt();
        self.finish_decrypt(context, items)
    }
}

proof fn lemma_encrypt_stops(settings: Settings, context: CryptoContext, items: Seq<Unit>, n: nat)
    requires
        n <= items.len(),
        encrypted(settings, context, items, n) is Err,
    ensures
        encrypted(settings, context, items, items.len()) == encrypted(settings, context, items, n),
    decreases items.len() - n,
{
    if n < items.len() {
        lemma_encrypt_stops(settings, context, items, n + 1);
    }
}

proof fn lemma_decrypt_stops(settings: Settings, context: CryptoContext, items: Seq<Unit>, n: nat)
    requires
        n <= items.len(),
        decrypted(settings, context, items, n) is Err,
    ensures
        decrypted(settings, context, items, items.len()) == decrypted(settings, context, items, n),
    decreases items.len() - n,
{
    if n < items.len() {
        lemma_decrypt_stops(settings, context, items, n + 1);
    }
}

// ---------- laws ----------

/// Combining with the same bytes twice gives the first byte string back.
pub proof fn xor_undoes_itself(a: Seq<u8>, b: Seq<u8>)
    ensures
        xored(xored(a, b), b) == a,
{
    assert forall|i: int| 0 <= i < a.len() implies xored(xored(a, b), b)[i] == a[i] by {
        let x = a[i];
        let y = b[i];
        assert((x ^ y) ^ y == x) by (bit_vector);
    }
    assert(xored(xored(a, b), b) =~= a);
}

/// A sealed unit has the announced length, starts with the magic, carries the
/// checksum, and opens under its keystream to the plaintext.
pub proof fn sealed_units_open(
    plain: Seq<u8>,
    keystream: Seq<u8>,
    checksum: u32,
    overhead: nat,
)
    requires
        overhead >= 8,
    ensures
        sealed(plain, keystream, checksum, overhead).len() == plain.len() + overhead,
        sealed(plain, keystream, checksum, overhead).subrange(0, 4) == magic(),
        stored_checksum(sealed(plain, keystream, checksum, overhead)) == checksum,
        unsealed(sealed(plain, keystream, checksum, overhead), keystream, plain.len()) == plain,
{
    vstd::bytes::lemma_auto_spec_u32_to_from_le_bytes();
    let cipher = sealed(plain, keystream, checksum, overhead);
    let crc = vstd::bytes::spec_u32_to_le_bytes(checksum);
    assert(cipher.subrange(0, 4) =~= magic());
    assert(cipher.subrange(4, 8) =~= crc);
    assert(cipher.subrange(8, 8 + plain.len() as int) =~= xored(plain, keystream));
    xor_undoes_itself(plain, keystream);
}

/// Decrypting what the same provider encrypted for the same volume gives the
/// plaintext back, unit by unit.
pub proof fn decryption_undoes_encryption(
    settings: Settings,
    context: CryptoContext,
    items: Seq<Unit>,
    n: nat,
)
    requires
        settings.overhead >= 8,
        n <= items.len(),
        encrypted(settings, context, items, n) is Ok,
    ensures
        encrypted(settings, context, items, n)->Ok_0.len() == n,
        decrypted(settings, context, encrypted(settings, context, items, n)->Ok_0, n) == Ok::<
            Seq<Unit>,
            Seq<char>,
        >(items.take(n as int)),
    decreases n,
{
    if n == 0 {
        assert(items.take(0) =~= Seq::<Unit>::empty());
    } else {
        let m = (n - 1) as nat;
        decryption_undoes_encryption(settings, context, items, m);
        let item = items[n - 1];
        let before = encrypted(settings, context, items, m)->Ok_0;
        let out = encrypted(settings, context, items, n)->Ok_0;
        let ks = keystream_of(settings, context, item.index, item.data.len());
        sealed_units_open(item.data, ks, crc32(item.data), settings.overhead);
        lemma_decrypt_prefix(settings, context, before, out, m);
        assert(out[n - 1].index == item.index);
        assert(items.take(n as int) =~= items.take(m as int).push(item));
    }
}

proof fn lemma_decrypt_prefix(
    settings: Settings,
    context: CryptoContext,
    a: Seq<Unit>,
    b: Seq<Unit>,
    n: nat,
)
    requires
        n <= a.len(),
        n <= b.len(),
        forall|i: int| 0 <= i < n ==> a[i] == b[i],
    ensures
        decrypted(settings, context, a, n) == decrypted(settings, context, b, n),
    decreases n,
{
    if n > 0 {
        lemma_decrypt_prefix(settings, context, a, b, (n - 1) as nat);
    }
}

/// Plaintext is only ever returned from a ciphertext of the exact length that
/// carries the magic and the checksum of that plaintext.
pub proof fn decrypted_plaintext_matches_its_checksum(
    settings: Settings,
    context: CryptoContext,
    item: Unit,
)
    requires
        decrypted_unit(settings, context, item) is Ok,
    ensures
        item.data.len() == settings.unit_size + settings.overhead,
        item.data.subrange(0, 4) == magic(),
        crc32(decrypted_unit(settings, context, item)->Ok_0) == stored_checksum(item.data),
{
}

/// Without context binding the keystream depends on the key alone; with it, on
/// the volume, the format, the compatibility identifier and the unit too.
pub proof fn binding_decides_what_the_keystream_depends_on(
    settings: Settings,
    a: CryptoContext,
    b: CryptoContext,
    i: u64,
    j: u64,
    len: nat,
)
    requires
        !settings.context_binding || (a.volume_uuid@ == b.volume_uuid@ && a.format_version
            == b.format_version && a.crypto_compatibility_id@ == b.crypto_compatibility_id@ && i
            == j),
    ensures
        keystream_of(settings, a, i, len) == keystream_of(settings, b, j, len),
{
    assert(seed_pieces(settings, a, i) =~= seed_pieces(settings, b, j));
}

proof fn lemma_bytes_tell_the_number(a: u64, b: u64, c: u32, d: u32)
    ensures
        vstd::bytes::spec_u64_to_le_bytes(a) == vstd::bytes::spec_u64_to_le_bytes(b) ==> a == b,
        vstd::bytes::spec_u32_to_le_bytes(c) == vstd::bytes::spec_u32_to_le_bytes(d) ==> c == d,
{
    vstd::bytes::lemma_auto_spec_u64_to_from_le_bytes();
    vstd::bytes::lemma_auto_spec_u32_to_from_le_bytes();
    assert(vstd::bytes::spec_u32_to_le_bytes(c).len() == 4);
    assert(vstd::bytes::spec_u32_to_le_bytes(d).len() == 4);
}

/// With context binding, a keystream belongs to one volume, format version,
/// compatibility identifier and unit: whenever one of them differs, or the key,
/// it is seeded from something else. Without binding it belongs to the key
/// alone.
pub proof fn a_keystream_belongs_to_one_context(
    settings: Settings,
    other: Settings,
    a: CryptoContext,
    b: CryptoContext,
    i: u64,
    j: u64,
)
    requires
        settings.context_binding == other.context_binding,
        seed_pieces(settings, a, i) == seed_pieces(other, b, j),
    ensures
        settings.key_seed == other.key_seed,
        settings.context_binding ==> {
            &&& a.volume_uuid@ == b.volume_uuid@
            &&& a.format_version == b.format_version
            &&& a.crypto_compatibility_id@ == b.crypto_compatibility_id@
            &&& i == j
        },
{
    let x = seed_pieces(settings, a, i);
    let y = seed_pieces(other, b, j);
    lemma_bytes_tell_the_number(settings.key_seed, other.key_seed, 0, 0);
    assert(x[0] == y[0]);
    if settings.context_binding {
        lemma_bytes_tell_the_number(i, j, a.format_version, b.format_version);
        assert(x[2] == y[2]);
        assert(x[3] == y[3]);
        assert(x[4] == y[4]);
        assert(x[6] == y[6]);
        vstd::utf8::encode_utf8_decode_utf8(a.crypto_compatibility_id@);
        vstd::utf8::encode_utf8_decode_utf8(b.crypto_compatibility_id@);
    }
}

/// A batch of units of the right size is encrypted unit by unit: each result has
/// its unit's index and is sealed under that unit's own keystream, with the
/// checksum of its plaintext.
pub proof fn units_are_encrypted_one_by_one(
    settings: Settings,
    context: CryptoContext,
    items: Seq<Unit>,
    n: nat,
    i: int,
)
    requires
        n <= items.len(),
        0 <= i < n,
        forall|k: int| 0 <= k < n ==> (#[trigger] items[k]).data.len() == settings.unit_size,
    ensures
        encrypted(settings, context, items, n) is Ok,
        ({
            let out = encrypted(settings, context, items, n)->Ok_0;
            &&& out.len() == n
            &&& out[i].index == items[i].index
            &&& out[i].data == sealed(
                items[i].data,
                keystream_of(settings, context, items[i].index, settings.unit_size),
                crc32(items[i].data),
                settings.overhead,
            )
        }),
    decreases n,
{
    reveal_with_fuel(encrypted, 2);
    if n > 1 && i < n - 1 {
        units_are_encrypted_one_by_one(settings, context, items, (n - 1) as nat, i);
    } else if n > 1 {
        units_are_encrypted_one_by_one(settings, context, items, (n - 1) as nat, 0);
    }
    assert(items[n - 1].data.len() == settings.unit_size);
}

/// A unit of another size is refused, and the complaint tells its size.
pub proof fn units_of_another_size_are_refused(
    settings: Settings,
    context: CryptoContext,
    items: Seq<Unit>,
    n: nat,
)
    requires
        0 < n <= items.len(),
        items[n - 1].data.len() != settings.unit_size,
        forall|k: int| 0 <= k < n - 1 ==> (#[trigger] items[k]).data.len() == settings.unit_size,
    ensures
        encrypted(settings, context, items, n) == Err::<Seq<Unit>, Seq<char>>(
            "unsupported plaintext size "@ + crate::text::decimal(items[n - 1].data.len()),
        ),
{
    reveal_with_fuel(encrypted, 2);
    if n > 1 {
        units_are_encrypted_one_by_one(settings, context, items, (n - 1) as nat, 0);
    }
}

/// A sealed unit is the magic, the checksum in little-endian order, the
/// plaintext combined with the keystream byte by byte, and zeros.
pub proof fn sealed_units_have_this_layout(
    plain: Seq<u8>,
    keystream: Seq<u8>,
    checksum: u32,
    overhead: nat,
    i: int,
)
    requires
        overhead >= 8,
        0 <= i < plain.len() + overhead,
    ensures
        ({
            let cipher = sealed(plain, keystream, checksum, overhead);
            &&& cipher.len() == plain.len() + overhead
            &&& i == 0 ==> cipher[i] == 0x4d
            &&& i == 1 ==> cipher[i] == 0x4b
            &&& i == 2 ==> cipher[i] == 0x46
            &&& i == 3 ==> cipher[i] == 0x31
            &&& 4 <= i < 8 ==> cipher[i] == vstd::bytes::spec_u32_to_le_bytes(checksum)[i - 4]
            &&& 8 <= i < 8 + plain.len() ==> cipher[i] == plain[i - 8] ^ keystream[i - 8]
            &&& 8 + plain.len() <= i ==> cipher[i] == 0
        }),
{
    vstd::bytes::lemma_auto_spec_u32_to_from_le_bytes();
    assert(vstd::bytes::spec_u32_to_le_bytes(checksum).len() == 4);
}

/// A ciphertext is opened exactly when it has the announced length, starts with
/// the magic, and what its keystream gives has the checksum that it carries.
pub proof fn ciphertexts_open_by_length_magic_and_checksum(
    settings: Settings,
    context: CryptoContext,
    item: Unit,
)
    ensures
        ({
            let keystream = keystream_of(settings, context, item.index, settings.unit_size);
            let plain = xored(item.data.subrange(8, 8 + settings.unit_size as int), keystream);
            decrypted_unit(settings, context, item) == Ok::<Seq<u8>, Seq<char>>(plain) <==> {
                &&& item.data.len() == settings.unit_size + settings.overhead
                &&& item.data.subrange(0, 4) == seq![0x4du8, 0x4bu8, 0x46u8, 0x31u8]
                &&& crc32(plain) == vstd::bytes::spec_u32_from_le_bytes(item.data.subrange(4, 8))
            }
        }),
{
}

/// A batch is refused as a whole for another compatibility identifier, fatally,
/// or for more units than the provider takes at once; otherwise not.
pub proof fn batches_are_refused_by_identifier_and_size(
    settings: Settings,
    context: CryptoContext,
    items: usize,
)
    requires
        items <= u32::MAX,
    ensures
        batch_complaint(settings, context, items) is None <==> context.crypto_compatibility_id@
            == settings.compat_id && items <= settings.max_batch_items,
        context.crypto_compatibility_id@ != settings.compat_id ==> batch_complaint(
            settings,
            context,
            items,
        )->Some_0 is ProviderFatal,
        context.crypto_compatibility_id@ == settings.compat_id && items > settings.max_batch_items
            ==> batch_complaint(settings, context, items)->Some_0 is NonRetryableRequest,
{
}

/// A provider that misbehaves spoils its results in the one way it was told to.
pub proof fn misbehaviour_spoils_the_results(out: Seq<Unit>, overhead: nat)
    requires
        out.len() >= 2,
    ensures
        misbehaved(out, None, overhead) == out,
        ({
            let swapped = misbehaved(out, Some(Misbehavior::ReorderResults), overhead);
            swapped.len() == out.len() && swapped[0] == out[1] && swapped[1] == out[0]
                && forall|i: int| 2 <= i < out.len() ==> #[trigger] swapped[i] == out[i]
        }),
        ({
            let short = misbehaved(out, Some(Misbehavior::DropLastItem), overhead);
            short.len() == out.len() - 1 && forall|i: int|
                0 <= i < short.len() ==> #[trigger] short[i] == out[i]
        }),
        ({
            let long = misbehaved(out, Some(Misbehavior::DuplicateFirstItem), overhead);
            long.len() == out.len() + 1 && long.last() == out[0] && forall|i: int|
                0 <= i < out.len() ==> #[trigger] long[i] == out[i]
        }),
        ({
            let fat = misbehaved(out, Some(Misbehavior::OversizeCiphertext), overhead);
            fat.len() == out.len() && fat[0].index == out[0].index && fat[0].data.len()
                > out[0].data.len() + overhead && fat[0].data.take(out[0].data.len() as int)
                == out[0].data && forall|i: int| 1 <= i < out.len() ==> #[trigger] fat[i] == out[i]
        }),
        ({
            let wrong = misbehaved(out, Some(Misbehavior::MismatchedIndex), overhead);
            wrong.len() == out.len() && wrong[0].index != out[0].index && wrong[0].data
                == out[0].data && forall|i: int|
                1 <= i < out.len() ==> #[trigger] wrong[i] == out[i]
        }),
{
    let fat = misbehaved(out, Some(Misbehavior::OversizeCiphertext), overhead);
    assert(fat[0].data.take(out[0].data.len() as int) =~= out[0].data);
}

/// What a finished encryption or decryption returns, and of which kind its error
/// is.
pub proof fn errors_tell_the_request_from_the_ciphertext(
    settings: Settings,
    violation: Option<Misbehavior>,
    context: CryptoContext,
    items: Seq<Unit>,
)
    requires
        batch_complaint(settings, context, items.len() as usize) is None,
    ensures
        encrypted(settings, context, items, items.len()) is Err
            ==> FakeCryptoProvider::encryption(settings, violation, context, items) == Err::<
            Seq<Unit>,
            CryptoErrorView,
        >(
            CryptoErrorView::NonRetryableRequest(
                encrypted(settings, context, items, items.len())->Err_0,
            ),
        ),
        encrypted(settings, context, items, items.len()) is Ok && violation is None
            ==> FakeCryptoProvider::encryption(settings, violation, context, items) == Ok::<
            Seq<Unit>,
            CryptoErrorView,
        >(encrypted(settings, context, items, items.len())->Ok_0),
        decrypted(settings, context, items, items.len()) is Err
            ==> FakeCryptoProvider::decryption(settings, context, items) == Err::<
            Seq<Unit>,
            CryptoErrorView,
        >(CryptoErrorView::Integrity(decrypted(settings, context, items, items.len())->Err_0)),
        decrypted(settings, context, items, items.len()) is Ok
            ==> FakeCryptoProvider::decryption(settings, context, items) == Ok::<
            Seq<Unit>,
            CryptoErrorView,
        >(decrypted(settings, context, items, items.len())->Ok_0),
{
}

/// Calls that overlap are counted: a call that begins and ends leaves the number
/// of running calls as it was, and the highest number seen never falls.
pub proof fn overlapping_calls_are_counted(counters: Counters)
    requires
        counters.current_calls < usize::MAX,
    ensures
        ({
            let inside = FakeCryptoProvider::entered(counters);
            let after = FakeCryptoProvider::left(inside);
            &&& inside.current_calls == counters.current_calls + 1
            &&& inside.max_concurrent >= inside.current_calls
            &&& inside.max_concurrent == counters.max_concurrent || inside.max_concurrent
                == inside.current_calls
            &&& inside.max_concurrent >= counters.max_concurrent
            &&& after.current_calls == counters.current_calls
            &&& after.max_concurrent == inside.max_concurrent
            &&& after.encrypt_calls == counters.encrypt_calls
            &&& after.decrypt_calls == counters.decrypt_calls
        }),
{
}

} // verus!
