//! Sealing and opening: the payload under the data-encryption key, and the key itself by
//! tier.

use super::crypto::{
    bytes_of, decode_hex, decrypt, encode_hex, encrypt, fresh_key, fresh_nonce, fresh_salt,
    gcm_open, gcm_seal, hex_bytes, hex_text, law_hex_round_trip,
};
use super::derived::{derive_wrap_key, wrap_key_of};
use crate::octets::{append, slice};
use crate::policy::denylog::text_of;
use crate::text::{decimal, push_decimal, same_text};
use vstd::prelude::*;
use vstd::string::*;

verus! {

pub const PAYLOAD_VERSION: u32 = 2;

pub const META_VERSION: u32 = 1;

#[derive(Debug, Clone, Copy, PartialEq, Eq, Structural)]
pub enum SealTier {
    Tpm,
    Keychain,
    Derived,
    Plaintext,
}

pub open spec fn tier_name(t: SealTier) -> Seq<char> {
    match t {
        SealTier::Tpm => "tpm"@,
        SealTier::Keychain => "keychain"@,
        SealTier::Derived => "derived"@,
        SealTier::Plaintext => "plaintext"@,
    }
}

impl SealTier {
    pub fn as_str(self) -> (s: &'static str)
        ensures
            s@ == tier_name(self),
    {
        match self {
            Self::Tpm => "tpm",
            Self::Keychain => "keychain",
            Self::Derived => "derived",
            Self::Plaintext => "plaintext",
        }
    }
}

/// How the data-encryption key is kept.
#[derive(Debug)]
pub struct SealMeta {
    pub version: u32,
    pub tier: SealTier,
    /// Hex salt for derived tier.
    pub salt_hex: Option<String>,
    /// Wrapped DEK (hex). Absent for keychain (DEK lives in Keychain) and plaintext.
    pub wrapped_dek_hex: Option<String>,
    /// Plaintext DEK hex - only for tier `plaintext`.
    pub dek_hex: Option<String>,
}

/// Policy for selecting a seal tier when writing.
#[derive(Debug, Clone, Copy, PartialEq, Eq, Structural)]
pub struct SealPolicy {
    pub allow_encrypt: bool,
}

/// The setting turns encryption off.
pub open spec fn turns_off(v: Option<&str>) -> bool {
    v matches Some(s) && (s@ == "1"@ || s@ == "true"@ || s@ == "yes"@)
}

impl SealPolicy {
    /// Encryption is allowed unless the flag or the setting turns it off.
    pub fn from_env_and_flag(no_encrypt: bool, setting: Option<&str>) -> (p: Self)
        ensures
            p.allow_encrypt == !(no_encrypt || turns_off(setting)),
    {
        let off = match setting {
            Some(s) => same_text(s, "1") || same_text(s, "true") || same_text(s, "yes"),
            None => false,
        };
        SealPolicy { allow_encrypt: !(no_encrypt || off) }
    }

    /// The best tier that the platform has, or none of them where encryption is off.
    pub fn pick_tier(self, best: SealTier) -> (t: SealTier)
        ensures
            t == (if self.allow_encrypt {
                best
            } else {
                SealTier::Plaintext
            }),
    {
        if !self.allow_encrypt {
            return SealTier::Plaintext;
        }
        best
    }
}

/// Why secrets cannot be sealed or opened.
#[derive(Debug, Clone, Copy, PartialEq, Eq, Structural)]
pub enum SecretFault {
    EncryptFailed,
    WrapFailed,
    TooShort,
    DecryptFailed,
    UnsupportedVersion(u32),
    SeedHex,
    SeedLength,
    MissingDek,
    DekHex,
    DekLength,
    MissingSalt,
    SaltHex,
    MissingDerivedWrapped,
    MissingTpmWrapped,
    WrappedHex,
    WrappedTooShort,
    UnwrapFailed,
    UnwrappedLength,
}

pub open spec fn fault_text(f: SecretFault) -> Seq<char> {
    match f {
        SecretFault::EncryptFailed => "AES-GCM encrypt failed"@,
        SecretFault::WrapFailed => "wrap DEK failed"@,
        SecretFault::TooShort => "state.enc too short"@,
        SecretFault::DecryptFailed => "failed to decrypt state.enc (wrong machine or corrupt?)"@,
        SecretFault::UnsupportedVersion(v) => "unsupported sensitive payload version "@ + decimal(
            v as nat,
        ),
        SecretFault::SeedHex => "identity seed hex"@,
        SecretFault::SeedLength => "identity seed must be 32 bytes"@,
        SecretFault::MissingDek => "plaintext tier missing dek_hex"@,
        SecretFault::DekHex => "dek hex"@,
        SecretFault::DekLength => "dek must be 32 bytes"@,
        SecretFault::MissingSalt => "derived tier missing salt"@,
        SecretFault::SaltHex => "salt hex"@,
        SecretFault::MissingDerivedWrapped => "derived tier missing wrapped_dek"@,
        SecretFault::MissingTpmWrapped => "tpm tier missing wrapped_dek"@,
        SecretFault::WrappedHex => "wrapped dek hex"@,
        SecretFault::WrappedTooShort => "wrapped DEK too short"@,
        SecretFault::UnwrapFailed => "unwrap DEK failed"@,
        SecretFault::UnwrappedLength => "unwrapped DEK wrong length"@,
    }
}

impl SecretFault {
    pub fn message(self) -> (s: String)
        ensures
            s@ == fault_text(self),
    {
        let t: &str = match self {
            SecretFault::EncryptFailed => "AES-GCM encrypt failed",
            SecretFault::WrapFailed => "wrap DEK failed",
            SecretFault::TooShort => "state.enc too short",
            SecretFault::DecryptFailed => "failed to decrypt state.enc (wrong machine or corrupt?)",
            SecretFault::UnsupportedVersion(_) => "unsupported sensitive payload version ",
            SecretFault::SeedHex => "identity seed hex",
            SecretFault::SeedLength => "identity seed must be 32 bytes",
            SecretFault::MissingDek => "plaintext tier missing dek_hex",
            SecretFault::DekHex => "dek hex",
            SecretFault::DekLength => "dek must be 32 bytes",
            SecretFault::MissingSalt => "derived tier missing salt",
            SecretFault::SaltHex => "salt hex",
            SecretFault::MissingDerivedWrapped => "derived tier missing wrapped_dek",
            SecretFault::MissingTpmWrapped => "tpm tier missing wrapped_dek",
            SecretFault::WrappedHex => "wrapped dek hex",
            SecretFault::WrappedTooShort => "wrapped DEK too short",
            SecretFault::UnwrapFailed => "unwrap DEK failed",
            SecretFault::UnwrappedLength => "unwrapped DEK wrong length",
        };
        let mut s: String = t.to_owned();
        if let SecretFault::UnsupportedVersion(v) = self {
            push_decimal(&mut s, v as u64);
        }
        s
    }
}

/// A message behind its nonce: the nonce, the ciphertext, the tag.
pub open spec fn boxed(key: Seq<u8>, nonce: Seq<u8>, plain: Seq<u8>) -> Option<Seq<u8>> {
    match gcm_seal(key, nonce, plain) {
        Some(c) => Some(nonce + c),
        None => None,
    }
}

/// The message of a box.
pub open spec fn unboxed(key: Seq<u8>, sealed: Seq<u8>) -> Option<Seq<u8>> {
    if sealed.len() < 28 {
        None
    } else {
        gcm_open(key, sealed.take(12), sealed.skip(12))
    }
}

fn box_with(key: &[u8], nonce: &[u8], plain: &[u8]) -> (r: Option<Vec<u8>>)
    requires
        key@.len() == 32,
        nonce@.len() == 12,
    ensures
        bytes_of(r) == boxed(key@, nonce@, plain@),
        plain@.len() <= 0xf_ffff_ffe0 ==> r is Some,
        r matches Some(b) ==> b@.len() == plain@.len() + 28 && unboxed(key@, b@) == Some(plain@),
{
    match encrypt(key, nonce, plain) {
        Some(c) => {
            let mut out: Vec<u8> = Vec::new();
            append(&mut out, nonce);
            append(&mut out, c.as_slice());
            proof {
                assert(out@ =~= nonce@ + c@);
                assert(out@.take(12) =~= nonce@);
                assert(out@.skip(12) =~= c@);
            }
            Some(out)
        },
        None => None,
    }
}

fn open_box(key: &[u8], sealed: &[u8]) -> (r: Option<Vec<u8>>)
    requires
        key@.len() == 32,
        sealed@.len() >= 28,
    ensures
        bytes_of(r) == unboxed(key@, sealed@),
        r matches Some(p) ==> p@.len() + 28 == sealed@.len(),
{
    let n: usize = sealed.len();
    let nonce = slice(sealed, 0, 12);
    let body = slice(sealed, 12, n);
    proof {
        assert(nonce@ =~= sealed@.take(12));
        assert(body@ =~= sealed@.skip(12));
    }
    decrypt(key, nonce.as_slice(), body.as_slice())
}

/// Wraps a data-encryption key with a given nonce.
pub fn wrap_dek_with(wrap_key: &[u8], dek: &[u8], nonce: &[u8]) -> (r: Result<Vec<u8>, SecretFault>)
    requires
        wrap_key@.len() == 32,
        nonce@.len() == 12,
    ensures
        match boxed(wrap_key@, nonce@, dek@) {
            Some(b) => r matches Ok(w) && w@ == b,
            None => r == Err::<Vec<u8>, SecretFault>(SecretFault::WrapFailed),
        },
        dek@.len() <= 0xf_ffff_ffe0 ==> r is Ok,
        r matches Ok(w) ==> w@.len() == dek@.len() + 28 && unboxed(wrap_key@, w@) == Some(dek@),
{
    match box_with(wrap_key, nonce, dek) {
        Some(w) => Ok(w),
        None => Err(SecretFault::WrapFailed),
    }
}

/// Wraps a data-encryption key.
pub fn wrap_dek(wrap_key: &[u8], dek: &[u8]) -> (r: Result<Vec<u8>, SecretFault>)
    requires
        wrap_key@.len() == 32,
    ensures
        dek@.len() <= 0xf_ffff_ffe0 ==> r is Ok,
        r matches Ok(w) ==> w@.len() == dek@.len() + 28 && unboxed(wrap_key@, w@) == Some(dek@),
        r matches Err(e) ==> e == SecretFault::WrapFailed,
{
    let nonce = fresh_nonce();
    wrap_dek_with(wrap_key, dek, nonce.as_slice())
}

/// The data-encryption key in a wrapping.
pub open spec fn unwrapped(wrap_key: Seq<u8>, wrapped: Seq<u8>) -> Result<Seq<u8>, SecretFault> {
    if wrapped.len() < 28 {
        Err(SecretFault::WrappedTooShort)
    } else {
        match unboxed(wrap_key, wrapped) {
            None => Err(SecretFault::UnwrapFailed),
            Some(p) => if p.len() != 32 {
                Err(SecretFault::UnwrappedLength)
            } else {
                Ok(p)
            },
        }
    }
}

pub open spec fn is_key(r: Result<Vec<u8>, SecretFault>, v: Result<Seq<u8>, SecretFault>) -> bool {
    match (r, v) {
        (Ok(b), Ok(s)) => b@ == s,
        (Err(e), Err(f)) => e == f,
        _ => false,
    }
}

pub fn unwrap_dek(wrap_key: &[u8], wrapped: &[u8]) -> (r: Result<Vec<u8>, SecretFault>)
    requires
        wrap_key@.len() == 32,
    ensures
        is_key(r, unwrapped(wrap_key@, wrapped@)),
        r matches Ok(k) ==> k@.len() == 32,
{
    if wrapped.len() < 28 {
        return Err(SecretFault::WrappedTooShort);
    }
    match open_box(wrap_key, wrapped) {
        None => Err(SecretFault::UnwrapFailed),
        Some(p) => {
            if p.len() != 32 {
                return Err(SecretFault::UnwrappedLength);
            }
            Ok(p)
        },
    }
}

/// A data-encryption key in hexadecimal.
pub open spec fn dek_of(s: Seq<char>) -> Result<Seq<u8>, SecretFault> {
    match hex_bytes(s) {
        None => Err(SecretFault::DekHex),
        Some(b) => if b.len() != 32 {
            Err(SecretFault::DekLength)
        } else {
            Ok(b)
        },
    }
}

fn decode_dek32(s: &str) -> (r: Result<Vec<u8>, SecretFault>)
    ensures
        is_key(r, dek_of(s@)),
        r matches Ok(k) ==> k@.len() == 32,
{
    match decode_hex(s) {
        None => Err(SecretFault::DekHex),
        Some(b) => {
            if b.len() != 32 {
                return Err(SecretFault::DekLength);
            }
            Ok(b)
        },
    }
}

/// Metadata by their texts.
pub struct MetaView {
    pub version: u32,
    pub tier: SealTier,
    pub salt_hex: Option<Seq<char>>,
    pub wrapped_dek_hex: Option<Seq<char>>,
    pub dek_hex: Option<Seq<char>>,
}

impl View for SealMeta {
    type V = MetaView;

    open spec fn view(&self) -> MetaView {
        MetaView {
            version: self.version,
            tier: self.tier,
            salt_hex: text_of(self.salt_hex),
            wrapped_dek_hex: text_of(self.wrapped_dek_hex),
            dek_hex: text_of(self.dek_hex),
        }
    }
}

/// Where the data-encryption key comes from.
#[derive(Debug)]
pub enum DekPlan {
    Ready(Vec<u8>),
    /// Unwrap under the key derived from the machine's id and the salt.
    Derive { salt: Vec<u8>, wrapped: Vec<u8> },
    /// The keychain has it.
    Keychain,
    /// The platform unwraps it.
    Tpm { wrapped: Vec<u8> },
}

pub enum DekPlanView {
    Ready(Seq<u8>),
    Derive { salt: Seq<u8>, wrapped: Seq<u8> },
    Keychain,
    Tpm { wrapped: Seq<u8> },
}

impl View for DekPlan {
    type V = DekPlanView;

    open spec fn view(&self) -> DekPlanView {
        match *self {
            DekPlan::Ready(k) => DekPlanView::Ready(k@),
            DekPlan::Derive { salt, wrapped } => DekPlanView::Derive {
                salt: salt@,
                wrapped: wrapped@,
            },
            DekPlan::Keychain => DekPlanView::Keychain,
            DekPlan::Tpm { wrapped } => DekPlanView::Tpm { wrapped: wrapped@ },
        }
    }
}

/// Where the metadata say that the data-encryption key comes from.
pub open spec fn dek_plan(m: MetaView) -> Result<DekPlanView, SecretFault> {
    match m.tier {
        SealTier::Plaintext => match m.dek_hex {
            None => Err(SecretFault::MissingDek),
            Some(h) => match dek_of(h) {
                Ok(k) => Ok(DekPlanView::Ready(k)),
                Err(e) => Err(e),
            },
        },
        SealTier::Derived => match m.salt_hex {
            None => Err(SecretFault::MissingSalt),
            Some(s) => match hex_bytes(s) {
                None => Err(SecretFault::SaltHex),
                Some(salt) => match m.wrapped_dek_hex {
                    None => Err(SecretFault::MissingDerivedWrapped),
                    Some(w) => match hex_bytes(w) {
                        None => Err(SecretFault::WrappedHex),
                        Some(wrapped) => Ok(DekPlanView::Derive { salt, wrapped }),
                    },
                },
            },
        },
        SealTier::Keychain => Ok(DekPlanView::Keychain),
        SealTier::Tpm => match m.wrapped_dek_hex {
            None => Err(SecretFault::MissingTpmWrapped),
            Some(w) => match hex_bytes(w) {
                None => Err(SecretFault::WrappedHex),
                Some(wrapped) => Ok(DekPlanView::Tpm { wrapped }),
            },
        },
    }
}

pub open spec fn is_plan(r: Result<DekPlan, SecretFault>, v: Result<DekPlanView, SecretFault>) -> bool {
    match (r, v) {
        (Ok(p), Ok(q)) => p@ == q,
        (Err(e), Err(f)) => e == f,
        _ => false,
    }
}

/// Where the metadata say that the data-encryption key comes from.
pub fn resolve_dek(meta: &SealMeta) -> (r: Result<DekPlan, SecretFault>)
    ensures
        is_plan(r, dek_plan(meta@)),
        r matches Ok(DekPlan::Ready(k)) ==> k@.len() == 32,
{
    match meta.tier {
        SealTier::Plaintext => match &meta.dek_hex {
            None => Err(SecretFault::MissingDek),
            Some(h) => match decode_dek32(h.as_str()) {
                Ok(k) => Ok(DekPlan::Ready(k)),
                Err(e) => Err(e),
            },
        },
        SealTier::Derived => match &meta.salt_hex {
            None => Err(SecretFault::MissingSalt),
            Some(s) => match decode_hex(s.as_str()) {
                None => Err(SecretFault::SaltHex),
                Some(salt) => match &meta.wrapped_dek_hex {
                    None => Err(SecretFault::MissingDerivedWrapped),
                    Some(w) => match decode_hex(w.as_str()) {
                        None => Err(SecretFault::WrappedHex),
                        Some(wrapped) => Ok(DekPlan::Derive { salt, wrapped }),
                    },
                },
            },
        },
        SealTier::Keychain => Ok(DekPlan::Keychain),
        SealTier::Tpm => match &meta.wrapped_dek_hex {
            None => Err(SecretFault::MissingTpmWrapped),
            Some(w) => match decode_hex(w.as_str()) {
                None => Err(SecretFault::WrappedHex),
                Some(wrapped) => Ok(DekPlan::Tpm { wrapped }),
            },
        },
    }
}

/// The data-encryption key of the derived tier, on the machine with the given id.
pub fn derived_dek(machine_id: &str, salt: &[u8], wrapped: &[u8]) -> (r: Result<
    Vec<u8>,
    SecretFault,
>)
    ensures
        is_key(r, unwrapped(wrap_key_of(machine_id@, salt@), wrapped@)),
        r matches Ok(k) ==> k@.len() == 32,
{
    match derive_wrap_key(machine_id, salt) {
        Some(key) => unwrap_dek(key.as_slice(), wrapped),
        None => Err(SecretFault::UnwrapFailed),
    }
}

/// The metadata of the plaintext tier.
pub fn plaintext_meta(dek: &[u8]) -> (m: SealMeta)
    ensures
        m@ == (MetaView {
            version: META_VERSION,
            tier: SealTier::Plaintext,
            salt_hex: None,
            wrapped_dek_hex: None,
            dek_hex: Some(hex_text(dek@)),
        }),
{
    SealMeta {
        version: META_VERSION,
        tier: SealTier::Plaintext,
        salt_hex: None,
        wrapped_dek_hex: None,
        dek_hex: Some(encode_hex(dek)),
    }
}

/// The metadata of the keychain tier: the key itself is in the keychain.
pub fn keychain_meta() -> (m: SealMeta)
    ensures
        m@ == (MetaView {
            version: META_VERSION,
            tier: SealTier::Keychain,
            salt_hex: None,
            wrapped_dek_hex: None,
            dek_hex: None,
        }),
{
    SealMeta {
        version: META_VERSION,
        tier: SealTier::Keychain,
        salt_hex: None,
        wrapped_dek_hex: None,
        dek_hex: None,
    }
}

/// The metadata of the platform tier, with the key as the platform wrapped it.
pub fn tpm_meta(wrapped: &[u8]) -> (m: SealMeta)
    ensures
        m@ == (MetaView {
            version: META_VERSION,
            tier: SealTier::Tpm,
            salt_hex: None,
            wrapped_dek_hex: Some(hex_text(wrapped@)),
            dek_hex: None,
        }),
{
    SealMeta {
        version: META_VERSION,
        tier: SealTier::Tpm,
        salt_hex: None,
        wrapped_dek_hex: Some(encode_hex(wrapped)),
        dek_hex: None,
    }
}

/// The metadata of the derived tier, with a given salt and nonce.
pub fn derived_meta_with(dek: &[u8], machine_id: &str, salt: &[u8], nonce: &[u8]) -> (r: Result<
    SealMeta,
    SecretFault,
>)
    requires
        dek@.len() == 32,
        nonce@.len() == 12,
    ensures
        r is Ok,
        r matches Ok(m) ==> boxed(wrap_key_of(machine_id@, salt@), nonce@, dek@) is Some && m@ == (
        MetaView {
            version: META_VERSION,
            tier: SealTier::Derived,
            salt_hex: Some(hex_text(salt@)),
            wrapped_dek_hex: Some(
                hex_text(boxed(wrap_key_of(machine_id@, salt@), nonce@, dek@)->Some_0),
            ),
            dek_hex: None,
        }),
        r matches Ok(m) ==> opens_to(m@, machine_id@, dek@),
{
    let key = match derive_wrap_key(machine_id, salt) {
        Some(k) => k,
        None => {
            return Err(SecretFault::WrapFailed);
        },
    };
    match wrap_dek_with(key.as_slice(), dek, nonce) {
        Ok(w) => {
            proof {
                law_hex_round_trip(salt@);
                law_hex_round_trip(w@);
            }
            Ok(
                SealMeta {
                    version: META_VERSION,
                    tier: SealTier::Derived,
                    salt_hex: Some(encode_hex(salt)),
                    wrapped_dek_hex: Some(encode_hex(w.as_slice())),
                    dek_hex: None,
                },
            )
        },
        Err(e) => Err(e),
    }
}

/// The metadata of the derived tier.
pub fn derived_meta(dek: &[u8], machine_id: &str) -> (r: Result<SealMeta, SecretFault>)
    requires
        dek@.len() == 32,
    ensures
        r is Ok,
        r matches Ok(m) ==> m.tier == SealTier::Derived && m.version == META_VERSION && m.dek_hex
            is None && opens_to(m@, machine_id@, dek@),
{
    let salt = fresh_salt();
    let nonce = fresh_nonce();
    derived_meta_with(dek, machine_id, salt.as_slice(), nonce.as_slice())
}

/// The metadata lead to the data-encryption key, on the machine with the given id and
/// without the help of the platform.
pub open spec fn opens_to(m: MetaView, machine_id: Seq<char>, dek: Seq<u8>) -> bool {
    match dek_plan(m) {
        Ok(DekPlanView::Ready(k)) => k == dek,
        Ok(DekPlanView::Derive { salt, wrapped }) => unwrapped(
            wrap_key_of(machine_id, salt),
            wrapped,
        ) == Ok::<Seq<u8>, SecretFault>(dek),
        _ => false,
    }
}

/// The metadata of the plaintext tier lead to the key that they were made for.
pub proof fn law_plaintext_round_trip(m: MetaView, machine_id: Seq<char>, dek: Seq<u8>)
    requires
        dek.len() == 32,
        m.tier == SealTier::Plaintext,
        m.dek_hex == Some(hex_text(dek)),
    ensures
        opens_to(m, machine_id, dek),
{
    law_hex_round_trip(dek);
}

/// Seals a payload under a key with a given nonce.
pub fn seal_with(plain: &[u8], dek: &[u8], nonce: &[u8]) -> (r: Result<Vec<u8>, SecretFault>)
    requires
        dek@.len() == 32,
        nonce@.len() == 12,
    ensures
        match boxed(dek@, nonce@, plain@) {
            Some(b) => r matches Ok(s) && s@ == b,
            None => r == Err::<Vec<u8>, SecretFault>(SecretFault::EncryptFailed),
        },
        plain@.len() <= 0xf_ffff_ffe0 ==> r is Ok,
        r matches Ok(s) ==> opened(dek@, s@) == Ok::<Seq<u8>, SecretFault>(plain@),
{
    match box_with(dek, nonce, plain) {
        Some(b) => Ok(b),
        None => Err(SecretFault::EncryptFailed),
    }
}

/// Seals a payload under a new key. Hands out the sealed bytes and the key.
pub fn seal(plain: &[u8]) -> (r: Result<(Vec<u8>, Vec<u8>), SecretFault>)
    ensures
        plain@.len() <= 0xf_ffff_ffe0 ==> r is Ok,
        r matches Ok(s) ==> s.1@.len() == 32 && opened(s.1@, s.0@) == Ok::<Seq<u8>, SecretFault>(
            plain@,
        ),
        r matches Err(e) ==> e == SecretFault::EncryptFailed,
{
    let dek = fresh_key();
    let nonce = fresh_nonce();
    match seal_with(plain, dek.as_slice(), nonce.as_slice()) {
        Ok(b) => Ok((b, dek)),
        Err(e) => Err(e),
    }
}

/// The payload of sealed bytes.
pub open spec fn opened(dek: Seq<u8>, sealed: Seq<u8>) -> Result<Seq<u8>, SecretFault> {
    if sealed.len() < 28 {
        Err(SecretFault::TooShort)
    } else {
        match unboxed(dek, sealed) {
            Some(p) => Ok(p),
            None => Err(SecretFault::DecryptFailed),
        }
    }
}

/// Where to find the key of a sealed file. A file that is too short is refused first.
pub fn begin_open(meta: &SealMeta, sealed: &[u8]) -> (r: Result<DekPlan, SecretFault>)
    ensures
        sealed@.len() < 28 ==> r == Err::<DekPlan, SecretFault>(SecretFault::TooShort),
        sealed@.len() >= 28 ==> is_plan(r, dek_plan(meta@)),
{
    if sealed.len() < 28 {
        return Err(SecretFault::TooShort);
    }
    resolve_dek(meta)
}

/// Opens sealed bytes.
pub fn open(dek: &[u8], sealed: &[u8]) -> (r: Result<Vec<u8>, SecretFault>)
    requires
        dek@.len() == 32,
    ensures
        is_key(r, opened(dek@, sealed@)),
{
    if sealed.len() < 28 {
        return Err(SecretFault::TooShort);
    }
    match open_box(dek, sealed) {
        Some(p) => Ok(p),
        None => Err(SecretFault::DecryptFailed),
    }
}

/// The identity seed of a payload.
pub open spec fn seed_of(version: u32, seed_hex: Seq<char>) -> Result<Seq<u8>, SecretFault> {
    if version != PAYLOAD_VERSION {
        Err(SecretFault::UnsupportedVersion(version))
    } else {
        match hex_bytes(seed_hex) {
            None => Err(SecretFault::SeedHex),
            Some(b) => if b.len() != 32 {
                Err(SecretFault::SeedLength)
            } else {
                Ok(b)
            },
        }
    }
}

/// Checks a payload that was opened, and hands out its identity seed.
pub fn check_payload(version: u32, seed_hex: &str) -> (r: Result<Vec<u8>, SecretFault>)
    ensures
        is_key(r, seed_of(version, seed_hex@)),
        r matches Ok(s) ==> s@.len() == 32,
{
    if version != PAYLOAD_VERSION {
        return Err(SecretFault::UnsupportedVersion(version));
    }
    match decode_hex(seed_hex) {
        None => Err(SecretFault::SeedHex),
        Some(b) => {
            if b.len() != 32 {
                return Err(SecretFault::SeedLength);
            }
            Ok(b)
        },
    }
}

} // verus!
