use tunnet_core::node::{DirectState, PersistedState};
use tunnet_core::secret_store::derived::{
    derive_wrap_key, machine_id_from, machine_id_from_ioreg, machine_id_from_registry,
};
use tunnet_core::secret_store::persist::{apply_secrets, load_agent, persist_agent};
use tunnet_core::secret_store::sealer::{PlatformSealer, SealError, SealErrorKind, SealerSlot};
use tunnet_core::secret_store::secrets::{
    clear_auth, clear_relay_auth, load_auth, load_relay_auth, secrets_exist, store_auth,
    store_relay_auth, AgentSecrets, CliAuthTokens,
};
use tunnet_core::secret_store::store::{
    begin_open, check_payload, derived_dek, derived_meta, derived_meta_with, keychain_meta, open,
    plaintext_meta, resolve_dek, seal, seal_with, tpm_meta, unwrap_dek, wrap_dek, wrap_dek_with,
    DekPlan, SealMeta, SealPolicy, SealTier, SecretFault,
};

fn net(id: u128, join: &str, ticket: Option<&str>) -> DirectState {
    DirectState {
        network_id: id,
        network_name: "n".to_string(),
        hostname: "h".to_string(),
        assigned_ipv4: 1,
        collision_index: 0,
        coordinator: false,
        coordinator_endpoint_id: None,
        namespace_id: None,
        topic_hash: "t".to_string(),
        join_secret: join.to_string(),
        doc_ticket: ticket.map(|t| t.to_string()),
        coordinator_signing_key: None,
        network_grant: None,
        content_key: None,
    }
}

#[test]
fn derived_wrap_roundtrip() {
    let salt = [7u8; 16];
    let key = derive_wrap_key("machine", &salt).unwrap();
    let dek = [9u8; 32];
    let wrapped = wrap_dek(&key, &dek).unwrap();
    let out = unwrap_dek(&key, &wrapped).unwrap();
    assert_eq!(out, dek);
}

#[test]
fn roundtrip_derived() {
    // The payload as it is sealed, with the tier that is taken without encryption.
    let tier = SealPolicy { allow_encrypt: false }.pick_tier(SealTier::Derived);
    assert_eq!(tier, SealTier::Plaintext);
    let plain = b"deadbeef ticket relay-secret".to_vec();
    let (sealed, dek) = seal(&plain).unwrap();
    assert!(!sealed.windows(12).any(|w| w == b"relay-secret"));
    let meta = plaintext_meta(&dek);
    assert_eq!(meta.tier, SealTier::Plaintext);
    match resolve_dek(&meta) {
        Ok(DekPlan::Ready(k)) => {
            assert_eq!(k, dek);
            assert_eq!(open(&k, &sealed).unwrap(), plain);
        }
        other => panic!("unexpected {other:?}"),
    }
}

#[test]
fn derived_tier_round_trip() {
    let dek = [5u8; 32];
    let meta = derived_meta(&dek, "host-1").unwrap();
    assert_eq!(meta.tier, SealTier::Derived);
    match resolve_dek(&meta) {
        Ok(DekPlan::Derive { salt, wrapped }) => {
            assert_eq!(derived_dek("host-1", &salt, &wrapped).unwrap(), dek);
            assert_eq!(derived_dek("host-2", &salt, &wrapped), Err(SecretFault::UnwrapFailed));
        }
        other => panic!("unexpected {other:?}"),
    }
    let fixed = derived_meta_with(&dek, "host-1", &[1; 16], &[2; 12]).unwrap();
    assert_eq!(fixed.salt_hex.as_deref(), Some("01010101010101010101010101010101"));
}

#[test]
fn derived_keys_are_those_of_hkdf() {
    // An empty salt is the default one: as many zero bytes as the hash is long.
    assert_eq!(derive_wrap_key("m", &[]), derive_wrap_key("m", &[0u8; 32]));
    assert_ne!(derive_wrap_key("m", &[]), derive_wrap_key("n", &[]));
    assert_ne!(derive_wrap_key("m", &[1]), derive_wrap_key("m", &[2]));
}

#[test]
fn sealing_is_the_known_cipher() {
    // AES-256-GCM with a zero key and nonce on a zero block.
    let b = seal_with(&[0u8; 16], &[0u8; 32], &[0u8; 12]).unwrap();
    assert_eq!(b[..12], [0u8; 12]);
    assert_eq!(
        b[12..28],
        [
            0xce, 0xa7, 0x40, 0x3d, 0x4d, 0x60, 0x6b, 0x6e, 0x07, 0x4e, 0xc5, 0xd3, 0xba, 0xf3,
            0x9d, 0x18
        ]
    );
    assert_eq!(
        b[28..],
        [
            0xd0, 0xd1, 0xc8, 0xa7, 0x99, 0x99, 0x6b, 0xf0, 0x26, 0x5b, 0x98, 0xb5, 0xd4, 0x8a,
            0xb9, 0x19
        ]
    );
    let w = wrap_dek_with(&[0u8; 32], &[0u8; 16], &[0u8; 12]).unwrap();
    assert_eq!(w, b);
}

#[test]
fn faults() {
    let (sealed, dek) = seal(b"x").unwrap();
    assert_eq!(open(&dek, &sealed[..10]), Err(SecretFault::TooShort));
    assert_eq!(
        begin_open(&meta(SealTier::Tpm), &sealed[..10]).unwrap_err(),
        SecretFault::TooShort
    );
    assert!(matches!(begin_open(&plaintext_meta(&dek), &sealed), Ok(DekPlan::Ready(k)) if k == dek));
    let mut broken = sealed.clone();
    broken[20] ^= 1;
    assert_eq!(open(&dek, &broken), Err(SecretFault::DecryptFailed));
    assert_eq!(unwrap_dek(&dek, &[0; 27]), Err(SecretFault::WrappedTooShort));
    assert_eq!(unwrap_dek(&dek, &broken), Err(SecretFault::UnwrapFailed));
    // The payload is intact, and it is no key.
    assert_eq!(unwrap_dek(&dek, &sealed), Err(SecretFault::UnwrappedLength));

    assert_eq!(check_payload(1, "00"), Err(SecretFault::UnsupportedVersion(1)));
    assert_eq!(check_payload(2, "zz"), Err(SecretFault::SeedHex));
    assert_eq!(check_payload(2, "00"), Err(SecretFault::SeedLength));
    assert_eq!(check_payload(2, &"ab".repeat(32)), Ok(vec![0xab; 32]));
    assert_eq!(
        SecretFault::UnsupportedVersion(7).message(),
        "unsupported sensitive payload version 7"
    );
    assert_eq!(SecretFault::TooShort.message(), "state.enc too short");
}

fn meta(tier: SealTier) -> SealMeta {
    SealMeta { version: 1, tier, salt_hex: None, wrapped_dek_hex: None, dek_hex: None }
}

#[test]
fn metadata_may_lack_what_the_tier_needs() {
    let fault = |m: SealMeta| resolve_dek(&m).unwrap_err();
    assert_eq!(fault(meta(SealTier::Plaintext)), SecretFault::MissingDek);
    let with_dek = |h: &str| SealMeta { dek_hex: Some(h.to_string()), ..meta(SealTier::Plaintext) };
    assert_eq!(fault(with_dek("xy")), SecretFault::DekHex);
    assert_eq!(fault(with_dek("00")), SecretFault::DekLength);
    assert_eq!(fault(meta(SealTier::Derived)), SecretFault::MissingSalt);
    let salt = |h: &str| SealMeta { salt_hex: Some(h.to_string()), ..meta(SealTier::Derived) };
    assert_eq!(fault(salt("0")), SecretFault::SaltHex);
    assert_eq!(fault(salt("00")), SecretFault::MissingDerivedWrapped);
    assert_eq!(
        fault(SealMeta { wrapped_dek_hex: Some("q".to_string()), ..salt("00") }),
        SecretFault::WrappedHex
    );
    assert_eq!(fault(meta(SealTier::Tpm)), SecretFault::MissingTpmWrapped);
    assert!(matches!(resolve_dek(&keychain_meta()), Ok(DekPlan::Keychain)));
    match resolve_dek(&tpm_meta(&[1, 2])) {
        Ok(DekPlan::Tpm { wrapped }) => assert_eq!(wrapped, [1, 2]),
        other => panic!("unexpected {other:?}"),
    }
}

#[test]
fn policy_from_settings() {
    assert!(SealPolicy::from_env_and_flag(false, None).allow_encrypt);
    assert!(!SealPolicy::from_env_and_flag(true, None).allow_encrypt);
    for v in ["1", "true", "yes"] {
        assert!(!SealPolicy::from_env_and_flag(false, Some(v)).allow_encrypt);
    }
    assert!(SealPolicy::from_env_and_flag(false, Some("no")).allow_encrypt);
    assert_eq!(
        SealPolicy { allow_encrypt: true }.pick_tier(SealTier::Keychain),
        SealTier::Keychain
    );
    assert_eq!(SealTier::Tpm.as_str(), "tpm");
}

#[test]
fn machine_ids() {
    let files = [None, Some(" \n".to_string()), Some(" abc\n".to_string())];
    assert_eq!(machine_id_from(&files).as_deref(), Some("abc"));
    assert_eq!(machine_id_from(&files[..2]), None);
    assert_eq!(
        machine_id_from_registry("\r\nHKLM\r\n    MachineGuid    REG_SZ    12-34\r\n").as_deref(),
        Some("12-34")
    );
    assert_eq!(machine_id_from_registry("nothing"), None);
    assert_eq!(
        machine_id_from_ioreg("x\n  IOPlatformUUID = \"AA-BB\"\n").as_deref(),
        Some("AA-BB")
    );
    assert_eq!(machine_id_from_ioreg("IOPlatformUUID = \"AA"), None);
}

struct Xor;

impl PlatformSealer for Xor {
    fn wrap(&self, plaintext: &[u8]) -> Result<Vec<u8>, SealError> {
        Ok(plaintext.iter().map(|b| b ^ 1).collect())
    }

    fn unwrap(&self, _wrapped: &[u8]) -> Result<Vec<u8>, SealError> {
        Err(SealError::new(SealErrorKind::KeyInvalidated, "key is gone"))
    }
}

#[test]
fn platform_sealer_is_installed_and_removed() {
    let mut slot: SealerSlot<Xor> = SealerSlot::new();
    let e = slot.wrap_with_platform(&[1]).unwrap_err();
    assert_eq!(e.kind, SealErrorKind::NotInstalled);
    slot.set_platform_sealer(Xor);
    assert_eq!(slot.wrap_with_platform(&[2, 3]).unwrap(), [3, 2]);
    let e = slot.unwrap_with_platform(&[2]).unwrap_err();
    assert_eq!(e.kind, SealErrorKind::KeyInvalidated);
    assert_eq!(e.message(), "key is gone");
    slot.clear_platform_sealer();
    assert_eq!(
        slot.unwrap_with_platform(&[2]).unwrap_err().kind,
        SealErrorKind::NotInstalled
    );
}

#[test]
fn tokens_come_and_go() {
    let mut s = AgentSecrets::from_identity(vec![0xab; 32]);
    assert_eq!(s.seed_hex(), "ab".repeat(32));
    store_auth(&mut s, CliAuthTokens { json: "{}".to_string() });
    store_relay_auth(&mut s, "https://relay.example.com", "relay-secret".to_string());
    let held = Some(s);
    assert_eq!(load_auth(&held).map(|a| a.json).as_deref(), Some("{}"));
    let relays = load_relay_auth(&held);
    assert_eq!(
        relays.get("https://relay.example.com").map(String::as_str),
        Some("relay-secret")
    );
    assert_eq!(relays.get("https://other"), None);
    assert!(load_auth(&None).is_none());
    let mut s = held.unwrap();
    clear_auth(&mut s);
    clear_relay_auth(&mut s);
    let held = Some(s);
    assert!(load_auth(&held).is_none());
    assert_eq!(load_relay_auth(&held).len(), 0);
    assert!(secrets_exist(&Some(vec![])));
    assert!(!secrets_exist(&None));
}

#[test]
fn persisting_keeps_the_tokens() {
    let mut old = AgentSecrets::from_identity(vec![1; 32]);
    store_auth(&mut old, CliAuthTokens { json: "t".to_string() });
    store_relay_auth(&mut old, "u", "r".to_string());
    let state = PersistedState::Direct { networks: vec![net(42, "deadbeef", Some("ticket"))] };
    let s = persist_agent(vec![2; 32], &state, Some(old));
    assert_eq!(s.identity_seed, vec![2; 32]);
    let ns = s.networks.get(&42).unwrap();
    assert_eq!(ns.join_secret, "deadbeef");
    assert_eq!(ns.doc_ticket.as_deref(), Some("ticket"));
    let held = Some(s);
    assert_eq!(load_auth(&held).map(|a| a.json).as_deref(), Some("t"));
    assert_eq!(load_relay_auth(&held).get("u").map(String::as_str), Some("r"));
}

#[test]
fn an_agent_comes_back_as_it_was_saved() {
    let state = PersistedState::Direct {
        networks: vec![net(1, "one", Some("t1")), net(2, "two", None)],
    };
    let secrets = persist_agent(vec![3; 32], &state, None);
    // What is saved in the open lacks the secrets.
    let public = PersistedState::Direct { networks: vec![net(1, "", None), net(2, "", None)] };
    let (seed, state, tier) = load_agent(secrets, SealTier::Derived, public);
    assert_eq!(seed, vec![3; 32]);
    assert_eq!(tier, SealTier::Derived);
    match state {
        PersistedState::Direct { networks } => {
            assert_eq!(networks[0].join_secret, "one");
            assert_eq!(networks[0].doc_ticket.as_deref(), Some("t1"));
            assert_eq!(networks[1].join_secret, "two");
            assert_eq!(networks[1].doc_ticket, None);
        }
        other => panic!("unexpected {other:?}"),
    }
    let empty = AgentSecrets::from_identity(vec![0; 32]);
    let untouched = apply_secrets(PersistedState::Direct { networks: vec![net(9, "x", None)] }, &empty);
    assert!(matches!(untouched, PersistedState::Direct { networks } if networks[0].join_secret == "x"));
}

struct Shift(u8);

impl PlatformSealer for Shift {
    fn wrap(&self, plaintext: &[u8]) -> Result<Vec<u8>, SealError> {
        Ok(plaintext.iter().map(|b| b.wrapping_add(self.0)).collect())
    }

    fn unwrap(&self, wrapped: &[u8]) -> Result<Vec<u8>, SealError> {
        Ok(wrapped.iter().map(|b| b.wrapping_sub(self.0)).collect())
    }
}

#[test]
fn the_sealer_that_was_set_last_seals() {
    let mut slot: SealerSlot<Shift> = SealerSlot::new();
    slot.set_platform_sealer(Shift(1));
    slot.set_platform_sealer(Shift(5));
    assert_eq!(slot.wrap_with_platform(&[1, 2]).unwrap(), [6, 7]);
    assert_eq!(slot.unwrap_with_platform(&[6, 7]).unwrap(), [1, 2]);
    slot.clear_platform_sealer();
    assert_eq!(
        slot.wrap_with_platform(&[1]).unwrap_err().kind,
        SealErrorKind::NotInstalled
    );
}
