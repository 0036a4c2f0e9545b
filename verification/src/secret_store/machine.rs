//! The id of the machine, and what is derived from it.

use super::crypto::{gcm_open, hex_text, hkdf_key, law_hex_round_trip};
use super::derived::{
    between_quotes, first_id, first_quoted, first_registered, found_from, last_run, last_word,
    quoted_id, wrap_key_of,
};
use super::store::{
    dek_of, dek_plan, opened, seed_of, turns_off, unboxed, unwrapped, DekPlanView, MetaView,
    SealTier, SecretFault,
};
use crate::text::{contains_text, is_space, occurs_at, trimmed};
use vstd::prelude::*;
use vstd::utf8::encode_utf8;

verus! {

/// The first file that holds more than whitespace has the id of the machine.
pub proof fn law_first_file_with_an_id(files: Seq<Option<String>>, i: int)
    requires
        0 <= i <= files.len(),
        forall|j: int|
            0 <= j < i && (#[trigger] files[j]) is Some ==> trimmed(files[j]->0@).len() == 0,
        i < files.len() ==> files[i] is Some && trimmed(files[i]->0@).len() > 0,
    ensures
        first_id(files) == (if i < files.len() {
            Some(trimmed(files[i]->0@))
        } else {
            None
        }),
    decreases files.len(),
{
    if i > 0 {
        let t = files.drop_first();
        assert(files[0] is Some ==> trimmed(files[0]->0@).len() == 0);
        assert forall|j: int| 0 <= j < i - 1 && (#[trigger] t[j]) is Some implies trimmed(
            t[j]->0@,
        ).len() == 0 by {
            assert(t[j] == files[j + 1]);
        }
        law_first_file_with_an_id(t, i - 1);
    }
}

proof fn lemma_found(s: Seq<char>, key: Seq<char>, i: int, k: int)
    requires
        0 <= i <= k,
        k + key.len() <= s.len(),
        occurs_at(s, key, k),
        forall|j: int| i <= j < k ==> !occurs_at(s, key, j),
    ensures
        found_from(s, key, i) == Some(k),
    decreases k - i,
{
    if i < k {
        lemma_found(s, key, i + 1, k);
    }
}

proof fn lemma_not_found(s: Seq<char>, key: Seq<char>, i: int)
    requires
        0 <= i <= s.len() + 1,
        forall|j: int| i <= j <= s.len() - key.len() ==> !occurs_at(s, key, j),
    ensures
        found_from(s, key, i) is None,
    decreases s.len() + 1 - i,
{
    if i + key.len() <= s.len() {
        lemma_not_found(s, key, i + 1);
    }
}

/// What stands between the first two quotation marks.
pub proof fn law_quoted_text(a: Seq<char>, id: Seq<char>, b: Seq<char>)
    requires
        !a.contains('"'),
        !id.contains('"'),
    ensures
        between_quotes(a + seq!['"'] + id + seq!['"'] + b) == Some(id),
{
    let s = a + seq!['"'] + id + seq!['"'] + b;
    let q = seq!['"'];
    let m = a.len() as int;
    let n = m + 1 + id.len();
    assert forall|j: int| 0 <= j < n && j != m implies !occurs_at(s, q, j) by {
        if j < m {
            assert(s[j] == a[j]);
            assert(a.contains(a[j]));
        } else {
            assert(s[j] == id[j - m - 1]);
            assert(id.contains(id[j - m - 1]));
        }
        if occurs_at(s, q, j) {
            assert(s.subrange(j, j + 1)[0] == q[0]);
        }
    }
    assert(s.subrange(m, m + 1) =~= q);
    assert(s.subrange(n, n + 1) =~= q);
    lemma_found(s, q, 0, m);
    lemma_found(s, q, m + 1, n);
    assert(s.subrange(m + 1, n) =~= id);
}

/// The registry of macOS: the id is in quotation marks behind the key, on the first line that
/// has it so.
pub proof fn law_platform_uuid(lines: Seq<Seq<char>>, i: int, line: Seq<char>)
    requires
        0 <= i <= lines.len(),
        forall|j: int| 0 <= j < i ==> quoted_id(#[trigger] lines[j]) is None,
        i < lines.len() ==> quoted_id(lines[i]) is Some,
    ensures
        first_quoted(lines) == (if i < lines.len() {
            quoted_id(lines[i])
        } else {
            None
        }),
        !contains_text(line, "IOPlatformUUID"@) ==> quoted_id(line) is None,
    decreases lines.len(),
{
    if !contains_text(line, "IOPlatformUUID"@) {
        lemma_not_found(line, "IOPlatformUUID"@, 0);
    }
    if i > 0 {
        let t = lines.drop_first();
        assert(quoted_id(lines[0]) is None);
        assert forall|j: int| 0 <= j < i - 1 implies quoted_id(#[trigger] t[j]) is None by {
            assert(t[j] == lines[j + 1]);
        }
        law_platform_uuid(t, i - 1, line);
    }
}

/// The registry of Windows: the id is the last word of the first line that names it.
pub proof fn law_machine_guid(lines: Seq<Seq<char>>, i: int)
    requires
        0 <= i <= lines.len(),
        forall|j: int| 0 <= j < i ==> !contains_text(#[trigger] lines[j], "MachineGuid"@),
        i < lines.len() ==> contains_text(lines[i], "MachineGuid"@),
    ensures
        first_registered(lines) == (if i < lines.len() {
            Some(last_word(lines[i]))
        } else {
            None
        }),
    decreases lines.len(),
{
    if i > 0 {
        let t = lines.drop_first();
        assert(!contains_text(lines[0], "MachineGuid"@));
        assert forall|j: int| 0 <= j < i - 1 implies !contains_text(
            #[trigger] t[j],
            "MachineGuid"@,
        ) by {
            assert(t[j] == lines[j + 1]);
        }
        law_machine_guid(t, i - 1);
    }
}

/// The last word of a text, whatever whitespace follows it.
pub proof fn law_last_word(a: Seq<char>, w: Seq<char>, b: Seq<char>)
    requires
        a.len() > 0 ==> is_space(a.last()),
        forall|i: int| 0 <= i < w.len() ==> !is_space(#[trigger] w[i]),
        forall|i: int| 0 <= i < b.len() ==> is_space(#[trigger] b[i]),
        w.len() > 0,
    ensures
        last_word(a + w + b) == w,
    decreases b.len(),
{
    let s = a + w + b;
    if b.len() > 0 {
        assert(s.last() == b[b.len() - 1]);
        assert(s.drop_last() =~= a + w + b.drop_last());
        assert forall|i: int| 0 <= i < b.drop_last().len() implies is_space(
            #[trigger] b.drop_last()[i],
        ) by {
            assert(b.drop_last()[i] == b[i]);
        }
        law_last_word(a, w, b.drop_last());
    } else {
        assert(s =~= a + w);
        assert(s.last() == w[w.len() - 1]);
        lemma_run_back(a, w);
    }
}

proof fn lemma_run_back(a: Seq<char>, w: Seq<char>)
    requires
        a.len() > 0 ==> is_space(a.last()),
        forall|i: int| 0 <= i < w.len() ==> !is_space(#[trigger] w[i]),
    ensures
        last_run(a + w) == w,
    decreases w.len(),
{
    if w.len() > 0 {
        let d = w.drop_last();
        assert((a + w).last() == w[w.len() - 1]);
        assert((a + w).drop_last() =~= a + d);
        assert forall|i: int| 0 <= i < d.len() implies !is_space(#[trigger] d[i]) by {
            assert(d[i] == w[i]);
        }
        lemma_run_back(a, d);
        assert(d.push(w.last()) =~= w);
    } else {
        assert(a + w =~= a);
        assert(last_run(a) =~= w);
    }
}

/// The key that wraps is derived from the machine's id, for this purpose alone; an empty salt
/// is none.
pub proof fn law_wrapping_key(id: Seq<char>, salt: Seq<u8>)
    ensures
        salt.len() > 0 ==> wrap_key_of(id, salt) == hkdf_key(
            Some(salt),
            encode_utf8(id),
            encode_utf8("tunnet-state-enc-v1"@),
        ),
        salt.len() == 0 ==> wrap_key_of(id, salt) == hkdf_key(
            None,
            encode_utf8(id),
            encode_utf8("tunnet-state-enc-v1"@),
        ),
{
}

/// What is too short to hold a nonce and a tag is not opened; a key of another length than
/// thirty-two bytes is none, and a payload of another version than the second is refused.
pub proof fn law_what_is_not_opened(
    key: Seq<u8>,
    sealed: Seq<u8>,
    bytes: Seq<u8>,
    version: u32,
)
    ensures
        sealed.len() < 28 ==> opened(key, sealed) == Err::<Seq<u8>, SecretFault>(
            SecretFault::TooShort,
        ),
        sealed.len() < 28 ==> unwrapped(key, sealed) == Err::<Seq<u8>, SecretFault>(
            SecretFault::WrappedTooShort,
        ),
        sealed.len() >= 28 ==> opened(key, sealed) != Err::<Seq<u8>, SecretFault>(
            SecretFault::TooShort,
        ),
        sealed.len() >= 28 ==> unwrapped(key, sealed) != Err::<Seq<u8>, SecretFault>(
            SecretFault::WrappedTooShort,
        ),
        unwrapped(key, sealed) is Ok ==> unwrapped(key, sealed)->Ok_0.len() == 32,
        bytes.len() == 32 ==> dek_of(hex_text(bytes)) == Ok::<Seq<u8>, SecretFault>(bytes),
        bytes.len() != 32 ==> dek_of(hex_text(bytes)) == Err::<Seq<u8>, SecretFault>(
            SecretFault::DekLength,
        ),
        bytes.len() == 32 ==> seed_of(2, hex_text(bytes)) == Ok::<Seq<u8>, SecretFault>(bytes),
        bytes.len() != 32 ==> seed_of(2, hex_text(bytes)) == Err::<Seq<u8>, SecretFault>(
            SecretFault::SeedLength,
        ),
        version != 2 ==> seed_of(version, hex_text(bytes)) == Err::<Seq<u8>, SecretFault>(
            SecretFault::UnsupportedVersion(version),
        ),
{
    law_hex_round_trip(bytes);
}

/// Where the key of a tier comes from.
pub proof fn law_where_the_key_is(
    m: MetaView,
    dek: Seq<u8>,
    salt: Seq<u8>,
    wrapped: Seq<u8>,
)
    requires
        m.dek_hex == Some(hex_text(dek)),
        m.salt_hex == Some(hex_text(salt)),
        m.wrapped_dek_hex == Some(hex_text(wrapped)),
        dek.len() == 32,
    ensures
        m.tier == SealTier::Plaintext ==> dek_plan(m) == Ok::<DekPlanView, SecretFault>(
            DekPlanView::Ready(dek),
        ),
        m.tier == SealTier::Derived ==> dek_plan(m) == Ok::<DekPlanView, SecretFault>(
            DekPlanView::Derive { salt, wrapped },
        ),
        m.tier == SealTier::Keychain ==> dek_plan(m) == Ok::<DekPlanView, SecretFault>(
            DekPlanView::Keychain,
        ),
        m.tier == SealTier::Tpm ==> dek_plan(m) == Ok::<DekPlanView, SecretFault>(
            DekPlanView::Tpm { wrapped },
        ),
{
    law_hex_round_trip(dek);
    law_hex_round_trip(salt);
    law_hex_round_trip(wrapped);
}

/// Encryption is off where the setting is `1`, `true` or `yes`, and by no other setting.
pub proof fn law_setting_that_turns_encryption_off(setting: Option<&str>)
    ensures
        turns_off(setting) <==> setting is Some && (setting->0@ == "1"@ || setting->0@ == "true"@
            || setting->0@ == "yes"@),
{
}

/// A box is the nonce of twelve bytes and what was sealed with it, tag and all.
pub proof fn law_box_holds_its_nonce(key: Seq<u8>, nonce: Seq<u8>, sealed: Seq<u8>)
    requires
        nonce.len() == 12,
        sealed.len() >= 16,
    ensures
        unboxed(key, nonce + sealed) == gcm_open(key, nonce, sealed),
        gcm_open(key, nonce, sealed) is Some ==> opened(key, nonce + sealed) == Ok::<
            Seq<u8>,
            SecretFault,
        >(gcm_open(key, nonce, sealed)->0),
        gcm_open(key, nonce, sealed) is None ==> opened(key, nonce + sealed) == Err::<
            Seq<u8>,
            SecretFault,
        >(SecretFault::DecryptFailed),
{
    let b = nonce + sealed;
    assert(b.take(12) =~= nonce);
    assert(b.skip(12) =~= sealed);
}

/// What stands between the key and its next occurrence is searched for the id.
pub proof fn law_id_behind_the_key(a: Seq<char>, rest: Seq<char>)
    requires
        forall|j: int|
            0 <= j < a.len() ==> !occurs_at(a + "IOPlatformUUID"@ + rest, "IOPlatformUUID"@, j),
        !contains_text(rest, "IOPlatformUUID"@),
    ensures
        quoted_id(a + "IOPlatformUUID"@ + rest) == between_quotes(rest),
{
    let key = "IOPlatformUUID"@;
    let s = a + key + rest;
    let m = a.len() as int;
    assert(s.subrange(m, m + key.len()) =~= key);
    lemma_found(s, key, 0, m);
    assert forall|j: int| m + key.len() <= j <= s.len() - key.len() implies !occurs_at(
        s,
        key,
        j,
    ) by {
        let k = j - m - key.len();
        assert(s.subrange(j, j + key.len()) =~= rest.subrange(k, k + key.len()));
        assert(!occurs_at(rest, key, k));
    }
    lemma_not_found(s, key, m + key.len());
    assert(s.subrange(m + key.len(), s.len() as int) =~= rest);
}

} // verus!
