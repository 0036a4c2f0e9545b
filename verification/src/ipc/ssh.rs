//! SSH sessions and recordings, from what the control plane gives.

use super::protocol::{SshRecordingInfo, SshSessionInfo};
use crate::policy::denylog::text_of;
use crate::text::{chars_of, copy_text, same_text, substring};
use vstd::prelude::*;
use vstd::string::*;

verus! {

/// A value of a JSON object, as far as it is read: as a string, a number or a boolean,
/// where it is one, and as it is written.
#[derive(Debug)]
pub struct JsonValue {
    pub as_str: Option<String>,
    pub as_u64: Option<u64>,
    pub as_bool: Option<bool>,
    pub written: String,
}

/// A JSON object: its fields, each name once.
pub type JsonObject = Vec<(String, JsonValue)>;

/// The value of a field.
pub open spec fn field_of(o: Seq<(String, JsonValue)>, name: Seq<char>) -> Option<JsonValue>
    decreases o.len(),
{
    if o.len() == 0 {
        None
    } else if o[0].0@ == name {
        Some(o[0].1)
    } else {
        field_of(o.drop_first(), name)
    }
}

/// The value of a field that has two names: the first one counts.
pub open spec fn either(o: Seq<(String, JsonValue)>, a: Seq<char>, b: Seq<char>) -> Option<
    JsonValue,
> {
    if field_of(o, a) is Some {
        field_of(o, a)
    } else {
        field_of(o, b)
    }
}

fn find_field<'a>(o: &'a JsonObject, name: &str) -> (r: Option<&'a JsonValue>)
    ensures
        r is Some == field_of(o@, name@) is Some,
        r matches Some(v) ==> field_of(o@, name@) == Some(*v),
{
    let ghost s = o@;
    let mut i: usize = 0;
    assert(s.skip(0) =~= s);
    while i < o.len()
        invariant
            s == o@,
            i <= s.len(),
            field_of(s, name@) == field_of(s.skip(i as int), name@),
        decreases o.len() - i,
    {
        proof {
            assert(s.skip(i as int)[0] == s[i as int]);
            assert(s.skip(i as int).drop_first() =~= s.skip(i + 1));
        }
        if same_text(o[i].0.as_str(), name) {
            return Some(&o[i].1);
        }
        i += 1;
    }
    None
}

fn find_either<'a>(o: &'a JsonObject, a: &str, b: &str) -> (r: Option<&'a JsonValue>)
    ensures
        r is Some == either(o@, a@, b@) is Some,
        r matches Some(v) ==> either(o@, a@, b@) == Some(*v),
{
    match find_field(o, a) {
        Some(v) => Some(v),
        None => find_field(o, b),
    }
}

/// A value as a string, where it is one.
pub open spec fn str_of(v: Option<JsonValue>) -> Option<Seq<char>> {
    match v {
        Some(x) => text_of(x.as_str),
        None => None,
    }
}

pub open spec fn u64_of(v: Option<JsonValue>) -> Option<u64> {
    match v {
        Some(x) => x.as_u64,
        None => None,
    }
}

pub open spec fn bool_of(v: Option<JsonValue>) -> Option<bool> {
    match v {
        Some(x) => x.as_bool,
        None => None,
    }
}

pub open spec fn or_empty(s: Option<Seq<char>>) -> Seq<char> {
    match s {
        Some(t) => t,
        None => Seq::empty(),
    }
}

/// The text without the quotes around it.
pub open spec fn unquoted_front(s: Seq<char>) -> Seq<char>
    decreases s.len(),
{
    if s.len() > 0 && s[0] == '"' {
        unquoted_front(s.drop_first())
    } else {
        s
    }
}

pub open spec fn unquoted_back(s: Seq<char>) -> Seq<char>
    decreases s.len(),
{
    if s.len() > 0 && s.last() == '"' {
        unquoted_back(s.drop_last())
    } else {
        s
    }
}

/// A value as it is written, without the quotes around it.
pub open spec fn written_of(v: Option<JsonValue>) -> Seq<char> {
    match v {
        Some(x) => unquoted_back(unquoted_front(x.written@)),
        None => Seq::empty(),
    }
}

fn unquote(s: &str) -> (r: String)
    ensures
        r@ == unquoted_back(unquoted_front(s@)),
{
    let v = chars_of(s);
    let mut a: usize = 0;
    assert(v@.skip(0) =~= v@);
    while a < v.len() && v[a] == '"'
        invariant
            v@ == s@,
            a <= v@.len(),
            unquoted_front(s@) == unquoted_front(v@.skip(a as int)),
        decreases v.len() - a,
    {
        proof {
            assert(v@.skip(a as int)[0] == v@[a as int]);
            assert(v@.skip(a as int).drop_first() =~= v@.skip(a + 1));
        }
        a += 1;
    }
    let ghost f = unquoted_front(s@);
    proof {
        if a < v@.len() {
            assert(v@.skip(a as int)[0] == v@[a as int]);
        }
        assert(f == v@.skip(a as int));
        assert(v@.subrange(a as int, v@.len() as int) =~= f);
    }
    let mut b: usize = v.len();
    while b > a && v[b - 1] == '"'
        invariant
            a <= b <= v@.len(),
            f == v@.skip(a as int),
            unquoted_back(f) == unquoted_back(v@.subrange(a as int, b as int)),
        decreases b,
    {
        proof {
            let t = v@.subrange(a as int, b as int);
            assert(t.last() == v@[b - 1]);
            assert(t.drop_last() =~= v@.subrange(a as int, b - 1));
        }
        b -= 1;
    }
    proof {
        let t = v@.subrange(a as int, b as int);
        if t.len() > 0 {
            assert(t.last() == v@[b - 1]);
        }
    }
    substring(v.as_slice(), a, b)
}

fn text(v: Option<&JsonValue>) -> (r: Option<String>)
    ensures
        text_of(r) == str_of(
            match v {
                Some(x) => Some(*x),
                None => None,
            },
        ),
{
    match v {
        Some(x) => copy_text(&x.as_str),
        None => None,
    }
}

fn text_or_empty(v: Option<&JsonValue>) -> (r: String)
    ensures
        r@ == or_empty(
            str_of(
                match v {
                    Some(x) => Some(*x),
                    None => None,
                },
            ),
        ),
{
    match text(v) {
        Some(s) => s,
        None => {
            let s = String::new();
            assert(s@ =~= Seq::<char>::empty());
            s
        },
    }
}

fn written(v: Option<&JsonValue>) -> (r: String)
    ensures
        r@ == written_of(
            match v {
                Some(x) => Some(*x),
                None => None,
            },
        ),
{
    match v {
        Some(x) => unquote(x.written.as_str()),
        None => {
            let s = String::new();
            assert(s@ =~= Seq::<char>::empty());
            s
        },
    }
}

fn number(v: Option<&JsonValue>) -> (r: Option<u64>)
    ensures
        r == u64_of(
            match v {
                Some(x) => Some(*x),
                None => None,
            },
        ),
{
    match v {
        Some(x) => x.as_u64,
        None => None,
    }
}

/// A session, from its JSON object. Names are in camel case or in snake case.
pub open spec fn is_session(i: SshSessionInfo, o: Seq<(String, JsonValue)>) -> bool {
    &&& i.id@ == or_empty(str_of(field_of(o, "id"@)))
    &&& i.src_endpoint_id@ == or_empty(str_of(either(o, "srcEndpointId"@, "src_endpoint_id"@)))
    &&& i.dst_endpoint_id@ == or_empty(str_of(either(o, "dstEndpointId"@, "dst_endpoint_id"@)))
    &&& text_of(i.src_hostname) == str_of(either(o, "srcHostname"@, "src_hostname"@))
    &&& text_of(i.dst_hostname) == str_of(either(o, "dstHostname"@, "dst_hostname"@))
    &&& i.target_user@ == or_empty(str_of(either(o, "targetUser"@, "target_user"@)))
    &&& i.status@ == or_empty(str_of(field_of(o, "status"@)))
    &&& i.recorded == (bool_of(field_of(o, "recorded"@)) == Some(true))
    &&& i.started_at@ == written_of(either(o, "startedAt"@, "started_at"@))
    &&& i.duration_ms == u64_of(either(o, "durationMs"@, "duration_ms"@))
}

pub fn ssh_session(o: &JsonObject) -> (i: SshSessionInfo)
    ensures
        is_session(i, o@),
{
    let recorded = match find_field(o, "recorded") {
        Some(v) => match v.as_bool {
            Some(b) => b,
            None => false,
        },
        None => false,
    };
    SshSessionInfo {
        id: text_or_empty(find_field(o, "id")),
        src_endpoint_id: text_or_empty(find_either(o, "srcEndpointId", "src_endpoint_id")),
        dst_endpoint_id: text_or_empty(find_either(o, "dstEndpointId", "dst_endpoint_id")),
        src_hostname: text(find_either(o, "srcHostname", "src_hostname")),
        dst_hostname: text(find_either(o, "dstHostname", "dst_hostname")),
        target_user: text_or_empty(find_either(o, "targetUser", "target_user")),
        status: text_or_empty(find_field(o, "status")),
        recorded,
        started_at: written(find_either(o, "startedAt", "started_at")),
        duration_ms: number(find_either(o, "durationMs", "duration_ms")),
    }
}

/// The sessions of a list, in order.
pub fn list_ssh_sessions(list: &[JsonObject]) -> (v: Vec<SshSessionInfo>)
    ensures
        v@.len() == list@.len(),
        forall|i: int| 0 <= i < v@.len() ==> is_session(#[trigger] v@[i], list@[i]@),
{
    let mut v: Vec<SshSessionInfo> = Vec::new();
    let mut i: usize = 0;
    while i < list.len()
        invariant
            i <= list@.len(),
            v@.len() == i,
            forall|j: int| 0 <= j < i ==> is_session(#[trigger] v@[j], list@[j]@),
        decreases list.len() - i,
    {
        v.push(ssh_session(&list[i]));
        i += 1;
    }
    v
}

/// A recording, from its JSON object.
pub open spec fn is_recording(i: SshRecordingInfo, o: Seq<(String, JsonValue)>) -> bool {
    &&& i.session_id@ == or_empty(str_of(either(o, "sessionId"@, "session_id"@)))
    &&& text_of(i.src_hostname) == str_of(either(o, "srcHostname"@, "src_hostname"@))
    &&& text_of(i.dst_hostname) == str_of(either(o, "dstHostname"@, "dst_hostname"@))
    &&& text_of(i.target_user) == str_of(either(o, "targetUser"@, "target_user"@))
    &&& i.byte_size == (match u64_of(either(o, "byteSize"@, "byte_size"@)) {
        Some(n) => n,
        None => 0,
    })
    &&& i.created_at@ == written_of(either(o, "createdAt"@, "created_at"@))
    &&& text_of(i.content_sha256) == str_of(either(o, "contentSha256"@, "content_sha256"@))
}

pub fn ssh_recording(o: &JsonObject) -> (i: SshRecordingInfo)
    ensures
        is_recording(i, o@),
{
    let byte_size: u64 = match number(find_either(o, "byteSize", "byte_size")) {
        Some(n) => n,
        None => 0,
    };
    SshRecordingInfo {
        session_id: text_or_empty(find_either(o, "sessionId", "session_id")),
        src_hostname: text(find_either(o, "srcHostname", "src_hostname")),
        dst_hostname: text(find_either(o, "dstHostname", "dst_hostname")),
        target_user: text(find_either(o, "targetUser", "target_user")),
        byte_size,
        created_at: written(find_either(o, "createdAt", "created_at")),
        content_sha256: text(find_either(o, "contentSha256", "content_sha256")),
    }
}

/// The recordings of a list, in order.
pub fn list_ssh_recordings(list: &[JsonObject]) -> (v: Vec<SshRecordingInfo>)
    ensures
        v@.len() == list@.len(),
        forall|i: int| 0 <= i < v@.len() ==> is_recording(#[trigger] v@[i], list@[i]@),
{
    let mut v: Vec<SshRecordingInfo> = Vec::new();
    let mut i: usize = 0;
    while i < list.len()
        invariant
            i <= list@.len(),
            v@.len() == i,
            forall|j: int| 0 <= j < i ==> is_recording(#[trigger] v@[j], list@[j]@),
        decreases list.len() - i,
    {
        v.push(ssh_recording(&list[i]));
        i += 1;
    }
    v
}

/// The cast of a recording: session id, text and digest. Without a text there is no cast;
/// the session id is the one asked for where none is given.
pub fn ssh_cast(o: &JsonObject, session_id: &str) -> (r: Option<(String, String, String)>)
    ensures
        r is Some == str_of(either(o@, "castText"@, "cast_text"@)) is Some,
        r matches Some(c) ==> Some(c.1@) == str_of(either(o@, "castText"@, "cast_text"@)) && c.2@
            == or_empty(str_of(either(o@, "contentSha256"@, "content_sha256"@))) && c.0@ == (
        match str_of(either(o@, "sessionId"@, "session_id"@)) {
            Some(s) => s,
            None => session_id@,
        }),
{
    let cast = match text(find_either(o, "castText", "cast_text")) {
        Some(t) => t,
        None => {
            return None;
        },
    };
    let digest = text_or_empty(find_either(o, "contentSha256", "content_sha256"));
    let sid = match text(find_either(o, "sessionId", "session_id")) {
        Some(s) => s,
        None => session_id.to_owned(),
    };
    Some((sid, cast, digest))
}

/// The state of an SSH authentication, and the proof that it gave.
pub fn ssh_auth(o: &JsonObject) -> (r: (String, Option<String>))
    ensures
        r.0@ == (match str_of(field_of(o@, "status"@)) {
            Some(s) => s,
            None => "failed"@,
        }),
        text_of(r.1) == str_of(either(o@, "proofToken"@, "proof_token"@)),
{
    let status = match text(find_field(o, "status")) {
        Some(s) => s,
        None => "failed".to_owned(),
    };
    (status, text(find_either(o, "proofToken", "proof_token")))
}

} // verus!
