//! GET /servers/{id}/audit: who did what, newest first; plus the `record`
//! helper the mutating handlers call. Entries live in plugin storage (not in
//! plugins_meta.json: the in-game AddonsManager plugin shares that file).

use vstd::prelude::*;

use crate::handlers::ctx::{param_id, route_failed, ServerCtx};
use crate::handlers::updates::host_error_text;
use crate::host_api::{calls_since, grew, HostApi, HostApiError, HostCall};
use crate::http::{json_response, ApiError, ApiResult};
use crate::json::{get_member, json_bytes, json_text, lemma_member_at, member, number_as_u64, number_to_u64, parse_json, parsed_json, Json};
use crate::model::{member_keys, AuditEntry, AuditResponse};
use crate::text::{cat, u64_text};

verus! {

pub const MAX_ENTRIES: usize = 100;

/// The storage key of a server's audit log: `audit:<id>`.
pub fn storage_key(server_id: u64) -> (k: String)
    ensures
        k@ == "audit:"@ + crate::text::decimal(server_id as nat),
{
    cat("audit:", u64_text(server_id).as_str())
}

/// The log after adding `entry`: newest first, at most [`MAX_ENTRIES`].
pub open spec fn with_entry<T>(entries: Seq<T>, entry: T) -> Seq<T> {
    let all = seq![entry] + entries;
    if all.len() > MAX_ENTRIES {
        all.take(MAX_ENTRIES as int)
    } else {
        all
    }
}

/// Puts `entry` first and drops what falls past the cap.
pub fn prepend_capped(entries: Vec<AuditEntry>, entry: AuditEntry) -> (r: Vec<AuditEntry>)
    ensures
        r@ == with_entry(entries@, entry),
        r@.len() <= MAX_ENTRIES,
        r@[0] == entry,
        r@.len() == if entries@.len() + 1 <= 100 { entries@.len() + 1 } else { 100 },
        forall|i: int| 1 <= i < r@.len() ==> #[trigger] r@[i] == entries@[i - 1],
{
    let mut r = entries;
    r.insert(0, entry);
    r.truncate(MAX_ENTRIES);
    r
}

/// An audit entry as plain values: (ts, user, action, subject).
pub open spec fn entry_view(e: AuditEntry) -> (u64, Seq<char>, Seq<char>, Seq<char>) {
    (e.ts, e.user@, e.action@, e.subject@)
}

/// What a stored JSON value reads back as: an object with a `ts` number that
/// fits a `u64` and `user`, `action` and `subject` strings (other members
/// are ignored).
pub open spec fn entry_read(v: Json) -> Option<(u64, Seq<char>, Seq<char>, Seq<char>)> {
    match v {
        Json::Object(m) => match (member(m@, "ts"@), member(m@, "user"@), member(m@, "action"@), member(m@, "subject"@)) {
            (Some(Json::Number(n)), Some(Json::Str(u)), Some(Json::Str(a)), Some(Json::Str(s))) => match number_as_u64(n) {
                Some(t) => Some((t, u@, a@, s@)),
                None => None,
            },
            _ => None,
        },
        _ => None,
    }
}

/// The entries of a stored array, or `None` when one of them is unreadable.
pub open spec fn entries_read(items: Seq<Json>) -> Option<Seq<(u64, Seq<char>, Seq<char>, Seq<char>)>> {
    if forall|i: int| 0 <= i < items.len() ==> (#[trigger] entry_read(items[i])) is Some {
        Some(items.map_values(|v: Json| entry_read(v).unwrap()))
    } else {
        None
    }
}

/// The log that stored bytes hold: a JSON array of entries, and an empty log
/// for anything else.
pub open spec fn stored_log(bytes: Seq<u8>) -> Seq<(u64, Seq<char>, Seq<char>, Seq<char>)> {
    match parsed_json(bytes) {
        Some(Json::Array(items)) => match entries_read(items@) {
            Some(es) => es,
            None => Seq::empty(),
        },
        _ => Seq::empty(),
    }
}

pub open spec fn log_view(entries: Seq<AuditEntry>) -> Seq<(u64, Seq<char>, Seq<char>, Seq<char>)> {
    entries.map_values(|e: AuditEntry| entry_view(e))
}

fn entry_of(v: &Json) -> (r: Option<AuditEntry>)
    ensures
        match entry_read(*v) {
            Some(t) => r matches Some(e) && entry_view(e) == t,
            None => r is None,
        },
{
    match v {
        Json::Object(m) => {
            let ts = match get_member(m, "ts") {
                Some(Json::Number(n)) => match number_to_u64(n) {
                    Some(t) => t,
                    None => return None,
                },
                _ => return None,
            };
            let user = match get_member(m, "user") {
                Some(Json::Str(s)) => s.clone(),
                _ => return None,
            };
            let action = match get_member(m, "action") {
                Some(Json::Str(s)) => s.clone(),
                _ => return None,
            };
            let subject = match get_member(m, "subject") {
                Some(Json::Str(s)) => s.clone(),
                _ => return None,
            };
            Some(AuditEntry { ts, user, action, subject })
        },
        _ => None,
    }
}

/// An entry's JSON form reads back as the entry.
pub proof fn lemma_entry_reads_back(e: AuditEntry, j: Json)
    requires
        e.json_is(j),
    ensures
        entry_read(j) == Some(entry_view(e)),
{
    reveal_strlit("ts");
    reveal_strlit("user");
    reveal_strlit("action");
    reveal_strlit("subject");
    match j {
        Json::Object(members) => {
            let m = members@;
            assert(member_keys(m).len() == 4);
            assert(m.len() == 4);
            assert(member_keys(m)[0] == m[0].0@ && member_keys(m)[1] == m[1].0@);
            assert(member_keys(m)[2] == m[2].0@ && member_keys(m)[3] == m[3].0@);
            assert("ts"@.len() == 2 && "user"@.len() == 4 && "action"@.len() == 6 && "subject"@.len() == 7);
            lemma_member_at(m, "ts"@, 0);
            lemma_member_at(m, "user"@, 1);
            lemma_member_at(m, "action"@, 2);
            lemma_member_at(m, "subject"@, 3);
        },
        _ => {},
    }
}

/// The stored log: a JSON array of entries; anything unreadable reads as
/// an empty log.
pub fn parse_entries(bytes: &[u8]) -> (r: Vec<AuditEntry>)
    ensures
        log_view(r@) == stored_log(bytes@),
{
    let parsed = parse_json(bytes);
    match parsed {
        Some(Json::Array(items)) => {
            assert(parsed_json(bytes@) == Some(Json::Array(items)));
            let mut out: Vec<AuditEntry> = Vec::new();
            let mut i: usize = 0;
            while i < items.len()
                invariant
                    parsed_json(bytes@) == Some(Json::Array(items)),
                    i <= items@.len(),
                    out@.len() == i,
                    forall|k: int| 0 <= k < i ==> (#[trigger] entry_read(items@[k])) == Some(entry_view(out@[k])),
                decreases items@.len() - i,
            {
                match entry_of(&items[i]) {
                    Some(e) => out.push(e),
                    None => {
                        assert(entry_read(items@[i as int]) is None);
                        assert(entries_read(items@) is None);
                        assert(stored_log(bytes@) == Seq::<(u64, Seq<char>, Seq<char>, Seq<char>)>::empty());
                        let empty: Vec<AuditEntry> = Vec::new();
                        assert(log_view(empty@) =~= Seq::empty());
                        return empty;
                    },
                }
                i = i + 1;
            }
            proof {
                assert(entries_read(items@) is Some);
                assert(log_view(out@) =~= items@.map_values(|v: Json| entry_read(v).unwrap()));
            }
            out
        },
        _ => {
            let empty: Vec<AuditEntry> = Vec::new();
            assert(log_view(empty@) =~= Seq::empty());
            empty
        },
    }
}

/// The JSON array the log is stored as; it reads back as the log.
pub fn entries_json(entries: &Vec<AuditEntry>) -> (j: Json)
    ensures
        j matches Json::Array(v) && v@.len() == entries@.len() && entries_read(v@) == Some(log_view(entries@)),
{
    let mut v: Vec<Json> = Vec::new();
    let mut i: usize = 0;
    while i < entries.len()
        invariant
            i <= entries@.len(),
            v@.len() == i,
            forall|k: int| 0 <= k < i ==> (#[trigger] entry_read(v@[k])) == Some(entry_view(entries@[k])),
        decreases entries@.len() - i,
    {
        let item = entries[i].to_json();
        proof {
            lemma_entry_reads_back(entries@[i as int], item);
        }
        v.push(item);
        i = i + 1;
    }
    proof {
        assert(v@.map_values(|x: Json| entry_read(x).unwrap()) =~= log_view(entries@));
    }
    Json::Array(v)
}

/// The log a storage read answers: the stored log of the bytes found, empty
/// when there are none or the read failed.
pub open spec fn answer_log(a: Result<Option<Vec<u8>>, HostApiError>) -> Seq<(u64, Seq<char>, Seq<char>, Seq<char>)> {
    match a {
        Ok(Some(bytes)) => stored_log(bytes@),
        _ => Seq::empty(),
    }
}

/// The stored log of a storage key; a failed read is logged and reads as
/// empty.
pub fn load<H: HostApi>(host: &mut H, key: &str) -> (r: Vec<AuditEntry>)
    ensures
        exists|a: Result<Option<Vec<u8>>, HostApiError>| {
            &&& final(host).trace() == old(host).trace().push(HostCall::StorageGet(key@, a))
            &&& log_view(r@) == #[trigger] answer_log(a)
        },
{
    let a = host.storage_get(key);
    let ghost ga = a;
    let r = match a {
        Ok(Some(bytes)) => {
            let r = parse_entries(bytes.as_slice());
            assert(log_view(r@) == stored_log(bytes@));
            r
        },
        Ok(None) => Vec::new(),
        Err(err) => {
            host.log_error(cat("audit read failed: ", host_error_text(&err).as_str()).as_str());
            Vec::new()
        },
    };
    assert(log_view(r@) =~= answer_log(ga));
    r
}

/// Capping commutes with viewing the entries.
pub proof fn lemma_log_view_with_entry(entries: Seq<AuditEntry>, entry: AuditEntry)
    ensures
        log_view(with_entry(entries, entry)) == with_entry(log_view(entries), entry_view(entry)),
{
    let all = seq![entry] + entries;
    assert(log_view(all) =~= seq![entry_view(entry)] + log_view(entries));
    if all.len() > MAX_ENTRIES {
        assert(log_view(all.take(MAX_ENTRIES as int)) =~= log_view(all).take(MAX_ENTRIES as int));
    }
}

/// Who an entry names: the actor, or "unknown" without one.
pub open spec fn actor_name(actor: Option<&str>) -> Seq<char> {
    match actor {
        Some(a) => a@,
        None => "unknown"@,
    }
}

/// What a `record` wrote, given the calls it made (`t`): it read the log
/// under the server's key, then stored under the same key the JSON of that
/// log with the new entry in front, capped at [`MAX_ENTRIES`]. The entry's
/// time is the clock's, of which nothing is promised.
pub open spec fn records_entry(t: Seq<HostCall>, server_id: u64, user: Seq<char>, action: Seq<char>, subject: Seq<char>) -> bool {
    &&& t.len() == 2
    &&& t[0] matches HostCall::StorageGet(k0, a0)
    &&& k0 == "audit:"@ + crate::text::decimal(server_id as nat)
    &&& t[1] matches HostCall::StorageSet(k1, bytes, _)
    &&& k1 == k0
    &&& exists|ts: u64, v: Vec<Json>| #![trigger json_text(Json::Array(v)), with_entry(answer_log(a0), (ts, user, action, subject))] {
        &&& bytes == json_text(Json::Array(v))
        &&& entries_read(v@) == Some(with_entry(answer_log(a0), (ts, user, action, subject)))
    }
}

/// Appends an audit entry, best-effort: an audit failure never fails the
/// operation it describes, it only leaves a log line.
pub fn record<H: HostApi>(host: &mut H, server_id: u64, actor: Option<&str>, action: &str, subject: &str)
    ensures
        grew(old(host).trace(), final(host).trace()),
        records_entry(calls_since(old(host).trace(), final(host).trace()), server_id, actor_name(actor), action@, subject@),
{
    let ghost t0 = host.trace();
    let entry = AuditEntry {
        ts: crate::handlers::now_unix(),
        user: match actor {
            Some(a) => a.to_owned(),
            None => "unknown".to_owned(),
        },
        action: action.to_owned(),
        subject: subject.to_owned(),
    };
    let key = storage_key(server_id);
    let entries = load(host, key.as_str());
    let ghost before = entries@;
    let ghost ev = entry_view(entry);
    let entries = prepend_capped(entries, entry);
    let j = entries_json(&entries);
    let bytes = json_bytes(&j);
    proof {
        lemma_log_view_with_entry(before, entries@[0]);
        assert(entry_view(entries@[0]) == ev);
    }
    match host.storage_set(key.as_str(), bytes.as_slice()) {
        Ok(()) => {},
        Err(err) => host.log_error(cat("audit write failed: ", host_error_text(&err).as_str()).as_str()),
    }
    proof {
        let t = calls_since(t0, host.trace());
        let v = j->Array_0;
        assert(t[1] == HostCall::StorageSet(key@, bytes@, t[1]->StorageSet_2));
        assert(bytes@ == json_text(Json::Array(v)));
        let a0 = t[0]->StorageGet_1;
        assert(log_view(before) == answer_log(a0));
        assert(entries_read(v@) == Some(with_entry(answer_log(a0), ev)));
    }
}

pub fn handle<H: HostApi>(host: &mut H, params: &Vec<(String, String)>) -> (r: ApiResult)
    ensures
        param_id(params@) is None ==> (r matches Err(e) && e.status == 400),
        r matches Ok(resp) ==> resp.status == 200,
        r matches Ok(resp) ==> exists|t: AuditResponse, j: Json, a: Result<Option<Vec<u8>>, HostApiError>| #![trigger t.json_is(j), answer_log(a)] {
            &&& t.json_is(j)
            &&& resp.body@ == json_text(j)
            &&& log_view(t.entries@) == answer_log(a)
            &&& final(host).trace().last() == HostCall::StorageGet("audit:"@ + crate::text::decimal(param_id(params@).unwrap() as nat), a)
        },
        r matches Err(e) ==> route_failed(old(host).trace(), final(host).trace(), params@, e, |x: ApiError| false),
{
    let ctx = ServerCtx::resolve(host, params)?;
    let entries = load(host, storage_key(ctx.server_id).as_str());
    let response = AuditResponse { entries };
    let j = response.to_json();
    let resp = json_response(200, &j);
    assert(response.json_is(j) && resp.body@ == json_text(j));
    Ok(resp)
}

} // verus!
