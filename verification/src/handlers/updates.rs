//! GET /servers/{id}/updates: latest upstream versions of Metamod:Source,
//! CounterStrikeSharp and the catalog plugins, cached in plugin storage.
//! `?refresh=1` forces a re-fetch; the nightly scheduled task does the same.

use vstd::prelude::*;

use crate::handlers::ctx::{param_id, route_failed, ServerCtx};
use crate::handlers::now_unix;
use crate::handlers::remove::query_value;
use crate::host_api::{grew, HostApi, HostApiError, HostCall, HttpFetchParams};
use crate::http::{json_response, ApiError, ApiResult};
use crate::json::{get_member, json_bytes, json_text, jnum, jstr, lemma_member_at, member, number_as_u64, number_to_u64, parse_json, parsed_json, Json};
use crate::model::{kv, member_keys, PlatformRelease, PluginRelease, PluginUpdateInfo, UpdatesResponse};
use crate::order::{lemma_lex_total, lemma_lex_transitive, lex_less, lex_lt};
use crate::source2::catalog;
use crate::source2::catalog::{catalog_spec, entry_matches, lemma_catalog_keys_unique};
use crate::text::{
    cat, cat3, chars_of, contains, contains_char, contains_seq, decode_text, has_prefix, has_suffix,
    i32_text, lower_seq, seq_eq, starts_with, ends_with, str_eq, string_of, sub_chars, to_lower, trim,
    trim_vec, u64_text,
};

verus! {

pub const CACHE_KEY: &'static str = "updates:v1";
pub const CACHE_TTL_SECONDS: u64 = 21600;
pub const FETCH_TIMEOUT_SECONDS: i32 = 20;

pub const MMSOURCE_BASE: &'static str = "https://mms.alliedmods.net/mmsdrop/2.0/";
pub const MMSOURCE_LATEST: &'static str = "https://mms.alliedmods.net/mmsdrop/2.0/mmsource-latest-linux";
pub const CSS_REPO: &'static str = "roflmuffin/CounterStrikeSharp";

/// The asset patterns of the CounterStrikeSharp release the installer takes.
pub fn css_asset_patterns() -> (v: Vec<&'static str>)
    ensures
        v@.len() == 2,
        v@[0]@ == "with-runtime"@,
        v@[1]@ == "linux"@,
{
    let mut v: Vec<&'static str> = Vec::new();
    v.push("with-runtime");
    v.push("linux");
    v
}

/// The cached release picture.
pub struct UpdatesCache {
    /// Unix seconds of the last successful refresh.
    pub fetched_at: u64,
    pub metamod: Option<PlatformRelease>,
    pub css: Option<PlatformRelease>,
    /// Catalog key and latest known release, in key order.
    pub plugins: Vec<(String, PluginRelease)>,
}

/// `s` without every leading copy of `p`.
pub open spec fn strip_prefix_all(s: Seq<char>, p: Seq<char>) -> Seq<char>
    decreases s.len(),
{
    if p.len() > 0 && has_prefix(s, p) {
        strip_prefix_all(s.skip(p.len() as int), p)
    } else {
        s
    }
}

/// `s` without every trailing copy of `p`.
pub open spec fn strip_suffix_all(s: Seq<char>, p: Seq<char>) -> Seq<char>
    decreases s.len(),
{
    if p.len() > 0 && has_suffix(s, p) {
        strip_suffix_all(s.take(s.len() - p.len()), p)
    } else {
        s
    }
}

pub fn strip_prefix_all_vec(s: &[char], p: &[char]) -> (r: Vec<char>)
    ensures
        r@ == strip_prefix_all(s@, p@),
{
    let mut start: usize = 0;
    assert(s@.skip(0) == s@);
    while p.len() > 0 && start <= s.len() && starts_with(sub_chars(s, start, s.len()).as_slice(), p)
        invariant
            start <= s@.len(),
            strip_prefix_all(s@, p@) == strip_prefix_all(s@.skip(start as int), p@),
        decreases s@.len() - start,
    {
        assert(s@.skip(start as int).skip(p@.len() as int) == s@.skip(start + p@.len()));
        start = start + p.len();
    }
    sub_chars(s, start, s.len())
}

pub fn strip_suffix_all_vec(s: &[char], p: &[char]) -> (r: Vec<char>)
    ensures
        r@ == strip_suffix_all(s@, p@),
{
    let mut end: usize = s.len();
    assert(s@.take(s@.len() as int) == s@);
    while p.len() > 0 && ends_with(sub_chars(s, 0, end).as_slice(), p)
        invariant
            end <= s@.len(),
            strip_suffix_all(s@, p@) == strip_suffix_all(s@.take(end as int), p@),
        decreases end,
    {
        assert(s@.take(end as int).take(end - p@.len()) == s@.take(end - p@.len()));
        end = end - p.len();
    }
    sub_chars(s, 0, end)
}

/// Stripping every leading copy of a non-empty `p` leaves a tail of `s`
/// that no longer starts with `p`.
pub proof fn lemma_strip_prefix_all(s: Seq<char>, p: Seq<char>)
    requires
        p.len() > 0,
    ensures
        !has_prefix(strip_prefix_all(s, p), p),
        has_suffix(s, strip_prefix_all(s, p)),
    decreases s.len(),
{
    if has_prefix(s, p) {
        lemma_strip_prefix_all(s.skip(p.len() as int), p);
        let r = strip_prefix_all(s, p);
        let t = s.skip(p.len() as int);
        assert(t.skip(t.len() - r.len()) =~= s.skip(s.len() - r.len()));
    } else {
        assert(s.skip(0) =~= s);
    }
}

/// Stripping every trailing copy of a non-empty `p` leaves a head of `s`
/// that no longer ends with `p`.
pub proof fn lemma_strip_suffix_all(s: Seq<char>, p: Seq<char>)
    requires
        p.len() > 0,
    ensures
        !has_suffix(strip_suffix_all(s, p), p),
        has_prefix(s, strip_suffix_all(s, p)),
    decreases s.len(),
{
    if has_suffix(s, p) {
        lemma_strip_suffix_all(s.take(s.len() - p.len()), p);
        let r = strip_suffix_all(s, p);
        let t = s.take(s.len() - p.len());
        assert(t.take(r.len() as int) =~= s.take(r.len() as int));
    } else {
        assert(s.take(s.len() as int) =~= s);
    }
}

/// One copy of `p` in front of a text that does not start with `p` is
/// exactly what stripping removes.
pub proof fn lemma_strip_prefix_one(p: Seq<char>, x: Seq<char>)
    requires
        p.len() > 0,
        !has_prefix(x, p),
    ensures
        strip_prefix_all(p + x, p) == x,
{
    assert((p + x).take(p.len() as int) =~= p);
    assert((p + x).skip(p.len() as int) =~= x);
    assert(strip_prefix_all(x, p) == x);
}

/// One copy of `q` behind a text that does not end with `q` is exactly
/// what stripping removes.
pub proof fn lemma_strip_suffix_one(x: Seq<char>, q: Seq<char>)
    requires
        q.len() > 0,
        !has_suffix(x, q),
    ensures
        strip_suffix_all(x + q, q) == x,
{
    assert((x + q).skip(x.len() as int) =~= q);
    assert((x + q).take(x.len() as int) =~= x);
    assert(strip_suffix_all(x, q) == x);
}

/// The download a release offers comes from its first asset that offers
/// one: that asset's lowercase name contains every pattern and the URL is
/// its `browser_download_url`, and no asset before it offers one.
pub proof fn lemma_first_asset(assets: Seq<Json>, patterns: Seq<&'static str>, i: int)
    requires
        0 <= i,
    ensures
        first_asset_url(assets, patterns, i) matches Some(u) ==> exists|j: int| i <= j < assets.len()
            && (str_member(#[trigger] assets[j], "name"@) matches Some(n)
                && (forall|k: int| 0 <= k < patterns.len() ==> contains_seq(lower_seq(n), (#[trigger] patterns[k])@))
                && str_member(assets[j], "browser_download_url"@) == Some(u))
            && forall|q: int| i <= q < j ==> asset_url(#[trigger] assets[q], patterns) is None,
        first_asset_url(assets, patterns, i) is None ==> forall|q: int| i <= q < assets.len()
            ==> asset_url(#[trigger] assets[q], patterns) is None,
    decreases assets.len() - i,
{
    if i < assets.len() {
        lemma_first_asset(assets, patterns, i + 1);
        if let Some(u) = asset_url(assets[i], patterns) {
            assert(first_asset_url(assets, patterns, i) == Some(u));
        } else {
            if let Some(u) = first_asset_url(assets, patterns, i) {
                let j = choose|j: int| i + 1 <= j < assets.len()
                    && (str_member(#[trigger] assets[j], "name"@) matches Some(n)
                        && (forall|k: int| 0 <= k < patterns.len() ==> contains_seq(lower_seq(n), (#[trigger] patterns[k])@))
                        && str_member(assets[j], "browser_download_url"@) == Some(u))
                    && forall|q: int| i + 1 <= q < j ==> asset_url(#[trigger] assets[q], patterns) is None;
                assert forall|q: int| i <= q < j implies asset_url(#[trigger] assets[q], patterns) is None by {}
            }
        }
    }
}

/// The version in a Metamod build file name:
/// "mmsource-2.0.0-git1359-linux.tar.gz" is "2.0.0-git1359".
pub open spec fn mm_version(file_name: Seq<char>) -> Seq<char> {
    strip_suffix_all(strip_suffix_all(strip_prefix_all(file_name, "mmsource-"@), ".tar.gz"@), "-linux"@)
}

/// What the mmsource-latest-linux answer names: a file name starting with
/// "mmsource-" and holding no `/`.
pub open spec fn mm_answer_ok(file_name: Seq<char>) -> bool {
    has_prefix(file_name, "mmsource-"@) && !file_name.contains('/')
}

/// The Metamod release a latest-build answer describes, `None` when the
/// answer is not a build file name.
pub fn metamod_release_from(body: &[u8]) -> (r: Option<PlatformRelease>)
    ensures
        mm_answer_ok(trim(crate::text::lossy_text(body@))) ==> (r matches Some(rel)
            && rel.version@ == mm_version(trim(crate::text::lossy_text(body@)))
            && rel.download_url@ == MMSOURCE_BASE@ + trim(crate::text::lossy_text(body@))),
        !mm_answer_ok(trim(crate::text::lossy_text(body@))) ==> r is None,
{
    let text = decode_text(body);
    let name = trim_vec(chars_of(text.as_str()).as_slice());
    let prefix = chars_of("mmsource-");
    if !starts_with(name.as_slice(), prefix.as_slice()) || contains_char(name.as_slice(), '/') {
        return None;
    }
    let v1 = strip_prefix_all_vec(name.as_slice(), prefix.as_slice());
    let v2 = strip_suffix_all_vec(v1.as_slice(), chars_of(".tar.gz").as_slice());
    let v3 = strip_suffix_all_vec(v2.as_slice(), chars_of("-linux").as_slice());
    let file_name = string_of(name.as_slice());
    Some(PlatformRelease {
        version: string_of(v3.as_slice()),
        download_url: cat(MMSOURCE_BASE, file_name.as_str()),
    })
}

/// A host error as text, shaped like its `Debug` form: the variant, then
/// the message in quotes (the message is not escaped).
pub fn host_error_text(e: &HostApiError) -> (s: String)
    ensures
        match e {
            HostApiError::Call(m) => s@ == "Call(\""@ + m@ + "\")"@,
            HostApiError::Op(m) => s@ == "Op(\""@ + m@ + "\")"@,
        },
{
    match e {
        HostApiError::Call(m) => cat3("Call(\"", m.as_str(), "\")"),
        HostApiError::Op(m) => cat3("Op(\"", m.as_str(), "\")"),
    }
}

/// The request headers of release lookups (GitHub rejects requests without
/// a User-Agent).
pub fn default_headers() -> (v: Vec<(String, String)>)
    ensures
        v@.len() == 2,
{
    let mut v: Vec<(String, String)> = Vec::new();
    v.push(("User-Agent".to_owned(), "gameap-cs2-addons".to_owned()));
    v.push(("Accept".to_owned(), "application/vnd.github+json".to_owned()));
    v
}

/// mmsource-latest-linux is a text file holding the current build's name.
pub fn fetch_metamod_latest<H: HostApi>(host: &mut H) -> (r: Result<PlatformRelease, String>)
    ensures
        r matches Ok(rel) ==> has_prefix(rel.download_url@, MMSOURCE_BASE@),
        r matches Ok(rel) ==> exists|body: Seq<u8>| #[trigger] mm_answer_ok(trim(crate::text::lossy_text(body)))
            && rel.version@ == mm_version(trim(crate::text::lossy_text(body)))
            && rel.download_url@ == MMSOURCE_BASE@ + trim(crate::text::lossy_text(body)),
        final(host).trace().len() == old(host).trace().len() + 1,
        grew(old(host).trace(), final(host).trace()),
        final(host).trace().last() matches HostCall::Fetch(m, url, a)
            && m == "GET"@ && url == MMSOURCE_LATEST@
            && (a matches Ok(resp) && resp.status != 200 ==> r is Err)
            && (r matches Ok(rel) ==> (a matches Ok(resp) && resp.status == 200
                && rel.download_url@ == MMSOURCE_BASE@ + trim(crate::text::lossy_text(resp.body@))))
            && (r is Ok <==> (a matches Ok(resp) && resp.status == 200 && mm_answer_ok(trim(crate::text::lossy_text(resp.body@))))),
{
    let params = HttpFetchParams {
        method: "GET".to_owned(),
        url: MMSOURCE_LATEST.to_owned(),
        headers: default_headers(),
        timeout_seconds: FETCH_TIMEOUT_SECONDS,
    };
    let resp = match host.http_fetch(&params) {
        Ok(resp) => resp,
        Err(e) => return Err(host_error_text(&e)),
    };
    if resp.status != 200 {
        return Err(cat("mmsource-latest-linux returned HTTP ", i32_text(resp.status).as_str()));
    }
    match metamod_release_from(resp.body.as_slice()) {
        Some(release) => {
            assert((MMSOURCE_BASE@ + trim(crate::text::lossy_text(resp.body@))).take(MMSOURCE_BASE@.len() as int) =~= MMSOURCE_BASE@);
            assert(mm_answer_ok(trim(crate::text::lossy_text(resp.body@))));
            Ok(release)
        },
        None => {
            let answer = string_of(trim_vec(chars_of(decode_text(resp.body.as_slice()).as_str()).as_slice()).as_slice());
            Err(cat3("unexpected latest-build answer: \"", answer.as_str(), "\""))
        },
    }
}

/// Whether a lowercase asset name contains every pattern.
pub fn matches_all(name: &[char], patterns: &Vec<&'static str>) -> (b: bool)
    ensures
        b == forall|k: int| 0 <= k < patterns@.len() ==> crate::text::contains_seq(name@, (#[trigger] patterns@[k])@),
{
    let mut k: usize = 0;
    while k < patterns.len()
        invariant
            k <= patterns@.len(),
            forall|j: int| 0 <= j < k ==> crate::text::contains_seq(name@, (#[trigger] patterns@[j])@),
        decreases patterns@.len() - k,
    {
        if !contains(name, chars_of(patterns[k]).as_slice()) {
            return false;
        }
        k = k + 1;
    }
    true
}

/// A string member of an object.
pub open spec fn str_member(v: Json, key: Seq<char>) -> Option<Seq<char>> {
    match v {
        Json::Object(m) => match member(m@, key) {
            Some(Json::Str(s)) => Some(s@),
            _ => None,
        },
        _ => None,
    }
}

/// The download URL an asset offers when its lowercase name contains every
/// pattern.
pub open spec fn asset_url(asset: Json, patterns: Seq<&'static str>) -> Option<Seq<char>> {
    match str_member(asset, "name"@) {
        Some(n) => if forall|k: int| 0 <= k < patterns.len() ==> contains_seq(lower_seq(n), (#[trigger] patterns[k])@) {
            str_member(asset, "browser_download_url"@)
        } else {
            None
        },
        None => None,
    }
}

/// The URL of the first asset from index `i` on that offers one.
pub open spec fn first_asset_url(assets: Seq<Json>, patterns: Seq<&'static str>, i: int) -> Option<Seq<char>>
    decreases assets.len() - i,
{
    if i < 0 || i >= assets.len() {
        None
    } else {
        match asset_url(assets[i], patterns) {
            Some(u) => Some(u),
            None => first_asset_url(assets, patterns, i + 1),
        }
    }
}

/// The download a release document offers for the patterns.
pub open spec fn release_download(doc: Json, patterns: Seq<&'static str>) -> Option<Seq<char>> {
    match doc {
        Json::Object(m) => match member(m@, "assets"@) {
            Some(Json::Array(items)) => first_asset_url(items@, patterns, 0),
            _ => None,
        },
        _ => None,
    }
}

pub open spec fn opt_str_view(o: Option<String>) -> Option<Seq<char>> {
    match o {
        Some(s) => Some(s@),
        None => None,
    }
}

/// A plugin release as plain values: (version, release page, download).
pub open spec fn plugin_view(p: PluginRelease) -> (Seq<char>, Seq<char>, Option<Seq<char>>) {
    (p.version@, p.release_url@, opt_str_view(p.download_url))
}

/// What a GitHub "latest release" document describes: `None` without a
/// string `tag_name`; else the tag without leading `v`s, the `html_url` (empty
/// when absent) and the first matching asset's download.
pub open spec fn release_read(doc: Json, patterns: Seq<&'static str>) -> Option<(Seq<char>, Seq<char>, Option<Seq<char>>)> {
    match str_member(doc, "tag_name"@) {
        Some(tag) => Some((
            strip_prefix_all(tag, "v"@),
            match str_member(doc, "html_url"@) {
                Some(u) => u,
                None => Seq::empty(),
            },
            release_download(doc, patterns),
        )),
        None => None,
    }
}

/// The string of a member, when it is one.
fn str_of(members: &Vec<(String, Json)>, key: &str) -> (r: Option<String>)
    ensures
        match member(members@, key@) {
            Some(Json::Str(s)) => r matches Some(t) && t@ == s@,
            _ => r is None,
        },
{
    match get_member(members, key) {
        Some(Json::Str(s)) => Some(s.clone()),
        _ => None,
    }
}

/// The release a GitHub "latest release" document describes: the version
/// is `tag_name` without leading `v`s; the download is the first asset whose
/// lowercase name contains every pattern and which has a download URL.
pub fn release_from_json(doc: &Json, asset_contains: &Vec<&'static str>) -> (r: Result<PluginRelease, String>)
    ensures
        match release_read(*doc, asset_contains@) {
            Some(v) => r matches Ok(rel) && plugin_view(rel) == v,
            None => r is Err,
        },
{
    let members = match doc {
        Json::Object(m) => m,
        _ => return Err(String::from_str("release has no tag_name")),
    };
    let tag = match str_of(members, "tag_name") {
        Some(s) => s,
        None => return Err(String::from_str("release has no tag_name")),
    };
    let version = string_of(strip_prefix_all_vec(chars_of(tag.as_str()).as_slice(), chars_of("v").as_slice()).as_slice());
    let release_url = match str_of(members, "html_url") {
        Some(s) => s,
        None => String::new(),
    };
    let mut download_url: Option<String> = None;
    match get_member(members, "assets") {
        Some(Json::Array(assets)) => {
            let mut i: usize = 0;
            while i < assets.len() && download_url.is_none()
                invariant
                    i <= assets@.len(),
                    download_url is None ==> first_asset_url(assets@, asset_contains@, 0) == first_asset_url(assets@, asset_contains@, i as int),
                    download_url matches Some(u) ==> first_asset_url(assets@, asset_contains@, 0) == Some(u@),
                decreases assets@.len() - i,
            {
                match &assets[i] {
                    Json::Object(a) => match str_of(a, "name") {
                        Some(n) => {
                            let lower = to_lower(chars_of(n.as_str()).as_slice());
                            if matches_all(lower.as_slice(), asset_contains) {
                                download_url = str_of(a, "browser_download_url");
                            }
                        },
                        None => {},
                    },
                    _ => {},
                }
                i = i + 1;
            }
        },
        _ => {},
    }
    Ok(PluginRelease { version, release_url, download_url })
}

/// GitHub "latest release" lookup: what [`release_from_json`] reads from
/// the answer.
pub fn fetch_github_latest<H: HostApi>(host: &mut H, repo: &str, asset_contains: &Vec<&'static str>) -> (r: Result<PluginRelease, String>)
    ensures
        r matches Ok(rel) ==> exists|doc: Json| release_read(doc, asset_contains@) == Some(plugin_view(rel)),
        final(host).trace().len() == old(host).trace().len() + 1,
        grew(old(host).trace(), final(host).trace()),
        final(host).trace().last() matches HostCall::Fetch(m, url, a)
            && m == "GET"@ && url == "https://api.github.com/repos/"@ + repo@ + "/releases/latest"@
            && (a matches Ok(resp) && resp.status != 200 ==> r is Err)
            && (r matches Ok(rel) ==> (a matches Ok(resp) && resp.status == 200
                && (parsed_json(resp.body@) matches Some(doc) && release_read(doc, asset_contains@) == Some(plugin_view(rel)))))
            && (r is Ok <==> (a matches Ok(resp) && resp.status == 200
                && (parsed_json(resp.body@) matches Some(doc) && release_read(doc, asset_contains@) is Some))),
{
    let params = HttpFetchParams {
        method: "GET".to_owned(),
        url: cat3("https://api.github.com/repos/", repo, "/releases/latest"),
        headers: default_headers(),
        timeout_seconds: FETCH_TIMEOUT_SECONDS,
    };
    let resp = match host.http_fetch(&params) {
        Ok(resp) => resp,
        Err(e) => return Err(host_error_text(&e)),
    };
    if resp.status != 200 {
        return Err(cat("github api returned HTTP ", i32_text(resp.status).as_str()));
    }
    let doc = match parse_json(resp.body.as_slice()) {
        Some(d) => d,
        None => return Err(String::from_str("bad github response")),
    };
    release_from_json(&doc, asset_contains)
}

/// A platform release as plain values: (version, download).
pub open spec fn platform_view(p: PlatformRelease) -> (Seq<char>, Seq<char>) {
    (p.version@, p.download_url@)
}

pub open spec fn opt_platform_view(o: Option<PlatformRelease>) -> Option<(Seq<char>, Seq<char>)> {
    match o {
        Some(p) => Some(platform_view(p)),
        None => None,
    }
}

/// The cache as plain values: (fetched at, Metamod, CounterStrikeSharp,
/// keyed plugin releases).
pub open spec fn cache_view(c: UpdatesCache) -> (u64, Option<(Seq<char>, Seq<char>)>, Option<(Seq<char>, Seq<char>)>, Seq<(Seq<char>, (Seq<char>, Seq<char>, Option<Seq<char>>))>) {
    (
        c.fetched_at,
        opt_platform_view(c.metamod),
        opt_platform_view(c.css),
        c.plugins@.map_values(|p: (String, PluginRelease)| (p.0@, plugin_view(p.1))),
    )
}

/// A stored platform release: absent or `null` reads as no release, an
/// object with `version` and `download_url` strings as that release, and
/// anything else fails the read (`None`).
pub open spec fn platform_read(v: Option<Json>) -> Option<Option<(Seq<char>, Seq<char>)>> {
    match v {
        None => Some(None),
        Some(Json::Null) => Some(None),
        Some(Json::Object(m)) => match (member(m@, "version"@), member(m@, "download_url"@)) {
            (Some(Json::Str(a)), Some(Json::Str(b))) => Some(Some((a@, b@))),
            _ => None,
        },
        _ => None,
    }
}

/// A stored plugin release: `version` and `release_url` strings, and a
/// `download_url` string, `null` or absent.
pub open spec fn plugin_read(v: Json) -> Option<(Seq<char>, Seq<char>, Option<Seq<char>>)> {
    match v {
        Json::Object(m) => match (member(m@, "version"@), member(m@, "release_url"@)) {
            (Some(Json::Str(a)), Some(Json::Str(b))) => match member(m@, "download_url"@) {
                None => Some((a@, b@, None)),
                Some(Json::Null) => Some((a@, b@, None)),
                Some(Json::Str(u)) => Some((a@, b@, Some(u@))),
                _ => None,
            },
            _ => None,
        },
        _ => None,
    }
}

/// The keyed releases of a stored `plugins` object, `None` when one is
/// unreadable.
pub open spec fn plugins_read(items: Seq<(String, Json)>) -> Option<Seq<(Seq<char>, (Seq<char>, Seq<char>, Option<Seq<char>>))>> {
    if forall|i: int| 0 <= i < items.len() ==> (#[trigger] plugin_read(items[i].1)) is Some {
        Some(items.map_values(|p: (String, Json)| (p.0@, plugin_read(p.1).unwrap())))
    } else {
        None
    }
}

/// What a stored cache document reads back as.
pub open spec fn cache_read(doc: Json) -> Option<(u64, Option<(Seq<char>, Seq<char>)>, Option<(Seq<char>, Seq<char>)>, Seq<(Seq<char>, (Seq<char>, Seq<char>, Option<Seq<char>>))>)> {
    match doc {
        Json::Object(m) => match member(m@, "fetched_at"@) {
            Some(Json::Number(n)) => match (number_as_u64(n), platform_read(member(m@, "metamod"@)), platform_read(member(m@, "css"@)), member(m@, "plugins"@)) {
                (Some(t), Some(mm), Some(cs), Some(Json::Object(items))) => match plugins_read(items@) {
                    Some(ps) => Some((t, mm, cs, ps)),
                    None => None,
                },
                _ => None,
            },
            _ => None,
        },
        _ => None,
    }
}

/// A platform release's JSON form reads back as the release.
pub proof fn lemma_platform_reads_back(p: PlatformRelease, j: Json)
    requires
        p.json_is(j),
    ensures
        platform_read(Some(j)) == Some(Some(platform_view(p))),
{
    reveal_strlit("version");
    reveal_strlit("download_url");
    match j {
        Json::Object(members) => {
            let m = members@;
            assert(member_keys(m).len() == 2 && m.len() == 2);
            assert(member_keys(m)[0] == m[0].0@ && member_keys(m)[1] == m[1].0@);
            assert("version"@.len() == 7 && "download_url"@.len() == 12);
            lemma_member_at(m, "version"@, 0);
            lemma_member_at(m, "download_url"@, 1);
        },
        _ => {},
    }
}

/// A plugin release's JSON form reads back as the release.
pub proof fn lemma_plugin_reads_back(p: PluginRelease, j: Json)
    requires
        p.json_is(j),
    ensures
        plugin_read(j) == Some(plugin_view(p)),
{
    reveal_strlit("version");
    reveal_strlit("release_url");
    reveal_strlit("download_url");
    match j {
        Json::Object(members) => {
            let m = members@;
            assert(member_keys(m).len() == 3 && m.len() == 3);
            assert(member_keys(m)[0] == m[0].0@ && member_keys(m)[1] == m[1].0@ && member_keys(m)[2] == m[2].0@);
            assert("version"@.len() == 7 && "release_url"@.len() == 11 && "download_url"@.len() == 12);
            lemma_member_at(m, "version"@, 0);
            lemma_member_at(m, "release_url"@, 1);
            lemma_member_at(m, "download_url"@, 2);
        },
        _ => {},
    }
}

fn opt_platform_json(r: &Option<PlatformRelease>) -> (j: Json)
    ensures
        platform_read(Some(j)) == Some(opt_platform_view(*r)),
{
    match r {
        Some(rel) => {
            let j = rel.to_json();
            proof {
                lemma_platform_reads_back(*rel, j);
            }
            j
        },
        None => Json::Null,
    }
}

/// The cache as stored: the JSON object of its fields. It reads back as the
/// cache.
pub fn cache_json(cache: &UpdatesCache) -> (j: Json)
    ensures
        cache_read(j) == Some(cache_view(*cache)),
{
    let mut plugins: Vec<(String, Json)> = Vec::new();
    let mut i: usize = 0;
    while i < cache.plugins.len()
        invariant
            i <= cache.plugins@.len(),
            plugins@.len() == i,
            forall|k: int| 0 <= k < i ==> plugins@[k].0@ == (#[trigger] cache.plugins@[k]).0@ && plugin_read(plugins@[k].1) == Some(plugin_view(cache.plugins@[k].1)),
        decreases cache.plugins@.len() - i,
    {
        let item = cache.plugins[i].1.to_json();
        proof {
            lemma_plugin_reads_back(cache.plugins@[i as int].1, item);
        }
        plugins.push((cache.plugins[i].0.clone(), item));
        i = i + 1;
    }
    let ghost items = plugins@;
    proof {
        assert forall|k: int| 0 <= k < items.len() implies (#[trigger] plugin_read(items[k].1)) is Some by {
            assert(cache.plugins@[k].0@ == items[k].0@);
        }
        assert(items.map_values(|p: (String, Json)| (p.0@, plugin_read(p.1).unwrap()))
            =~= cache.plugins@.map_values(|p: (String, PluginRelease)| (p.0@, plugin_view(p.1))));
    }
    let mut m: Vec<(String, Json)> = Vec::new();
    m.push(kv("fetched_at", jnum(cache.fetched_at)));
    m.push(kv("metamod", opt_platform_json(&cache.metamod)));
    m.push(kv("css", opt_platform_json(&cache.css)));
    m.push(kv("plugins", Json::Object(plugins)));
    proof {
        reveal_strlit("fetched_at");
        reveal_strlit("metamod");
        reveal_strlit("css");
        reveal_strlit("plugins");
        assert("fetched_at"@.len() == 10 && "metamod"@.len() == 7 && "css"@.len() == 3 && "plugins"@.len() == 7);
        assert("metamod"@[0] != "plugins"@[0]);
        lemma_member_at(m@, "fetched_at"@, 0);
        lemma_member_at(m@, "metamod"@, 1);
        lemma_member_at(m@, "css"@, 2);
        lemma_member_at(m@, "plugins"@, 3);
    }
    Json::Object(m)
}

fn platform_of(v: Option<&Json>) -> (r: Result<Option<PlatformRelease>, ()>)
    ensures
        match platform_read(match v { Some(x) => Some(*x), None => None }) {
            Some(o) => r matches Ok(p) && opt_platform_view(p) == o,
            None => r is Err,
        },
{
    match v {
        None => Ok(None),
        Some(Json::Null) => Ok(None),
        Some(Json::Object(m)) => {
            let version = match get_member(m, "version") {
                Some(Json::Str(s)) => s.clone(),
                _ => return Err(()),
            };
            let download_url = match get_member(m, "download_url") {
                Some(Json::Str(s)) => s.clone(),
                _ => return Err(()),
            };
            Ok(Some(PlatformRelease { version, download_url }))
        },
        _ => Err(()),
    }
}

fn plugin_release_of(v: &Json) -> (r: Option<PluginRelease>)
    ensures
        match plugin_read(*v) {
            Some(t) => r matches Some(p) && plugin_view(p) == t,
            None => r is None,
        },
{
    match v {
        Json::Object(m) => {
            let version = match get_member(m, "version") {
                Some(Json::Str(s)) => s.clone(),
                _ => return None,
            };
            let release_url = match get_member(m, "release_url") {
                Some(Json::Str(s)) => s.clone(),
                _ => return None,
            };
            let download_url = match get_member(m, "download_url") {
                None => None,
                Some(Json::Null) => None,
                Some(Json::Str(s)) => Some(s.clone()),
                _ => return None,
            };
            Some(PluginRelease { version, release_url, download_url })
        },
        _ => None,
    }
}

/// The keyed releases of a stored `plugins` object.
fn plugins_of(items: &Vec<(String, Json)>) -> (r: Option<Vec<(String, PluginRelease)>>)
    ensures
        match plugins_read(items@) {
            Some(v) => r matches Some(ps) && ps@.map_values(|p: (String, PluginRelease)| (p.0@, plugin_view(p.1))) == v,
            None => r is None,
        },
{
    let mut plugins: Vec<(String, PluginRelease)> = Vec::new();
    let mut i: usize = 0;
    while i < items.len()
        invariant
            i <= items@.len(),
            plugins@.len() == i,
            forall|k: int| 0 <= k < i ==> (#[trigger] plugins@[k]).0@ == items@[k].0@ && plugin_read(items@[k].1) == Some(plugin_view(plugins@[k].1)),
        decreases items@.len() - i,
    {
        match plugin_release_of(&items[i].1) {
            Some(rel) => plugins.push((items[i].0.clone(), rel)),
            None => {
                assert(plugin_read(items@[i as int].1) is None);
                return None;
            },
        }
        i = i + 1;
    }
    proof {
        assert forall|k: int| 0 <= k < items@.len() implies (#[trigger] plugin_read(items@[k].1)) is Some by {
            assert(plugins@[k].0@ == items@[k].0@);
        }
        assert(items@.map_values(|p: (String, Json)| (p.0@, plugin_read(p.1).unwrap()))
            =~= plugins@.map_values(|p: (String, PluginRelease)| (p.0@, plugin_view(p.1))));
    }
    Some(plugins)
}

/// Reads a stored cache; `None` when it is not one.
pub fn cache_from_json(doc: &Json) -> (r: Option<UpdatesCache>)
    ensures
        match cache_read(*doc) {
            Some(v) => r matches Some(c) && cache_view(c) == v,
            None => r is None,
        },
{
    let m = match doc {
        Json::Object(m) => m,
        _ => return None,
    };
    let fetched_at = match get_member(m, "fetched_at") {
        Some(Json::Number(n)) => match number_to_u64(n) {
            Some(t) => t,
            None => return None,
        },
        _ => return None,
    };
    let metamod = match platform_of(get_member(m, "metamod")) {
        Ok(p) => p,
        Err(()) => return None,
    };
    let css = match platform_of(get_member(m, "css")) {
        Ok(p) => p,
        Err(()) => return None,
    };
    let items = match get_member(m, "plugins") {
        Some(Json::Object(items)) => items,
        _ => return None,
    };
    let plugins = match plugins_of(items) {
        Some(p) => p,
        None => return None,
    };
    Some(UpdatesCache { fetched_at, metamod, css, plugins })
}

pub fn load_cache<H: HostApi>(host: &mut H) -> (r: Option<UpdatesCache>)
    ensures
        r matches Some(c) ==> exists|doc: Json| #[trigger] cache_read(doc) == Some(cache_view(c)),
{
    match host.storage_get(CACHE_KEY) {
        Ok(Some(bytes)) => match parse_json(bytes.as_slice()) {
            Some(doc) => {
                let c = cache_from_json(&doc);
                proof {
                    if c is Some {
                        assert(cache_read(doc) == Some(cache_view(c->0)));
                    }
                }
                c
            },
            None => None,
        },
        _ => None,
    }
}

/// The keys are strictly increasing.
pub open spec fn keys_sorted(s: Seq<(String, PluginRelease)>) -> bool {
    forall|i: int, j: int| 0 <= i < j < s.len() ==> lex_lt(s[i].0@, s[j].0@)
}

/// Inserts a keyed release keeping the keys in order.
fn insert_by_key(plugins: &mut Vec<(String, PluginRelease)>, key: String, release: PluginRelease)
    ensures
        exists|p: int| 0 <= p <= old(plugins)@.len() && final(plugins)@ == old(plugins)@.insert(p, (key, release)),
        keys_sorted(old(plugins)@) && (forall|j: int| 0 <= j < old(plugins)@.len() ==> old(plugins)@[j].0@ != key@)
            ==> keys_sorted(final(plugins)@),
{
    let k = chars_of(key.as_str());
    let mut p: usize = 0;
    while p < plugins.len() && !lex_less(k.as_slice(), chars_of(plugins[p].0.as_str()).as_slice())
        invariant
            p <= plugins@.len(),
            k@ == key@,
            forall|j: int| 0 <= j < p ==> !lex_lt(key@, (#[trigger] plugins@[j]).0@),
        decreases plugins@.len() - p,
    {
        p = p + 1;
    }
    let ghost before = plugins@;
    plugins.insert(p, (key, release));
    proof {
        let after = plugins@;
        if keys_sorted(before) && (forall|j: int| 0 <= j < before.len() ==> before[j].0@ != key@) {
            assert forall|i: int, j: int| 0 <= i < j < after.len() implies lex_lt(after[i].0@, after[j].0@) by {
                let pp = p as int;
                if j < pp {
                    assert(after[i] == before[i] && after[j] == before[j]);
                } else if j == pp {
                    assert(after[i] == before[i]);
                    assert(!lex_lt(key@, before[i].0@));
                    lemma_lex_total(before[i].0@, key@);
                } else if i == pp {
                    assert(after[j] == before[j - 1]);
                    assert(lex_lt(key@, before[pp].0@));
                    if j - 1 > pp {
                        lemma_lex_transitive(key@, before[pp].0@, before[j - 1].0@);
                    }
                } else if i < pp {
                    assert(after[i] == before[i] && after[j] == before[j - 1]);
                } else {
                    assert(after[i] == before[i - 1] && after[j] == before[j - 1]);
                }
            }
        }
    }
}

/// Fetches everything and stores the cache. One source may fail without
/// failing the sweep: its entry stays unknown.
pub fn refresh_cache<H: HostApi>(host: &mut H) -> (r: Result<UpdatesCache, String>)
    ensures
        r matches Ok(c) ==> keys_sorted(c.plugins@) && forall|j: int| 0 <= j < c.plugins@.len()
            ==> exists|k: int| 0 <= k < catalog_spec().len() && catalog_spec()[k].0 == (#[trigger] c.plugins@[j]).0@,
        r matches Ok(c) ==> (c.metamod matches Some(m) ==> has_prefix(m.download_url@, MMSOURCE_BASE@)),
{
    let mut cache = UpdatesCache { fetched_at: now_unix(), metamod: None, css: None, plugins: Vec::new() };

    match fetch_metamod_latest(host) {
        Ok(release) => cache.metamod = Some(release),
        Err(err) => host.log_error(cat("metamod version check failed: ", err.as_str()).as_str()),
    }

    match fetch_github_latest(host, CSS_REPO, &css_asset_patterns()) {
        Ok(release) => {
            cache.css = Some(PlatformRelease {
                version: release.version,
                download_url: match release.download_url {
                    Some(u) => u,
                    None => String::new(),
                },
            });
        },
        Err(err) => host.log_error(cat("counterstrikesharp version check failed: ", err.as_str()).as_str()),
    }

    let entries = catalog::catalog();
    let mut i: usize = 0;
    while i < entries.len()
        invariant
            i <= entries@.len(),
            entries@.len() == catalog_spec().len(),
            forall|j: int| 0 <= j < entries@.len() ==> entry_matches(#[trigger] entries@[j], j),
            keys_sorted(cache.plugins@),
            forall|j: int| 0 <= j < cache.plugins@.len()
                ==> exists|k: int| 0 <= k < i && catalog_spec()[k].0 == (#[trigger] cache.plugins@[j]).0@,
            cache.metamod matches Some(m) ==> has_prefix(m.download_url@, MMSOURCE_BASE@),
        decreases entries@.len() - i,
    {
        match fetch_github_latest(host, entries[i].repo, &entries[i].asset_contains) {
            Ok(release) => {
                let key = entries[i].key.to_owned();
                let ghost before = cache.plugins@;
                let ghost kv = key@;
                proof {
                    assert(entry_matches(entries@[i as int], i as int));
                    lemma_catalog_keys_unique();
                    assert forall|j: int| 0 <= j < before.len() implies before[j].0@ != kv by {
                        let kk = choose|kk: int| 0 <= kk < i && catalog_spec()[kk].0 == (#[trigger] before[j]).0@;
                    }
                }
                insert_by_key(&mut cache.plugins, key, release);
                proof {
                    let after = cache.plugins@;
                    let p = choose|p: int| 0 <= p <= before.len() && after == before.insert(p, (key, release));
                    assert forall|j: int| 0 <= j < after.len()
                        implies exists|k: int| 0 <= k < i + 1 && catalog_spec()[k].0 == (#[trigger] after[j]).0@ by {
                        if j < p {
                            assert(after[j] == before[j]);
                            let kk = choose|kk: int| 0 <= kk < i && catalog_spec()[kk].0 == (#[trigger] before[j]).0@;
                            assert(catalog_spec()[kk].0 == after[j].0@);
                        } else if j == p {
                            assert(after[j].0@ == kv);
                            assert(catalog_spec()[i as int].0 == after[j].0@);
                        } else {
                            assert(after[j] == before[j - 1]);
                            let kk = choose|kk: int| 0 <= kk < i && catalog_spec()[kk].0 == (#[trigger] before[j - 1]).0@;
                            assert(catalog_spec()[kk].0 == after[j].0@);
                        }
                    }
                }
            },
            Err(err) => host.log_error(cat3(entries[i].key, " version check failed: ", err.as_str()).as_str()),
        }
        i = i + 1;
    }

    let bytes = json_bytes(&cache_json(&cache));
    match host.storage_set(CACHE_KEY, bytes.as_slice()) {
        Ok(()) => Ok(cache),
        Err(e) => Err(host_error_text(&e)),
    }
}

/// Whether a cache taken at `fetched_at` is stale at `now`.
pub open spec fn stale_at(fetched_at: u64, now: u64) -> bool {
    (if now >= fetched_at { now - fetched_at } else { 0 }) >= CACHE_TTL_SECONDS
}

pub fn is_stale(fetched_at: u64, now: u64) -> (b: bool)
    ensures
        b == stale_at(fetched_at, now),
        b <==> now as int >= fetched_at as int + 21600,
{
    let age = if now >= fetched_at { now - fetched_at } else { 0 };
    age >= CACHE_TTL_SECONDS
}

/// The updates answer: each plugin row is a catalog entry, keyed and
/// foldered as the catalog has it.
pub open spec fn answers_updates(body: Seq<u8>) -> bool {
    exists|t: UpdatesResponse, j: Json| #[trigger] t.json_is(j) && body == json_text(j)
        && forall|k: int| 0 <= k < t.plugins@.len() ==> catalog_row((#[trigger] t.plugins@[k]).key@, t.plugins@[k].folder@)
}

/// `(key, folder)` is an entry of the catalog.
pub open spec fn catalog_row(key: Seq<char>, folder: Seq<char>) -> bool {
    exists|c: int| 0 <= c < catalog_spec().len() && catalog_spec()[c].0 == key && catalog_spec()[c].2 == folder
}

pub fn handle<H: HostApi>(host: &mut H, params: &Vec<(String, String)>, query: &Vec<(String, Vec<String>)>) -> (r: ApiResult)
    ensures
        param_id(params@) is None ==> (r matches Err(e) && e.status == 400),
        r matches Ok(resp) ==> resp.status == 200 && answers_updates(resp.body@),
        r matches Err(e) ==> route_failed(old(host).trace(), final(host).trace(), params@, e, |x: ApiError| false),
{
    let _ctx = ServerCtx::resolve(host, params)?;

    let force = match query_value(query, "refresh") {
        Some(v) => str_eq(v.as_str(), "1") || str_eq(v.as_str(), "true"),
        None => false,
    };

    let cached = load_cache(host);
    let now = now_unix();
    let fresh_enough = match &cached {
        Some(c) => !force && !is_stale(c.fetched_at, now),
        None => false,
    };
    let cache = if fresh_enough {
        match cached {
            Some(c) => c,
            None => UpdatesCache { fetched_at: 0, metamod: None, css: None, plugins: Vec::new() },
        }
    } else {
        match refresh_cache(host) {
            Ok(fresh) => fresh,
            Err(err) => {
                host.log_error(cat("updates refresh failed: ", err.as_str()).as_str());
                match cached {
                    Some(c) => c,
                    None => UpdatesCache { fetched_at: 0, metamod: None, css: None, plugins: Vec::new() },
                }
            },
        }
    };

    let mut plugins: Vec<PluginUpdateInfo> = Vec::new();
    let mut i: usize = 0;
    while i < cache.plugins.len()
        invariant
            i <= cache.plugins@.len(),
            forall|k: int| 0 <= k < plugins@.len() ==> catalog_row((#[trigger] plugins@[k]).key@, plugins@[k].folder@),
        decreases cache.plugins@.len() - i,
    {
        match catalog::find(cache.plugins[i].0.as_str()) {
            Some(entry) => {
                let ghost before = plugins@;
                plugins.push(PluginUpdateInfo {
                    key: entry.key.to_owned(),
                    folder: entry.folder.to_owned(),
                    version: cache.plugins[i].1.version.clone(),
                    release_url: cache.plugins[i].1.release_url.clone(),
                });
                proof {
                    let c = choose|c: int| 0 <= c < catalog_spec().len() && #[trigger] entry_matches(entry, c)
                        && catalog_spec()[c].0 == cache.plugins@[i as int].0@;
                    assert forall|k: int| 0 <= k < plugins@.len() implies catalog_row((#[trigger] plugins@[k]).key@, plugins@[k].folder@) by {
                        if k < before.len() {
                            assert(plugins@[k] == before[k]);
                        } else {
                            assert(catalog_spec()[c].0 == plugins@[k].key@ && catalog_spec()[c].2 == plugins@[k].folder@);
                        }
                    }
                }
            },
            None => {},
        }
        i = i + 1;
    }

    let response = UpdatesResponse {
        fetched_at: cache.fetched_at,
        stale: is_stale(cache.fetched_at, now_unix()),
        metamod: cache.metamod,
        css: cache.css,
        plugins,
    };
    let j = response.to_json();
    let resp = json_response(200, &j);
    assert(response.json_is(j) && resp.body@ == json_text(j));
    Ok(resp)
}

} // verus!
