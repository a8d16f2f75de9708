//! GET  /servers/{id}/catalog: the curated plugin catalog.
//! POST /servers/{id}/catalog/install: download a release and install it.
//!
//! Small release zips travel through the panel's plugin HTTP and are
//! unpacked in the plugin; layout quirks are handled by
//! `archive::detect_install_root`.

use vstd::prelude::*;

use crate::handlers::ctx::{lemma_route_failed, param_id, resolved_at, route_failed, ServerCtx};
use crate::handlers::{audit, read_manifest, require_css_installed, write_archive_entries, write_manifest};
use crate::handlers::snapshots::try_auto_snapshot;
use crate::handlers::updates::{fetch_github_latest, host_error_text, release_read, str_member};
use crate::handlers::host_failure;
use crate::json::parsed_json;
use crate::host_api::{grew, is_effect, lemma_grew_trans, lemma_reads_only_trans, reads_only, HostApi, HostCall, HttpFetchParams};
use crate::handlers::archive_install::archive_written;
use crate::handlers::{manifest_path, uploaded};
use crate::source2::manifest::mf_contains;
use crate::http::{json_response, ApiError, ApiResult};
use crate::json::{json_text, Json};
use crate::model::{name_request, CatalogEntryInfo, CatalogInstallRequest, CatalogInstallResponse, CatalogResponse};
use crate::source2::archive;
use crate::source2::catalog;
use crate::text::{cat, cat3, i32_text};

verus! {

pub const DOWNLOAD_TIMEOUT_SECONDS: i32 = 25;

/// The catalog answer: every entry in catalog order, with its key, its
/// plugin folder and its GitHub page.
pub open spec fn answers_catalog(body: Seq<u8>) -> bool {
    exists|t: CatalogResponse, j: Json| #[trigger] t.json_is(j) && body == json_text(j)
        && t.entries@.len() == catalog::catalog_spec().len()
        && forall|i: int| 0 <= i < t.entries@.len() ==> (#[trigger] t.entries@[i]).key@ == catalog::catalog_spec()[i].0
            && t.entries@[i].folder@ == catalog::catalog_spec()[i].2
            && t.entries@[i].homepage@ == "https://github.com/"@ + catalog::catalog_spec()[i].1
}

/// The install answer names the catalog entry and the folder it installed.
pub open spec fn answers_install(body: Seq<u8>, key: Seq<char>) -> bool {
    exists|t: CatalogInstallResponse, j: Json| #[trigger] t.json_is(j) && body == json_text(j) && t.key@ == key
        && exists|i: int| 0 <= i < catalog::catalog_spec().len() && #[trigger] catalog::catalog_spec()[i].0 == key
            && t.folder@ == catalog::catalog_spec()[i].2
}

pub fn handle_list<H: HostApi>(host: &mut H, params: &Vec<(String, String)>) -> (r: ApiResult)
    ensures
        param_id(params@) is None ==> (r matches Err(e) && e.status == 400),
        r matches Ok(resp) ==> resp.status == 200 && answers_catalog(resp.body@),
        r matches Err(e) ==> route_failed(old(host).trace(), final(host).trace(), params@, e, |x: ApiError| false),
{
    let _ctx = ServerCtx::resolve(host, params)?;
    let entries = catalog::catalog();
    let mut items: Vec<CatalogEntryInfo> = Vec::new();
    let mut i: usize = 0;
    while i < entries.len()
        invariant
            i <= entries@.len(),
            entries@.len() == catalog::catalog_spec().len(),
            forall|k: int| 0 <= k < entries@.len() ==> catalog::entry_matches(#[trigger] entries@[k], k),
            items@.len() == i,
            forall|k: int| 0 <= k < i ==> (#[trigger] items@[k]).key@ == catalog::catalog_spec()[k].0
                && items@[k].folder@ == catalog::catalog_spec()[k].2
                && items@[k].homepage@ == "https://github.com/"@ + catalog::catalog_spec()[k].1,
        decreases entries@.len() - i,
    {
        assert(catalog::entry_matches(entries@[i as int], i as int));
        items.push(CatalogEntryInfo {
            key: entries[i].key.to_owned(),
            name: entries[i].name.to_owned(),
            description: entries[i].description.to_owned(),
            homepage: cat("https://github.com/", entries[i].repo),
            folder: entries[i].folder.to_owned(),
        });
        i = i + 1;
    }
    let response = CatalogResponse { entries: items };
    let j = response.to_json();
    let resp = json_response(200, &j);
    assert(response.json_is(j) && resp.body@ == json_text(j));
    Ok(resp)
}

/// What a catalog install did, between two transcripts, for catalog entry
/// `i`: among its calls is a GET of the release asset answered 200, every
/// entry of that archive was uploaded where its layout puts it, and a
/// plugins_meta.json registering the entry's folder was uploaded.
pub open spec fn catalog_installed(t0: Seq<HostCall>, t: Seq<HostCall>, i: int) -> bool {
    exists|k: int, resp: crate::host_api::HttpFetchResponse, ctx: ServerCtx, m: int, after: Vec<(String, Json)>|
        #![trigger t[k], archive_written(t0, t, ctx, resp.body@), t[m], mf_contains(after@, catalog::catalog_spec()[i].2)]
    {
        &&& t0.len() <= k < t.len()
        &&& t[k] matches HostCall::Fetch(method, _, a)
        &&& method == "GET"@ && a == Ok::<crate::host_api::HttpFetchResponse, crate::host_api::HostApiError>(resp) && resp.status == 200
        &&& archive_written(t0, t, ctx, resp.body@)
        &&& t0.len() <= m < t.len()
        &&& t[m] matches HostCall::Upload(n, p, b, _, up)
        &&& n == ctx.node_id && p == manifest_path(ctx.game_abs@) && up is Ok
        &&& mf_contains(after@, catalog::catalog_spec()[i].2)
        &&& b == crate::json::json_text_pretty(Json::Object(after)).push(10u8)
    }
}

/// The catalog entry a request names, when there is one.
pub open spec fn known_key(key: Seq<char>) -> bool {
    exists|i: int| 0 <= i < catalog::catalog_spec().len() && catalog::catalog_spec()[i].0 == key
}

/// Call `k` after `t0` is the first HTTP request among them, the release
/// lookup.
pub open spec fn first_fetch(t0: Seq<HostCall>, t: Seq<HostCall>, k: int) -> bool {
    &&& t0.len() <= k < t.len()
    &&& t[k] is Fetch
    &&& forall|j: int| t0.len() <= j < k ==> !((#[trigger] t[j]) is Fetch)
}

/// A release lookup answer that names a release: 200 with a JSON document
/// that holds a tag.
pub open spec fn release_found(a: crate::host_api::HostResult<crate::host_api::HttpFetchResponse>) -> bool {
    a matches Ok(resp) && resp.status == 200
        && (parsed_json(resp.body@) matches Some(doc) && str_member(doc, "tag_name"@) is Some)
}

/// The release lookup after `t0` was answered, with a release when `found`
/// and without one when not.
pub open spec fn looked_up(t0: Seq<HostCall>, t: Seq<HostCall>, found: bool) -> bool {
    exists|k: int| #[trigger] first_fetch(t0, t, k) && release_found(t[k]->Fetch_2) == found
}

/// Once the release lookup named a release, no later call makes it a
/// failed one.
proof fn lemma_lookup_stays(t0: Seq<HostCall>, tl: Seq<HostCall>, t: Seq<HostCall>, kl: int)
    requires
        first_fetch(t0, tl, kl),
        release_found(tl[kl]->Fetch_2),
        grew(tl, t),
    ensures
        !looked_up(t0, t, false),
{
    assert forall|k: int| #[trigger] first_fetch(t0, t, k) implies release_found(t[k]->Fetch_2) by {
        if k < kl {
            assert(t[k] == tl[k]);
        } else if k > kl {
            assert(t[kl] == tl[kl]);
        }
        assert(k == kl);
        assert(t[kl] == tl[kl]);
    }
}

#[verifier::rlimit(60)]
#[verifier::spinoff_prover]
pub fn handle_install<H: HostApi>(host: &mut H, params: &Vec<(String, String)>, body: &[u8], actor: Option<&str>) -> (r: ApiResult)
    ensures
        param_id(params@) is None ==> (r matches Err(e) && e.status == 400),
        r is Ok ==> name_request(body@, "key"@) is Some
            && !(forall|i: int| 0 <= i < catalog::catalog_spec().len() ==> catalog::catalog_spec()[i].0 != name_request(body@, "key"@).unwrap()),
        r matches Ok(resp) ==> resp.status == 200 && answers_install(resp.body@, name_request(body@, "key"@).unwrap()),
        r is Ok ==> exists|i: int| 0 <= i < catalog::catalog_spec().len() && catalog::catalog_spec()[i].0 == name_request(body@, "key"@).unwrap()
            && #[trigger] catalog_installed(old(host).trace(), final(host).trace(), i),
        r matches Err(e) ==> route_failed(old(host).trace(), final(host).trace(), params@, e,
            |x: ApiError| (x.status == 400 && name_request(body@, "key"@) is None)
                || (x.status == 404 && x.code@ == "CATALOG_KEY_UNKNOWN"@ && !known_key(name_request(body@, "key"@).unwrap()))
                || x.status == 409 || x.status == 422 || host_failure(x)),
        name_request(body@, "key"@) matches Some(k) ==> (!known_key(k)
            ==> (r matches Err(e) && ((e.status == 404 && e.code@ == "CATALOG_KEY_UNKNOWN"@)
                || route_failed(old(host).trace(), final(host).trace(), params@, e, |x: ApiError| false)))),
        r matches Err(e) ==> (e.status == 422 && e.code@ == "RELEASE_LOOKUP_FAILED"@ ==> looked_up(old(host).trace(), final(host).trace(), false)
            || route_failed(old(host).trace(), final(host).trace(), params@, e, |x: ApiError| false)),
        looked_up(old(host).trace(), final(host).trace(), false) ==> r is Err,
        r matches Err(e) ==> (e.status == 422 && e.code@ == "NO_MATCHING_ASSET"@ ==> looked_up(old(host).trace(), final(host).trace(), true)
            || route_failed(old(host).trace(), final(host).trace(), params@, e, |x: ApiError| false)),
        r matches Err(e) && (e.status == 400 || e.status == 404 || e.status == 409 || (e.status == 422 && (e.code@ == "RELEASE_LOOKUP_FAILED"@
            || e.code@ == "NO_MATCHING_ASSET"@ || e.code@ == "DOWNLOAD_FAILED"@))) ==> reads_only(old(host).trace(), final(host).trace()),
{
    let ghost t0 = host.trace();
    proof {
        reveal_strlit("RELEASE_LOOKUP_FAILED");
        reveal_strlit("NO_MATCHING_ASSET");
        reveal_strlit("UNSUPPORTED_ENGINE");
        reveal_strlit("GAME_DIR_NOT_FOUND");
    }
    let ctx = ServerCtx::resolve(host, params)?;
    let ghost tm = host.trace();
    assert(resolved_at(t0, tm, ctx.server_id, ctx));
    let ghost allowed: spec_fn(ApiError) -> bool = |x: ApiError| (x.status == 400 && name_request(body@, "key"@) is None)
        || (x.status == 404 && x.code@ == "CATALOG_KEY_UNKNOWN"@ && !known_key(name_request(body@, "key"@).unwrap()))
        || x.status == 409 || x.status == 422 || host_failure(x);
    proof {
        reveal_strlit("CATALOG_KEY_UNKNOWN");
        reveal_strlit("RELEASE_LOOKUP_FAILED");
        reveal_strlit("NO_MATCHING_ASSET");
        reveal_strlit("DOWNLOAD_FAILED");
        reveal_strlit("BAD_ARCHIVE");
        assert("DOWNLOAD_FAILED"@.len() == 15 && "BAD_ARCHIVE"@.len() == 11);
        assert("RELEASE_LOOKUP_FAILED"@.len() == 21 && "NO_MATCHING_ASSET"@.len() == 17);
    }
    let key = match CatalogInstallRequest::parse(body) {
        Ok(q) => q.key,
        Err(e) => {
            proof { lemma_route_failed(t0, tm, host.trace(), params@, ctx, e, allowed); }
            return Err(e);
        },
    };
    let entry = match catalog::find(key.as_str()) {
        Some(e) => e,
        None => {
            let e = ApiError::not_found("CATALOG_KEY_UNKNOWN", String::from_str("unknown catalog entry"));
            proof { lemma_route_failed(t0, tm, host.trace(), params@, ctx, e, allowed); }
            return Err(e);
        },
    };
    proof {
        let i = choose|i: int| 0 <= i < catalog::catalog_spec().len() && #[trigger] catalog::entry_matches(entry, i) && catalog::catalog_spec()[i].0 == key@;
        assert(known_key(key@));
    }

    match require_css_installed(host, &ctx) {
        Ok(()) => {},
        Err(e) => {
            proof { lemma_route_failed(t0, tm, host.trace(), params@, ctx, e, allowed); }
            return Err(e);
        },
    }
    let ghost t1 = host.trace();
    proof {
        lemma_reads_only_trans(t0, tm, t1);
        crate::host_api::lemma_no_fetch_trans(t0, tm, t1);
    }

    let looked = fetch_github_latest(host, entry.repo, &entry.asset_contains);
    let ghost tl = host.trace();
    let ghost kl = t1.len() as int;
    proof {
        assert(tl[kl] is Fetch);
        assert(first_fetch(t0, tl, kl)) by {
            assert forall|j: int| t0.len() <= j < kl implies !((#[trigger] tl[j]) is Fetch) by {
                assert(tl[j] == t1[j]);
            }
        }
        assert(reads_only(t0, tl));
    }
    let release = match looked {
        Ok(rel) => rel,
        Err(err) => {
            let e = ApiError::unprocessable("RELEASE_LOOKUP_FAILED", err);
            proof {
                lemma_route_failed(t0, tm, host.trace(), params@, ctx, e, allowed);
                assert(!release_found(tl[kl]->Fetch_2));
                assert(looked_up(t0, tl, false));
                assert(e.code@.len() == 21 && "NO_MATCHING_ASSET"@.len() == 17);
                assert(e.code@ != "NO_MATCHING_ASSET"@);
            }
            return Err(e);
        },
    };
    let download_url = match &release.download_url {
        Some(u) => u.clone(),
        None => {
            let e = ApiError::unprocessable(
                "NO_MATCHING_ASSET",
                cat3("latest ", entry.name, " release has no matching zip asset"),
            );
            proof {
                lemma_route_failed(t0, tm, host.trace(), params@, ctx, e, allowed);
                assert(release_found(tl[kl]->Fetch_2));
                assert(looked_up(t0, tl, true));
                assert(e.code@.len() == 17 && "RELEASE_LOOKUP_FAILED"@.len() == 21);
                assert(e.code@ != "RELEASE_LOOKUP_FAILED"@);
            }
            return Err(e);
        },
    };
    proof {
        assert(release_found(tl[kl]->Fetch_2));
    }

    let mut headers: Vec<(String, String)> = Vec::new();
    headers.push(("User-Agent".to_owned(), "gameap-cs2-addons".to_owned()));
    let fetch = HttpFetchParams {
        method: "GET".to_owned(),
        url: download_url,
        headers,
        timeout_seconds: DOWNLOAD_TIMEOUT_SECONDS,
    };
    let ghost t2 = host.trace();
    proof { lemma_grew_trans(t0, t1, t2); }
    let fetched = host.http_fetch(&fetch);
    let ghost ga = fetched;
    let ghost t3 = host.trace();
    let ghost kf = t3.len() - 1;
    proof { lemma_grew_trans(t0, t2, t3); }
    proof {
        lemma_grew_trans(tm, tl, t3);
        lemma_lookup_stays(t0, tl, t3, kl);
        assert(reads_only(t0, t3)) by {
            assert forall|i: int| t0.len() <= i < t3.len() implies !is_effect(#[trigger] t3[i]) by {
                if i < tl.len() {
                    assert(t3[i] == tl[i]);
                }
            }
        }
    }
    let resp = match fetched {
        Ok(resp) => resp,
        Err(err) => {
            let e = ApiError::unprocessable(
                "DOWNLOAD_FAILED",
                cat3("release download failed (", host_error_text(&err).as_str(), "); note the panel caps plugin downloads at 10MB"),
            );
            proof { lemma_route_failed(t0, tm, host.trace(), params@, ctx, e, allowed); }
            return Err(e);
        },
    };
    if resp.status != 200 {
        let e = ApiError::unprocessable("DOWNLOAD_FAILED", cat("release download returned HTTP ", i32_text(resp.status).as_str()));
        proof { lemma_route_failed(t0, tm, host.trace(), params@, ctx, e, allowed); }
        return Err(e);
    }

    let entries = match archive::extract_zip(resp.body.as_slice()) {
        Ok(e) => e,
        Err(err) => {
            let e = ApiError::unprocessable("BAD_ARCHIVE", err);
            proof { lemma_route_failed(t0, tm, host.trace(), params@, ctx, e, allowed); }
            return Err(e);
        },
    };
    let root = match archive::detect_install_root(entries.as_slice()) {
        Ok(root) => root,
        Err(err) => {
            let e = ApiError::unprocessable("BAD_ARCHIVE", err);
            proof { lemma_route_failed(t0, tm, host.trace(), params@, ctx, e, allowed); }
            return Err(e);
        },
    };

    proof {
        let es = archive::extract_spec(resp.body@).unwrap();
        assert(archive::entry_paths(entries@) =~= crate::handlers::archive_install::archive_paths(es)) by {
            assert forall|q: int| 0 <= q < es.len() implies archive::entry_paths(entries@)[q] == crate::handlers::archive_install::archive_paths(es)[q] by {
                assert(archive::entry_view(entries@[q]) == es[q]);
            }
        }
    }

    // Overwrites are reversible: snapshot first, best-effort.
    try_auto_snapshot(host, &ctx, actor, None);
    let ghost tw = host.trace();
    proof { lemma_grew_trans(t0, t3, tw); }

    let written = write_archive_entries(host, &ctx, entries.as_slice(), &root);
    let ghost tx = host.trace();
    proof { lemma_grew_trans(t0, tw, tx); }
    let files_written = match written {
        Ok(n) => n,
        Err(e) => {
            proof {
                lemma_grew_trans(tm, t3, host.trace());
                lemma_lookup_stays(t0, tl, host.trace(), kl);
                lemma_route_failed(t0, tm, host.trace(), params@, ctx, e, allowed);
                reveal_strlit("ENTRY_TOO_LARGE");
                assert("ENTRY_TOO_LARGE"@.len() == 15 && "BAD_ARCHIVE"@.len() == 11);
                assert("ENTRY_TOO_LARGE"@[0] != "DOWNLOAD_FAILED"@[0]);
            }
            return Err(e);
        },
    };
    proof {
        let es = archive::extract_spec(resp.body@).unwrap();
        assert forall|q: int| 0 <= q < es.len() implies #[trigger] uploaded(t0, tx, ctx.node_id,
            crate::handlers::entry_target_spec(ctx.game_abs@, root, es[q].0), es[q].1, es[q].2) by {
            assert(archive::entry_view(entries@[q]) == es[q]);
            assert(uploaded(tw, tx, ctx.node_id, crate::handlers::entry_target_spec(ctx.game_abs@, root, entries@[q].path@), entries@[q].data@, entries@[q].mode));
            let j = choose|j: int| tw.len() <= j < tx.len() && (#[trigger] tx[j] matches HostCall::Upload(n, p, d, m, a)
                && n == ctx.node_id && p == crate::handlers::entry_target_spec(ctx.game_abs@, root, entries@[q].path@)
                && d == entries@[q].data@ && m == entries@[q].mode && a is Ok);
        }
        assert(archive::root_view(root) == archive::detect_spec(crate::handlers::archive_install::archive_paths(es)).unwrap());
        assert(archive_written(t0, tx, ctx, resp.body@));
    }

    // Register like a manual upload would, so the row appears with metadata.
    let read = read_manifest(host, &ctx);
    let ghost ty = host.trace();
    proof { lemma_grew_trans(t0, tx, ty); }
    let mut manifest = match read {
        Ok(m) => m,
        Err(e) => {
            proof {
                lemma_grew_trans(tm, t3, host.trace());
                lemma_lookup_stays(t0, tl, host.trace(), kl);
                lemma_route_failed(t0, tm, host.trace(), params@, ctx, e, allowed);
            }
            return Err(e);
        },
    };
    manifest.ensure(entry.folder);
    match write_manifest(host, &ctx, &manifest) {
        Ok(()) => {},
        Err(e) => {
            proof {
                lemma_grew_trans(tm, t3, host.trace());
                lemma_lookup_stays(t0, tl, host.trace(), kl);
                lemma_route_failed(t0, tm, host.trace(), params@, ctx, e, allowed);
            }
            return Err(e);
        },
    }
    let ghost tz = host.trace();
    let ghost km = tz.len() - 1;
    proof { lemma_grew_trans(t0, ty, tz); }

    audit::record(host, ctx.server_id, actor, "catalog-install", cat3(entry.name, " ", release.version.as_str()).as_str());
    proof {
        let t = host.trace();
        lemma_grew_trans(t0, tz, t);
        crate::handlers::archive_install::lemma_archive_written_grows(t0, tx, t, ctx, resp.body@);
        assert(t[kf] == t3[kf]);
        assert(t[km] == tz[km]);
        let i = choose|i: int| 0 <= i < catalog::catalog_spec().len() && #[trigger] catalog::entry_matches(entry, i) && catalog::catalog_spec()[i].0 == key@;
        assert(mf_contains(manifest.root@, catalog::catalog_spec()[i].2));
        assert(catalog_installed(t0, t, i));
        lemma_grew_trans(tl, t3, t);
        lemma_lookup_stays(t0, tl, t, kl);
    }

    let response = CatalogInstallResponse {
        key: entry.key.to_owned(),
        folder: entry.folder.to_owned(),
        version: release.version,
        files_written,
    };
    let j = response.to_json();
    let resp = json_response(200, &j);
    assert(response.json_is(j) && resp.body@ == json_text(j));
    Ok(resp)
}

} // verus!
