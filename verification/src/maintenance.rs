//! Scheduled maintenance: the gameinfo.gi auto-repair sweep. CS2 updates
//! silently strip the Metamod search path; this puts it back on every CS2
//! server that has Metamod installed, without anyone opening the panel.

use vstd::prelude::*;

use crate::handlers::updates::host_error_text;

use crate::handlers::ctx::{param_id, resolve_answers, ServerCtx};
use crate::handlers::repair::repair_answers;
use crate::handlers::stat_dir;
use crate::http::ApiError;
use crate::source2::paths::join_spec;
use crate::handlers::{audit, repair};
use crate::host_api::{calls_since, grew, lemma_grew_trans, lemma_ok_uploads_since, lemma_reads_upload_nothing, ok_uploads, HostApi, HostApiError, HostCall, ServerInfo};
use crate::source2;
use crate::source2::paths::join;
use crate::text::{cat, cat3, u64_text};

verus! {

/// Never let one giant installation stall the scheduler slot.
pub const MAX_SERVERS_PER_SWEEP: usize = 100;

#[derive(Debug, Default, PartialEq, Eq)]
pub struct SweepStats {
    pub checked: u32,
    pub repaired: u32,
    pub failed: u32,
}

/// Where gameinfo.gi of a resolved server is.
pub open spec fn gameinfo_of(c: ServerCtx) -> Seq<char> {
    join_spec(c.game_abs@, source2::GAMEINFO_FILE@)
}

/// What the sweep did for server `id`, between calls `a` and `b` of `t`: it
/// resolved the server; when that worked, it probed addons/metamod; when
/// that is a directory, it repaired gameinfo.gi (an upload exactly when the
/// file was unwired and could be wired), and recorded a repair that changed
/// the file in the audit log.
pub open spec fn sweep_step(t: Seq<HostCall>, a: int, b: int, id: u64) -> bool {
    &&& 0 <= a <= b <= t.len()
    &&& exists|m: int, r: Result<ServerCtx, ApiError>| #![trigger resolve_answers(t.subrange(a, m), id, r)]
        a <= m <= b && resolve_answers(t.subrange(a, m), id, r) && match r {
            Err(_) => m == b,
            Ok(c) => m < b && (t[m] matches HostCall::Stat(n, p, am) && n == c.node_id
                && p == join_spec(c.game_abs@, source2::METAMOD_DIR@)
                && if stat_dir(am) == Ok::<bool, HostApiError>(true) {
                    exists|e: int, rr: Result<bool, ApiError>| #![trigger repair_answers(t.subrange(m + 1, e), c.node_id, gameinfo_of(c), rr)]
                        m + 1 <= e <= b && repair_answers(t.subrange(m + 1, e), c.node_id, gameinfo_of(c), rr)
                        && (if rr == Ok::<bool, ApiError>(true) { b == e + 2 } else { b == e })
                } else {
                    b == m + 1
                }),
        }
}

/// A step read off calls that stay as more are appended.
pub proof fn lemma_sweep_step_grows(t: Seq<HostCall>, u: Seq<HostCall>, a: int, b: int, id: u64)
    requires
        sweep_step(t, a, b, id),
        grew(t, u),
    ensures
        sweep_step(u, a, b, id),
{
    let (m, r) = choose|m: int, r: Result<ServerCtx, ApiError>| #![trigger resolve_answers(t.subrange(a, m), id, r)]
        a <= m <= b && resolve_answers(t.subrange(a, m), id, r) && match r {
            Err(_) => m == b,
            Ok(c) => m < b && (t[m] matches HostCall::Stat(n, p, am) && n == c.node_id
                && p == join_spec(c.game_abs@, source2::METAMOD_DIR@)
                && if stat_dir(am) == Ok::<bool, HostApiError>(true) {
                    exists|e: int, rr: Result<bool, ApiError>| #![trigger repair_answers(t.subrange(m + 1, e), c.node_id, gameinfo_of(c), rr)]
                        m + 1 <= e <= b && repair_answers(t.subrange(m + 1, e), c.node_id, gameinfo_of(c), rr)
                        && (if rr == Ok::<bool, ApiError>(true) { b == e + 2 } else { b == e })
                } else {
                    b == m + 1
                }),
        };
    assert(u.subrange(a, m) =~= t.subrange(a, m));
    if r is Ok {
        let c = r->Ok_0;
        assert(u[m] == t[m]);
        if stat_dir(t[m]->Stat_2) == Ok::<bool, HostApiError>(true) {
            let (e, rr) = choose|e: int, rr: Result<bool, ApiError>| #![trigger repair_answers(t.subrange(m + 1, e), c.node_id, gameinfo_of(c), rr)]
                m + 1 <= e <= b && repair_answers(t.subrange(m + 1, e), c.node_id, gameinfo_of(c), rr)
                && (if rr == Ok::<bool, ApiError>(true) { b == e + 2 } else { b == e });
            assert(u.subrange(m + 1, e) =~= t.subrange(m + 1, e));
        }
    }
}

/// The sweep's steps: one per listed server, up to the cap, in order,
/// covering the calls from `start` to the end of `t`.
pub open spec fn sweep_steps(t: Seq<HostCall>, bounds: Seq<int>, servers: Seq<ServerInfo>) -> bool {
    &&& bounds.len() == servers.len() + 1
    &&& bounds.last() == t.len()
    &&& forall|q: int| 0 <= q < servers.len() ==> #[trigger] sweep_step(t, bounds[q], bounds[q + 1], servers[q].id)
}

/// The servers a sweep takes: the first [`MAX_SERVERS_PER_SWEEP`] listed.
pub open spec fn swept(servers: Seq<ServerInfo>) -> Seq<ServerInfo> {
    if servers.len() < MAX_SERVERS_PER_SWEEP {
        servers
    } else {
        servers.take(MAX_SERVERS_PER_SWEEP as int)
    }
}

/// Re-wires gameinfo.gi on every CS2 server (at most
/// [`MAX_SERVERS_PER_SWEEP`]) that has addons/metamod; servers that cannot
/// be resolved are skipped.
#[verifier::rlimit(60)]
#[verifier::spinoff_prover]
pub fn autorepair_sweep<H: HostApi>(host: &mut H) -> (stats: SweepStats)
    ensures
        stats.checked <= MAX_SERVERS_PER_SWEEP,
        stats.repaired + stats.failed <= stats.checked,
        grew(old(host).trace(), final(host).trace()),
        final(host).trace().len() > old(host).trace().len(),
        final(host).trace()[old(host).trace().len() as int] matches HostCall::FindServers(code, a) && code == crate::GAME_CODE@
            && match a {
                Err(_) => stats == (SweepStats { checked: 0, repaired: 0, failed: 0 })
                    && final(host).trace().len() == old(host).trace().len() + 1,
                Ok(servers) => stats.checked <= servers@.len()
                    && exists|bounds: Seq<int>| #[trigger] sweep_steps(final(host).trace(), bounds, swept(servers@))
                        && bounds[0] == old(host).trace().len() + 1,
            },
        stats.repaired == ok_uploads(calls_since(old(host).trace(), final(host).trace())),
{
    let ghost t0 = host.trace();
    let mut stats = SweepStats { checked: 0, repaired: 0, failed: 0 };
    let listing = host.find_servers_by_game(crate::GAME_CODE);
    let ghost gl = listing;
    let ghost t1 = host.trace();
    proof {
        assert(t1.drop_last() =~= t0);
        lemma_ok_uploads_since(t0, t1);
    }
    let servers = match listing {
        Ok(servers) => servers,
        Err(err) => {
            host.log_error(cat("autorepair: server listing failed: ", host_error_text(&err).as_str()).as_str());
            proof {
                lemma_ok_uploads_since(t0, host.trace());
            }
            return stats;
        },
    };

    let ghost mut bounds: Seq<int> = seq![t1.len() as int];
    let mut i: usize = 0;
    while i < servers.len() && i < MAX_SERVERS_PER_SWEEP
        invariant
            i <= MAX_SERVERS_PER_SWEEP,
            i <= servers@.len(),
            stats.checked <= i,
            stats.repaired + stats.failed <= stats.checked,
            t0 == old(host).trace(),
            grew(t1, host.trace()),
            grew(t0, t1),
            t1.len() == t0.len() + 1,
            t1[t0.len() as int] == HostCall::FindServers(crate::GAME_CODE@, gl),
            gl == Ok::<Vec<ServerInfo>, HostApiError>(servers),
            ok_uploads(host.trace()) == ok_uploads(t0) + stats.repaired,
            bounds.len() == i + 1,
            bounds[0] == t1.len(),
            bounds.last() == host.trace().len(),
            forall|q: int| 0 <= q < i ==> #[trigger] sweep_step(host.trace(), bounds[q], bounds[q + 1], servers@[q].id),
        decreases servers@.len() - i,
    {
        let mut params: Vec<(String, String)> = Vec::new();
        let id_text = u64_text(servers[i].id);
        params.push(("id".to_owned(), id_text));
        proof {
            reveal_strlit("id");
            crate::text::lemma_u64_text_parses(servers@[i as int].id);
            assert(params@[0].0@ == "id"@);
            assert(crate::handlers::ctx::param_spec(params@.drop_first(), "id"@) is None);
            assert(param_id(params@) == Some(servers@[i as int].id));
        }
        let ghost ta = host.trace();
        let resolved = ServerCtx::resolve(host, &params);
        let ghost tr = host.trace();
        let ghost rg = resolved;
        proof {
            lemma_reads_upload_nothing(ta, host.trace());
            lemma_grew_trans(t1, ta, host.trace());
        }
        let ghost mut tsd: Seq<HostCall> = tr;
        let ghost mut te: Seq<HostCall> = tr;
        let ghost mut rrg: Result<bool, ApiError> = Ok(false);
        match resolved {
            Ok(ctx) => {
                stats.checked = stats.checked + 1;
                // Only repair where Metamod is present: a bare server with no
                // addons dir is not broken, it is just not set up.
                let metamod_abs = join(ctx.game_abs.as_str(), source2::METAMOD_DIR);
                let ghost tb = host.trace();
                let probed = host.stat(ctx.node_id, metamod_abs.as_str());
                let has_metamod = match probed {
                    Ok(Some(s)) => s.is_dir,
                    _ => false,
                };
                proof {
                    lemma_ok_uploads_since(tb, host.trace());
                    reveal_with_fuel(ok_uploads, 2);
                    lemma_grew_trans(t1, tb, host.trace());
                    tsd = host.trace();
                    te = host.trace();
                    assert(has_metamod == (stat_dir(probed) == Ok::<bool, HostApiError>(true)));
                }
                if has_metamod {
                    let ghost tc = host.trace();
                    let repaired = repair::repair(host, &ctx);
                    proof {
                        lemma_ok_uploads_since(tc, host.trace());
                        reveal_with_fuel(ok_uploads, 4);
                        lemma_grew_trans(t1, tc, host.trace());
                        let cs = calls_since(tc, host.trace());
                        if cs.len() == 3 {
                            assert(cs.drop_last().drop_last().drop_last() =~= Seq::<HostCall>::empty());
                        } else if cs.len() == 2 {
                            assert(cs.drop_last().drop_last() =~= Seq::<HostCall>::empty());
                        } else {
                            assert(cs.drop_last() =~= Seq::<HostCall>::empty());
                        }
                        te = host.trace();
                        rrg = repaired;
                    }
                    match repaired {
                        Ok(true) => {
                            stats.repaired = stats.repaired + 1;
                            let ghost td = host.trace();
                            audit::record(host, ctx.server_id, Some("auto-repair"), "gameinfo-repair", "gameinfo.gi");
                            proof {
                                lemma_ok_uploads_since(td, host.trace());
                                reveal_with_fuel(ok_uploads, 3);
                                lemma_grew_trans(t1, td, host.trace());
                                assert(calls_since(td, host.trace()).drop_last().drop_last() =~= Seq::<HostCall>::empty());
                            }
                            host.log_info(cat("autorepair: re-wired gameinfo.gi on server ", u64_text(ctx.server_id).as_str()).as_str());
                        },
                        Ok(false) => {},
                        Err(err) => {
                            stats.failed = stats.failed + 1;
                            host.log_error(cat3(
                                cat("autorepair: server ", u64_text(ctx.server_id).as_str()).as_str(),
                                " failed: ",
                                err.message.as_str(),
                            ).as_str());
                        },
                    }
                }
            },
            Err(_) => {},
        }
        proof {
            let tz = host.trace();
            lemma_grew_trans(ta, tr, tz);
            let a = ta.len() as int;
            let m = tr.len() as int;
            assert(tz.subrange(a, m) =~= calls_since(ta, tr));
            match rg {
                Ok(c) => {
                    assert(tz[m] == tsd[m]);
                    if stat_dir(tsd[m]->Stat_2) == Ok::<bool, HostApiError>(true) {
                        assert(tz.subrange(m + 1, te.len() as int) =~= calls_since(tsd, te));
                        assert(repair_answers(tz.subrange(m + 1, te.len() as int), c.node_id, gameinfo_of(c), rrg));
                    }
                },
                Err(_) => {},
            }
            assert(sweep_step(tz, a, tz.len() as int, servers@[i as int].id));
            assert forall|q: int| 0 <= q < i implies #[trigger] sweep_step(tz, bounds[q], bounds[q + 1], servers@[q].id) by {
                lemma_sweep_step_grows(ta, tz, bounds[q], bounds[q + 1], servers@[q].id);
            }
            bounds = bounds.push(tz.len() as int);
        }
        i = i + 1;
    }
    proof {
        let t = host.trace();
        lemma_grew_trans(t0, t1, t);
        lemma_ok_uploads_since(t0, t);
        assert(t[t0.len() as int] == t1[t0.len() as int]);
        let n = if servers@.len() < MAX_SERVERS_PER_SWEEP { servers@.len() as int } else { MAX_SERVERS_PER_SWEEP as int };
        assert(i == n);
        let sv = swept(servers@);
        assert forall|q: int| 0 <= q < sv.len() implies #[trigger] sweep_step(t, bounds[q], bounds[q + 1], sv[q].id) by {
            assert(sv[q] == servers@[q]);
        }
        assert(sweep_steps(t, bounds, sv));
    }
    stats
}

} // verus!
