//! POST /servers/{id}/restart: restart the game server through the panel's
//! server control, so pending plugin toggles take effect.

use vstd::prelude::*;

use crate::handlers::audit;
use crate::handlers::ctx::{lemma_route_failed, param_id, resolved_at, route_failed, ServerCtx};
use crate::handlers::host_failure;
use crate::host_api::{HostApi, HostCall};
use crate::http::{json_response, ApiError, ApiResult};
use crate::json::{json_text, Json};
use crate::model::RestartResponse;

verus! {

/// The answer says the server was restarted.
pub open spec fn answers_restart(body: Seq<u8>) -> bool {
    exists|t: RestartResponse, j: Json| #[trigger] t.json_is(j) && body == json_text(j) && t.restarted
}

/// Between two transcripts, the panel was asked to restart server `id` and
/// did so.
pub open spec fn restarted(t0: Seq<HostCall>, t: Seq<HostCall>, id: u64) -> bool {
    exists|k: int| #![trigger t[k]] t0.len() <= k < t.len() && (t[k] matches HostCall::Restart(sid, a) && sid == id && a is Ok)
}

pub fn handle<H: HostApi>(host: &mut H, params: &Vec<(String, String)>, actor: Option<&str>) -> (r: ApiResult)
    ensures
        param_id(params@) is None ==> (r matches Err(e) && e.status == 400),
        r matches Ok(resp) ==> resp.status == 200 && answers_restart(resp.body@),
        r is Ok ==> param_id(params@) is Some && restarted(old(host).trace(), final(host).trace(), param_id(params@).unwrap()),
        r is Err ==> forall|i: int| old(host).trace().len() <= i < final(host).trace().len()
            ==> !((#[trigger] final(host).trace()[i]) matches HostCall::Restart(_, a) && a is Ok),
        r matches Err(e) ==> route_failed(old(host).trace(), final(host).trace(), params@, e, |x: ApiError| host_failure(x)),
{
    let ghost t0 = host.trace();
    let ctx = ServerCtx::resolve(host, params)?;
    let ghost tm = host.trace();
    assert(resolved_at(t0, tm, ctx.server_id, ctx));
    match host.restart_server(ctx.server_id) {
        Ok(()) => {},
        Err(h) => {
            let e = ApiError::from_host(h);
            proof {
                lemma_route_failed(t0, tm, host.trace(), params@, ctx, e, |x: ApiError| host_failure(x));
            }
            return Err(e);
        },
    }
    let ghost t1 = host.trace();
    let ghost k = t1.len() - 1;
    audit::record(host, ctx.server_id, actor, "server-restart", "server");
    proof {
        assert(host.trace()[k] == t1[k]);
    }
    let response = RestartResponse { restarted: true };
    let j = response.to_json();
    let resp = json_response(200, &j);
    assert(response.json_is(j) && resp.body@ == json_text(j));
    Ok(resp)
}

} // verus!
