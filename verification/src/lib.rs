//! Management backend for Metamod:Source and CounterStrikeSharp on
//! Counter-Strike 2 servers.

pub mod order;
pub mod text;
pub mod rcon;
pub mod router;
pub mod json;
pub mod maintenance;
pub mod host_api;
pub mod handlers;
pub mod http;
pub mod model;
pub mod source2;

use vstd::prelude::*;

use crate::host_api::HostApi;
use crate::http::HttpResponse;
use crate::router::{captured_id, route_for, ApiRequest};

verus! {

/// The plugin id as the panel normalizes it: base32 of "cs2addon", which
/// re-encodes to itself.
pub const PLUGIN_ID: &'static str = "mnzteylemrxw4";

/// The version the plugin reports to the panel.
pub const PLUGIN_VERSION: &'static str = "0.6.4";

/// The GameAP game code this plugin is for.
pub const GAME_CODE: &'static str = "cs2";

/// The grants this plugin needs, as GameAP 4.5 names them: node commands,
/// node files (which covers reading them), and server control.
pub fn required_permissions() -> (v: Vec<&'static str>)
    ensures
        v@.len() == 3,
        v@[0]@ == "node_commands"@,
        v@[1]@ == "files"@,
        v@[2]@ == "manage_servers"@,
{
    let mut v: Vec<&'static str> = Vec::new();
    v.push("node_commands");
    v.push("files");
    v.push("manage_servers");
    v
}

/// The plugin over a host.
pub struct Cs2Addons<H> {
    pub host: H,
}

impl<H: HostApi> Cs2Addons<H> {
    pub fn new(host: H) -> (p: Self)
        ensures
            p.host == host,
    {
        Cs2Addons { host }
    }

    /// Total dispatch: every failure becomes a JSON error response.
    pub fn handle_http_request(&mut self, req: &ApiRequest) -> (resp: HttpResponse)
        ensures
            route_for(req.method@, req.path@) is None ==> resp.status == 404,
            route_for(req.method@, req.path@) matches Some((_, ps)) && captured_id(ps) is None ==> resp.status == 400,
    {
        router::dispatch(&mut self.host, req)
    }
}

} // verus!
