//! The seam between the plugin's logic and the panel's host services: server,
//! game and node lookups, the node file system, node commands, plugin HTTP,
//! plugin storage and server control.
//!
//! The trait promises nothing about what a host answers; every function of
//! the library that calls it is verified for every answer, and its contract
//! speaks of the calls it makes through the host's transcript.

use vstd::prelude::*;

verus! {

#[derive(Debug, Clone, PartialEq, Eq)]
pub enum HostApiError {
    /// Failure of the host call itself.
    Call(String),
    /// The daemon reported a failed operation.
    Op(String),
}

pub type HostResult<T> = Result<T, HostApiError>;

#[derive(Debug, Clone)]
pub struct ServerInfo {
    pub id: u64,
    pub game_code: String,
    pub node_id: u64,
    pub dir: String,
}

#[derive(Debug, Clone)]
pub struct GameInfo {
    pub code: String,
    pub name: String,
    pub engine: String,
    pub engine_version: String,
}

#[derive(Debug, Clone)]
pub struct NodeInfo {
    pub id: u64,
    pub os: String,
    pub work_path: String,
}

#[derive(Debug, Clone)]
pub struct DirEntry {
    pub name: String,
    pub is_dir: bool,
}

#[derive(Debug, Clone, Copy)]
pub struct FileStat {
    pub is_dir: bool,
    pub size: u64,
    /// Unix permission bits (0 when the node does not report them).
    pub permissions: u32,
}

/// Outcome of a command run on the node.
#[derive(Debug, Clone)]
pub struct ExecResult {
    pub exit_code: i32,
    pub output: String,
}

/// A plugin-HTTP request.
#[derive(Debug, Clone)]
pub struct HttpFetchParams {
    pub method: String,
    pub url: String,
    pub headers: Vec<(String, String)>,
    pub timeout_seconds: i32,
}

#[derive(Debug, Clone)]
pub struct HttpFetchResponse {
    pub status: i32,
    pub body: Vec<u8>,
}

/// One call the library made on the host, with its arguments as plain
/// values and what came back.
pub enum HostCall {
    GetServer(u64, HostResult<Option<ServerInfo>>),
    GetGame(Seq<char>, HostResult<Option<GameInfo>>),
    GetNode(u64, HostResult<Option<NodeInfo>>),
    FindServers(Seq<char>, HostResult<Vec<ServerInfo>>),
    ReadDir(u64, Seq<char>, HostResult<Option<Vec<DirEntry>>>),
    Stat(u64, Seq<char>, HostResult<Option<FileStat>>),
    Download(u64, Seq<char>, HostResult<Vec<u8>>),
    Upload(u64, Seq<char>, Seq<u8>, u32, HostResult<()>),
    Remove(u64, Seq<char>, bool, HostResult<()>),
    Chmod(u64, Seq<char>, u32, HostResult<()>),
    MkDir(u64, Seq<char>, HostResult<()>),
    Move(u64, Seq<char>, Seq<char>, HostResult<()>),
    Exec(u64, Seq<char>, Option<Seq<char>>, HostResult<ExecResult>),
    Fetch(Seq<char>, Seq<char>, HostResult<HttpFetchResponse>),
    StorageGet(Seq<char>, HostResult<Option<Vec<u8>>>),
    StorageSet(Seq<char>, Seq<u8>, HostResult<()>),
    Restart(u64, HostResult<()>),
}

/// Whether a call changes something: the node's files, a command run on it,
/// plugin storage or the server's process.
pub open spec fn is_effect(c: HostCall) -> bool {
    match c {
        HostCall::Upload(..) | HostCall::Remove(..) | HostCall::Chmod(..) | HostCall::MkDir(..)
        | HostCall::Move(..) | HostCall::Exec(..) | HostCall::StorageSet(..) | HostCall::Restart(..) => true,
        _ => false,
    }
}

/// `after` is `before` with calls appended.
pub open spec fn grew(before: Seq<HostCall>, after: Seq<HostCall>) -> bool {
    &&& before.len() <= after.len()
    &&& forall|i: int| 0 <= i < before.len() ==> #[trigger] after[i] == before[i]
}

/// The calls appended to `before` are reads only: nothing changed.
pub open spec fn reads_only(before: Seq<HostCall>, after: Seq<HostCall>) -> bool {
    &&& grew(before, after)
    &&& forall|i: int| before.len() <= i < after.len() ==> !is_effect(#[trigger] after[i])
}

/// Appending twice is appending.
pub proof fn lemma_grew_trans(a: Seq<HostCall>, b: Seq<HostCall>, c: Seq<HostCall>)
    requires
        grew(a, b),
        grew(b, c),
    ensures
        grew(a, c),
{
    assert forall|i: int| 0 <= i < a.len() implies #[trigger] c[i] == a[i] by {
        assert(c[i] == b[i]);
    }
}

/// Reads followed by reads are reads.
pub proof fn lemma_reads_only_trans(a: Seq<HostCall>, b: Seq<HostCall>, c: Seq<HostCall>)
    requires
        reads_only(a, b),
        reads_only(b, c),
    ensures
        reads_only(a, c),
{
    assert forall|i: int| a.len() <= i < c.len() implies !is_effect(#[trigger] c[i]) by {
        if i < b.len() {
            assert(c[i] == b[i]);
        }
    }
}

/// How many uploads in a transcript succeeded.
pub open spec fn ok_uploads(t: Seq<HostCall>) -> nat
    decreases t.len(),
{
    if t.len() == 0 {
        0
    } else {
        ok_uploads(t.drop_last()) + if t.last() matches HostCall::Upload(_, _, _, _, Ok(_)) { 1nat } else { 0nat }
    }
}

/// Counting succeeded uploads splits at any earlier transcript.
pub proof fn lemma_ok_uploads_since(a: Seq<HostCall>, b: Seq<HostCall>)
    requires
        grew(a, b),
    ensures
        ok_uploads(b) == ok_uploads(a) + ok_uploads(calls_since(a, b)),
    decreases b.len(),
{
    if b.len() == a.len() {
        assert(b =~= a);
        assert(calls_since(a, b) =~= Seq::<HostCall>::empty());
    } else {
        let c = b.drop_last();
        assert(grew(a, c));
        lemma_ok_uploads_since(a, c);
        assert(calls_since(a, b).drop_last() =~= calls_since(a, c));
        assert(calls_since(a, b).last() == b.last());
    }
}

/// Reads upload nothing.
pub proof fn lemma_reads_upload_nothing(a: Seq<HostCall>, b: Seq<HostCall>)
    requires
        reads_only(a, b),
    ensures
        ok_uploads(b) == ok_uploads(a),
    decreases b.len(),
{
    if b.len() > a.len() {
        let c = b.drop_last();
        assert(reads_only(a, c));
        lemma_reads_upload_nothing(a, c);
        assert(!is_effect(b[b.len() - 1]));
    } else {
        assert(b =~= a);
    }
}

/// None of the calls appended to `before` is an HTTP request.
pub open spec fn no_fetch(before: Seq<HostCall>, after: Seq<HostCall>) -> bool {
    &&& grew(before, after)
    &&& forall|i: int| before.len() <= i < after.len() ==> !((#[trigger] after[i]) is Fetch)
}

/// Calls without HTTP requests followed by more of them have none either.
pub proof fn lemma_no_fetch_trans(a: Seq<HostCall>, b: Seq<HostCall>, c: Seq<HostCall>)
    requires
        no_fetch(a, b),
        no_fetch(b, c),
    ensures
        no_fetch(a, c),
{
    lemma_grew_trans(a, b, c);
    assert forall|i: int| a.len() <= i < c.len() implies !((#[trigger] c[i]) is Fetch) by {
        if i < b.len() {
            assert(c[i] == b[i]);
        }
    }
}

/// The calls made between two transcripts.
pub open spec fn calls_since(before: Seq<HostCall>, after: Seq<HostCall>) -> Seq<HostCall> {
    after.skip(before.len() as int)
}

/// The panel's services as the plugin sees them.
///
/// `trace` is the transcript of the calls made on a host so far: each
/// service call appends one [`HostCall`] holding its arguments and its
/// answer, and nothing else changes it (log lines are not recorded). The
/// transcript is what the library's contracts speak of; the trait promises
/// nothing about what a host answers.
///
/// Every implementation must meet these `ensures`: the guarantees the
/// handlers state hold of a host that does. A verified host keeps a ghost
/// transcript and overrides `trace` with it. A host written in plain Rust
/// cannot be checked against them; with the provided definition (the empty
/// transcript) its methods do not meet them, so for such a host the
/// handlers' contracts describe the calls it receives (the code, generic
/// over every host, makes them the same way) but are not proved of it.
pub trait HostApi {
    closed spec fn trace(&self) -> Seq<HostCall> {
        Seq::empty()
    }

    fn get_server(&mut self, id: u64) -> (r: HostResult<Option<ServerInfo>>)
        ensures
            final(self).trace() == old(self).trace().push(HostCall::GetServer(id, r));

    fn get_game(&mut self, code: &str) -> (r: HostResult<Option<GameInfo>>)
        ensures
            final(self).trace() == old(self).trace().push(HostCall::GetGame(code@, r));

    fn get_node(&mut self, id: u64) -> (r: HostResult<Option<NodeInfo>>)
        ensures
            final(self).trace() == old(self).trace().push(HostCall::GetNode(id, r));

    /// Servers of one game code.
    fn find_servers_by_game(&mut self, game_code: &str) -> (r: HostResult<Vec<ServerInfo>>)
        ensures
            final(self).trace() == old(self).trace().push(HostCall::FindServers(game_code@, r));

    /// `Ok(None)`: the directory is missing or unreadable.
    fn read_dir(&mut self, node_id: u64, path: &str) -> (r: HostResult<Option<Vec<DirEntry>>>)
        ensures
            final(self).trace() == old(self).trace().push(HostCall::ReadDir(node_id, path@, r));

    /// Existence probe; `Ok(None)`: not found.
    fn stat(&mut self, node_id: u64, path: &str) -> (r: HostResult<Option<FileStat>>)
        ensures
            final(self).trace() == old(self).trace().push(HostCall::Stat(node_id, path@, r));

    fn download(&mut self, node_id: u64, path: &str) -> (r: HostResult<Vec<u8>>)
        ensures
            final(self).trace() == old(self).trace().push(HostCall::Download(node_id, path@, r));

    fn upload(&mut self, node_id: u64, path: &str, content: &[u8], permissions: u32) -> (r: HostResult<()>)
        ensures
            final(self).trace() == old(self).trace().push(HostCall::Upload(node_id, path@, content@, permissions, r));

    fn remove(&mut self, node_id: u64, path: &str, recursive: bool) -> (r: HostResult<()>)
        ensures
            final(self).trace() == old(self).trace().push(HostCall::Remove(node_id, path@, recursive, r));

    fn chmod(&mut self, node_id: u64, path: &str, permissions: u32) -> (r: HostResult<()>)
        ensures
            final(self).trace() == old(self).trace().push(HostCall::Chmod(node_id, path@, permissions, r));

    fn mk_dir(&mut self, node_id: u64, path: &str) -> (r: HostResult<()>)
        ensures
            final(self).trace() == old(self).trace().push(HostCall::MkDir(node_id, path@, r));

    /// Rename/move a file or directory with the daemon's native operation
    /// (node commands have no shell, so never `mv` through [`HostApi::exec`]).
    fn move_path(&mut self, node_id: u64, source: &str, destination: &str) -> (r: HostResult<()>)
        ensures
            final(self).trace() == old(self).trace().push(HostCall::Move(node_id, source@, destination@, r));

    /// Runs a command on the node, optionally in a working directory.
    fn exec(&mut self, node_id: u64, command: &str, work_dir: Option<&str>) -> (r: HostResult<ExecResult>)
        ensures
            final(self).trace() == old(self).trace().push(HostCall::Exec(node_id, command@,
                match work_dir { Some(w) => Some(w@), None => None }, r));

    fn http_fetch(&mut self, params: &HttpFetchParams) -> (r: HostResult<HttpFetchResponse>)
        ensures
            final(self).trace() == old(self).trace().push(HostCall::Fetch(params.method@, params.url@, r));

    fn storage_get(&mut self, key: &str) -> (r: HostResult<Option<Vec<u8>>>)
        ensures
            final(self).trace() == old(self).trace().push(HostCall::StorageGet(key@, r));

    fn storage_set(&mut self, key: &str, value: &[u8]) -> (r: HostResult<()>)
        ensures
            final(self).trace() == old(self).trace().push(HostCall::StorageSet(key@, value@, r));

    fn restart_server(&mut self, server_id: u64) -> (r: HostResult<()>)
        ensures
            final(self).trace() == old(self).trace().push(HostCall::Restart(server_id, r));

    fn log_info(&mut self, message: &str)
        ensures
            final(self).trace() == old(self).trace();

    fn log_error(&mut self, message: &str)
        ensures
            final(self).trace() == old(self).trace();
}

} // verus!
