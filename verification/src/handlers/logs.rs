//! GET /servers/{id}/logs: tail of the newest CounterStrikeSharp log file.
//! The frontend filters per plugin; the backend serves recent lines.
//!
//! The tail reader and the load-failure scanner are shared with the doctor
//! route, which reports plugins that threw while loading.

use vstd::prelude::*;

use crate::handlers::ctx::{lemma_route_failed, param_id, resolved_at, route_failed, ServerCtx};
use crate::handlers::host_failure;
use crate::host_api::{lemma_reads_only_trans, reads_only, HostApi, HostApiError, HostCall};
use crate::http::{json_response, ApiError, ApiResult};
use crate::json::{json_text, Json};
use crate::model::LogsResponse;
use crate::order::{lex_less, lex_lt};
use crate::source2;
use crate::source2::paths::join;
use crate::text::{
    chars_of, contains, decode_text, eq_ic, eq_ignore_case, find_from, first_occurrence_from,
    has_suffix, is_whitespace, is_ws, lemma_split_nonempty, lower_seq, occurs_at, split_on,
    split_vec, string_of, sub_chars, to_lower, trim, trim_vec, ends_with, contains_seq,
};

verus! {

/// Only the tail of a big log is read.
pub const MAX_LINES: usize = 400;
pub const MAX_TAIL_BYTES: usize = 262144;

/// A piece of text without one trailing `\r`.
pub open spec fn strip_cr(s: Seq<char>) -> Seq<char> {
    if s.len() > 0 && s.last() == '\r' {
        s.drop_last()
    } else {
        s
    }
}

/// The lines of a text as `str::lines` gives them: split at `\n`, a `\r`
/// before a `\n` dropped, no final empty line.
pub open spec fn lines_of(text: Seq<char>) -> Seq<Seq<char>> {
    let p = split_on(text, '\n');
    let n: int = if p.last().len() == 0 { p.len() - 1 } else { p.len() as int };
    Seq::new(n as nat, |i: int| if i < p.len() - 1 { strip_cr(p[i]) } else { p[i] })
}

pub fn lines(text: &[char]) -> (r: Vec<String>)
    ensures
        r@.len() == lines_of(text@).len(),
        forall|i: int| 0 <= i < r@.len() ==> #[trigger] r@[i]@ == lines_of(text@)[i],
{
    let pieces = split_vec(text, '\n');
    proof {
        lemma_split_nonempty(text@, '\n');
    }
    let last = pieces.len() - 1;
    let n: usize = if pieces[last].len() == 0 { last } else { pieces.len() };
    let mut out: Vec<String> = Vec::new();
    let mut i: usize = 0;
    while i < n
        invariant
            pieces@.len() == split_on(text@, '\n').len(),
            forall|k: int| 0 <= k < pieces@.len() ==> #[trigger] pieces@[k]@ == split_on(text@, '\n')[k],
            last == pieces@.len() - 1,
            n <= pieces@.len(),
            n == lines_of(text@).len(),
            i <= n,
            out@.len() == i,
            forall|k: int| 0 <= k < i ==> #[trigger] out@[k]@ == lines_of(text@)[k],
        decreases n - i,
    {
        let piece = &pieces[i];
        let s = if i < last && piece.len() > 0 && piece[piece.len() - 1] == '\r' {
            string_of(sub_chars(piece.as_slice(), 0, piece.len() - 1).as_slice())
        } else {
            string_of(piece.as_slice())
        };
        proof {
            assert(pieces@[i as int]@ == split_on(text@, '\n')[i as int]);
            if i < last && piece@.len() > 0 && piece@.last() == '\r' {
                assert(piece@.subrange(0, piece@.len() - 1) =~= piece@.drop_last());
            }
        }
        out.push(s);
        i = i + 1;
    }
    out
}

/// The newest log file: the greatest `.txt` file name (log_YYYYMMDD.txt, so
/// name order is date order).
pub open spec fn is_log_file(name: Seq<char>, is_dir: bool) -> bool {
    !is_dir && has_suffix(lower_seq(name), ".txt"@)
}

/// Greatest log file name among directory entries.
pub fn newest_log_name(entries: &Vec<crate::host_api::DirEntry>) -> (r: Option<String>)
    ensures
        r is None ==> forall|k: int| 0 <= k < entries@.len() ==> !is_log_file(#[trigger] entries@[k].name@, entries@[k].is_dir),
        r matches Some(n) ==> (exists|k: int| 0 <= k < entries@.len() && is_log_file(#[trigger] entries@[k].name@, entries@[k].is_dir) && entries@[k].name@ == n@)
            && forall|k: int| 0 <= k < entries@.len() && is_log_file(#[trigger] entries@[k].name@, entries@[k].is_dir) ==> !lex_lt(n@, entries@[k].name@),
{
    let txt = chars_of(".txt");
    let mut best: Option<String> = None;
    let mut i: usize = 0;
    while i < entries.len()
        invariant
            i <= entries@.len(),
            txt@ == ".txt"@,
            best is None ==> forall|k: int| 0 <= k < i ==> !is_log_file(#[trigger] entries@[k].name@, entries@[k].is_dir),
            best matches Some(n) ==> (exists|k: int| 0 <= k < i && is_log_file(#[trigger] entries@[k].name@, entries@[k].is_dir) && entries@[k].name@ == n@)
                && forall|k: int| 0 <= k < i && is_log_file(#[trigger] entries@[k].name@, entries@[k].is_dir) ==> !lex_lt(n@, entries@[k].name@),
        decreases entries@.len() - i,
    {
        let name = chars_of(entries[i].name.as_str());
        let lower = to_lower(name.as_slice());
        if !entries[i].is_dir && ends_with(lower.as_slice(), txt.as_slice()) {
            let replace = match &best {
                None => true,
                Some(b) => lex_less(chars_of(b.as_str()).as_slice(), name.as_slice()),
            };
            if replace {
                proof {
                    if best is Some {
                        let b = best.unwrap();
                        assert forall|k: int| 0 <= k < i && is_log_file(#[trigger] entries@[k].name@, entries@[k].is_dir)
                            implies !lex_lt(name@, entries@[k].name@) by {
                            assert(!lex_lt(b@, entries@[k].name@));
                            crate::order::lemma_lex_total(b@, entries@[k].name@);
                            if lex_lt(name@, entries@[k].name@) {
                                if b@ == entries@[k].name@ {
                                    crate::order::lemma_lex_asymmetric(b@, name@);
                                } else {
                                    assert(lex_lt(entries@[k].name@, b@));
                                    crate::order::lemma_lex_transitive(b@, name@, entries@[k].name@);
                                    crate::order::lemma_lex_transitive(entries@[k].name@, b@, entries@[k].name@);
                                    crate::order::lemma_lex_irreflexive(entries@[k].name@);
                                }
                            }
                        }
                    }
                    crate::order::lemma_lex_irreflexive(name@);
                }
                best = Some(entries[i].name.clone());
            } else {
                proof {
                    let b = best.unwrap();
                    crate::order::lemma_lex_total(b@, name@);
                }
            }
        }
        i = i + 1;
    }
    best
}

/// The tail of a log: the last [`MAX_LINES`] lines of the text read from
/// the last [`MAX_TAIL_BYTES`] bytes, without the first line when the read
/// started mid-file.
pub open spec fn tail_lines(bytes: Seq<u8>) -> Seq<Seq<char>> {
    let start: int = if bytes.len() > MAX_TAIL_BYTES { bytes.len() - MAX_TAIL_BYTES } else { 0 };
    let all = lines_of(crate::text::lossy_text(bytes.skip(start)));
    let kept = if start > 0 && all.len() > 0 { all.drop_first() } else { all };
    if kept.len() > MAX_LINES { kept.skip(kept.len() - MAX_LINES) } else { kept }
}

pub fn tail_of(bytes: &[u8]) -> (r: Vec<String>)
    ensures
        r@.len() == tail_lines(bytes@).len(),
        forall|i: int| 0 <= i < r@.len() ==> #[trigger] r@[i]@ == tail_lines(bytes@)[i],
{
    let start: usize = if bytes.len() > MAX_TAIL_BYTES { bytes.len() - MAX_TAIL_BYTES } else { 0 };
    let tail = vstd::slice::slice_subrange(bytes, start, bytes.len());
    assert(tail@ == bytes@.skip(start as int));
    let text = decode_text(tail);
    let all = lines(chars_of(text.as_str()).as_slice());
    let ghost all_spec = lines_of(crate::text::lossy_text(bytes@.skip(start as int)));
    let mut kept = all;
    if start > 0 && kept.len() > 0 {
        kept.remove(0);
        proof {
            assert forall|i: int| 0 <= i < kept@.len() implies #[trigger] kept@[i]@ == all_spec.drop_first()[i] by {}
        }
    }
    let ghost kept_spec = if start > 0 && all_spec.len() > 0 { all_spec.drop_first() } else { all_spec };
    if kept.len() > MAX_LINES {
        let skip = kept.len() - MAX_LINES;
        let ghost before = kept@;
        let tail_lines = kept.split_off(skip);
        proof {
            assert forall|i: int| 0 <= i < tail_lines@.len() implies #[trigger] tail_lines@[i]@ == kept_spec.skip(kept_spec.len() - MAX_LINES)[i] by {
                assert(tail_lines@[i] == before[skip + i]);
            }
        }
        tail_lines
    } else {
        kept
    }
}

/// What the newest log file holds: its server-relative path and its tail.
pub struct LogTail {
    pub file_rel: String,
    pub lines: Vec<String>,
}

/// `name` is the greatest log file name of a listing.
pub open spec fn newest_in(es: Seq<crate::host_api::DirEntry>, name: Seq<char>) -> bool {
    &&& exists|k: int| 0 <= k < es.len() && is_log_file(#[trigger] es[k].name@, es[k].is_dir) && es[k].name@ == name
    &&& forall|k: int| 0 <= k < es.len() && is_log_file(#[trigger] es[k].name@, es[k].is_dir) ==> !lex_lt(name, es[k].name@)
}

/// How the newest log was read, between two transcripts: the logs folder
/// was listed; with no log file there the answer is `None`; otherwise the
/// greatest log file name was downloaded and its tail is the answer.
pub open spec fn log_tail_read(t0: Seq<HostCall>, t: Seq<HostCall>, ctx: ServerCtx, r: Result<Option<LogTail>, HostApiError>) -> bool {
    let logs = crate::source2::paths::join_spec(ctx.game_abs@, source2::CSS_LOGS_DIR@);
    &&& t.len() > t0.len()
    &&& t[t0.len() as int] matches HostCall::ReadDir(n, p, a)
    &&& n == ctx.node_id && p == logs
    &&& match a {
        Err(h) => r == Err::<Option<LogTail>, HostApiError>(h),
        Ok(None) => r == Ok::<Option<LogTail>, HostApiError>(None),
        Ok(Some(es)) => if forall|k: int| 0 <= k < es@.len() ==> !is_log_file(#[trigger] es@[k].name@, es@[k].is_dir) {
            r == Ok::<Option<LogTail>, HostApiError>(None)
        } else {
            r matches Ok(Some(tl)) ==> exists|name: Seq<char>| #![trigger newest_in(es@, name)] newest_in(es@, name)
                && tl.file_rel@ == crate::source2::paths::join_spec(ctx.game_dir@, crate::source2::paths::join_spec(source2::CSS_LOGS_DIR@, name))
                && (t[t0.len() as int + 1] matches HostCall::Download(n2, p2, Ok(bytes)) && n2 == ctx.node_id
                    && p2 == crate::source2::paths::join_spec(logs, name)
                    && tl.lines@.len() == tail_lines(bytes@).len()
                    && forall|i: int| 0 <= i < tl.lines@.len() ==> #[trigger] tl.lines@[i]@ == tail_lines(bytes@)[i])
        },
    }
}

/// Newest `logs/*.txt`, tail-read and split into lines. `None` when the
/// server has no log directory or no log file yet.
pub fn newest_log_tail<H: HostApi>(host: &mut H, ctx: &ServerCtx) -> (r: Result<Option<LogTail>, HostApiError>)
    ensures
        r matches Ok(Some(t)) ==> t.lines@.len() <= MAX_LINES,
        r matches Ok(Some(t)) ==> exists|name: Seq<char>, bytes: Seq<u8>| #![trigger is_log_file(name, false), tail_lines(bytes)] {
            &&& is_log_file(name, false)
            &&& t.file_rel@ == crate::source2::paths::join_spec(ctx.game_dir@, crate::source2::paths::join_spec(source2::CSS_LOGS_DIR@, name))
            &&& t.lines@.len() == tail_lines(bytes).len()
            &&& forall|i: int| 0 <= i < t.lines@.len() ==> #[trigger] t.lines@[i]@ == tail_lines(bytes)[i]
        },
        log_tail_read(old(host).trace(), final(host).trace(), *ctx, r),
        reads_only(old(host).trace(), final(host).trace()),
{
    let ghost t0 = host.trace();
    let logs_abs = join(ctx.game_abs.as_str(), source2::CSS_LOGS_DIR);
    let entries = match host.read_dir(ctx.node_id, logs_abs.as_str())? {
        Some(e) => e,
        None => return Ok(None),
    };
    let file_name = match newest_log_name(&entries) {
        Some(n) => n,
        None => return Ok(None),
    };
    proof {
        assert(newest_in(entries@, file_name@));
    }
    let file_abs = join(logs_abs.as_str(), file_name.as_str());
    let bytes = host.download(ctx.node_id, file_abs.as_str())?;
    let lines = tail_of(bytes.as_slice());
    let t = LogTail {
        file_rel: ctx.rel(join(source2::CSS_LOGS_DIR, file_name.as_str()).as_str()),
        lines,
    };
    proof {
        let k = choose|k: int| 0 <= k < entries@.len() && is_log_file(#[trigger] entries@[k].name@, entries@[k].is_dir) && entries@[k].name@ == file_name@;
        assert(is_log_file(file_name@, false));
    }
    Ok(Some(t))
}

/// The logs answer: at most [`MAX_LINES`] lines.
pub open spec fn answers_logs(body: Seq<u8>) -> bool {
    exists|t: LogsResponse, j: Json| #[trigger] t.json_is(j) && body == json_text(j) && t.lines@.len() <= MAX_LINES
}

pub fn handle<H: HostApi>(host: &mut H, params: &Vec<(String, String)>) -> (r: ApiResult)
    ensures
        param_id(params@) is None ==> (r matches Err(e) && e.status == 400),
        r matches Ok(resp) ==> resp.status == 200 && answers_logs(resp.body@),
        r matches Err(e) ==> route_failed(old(host).trace(), final(host).trace(), params@, e, |x: ApiError| host_failure(x)),
        reads_only(old(host).trace(), final(host).trace()),
{
    let ghost t0 = host.trace();
    let ctx = ServerCtx::resolve(host, params)?;
    let ghost tm = host.trace();
    assert(resolved_at(t0, tm, ctx.server_id, ctx));
    let tail = newest_log_tail(host, &ctx);
    proof {
        lemma_reads_only_trans(t0, tm, host.trace());
    }
    let (file, lines) = match tail {
        Ok(Some(tail)) => (Some(tail.file_rel), tail.lines),
        Ok(None) => (None, Vec::new()),
        Err(h) => {
            let e = ApiError::from_host(h);
            proof {
                lemma_route_failed(t0, tm, host.trace(), params@, ctx, e, |x: ApiError| host_failure(x));
            }
            return Err(e);
        },
    };
    let response = LogsResponse { file, lines };
    let j = response.to_json();
    let resp = json_response(200, &j);
    assert(response.json_is(j) && resp.body@ == json_text(j));
    Ok(resp)
}

/// A plugin CounterStrikeSharp failed to load, as recorded in the log.
pub struct LoadFailure {
    /// Plugin folder name, taken from the dll it failed to load.
    pub plugin: String,
    /// Assembly the loader could not find, when the log names one.
    pub missing: Option<String>,
}

pub open spec fn failure_marker() -> Seq<char> {
    "Failed to load plugin"@
}

pub open spec fn missing_marker() -> Seq<char> {
    "Could not load file or assembly '"@
}

/// The assembly name sits a few lines below the marker.
pub const LOOKAHEAD_LINES: usize = 12;

/// `k` starts the last run of non-white-space characters of `t`.
pub open spec fn ws_boundary(t: Seq<char>, k: int) -> bool {
    &&& 0 <= k <= t.len()
    &&& (k == 0 || is_ws(t[k - 1]))
    &&& forall|j: int| k <= j < t.len() ==> !is_ws(#[trigger] t[j])
}

/// `k` starts what follows the last `/` or `\` of `p`.
pub open spec fn sep_boundary(p: Seq<char>, k: int) -> bool {
    &&& 0 <= k <= p.len()
    &&& (k == 0 || p[k - 1] == '/' || p[k - 1] == '\\')
    &&& forall|j: int| k <= j < p.len() ==> #[trigger] p[j] != '/' && p[j] != '\\'
}

/// `e` ends the text before the first `,` or `'` of `rest`.
pub open spec fn name_end(rest: Seq<char>, e: int) -> bool {
    &&& 0 <= e <= rest.len()
    &&& (e == rest.len() || rest[e] == ',' || rest[e] == '\'')
    &&& forall|j: int| 0 <= j < e ==> #[trigger] rest[j] != ',' && rest[j] != '\''
}

/// The last white-space separated token of a line.
pub open spec fn last_token(line: Seq<char>) -> Seq<char> {
    let t = crate::text::trim_end(line);
    let k = choose|k: int| ws_boundary(t, k);
    t.skip(k)
}

/// The part of a path after its last `/` or `\`.
pub open spec fn after_last_sep(p: Seq<char>) -> Seq<char> {
    let k = choose|k: int| sep_boundary(p, k);
    p.skip(k)
}

/// "… Failed to load plugin from /…/plugins/Name/Name.dll" names `Name`:
/// the stem of the dll the line ends in.
pub open spec fn plugin_name_spec(line: Seq<char>) -> Option<Seq<char>> {
    let path = last_token(line);
    if path.len() == 0 || !has_suffix(lower_seq(path), ".dll"@) {
        None
    } else {
        let file = after_last_sep(path);
        let stem = file.take(file.len() - 4);
        if stem.len() > 0 { Some(stem) } else { None }
    }
}

/// Start of the suffix of `s` after its last character satisfying `sep`.
fn suffix_start_ws(s: &[char]) -> (k: usize)
    ensures
        k <= s@.len(),
        k == 0 || is_ws(s@[k - 1]),
        forall|j: int| k <= j < s@.len() ==> !is_ws(s@[j]),
{
    let mut k: usize = s.len();
    while k > 0 && !is_whitespace(s[k - 1])
        invariant
            k <= s@.len(),
            forall|j: int| k <= j < s@.len() ==> !is_ws(s@[j]),
        decreases k,
    {
        k = k - 1;
    }
    k
}

fn suffix_start_sep(s: &[char]) -> (k: usize)
    ensures
        k <= s@.len(),
        k == 0 || s@[k - 1] == '/' || s@[k - 1] == '\\',
        forall|j: int| k <= j < s@.len() ==> s@[j] != '/' && s@[j] != '\\',
{
    let mut k: usize = s.len();
    while k > 0 && s[k - 1] != '/' && s[k - 1] != '\\'
        invariant
            k <= s@.len(),
            forall|j: int| k <= j < s@.len() ==> s@[j] != '/' && s@[j] != '\\',
        decreases k,
    {
        k = k - 1;
    }
    k
}

proof fn lemma_suffix_start_unique_ws(t: Seq<char>, a: int, b: int)
    requires
        0 <= a <= t.len(),
        0 <= b <= t.len(),
        a == 0 || is_ws(t[a - 1]),
        forall|j: int| a <= j < t.len() ==> !is_ws(t[j]),
        b == 0 || is_ws(t[b - 1]),
        forall|j: int| b <= j < t.len() ==> !is_ws(t[j]),
    ensures
        a == b,
{
    if a < b {
        assert(!is_ws(t[b - 1]));
    } else if b < a {
        assert(!is_ws(t[a - 1]));
    }
}

proof fn lemma_suffix_start_unique_sep(t: Seq<char>, a: int, b: int)
    requires
        0 <= a <= t.len(),
        0 <= b <= t.len(),
        a == 0 || t[a - 1] == '/' || t[a - 1] == '\\',
        forall|j: int| a <= j < t.len() ==> t[j] != '/' && t[j] != '\\',
        b == 0 || t[b - 1] == '/' || t[b - 1] == '\\',
        forall|j: int| b <= j < t.len() ==> t[j] != '/' && t[j] != '\\',
    ensures
        a == b,
{
    if a < b {
        assert(t[b - 1] != '/' && t[b - 1] != '\\');
    } else if b < a {
        assert(t[a - 1] != '/' && t[a - 1] != '\\');
    }
}

fn trim_end_vec(s: &[char]) -> (r: Vec<char>)
    ensures
        r@ == crate::text::trim_end(s@),
{
    let mut b: usize = s.len();
    assert(s@.take(b as int) == s@);
    while b > 0 && is_whitespace(s[b - 1])
        invariant
            b <= s@.len(),
            crate::text::trim_end(s@) == crate::text::trim_end(s@.take(b as int)),
        decreases b,
    {
        assert(s@.take(b as int).drop_last() == s@.take(b - 1));
        b = b - 1;
    }
    sub_chars(s, 0, b)
}

/// The plugin a load-failure line names.
pub fn plugin_name_from_line(line: &str) -> (r: Option<String>)
    ensures
        plugin_name_spec(line@) is None ==> r is None,
        plugin_name_spec(line@) is Some ==> (r matches Some(s) && s@ == plugin_name_spec(line@).unwrap()),
        r matches Some(s) ==> {
            let t = crate::text::trim_end(line@);
            &&& s@.len() > 0
            &&& forall|i: int| 0 <= i < s@.len() ==> !is_ws(#[trigger] s@[i]) && s@[i] != '/' && s@[i] != '\\'
            &&& t.len() >= s@.len() + 4
            &&& t.subrange(t.len() - 4 - s@.len(), t.len() - 4) == s@
            &&& lower_seq(t.skip(t.len() - 4)) == seq!['.', 'd', 'l', 'l']
            &&& (t.len() - 4 - s@.len() == 0 || is_ws(t[t.len() - 5 - s@.len()])
                || t[t.len() - 5 - s@.len()] == '/' || t[t.len() - 5 - s@.len()] == '\\')
        },
{
    proof {
        reveal_strlit(".dll");
    }
    let t = trim_end_vec(chars_of(line).as_slice());
    let k = suffix_start_ws(t.as_slice());
    proof {
        assert(ws_boundary(t@, k as int));
        let k2 = choose|k: int| ws_boundary(t@, k);
        lemma_suffix_start_unique_ws(t@, k as int, k2);
    }
    let path = sub_chars(t.as_slice(), k, t.len());
    assert(path@ == last_token(line@));
    let lower = to_lower(path.as_slice());
    let dll = chars_of(".dll");
    if path.len() == 0 || !ends_with(lower.as_slice(), dll.as_slice()) {
        return None;
    }
    let f = suffix_start_sep(path.as_slice());
    proof {
        assert(sep_boundary(path@, f as int));
        let k2 = choose|k: int| sep_boundary(path@, k);
        lemma_suffix_start_unique_sep(path@, f as int, k2);
        assert(lower_seq(path@).len() == path@.len());
        let n = path@.len();
        assert(n >= 4);
        assert forall|j: int| n - 4 <= j < n implies path@[j] != '/' && path@[j] != '\\' by {
            assert(lower_seq(path@).skip(n - 4) == ".dll"@);
            assert(lower_seq(path@)[j] == ".dll"@[j - (n - 4)]);
            assert(lower_seq(path@)[j] == crate::text::lower_char(path@[j]));
        }
        if f as int > n - 4 {
            assert(path@[f - 1] == '/' || path@[f - 1] == '\\');
        }
    }
    let file = sub_chars(path.as_slice(), f, path.len());
    if file.len() < 4 {
        return None;
    }
    let stem = sub_chars(file.as_slice(), 0, file.len() - 4);
    if stem.len() == 0 {
        return None;
    }
    proof {
        let tl = t@.len() as int;
        let sl = stem@.len() as int;
        assert(path@ == t@.skip(k as int));
        assert(file@ == path@.skip(f as int));
        assert(tl == k + f + sl + 4);
        assert forall|i: int| 0 <= i < sl implies !is_ws(#[trigger] stem@[i]) && stem@[i] != '/' && stem@[i] != '\\' by {
            assert(stem@[i] == t@[k + f + i]);
            assert(stem@[i] == path@[f + i]);
        }
        assert(t@.subrange(tl - 4 - sl, tl - 4) =~= stem@);
        assert(t@.skip(tl - 4) =~= path@.skip(path@.len() - 4));
        assert(lower_seq(path@.skip(path@.len() - 4)) =~= lower_seq(path@).skip(path@.len() - 4));
        assert(".dll"@ =~= seq!['.', 'd', 'l', 'l']);
        if tl - 4 - sl > 0 {
            if f > 0 {
                assert(t@[tl - 5 - sl] == path@[f - 1]);
            } else {
                assert(t@[tl - 5 - sl] == t@[k - 1]);
            }
        }
    }
    Some(string_of(stem.as_slice()))
}

/// "Could not load file or assembly 'Name, Version=…" names `Name`: what
/// follows the marker up to the first `,` or `'`, trimmed.
pub open spec fn assembly_name_spec(line: Seq<char>) -> Option<Seq<char>> {
    if !contains_seq(line, missing_marker()) {
        None
    } else {
        let i = choose|i: int| first_occurrence_from(line, missing_marker(), 0, i);
        let rest = line.skip(i + missing_marker().len());
        let e = choose|e: int| name_end(rest, e);
        let name = trim(rest.take(e));
        if name.len() > 0 { Some(name) } else { None }
    }
}

pub fn assembly_name_from_line(line: &str) -> (r: Option<String>)
    ensures
        assembly_name_spec(line@) is None ==> r is None,
        assembly_name_spec(line@) is Some ==> (r matches Some(s) && s@ == assembly_name_spec(line@).unwrap()),
{
    let v = chars_of(line);
    let marker = chars_of("Could not load file or assembly '");
    let i = match find_from(v.as_slice(), marker.as_slice(), 0) {
        Some(i) => i,
        None => {
            assert forall|k: int| !occurs_at(v@, marker@, k) by {
                if k < 0 {}
            }
            return None;
        },
    };
    proof {
        let k = choose|k: int| first_occurrence_from(v@, missing_marker(), 0, k);
        assert(first_occurrence_from(v@, missing_marker(), 0, i as int));
    }
    assert(occurs_at(v@, marker@, i as int));
    assert(i + marker@.len() <= v@.len());
    let vlen = v.len();
    let mlen = marker.len();
    assert(i + mlen <= vlen);
    let start = i + mlen;
    let rest = sub_chars(v.as_slice(), start, v.len());
    let mut e: usize = 0;
    while e < rest.len() && rest[e] != ',' && rest[e] != '\''
        invariant
            e <= rest@.len(),
            forall|j: int| 0 <= j < e ==> rest@[j] != ',' && rest@[j] != '\'',
        decreases rest@.len() - e,
    {
        e = e + 1;
    }
    proof {
        let k = choose|k: int| first_occurrence_from(v@, missing_marker(), 0, k);
        assert(k == i);
        assert(rest@ == v@.skip(i + missing_marker().len()));
        assert(name_end(rest@, e as int));
        let e2 = choose|e2: int| name_end(rest@, e2);
        if e2 < e {
            assert(rest@[e2] != ',' && rest@[e2] != '\'');
        } else if e < e2 {
            assert(rest@[e as int] != ',' && rest@[e as int] != '\'');
        }
    }
    let name = trim_vec(sub_chars(rest.as_slice(), 0, e).as_slice());
    if name.len() == 0 {
        return None;
    }
    Some(string_of(name.as_slice()))
}

/// A failure as plain values: (plugin, missing assembly).
pub open spec fn failure_view(f: LoadFailure) -> (Seq<char>, Option<Seq<char>>) {
    (f.plugin@, crate::handlers::updates::opt_str_view(f.missing))
}

pub open spec fn failures_view(fs: Seq<LoadFailure>) -> Seq<(Seq<char>, Option<Seq<char>>)> {
    fs.map_values(|f: LoadFailure| failure_view(f))
}

/// The failures without those of `plugin` (up to ASCII case).
pub open spec fn without_plugin(fs: Seq<(Seq<char>, Option<Seq<char>>)>, plugin: Seq<char>) -> Seq<(Seq<char>, Option<Seq<char>>)>
    decreases fs.len(),
{
    if fs.len() == 0 {
        Seq::empty()
    } else {
        let rest = without_plugin(fs.drop_last(), plugin);
        if eq_ic(fs.last().0, plugin) {
            rest
        } else {
            rest.push(fs.last())
        }
    }
}

/// The first assembly that lines `j..end` name as missing.
pub open spec fn first_assembly(lines: Seq<String>, j: int, end: int) -> Option<Seq<char>>
    decreases end - j,
{
    if j < 0 || j >= end || j >= lines.len() {
        None
    } else {
        match assembly_name_spec(lines[j]@) {
            Some(a) => Some(a),
            None => first_assembly(lines, j + 1, end),
        }
    }
}

/// Where the look-ahead after line `i` ends.
pub open spec fn lookahead_end(len: int, i: int) -> int {
    if i + 1 + LOOKAHEAD_LINES < len { i + 1 + LOOKAHEAD_LINES } else { len }
}

/// The failures the first `n` lines report: each marker line naming a
/// plugin dll replaces that plugin's earlier entry with one at the end,
/// carrying the first missing assembly of the following lines.
pub open spec fn failures_upto(lines: Seq<String>, n: int) -> Seq<(Seq<char>, Option<Seq<char>>)>
    decreases n,
{
    if n <= 0 || n > lines.len() {
        Seq::empty()
    } else {
        let prev = failures_upto(lines, n - 1);
        let line = lines[n - 1]@;
        if contains_seq(line, failure_marker()) && plugin_name_spec(line) is Some {
            let p = plugin_name_spec(line).unwrap();
            without_plugin(prev, p).push((p, first_assembly(lines, n, lookahead_end(lines.len() as int, n - 1))))
        } else {
            prev
        }
    }
}

/// What [`without_plugin`] keeps: entries of `fs`, in order, none of them
/// the plugin's, and pairwise distinct when `fs` was.
pub proof fn lemma_without_plugin(fs: Seq<(Seq<char>, Option<Seq<char>>)>, plugin: Seq<char>)
    ensures
        forall|a: int| 0 <= a < without_plugin(fs, plugin).len() ==> !eq_ic((#[trigger] without_plugin(fs, plugin)[a]).0, plugin),
        forall|a: int| 0 <= a < without_plugin(fs, plugin).len() ==> exists|b: int| 0 <= b < fs.len() && #[trigger] without_plugin(fs, plugin)[a] == fs[b],
        (forall|a: int, b: int| 0 <= a < b < fs.len() ==> !eq_ic(#[trigger] fs[a].0, #[trigger] fs[b].0)) ==>
            forall|a: int, b: int| 0 <= a < b < without_plugin(fs, plugin).len()
                ==> !eq_ic(#[trigger] without_plugin(fs, plugin)[a].0, #[trigger] without_plugin(fs, plugin)[b].0),
    decreases fs.len(),
{
    if fs.len() > 0 {
        let init = fs.drop_last();
        lemma_without_plugin(init, plugin);
        let rest = without_plugin(init, plugin);
        let w = without_plugin(fs, plugin);
        assert forall|a: int| 0 <= a < w.len() implies exists|b: int| 0 <= b < fs.len() && #[trigger] w[a] == fs[b] by {
            if a < rest.len() {
                let b = choose|b: int| 0 <= b < init.len() && #[trigger] rest[a] == init[b];
                assert(w[a] == fs[b]);
            } else {
                assert(w[a] == fs[fs.len() - 1]);
            }
        }
        if forall|a: int, b: int| 0 <= a < b < fs.len() ==> !eq_ic(#[trigger] fs[a].0, #[trigger] fs[b].0) {
            assert forall|a: int, b: int| 0 <= a < b < w.len() implies !eq_ic(#[trigger] w[a].0, #[trigger] w[b].0) by {
                if b < rest.len() {
                    assert(w[a] == rest[a] && w[b] == rest[b]);
                } else {
                    let x = choose|x: int| 0 <= x < init.len() && #[trigger] rest[a] == init[x];
                    assert(w[a] == fs[x]);
                    assert(w[b] == fs[fs.len() - 1]);
                }
            }
        }
    }
}

/// The failures name each plugin once (up to ASCII case), and each comes
/// from a line of the log.
pub proof fn lemma_failures_unique(lines: Seq<String>, n: int)
    ensures
        forall|a: int, b: int| 0 <= a < b < failures_upto(lines, n).len()
            ==> !eq_ic(#[trigger] failures_upto(lines, n)[a].0, #[trigger] failures_upto(lines, n)[b].0),
        forall|a: int| 0 <= a < failures_upto(lines, n).len() ==> exists|k: int| 0 <= k < lines.len()
            && plugin_name_spec(#[trigger] lines[k]@) == Some((#[trigger] failures_upto(lines, n)[a]).0),
    decreases n,
{
    if n > 0 && n <= lines.len() {
        lemma_failures_unique(lines, n - 1);
        let prev = failures_upto(lines, n - 1);
        let line = lines[n - 1]@;
        if contains_seq(line, failure_marker()) && plugin_name_spec(line) is Some {
            let p = plugin_name_spec(line).unwrap();
            lemma_without_plugin(prev, p);
            let kept = without_plugin(prev, p);
            let f = failures_upto(lines, n);
            assert forall|a: int, b: int| 0 <= a < b < f.len() implies !eq_ic(#[trigger] f[a].0, #[trigger] f[b].0) by {
                if b < kept.len() {
                    assert(f[a] == kept[a] && f[b] == kept[b]);
                } else {
                    assert(f[a] == kept[a]);
                    assert(!eq_ic(kept[a].0, p));
                }
            }
            assert forall|a: int| 0 <= a < f.len() implies exists|k: int| 0 <= k < lines.len()
                && plugin_name_spec(#[trigger] lines[k]@) == Some((#[trigger] f[a]).0) by {
                if a < kept.len() {
                    let b = choose|b: int| 0 <= b < prev.len() && #[trigger] kept[a] == prev[b];
                    assert(f[a] == prev[b]);
                } else {
                    assert(plugin_name_spec(lines[n - 1]@) == Some(f[a].0));
                }
            }
        }
    }
}

/// Scans log lines for plugin load failures, one entry per plugin (a later
/// failure supersedes an earlier one, and moves to the end). A plugin that
/// failed and later loaded fine still reports here: this is log history.
pub fn find_load_failures(lines: &Vec<String>) -> (r: Vec<LoadFailure>)
    ensures
        failures_view(r@) == failures_upto(lines@, lines@.len() as int),
        forall|a: int, b: int| 0 <= a < b < r@.len() ==> !eq_ic(#[trigger] r@[a].plugin@, #[trigger] r@[b].plugin@),
        forall|a: int| 0 <= a < r@.len() ==> exists|k: int| 0 <= k < lines@.len() && plugin_name_spec(#[trigger] lines@[k]@) == Some((#[trigger] r@[a]).plugin@),
{
    let marker = chars_of("Failed to load plugin");
    let mut failures: Vec<LoadFailure> = Vec::new();
    let mut index: usize = 0;
    assert(failures_view(failures@) =~= failures_upto(lines@, 0));
    while index < lines.len()
        invariant
            index <= lines@.len(),
            marker@ == failure_marker(),
            failures_view(failures@) == failures_upto(lines@, index as int),
        decreases lines@.len() - index,
    {
        let line = chars_of(lines[index].as_str());
        if contains(line.as_slice(), marker.as_slice()) {
            match plugin_name_from_line(lines[index].as_str()) {
                Some(plugin) => {
                    let ghost end = lookahead_end(lines@.len() as int, index as int);
                    let mut missing: Option<String> = None;
                    let mut j: usize = index + 1;
                    let mut looked: usize = 0;
                    while j < lines.len() && looked < LOOKAHEAD_LINES && missing.is_none()
                        invariant
                            index < lines@.len(),
                            end == lookahead_end(lines@.len() as int, index as int),
                            j == index + 1 + looked,
                            looked <= LOOKAHEAD_LINES,
                            j <= lines@.len(),
                            missing is None ==> first_assembly(lines@, index + 1, end) == first_assembly(lines@, j as int, end),
                            missing matches Some(m) ==> first_assembly(lines@, index + 1, end) == Some(m@),
                        decreases lines@.len() - j,
                    {
                        missing = assembly_name_from_line(lines[j].as_str());
                        j = j + 1;
                        looked = looked + 1;
                    }
                    let ghost missing_view: Option<Seq<char>> = crate::handlers::updates::opt_str_view(missing);
                    assert(missing_view == first_assembly(lines@, index + 1, end));
                    let plugin_chars = chars_of(plugin.as_str());
                    let ghost prev = failures_view(failures@);
                    let mut kept: Vec<LoadFailure> = Vec::new();
                    let mut k: usize = 0;
                    assert(prev.take(0) =~= Seq::<(Seq<char>, Option<Seq<char>>)>::empty());
                    assert(failures_view(kept@) =~= without_plugin(prev.take(0), plugin@));
                    while k < failures.len()
                        invariant
                            k <= failures@.len(),
                            plugin_chars@ == plugin@,
                            prev == failures_view(failures@),
                            failures_view(kept@) == without_plugin(prev.take(k as int), plugin@),
                        decreases failures@.len() - k,
                    {
                        assert(prev.take(k + 1).drop_last() =~= prev.take(k as int));
                        assert(prev[k as int] == failure_view(failures@[k as int]));
                        let existing = chars_of(failures[k].plugin.as_str());
                        if !eq_ignore_case(existing.as_slice(), plugin_chars.as_slice()) {
                            let ghost before = kept@;
                            let copy = LoadFailure {
                                plugin: failures[k].plugin.clone(),
                                missing: match &failures[k].missing {
                                    Some(m) => Some(m.clone()),
                                    None => None,
                                },
                            };
                            assert(failure_view(copy) == failure_view(failures@[k as int]));
                            kept.push(copy);
                            proof {
                                assert(failures_view(kept@) =~= failures_view(before).push(failure_view(copy)));
                            }
                        }
                        k = k + 1;
                    }
                    assert(prev.take(failures@.len() as int) =~= prev);
                    let ghost before = kept@;
                    let entry = LoadFailure { plugin, missing };
                    kept.push(entry);
                    proof {
                        assert(failures_view(kept@) =~= failures_view(before).push(failure_view(entry)));
                        assert(failure_view(entry) == (plugin_name_spec(lines@[index as int]@).unwrap(), missing_view));
                    }
                    failures = kept;
                },
                None => {},
            }
        }
        index = index + 1;
    }
    proof {
        lemma_failures_unique(lines@, lines@.len() as int);
        let f = failures_upto(lines@, lines@.len() as int);
        assert forall|a: int, b: int| 0 <= a < b < failures@.len() implies !eq_ic(#[trigger] failures@[a].plugin@, #[trigger] failures@[b].plugin@) by {
            assert(f[a].0 == failures@[a].plugin@ && f[b].0 == failures@[b].plugin@);
        }
        assert forall|a: int| 0 <= a < failures@.len() implies exists|k: int| 0 <= k < lines@.len() && plugin_name_spec(#[trigger] lines@[k]@) == Some((#[trigger] failures@[a]).plugin@) by {
            assert(f[a].0 == failures@[a].plugin@);
        }
    }
    failures
}

} // verus!
