//! In-plugin zip extraction for plugin installs, and where an archive's
//! content belongs by its layout. The zip crate reads the archive; which
//! entries are taken, their paths, modes and the size limits are decided
//! here.

use std::io::Read;

use vstd::prelude::*;

use crate::source2::paths::strip_leading;
use crate::source2::paths::strip_leading_vec;
use crate::text::{
    chars_of, contains_char, ends_with, eq_ic, has_suffix, lemma_split_nonempty, lower_seq,
    seq_eq, split_on, split_vec, string_of, sub_chars, to_lower, u64_text, cat, cat3,
};

verus! {

#[verifier::external_type_specification]
#[verifier::external_body]
#[verifier::reject_recursive_types(T)]
pub struct ExCursor<T>(std::io::Cursor<T>);

#[verifier::external_type_specification]
#[verifier::external_body]
#[verifier::reject_recursive_types(R)]
pub struct ExZipArchive<R>(zip::ZipArchive<R>);

/// Whether `zip::ZipArchive::new` reads an archive from these bytes.
pub uninterp spec fn zip_opens(bytes: Seq<u8>) -> bool;

/// What `ZipArchive::len` reports for the archive read from these bytes.
pub uninterp spec fn zip_count(bytes: Seq<u8>) -> nat;

/// Whether `ZipArchive::by_index` opens entry `i`.
pub uninterp spec fn zip_entry_ok(bytes: Seq<u8>, i: nat) -> bool;

/// `ZipFile::name` of entry `i`.
pub uninterp spec fn zip_name(bytes: Seq<u8>, i: nat) -> Seq<char>;

/// `ZipFile::size` (uncompressed) of entry `i`.
pub uninterp spec fn zip_size(bytes: Seq<u8>, i: nat) -> u64;

/// `ZipFile::unix_mode` of entry `i`.
pub uninterp spec fn zip_mode(bytes: Seq<u8>, i: nat) -> Option<u32>;

/// What `Read::read_to_end` inflates from entry `i`, `None` when it fails.
pub uninterp spec fn zip_read(bytes: Seq<u8>, i: nat) -> Option<Seq<u8>>;

/// The zip crate's directory test: the name ends with `/` or `\`.
pub open spec fn zip_dir_name(name: Seq<char>) -> bool {
    name.len() > 0 && (name.last() == '/' || name.last() == '\\')
}

/// An archive opened over a byte slice.
pub struct ZipSource<'a> {
    archive: zip::ZipArchive<std::io::Cursor<&'a [u8]>>,
    source: &'a [u8],
}

/// Metadata of one archive entry.
pub struct ZipMeta {
    pub name: String,
    pub is_dir: bool,
    pub size: u64,
    pub unix_mode: Option<u32>,
}

impl<'a> ZipSource<'a> {
    pub closed spec fn bytes(&self) -> Seq<u8> {
        self.source@
    }

    /// `ZipArchive::new` over the bytes; the error is the crate's message.
    #[verifier::external_body]
    pub fn open(source: &'a [u8]) -> (r: Result<ZipSource<'a>, String>)
        ensures
            r is Ok <==> zip_opens(source@),
            r matches Ok(z) ==> z.bytes() == source@,
    {
        match zip::ZipArchive::new(std::io::Cursor::new(source)) {
            Ok(archive) => Ok(ZipSource { archive, source }),
            Err(e) => Err(e.to_string()),
        }
    }

    /// `ZipArchive::len`: the number of entries.
    #[verifier::external_body]
    pub fn len(&self) -> (n: usize)
        ensures
            n == zip_count(self.bytes()),
    {
        self.archive.len()
    }

    /// `ZipArchive::by_index`, and the entry's `name`, `is_dir`, `size` and
    /// `unix_mode`.
    #[verifier::external_body]
    pub fn meta(&mut self, i: usize) -> (r: Result<ZipMeta, String>)
        ensures
            final(self).bytes() == old(self).bytes(),
            r is Ok <==> zip_entry_ok(old(self).bytes(), i as nat),
            r matches Ok(m) ==> {
                &&& m.name@ == zip_name(old(self).bytes(), i as nat)
                &&& m.is_dir == zip_dir_name(m.name@)
                &&& m.size == zip_size(old(self).bytes(), i as nat)
                &&& m.unix_mode == zip_mode(old(self).bytes(), i as nat)
            },
    {
        match self.archive.by_index(i) {
            Ok(file) => Ok(ZipMeta {
                name: file.name().to_string(),
                is_dir: file.is_dir(),
                size: file.size(),
                unix_mode: file.unix_mode(),
            }),
            Err(e) => Err(e.to_string()),
        }
    }

    /// `ZipArchive::by_index`, then `read_to_end` of the inflated entry.
    #[verifier::external_body]
    pub fn read(&mut self, i: usize) -> (r: Result<Vec<u8>, String>)
        ensures
            final(self).bytes() == old(self).bytes(),
            r is Ok <==> (zip_entry_ok(old(self).bytes(), i as nat) && zip_read(old(self).bytes(), i as nat) is Some),
            r matches Ok(d) ==> Some(d@) == zip_read(old(self).bytes(), i as nat),
    {
        let mut file = self.archive.by_index(i).map_err(|e| e.to_string())?;
        let mut data = Vec::new();
        file.read_to_end(&mut data).map_err(|e| e.to_string())?;
        Ok(data)
    }
}

/// One extracted file.
#[derive(Debug, Clone)]
pub struct ArchiveEntry {
    /// Forward-slash relative path, sanitized (no leading /, no dot segments).
    pub path: String,
    pub data: Vec<u8>,
    /// Unix permission bits, defaulted per file type when the zip has none.
    pub mode: u32,
}

/// Total uncompressed budget: a plugin archive that inflates past this is
/// refused rather than ballooning the wasm heap. Twice the panel's per-call
/// upload limit.
pub const MAX_TOTAL_UNCOMPRESSED: u64 = 67108864;
pub const MAX_ENTRIES: usize = 4096;

/// `\` read as `/`.
pub open spec fn forward_slashes(s: Seq<char>) -> Seq<char> {
    s.map_values(|c: char| if c == '\\' { '/' } else { c })
}

/// A segment that may stand in an extracted path.
pub open spec fn safe_segment(s: Seq<char>) -> bool {
    &&& s.len() > 0
    &&& s != seq!['.']
    &&& s != seq!['.', '.']
    &&& !s.contains('/')
    &&& !s.contains('\0')
    &&& !s.contains(':')
}

/// The segments kept from a split path: empty and `.` segments dropped,
/// `None` when one is `..` or holds NUL or `:`.
pub open spec fn keep_segments(segs: Seq<Seq<char>>) -> Option<Seq<Seq<char>>>
    decreases segs.len(),
{
    if segs.len() == 0 {
        Some(Seq::empty())
    } else {
        match keep_segments(segs.drop_last()) {
            None => None,
            Some(kept) => {
                let s = segs.last();
                if s.len() == 0 || s == seq!['.'] {
                    Some(kept)
                } else if s == seq!['.', '.'] || s.contains('\0') || s.contains(':') {
                    None
                } else {
                    Some(kept.push(s))
                }
            },
        }
    }
}

/// Segments joined with `/`.
pub open spec fn join_segments(parts: Seq<Seq<char>>) -> Seq<char>
    decreases parts.len(),
{
    if parts.len() == 0 {
        Seq::empty()
    } else if parts.len() == 1 {
        parts[0]
    } else {
        join_segments(parts.drop_last()) + seq!['/'] + parts.last()
    }
}

/// A relative path that stays inside the directory it is extracted to:
/// not empty, not absolute, no trailing or doubled `/`, no NUL or `:`, and
/// no `..` component.
pub open spec fn contained_path(s: Seq<char>) -> bool {
    &&& s.len() > 0
    &&& s[0] != '/'
    &&& s.last() != '/'
    &&& forall|i: int| 0 <= i < s.len() ==> #[trigger] s[i] != ':' && s[i] != '\0'
    &&& forall|i: int| 0 <= i < s.len() - 1 && #[trigger] s[i] == '/' ==> s[i + 1] != '/'
    &&& forall|i: int| 0 <= i && i + 1 < s.len() && #[trigger] s[i] == '.' && s[i + 1] == '.' && (i == 0 || s[i - 1] == '/')
        ==> (i + 2 < s.len() && s[i + 2] != '/')
}

proof fn lemma_safe_part_contained(p: Seq<char>)
    requires
        safe_segment(p),
    ensures
        contained_path(p),
{
    assert forall|i: int| 0 <= i < p.len() implies #[trigger] p[i] != ':' && p[i] != '\0' by {
        if p[i] == ':' { assert(p.contains(':')); }
        if p[i] == '\0' { assert(p.contains('\0')); }
    }
    assert forall|i: int| 0 <= i < p.len() implies #[trigger] p[i] != '/' by {
        if p[i] == '/' { assert(p.contains('/')); }
    }
    assert forall|i: int| 0 <= i && i + 1 < p.len() && #[trigger] p[i] == '.' && p[i + 1] == '.' && (i == 0 || p[i - 1] == '/')
        implies (i + 2 < p.len() && p[i + 2] != '/') by {
        assert(i == 0);
        if p.len() == 2 {
            assert(p =~= seq!['.', '.']);
        }
    }
}

/// Joining safe segments with `/` gives a path that stays contained.
pub proof fn lemma_join_contained(parts: Seq<Seq<char>>)
    requires
        parts.len() > 0,
        forall|k: int| 0 <= k < parts.len() ==> safe_segment(#[trigger] parts[k]),
    ensures
        contained_path(join_segments(parts)),
    decreases parts.len(),
{
    if parts.len() == 1 {
        lemma_safe_part_contained(parts[0]);
    } else {
        let a = join_segments(parts.drop_last());
        let p = parts.last();
        assert(safe_segment(parts[parts.len() - 1]));
        assert forall|k: int| 0 <= k < parts.drop_last().len() implies safe_segment(#[trigger] parts.drop_last()[k]) by {
            assert(parts.drop_last()[k] == parts[k]);
        }
        lemma_join_contained(parts.drop_last());
        lemma_safe_part_contained(p);
        let r = a + seq!['/'] + p;
        assert(join_segments(parts) == r);
        let n = a.len() as int;
        assert forall|i: int| 0 <= i < r.len() implies #[trigger] r[i] != ':' && r[i] != '\0' by {
            if i < n { assert(r[i] == a[i]); } else if i > n { assert(r[i] == p[i - n - 1]); }
        }
        assert forall|i: int| 0 <= i < r.len() - 1 && #[trigger] r[i] == '/' implies r[i + 1] != '/' by {
            if i < n - 1 {
                assert(r[i] == a[i] && r[i + 1] == a[i + 1]);
            } else if i == n - 1 {
                assert(r[i] == a[n - 1]);
            } else if i == n {
                assert(r[i + 1] == p[0]);
                assert(!p.contains('/') ==> p[0] != '/');
            } else {
                assert(r[i] == p[i - n - 1]);
                assert(p[i - n - 1] == '/' ==> p.contains('/'));
            }
        }
        assert forall|i: int| 0 <= i && i + 1 < r.len() && #[trigger] r[i] == '.' && r[i + 1] == '.' && (i == 0 || r[i - 1] == '/')
            implies (i + 2 < r.len() && r[i + 2] != '/') by {
            if i + 2 < n {
                assert(r[i] == a[i] && r[i + 1] == a[i + 1] && r[i + 2] == a[i + 2]);
                if i > 0 { assert(r[i - 1] == a[i - 1]); }
            } else if i + 2 == n {
                assert(r[i] == a[i] && r[i + 1] == a[i + 1]);
                if i > 0 { assert(r[i - 1] == a[i - 1]); }
                assert(a.last() == a[n - 1]);
            } else if i + 1 == n {
                assert(r[i + 1] == '/');
            } else if i == n {
                assert(r[i] == '/');
            } else {
                let j = i - n - 1;
                assert(r[i] == p[j] && r[i + 1] == p[j + 1]);
                if j > 0 {
                    assert(r[i - 1] == p[j - 1]);
                    assert(p[j - 1] == '/' ==> p.contains('/'));
                }
                assert(j == 0);
                if p.len() == 2 {
                    assert(p =~= seq!['.', '.']);
                }
                assert(r[i + 2] == p[j + 2]);
                assert(p[j + 2] == '/' ==> p.contains('/'));
            }
        }
        assert(r[0] == a[0]);
        assert(r.last() == p.last());
        assert(p.last() == '/' ==> p.contains('/'));
    }
}

/// The path an entry name is extracted to, `None` when it would escape.
pub open spec fn sanitized_parts(raw: Seq<char>) -> Option<Seq<Seq<char>>> {
    let t = strip_leading(forward_slashes(raw), '/');
    if t.len() == 0 {
        None
    } else {
        match keep_segments(split_on(t, '/')) {
            Some(parts) => if parts.len() > 0 { Some(parts) } else { None },
            None => None,
        }
    }
}

pub open spec fn sanitized_path(raw: Seq<char>) -> Option<Seq<char>> {
    match sanitized_parts(raw) {
        Some(parts) => Some(join_segments(parts)),
        None => None,
    }
}

/// Every kept segment is safe.
pub proof fn lemma_keep_segments_safe(segs: Seq<Seq<char>>)
    requires
        forall|k: int| 0 <= k < segs.len() ==> !(#[trigger] segs[k]).contains('/'),
    ensures
        keep_segments(segs) matches Some(kept) ==> forall|k: int| 0 <= k < kept.len() ==> safe_segment(#[trigger] kept[k]),
    decreases segs.len(),
{
    if segs.len() > 0 {
        assert forall|k: int| 0 <= k < segs.drop_last().len() implies !(#[trigger] segs.drop_last()[k]).contains('/') by {
            assert(segs.drop_last()[k] == segs[k]);
        }
        lemma_keep_segments_safe(segs.drop_last());
        assert(segs.last() == segs[segs.len() - 1]);
    }
}

/// Pieces of a split never hold the separator.
pub proof fn lemma_split_pieces_clean(s: Seq<char>, sep: char)
    ensures
        forall|k: int| 0 <= k < split_on(s, sep).len() ==> !(#[trigger] split_on(s, sep)[k]).contains(sep),
    decreases s.len(),
{
    if s.len() > 0 {
        lemma_split_pieces_clean(s.drop_last(), sep);
        lemma_split_nonempty(s.drop_last(), sep);
        let init = split_on(s.drop_last(), sep);
        if s.last() != sep {
            let last = init.last().push(s.last());
            assert(!last.contains(sep)) by {
                if last.contains(sep) {
                    let i = choose|i: int| 0 <= i < last.len() && last[i] == sep;
                    if i < init.last().len() {
                        assert(init.last()[i] == sep);
                        assert(init[init.len() - 1] == init.last());
                    }
                }
            }
        }
    }
}

fn forward_slashes_vec(s: &[char]) -> (r: Vec<char>)
    ensures
        r@ == forward_slashes(s@),
{
    let mut r: Vec<char> = Vec::new();
    let mut i: usize = 0;
    while i < s.len()
        invariant
            i <= s@.len(),
            r@ == forward_slashes(s@.take(i as int)),
        decreases s@.len() - i,
    {
        let c = s[i];
        r.push(if c == '\\' { '/' } else { c });
        assert(forward_slashes(s@.take(i + 1)) =~= forward_slashes(s@.take(i as int)).push(if c == '\\' { '/' } else { c }));
        i = i + 1;
    }
    assert(s@.take(s@.len() as int) == s@);
    r
}

/// Normalizes an archive entry name into a safe relative path: backslashes
/// become slashes, leading slashes, empty and `.` segments are dropped;
/// `None` for a `..` segment, NUL or `:` in a segment, or nothing left.
pub fn sanitize_zip_path(raw: &str) -> (r: Option<String>)
    ensures
        sanitized_path(raw@) is None ==> r is None,
        sanitized_path(raw@) is Some ==> (r matches Some(s) && s@ == sanitized_path(raw@).unwrap()),
        r is Some ==> (sanitized_parts(raw@) matches Some(parts) && forall|k: int|
            0 <= k < parts.len() ==> safe_segment(#[trigger] parts[k])),
        r matches Some(s) ==> contained_path(s@),
{
    let raw_chars = chars_of(raw);
    let normalized = forward_slashes_vec(raw_chars.as_slice());
    let trimmed = strip_leading_vec(normalized.as_slice(), '/');
    if trimmed.len() == 0 {
        return None;
    }
    let segments = split_vec(trimmed.as_slice(), '/');
    let mut out: Vec<char> = Vec::new();
    let mut count: usize = 0;
    let mut i: usize = 0;
    let ghost t = trimmed@;
    proof {
        lemma_split_nonempty(t, '/');
        lemma_split_pieces_clean(t, '/');
    }
    while i < segments.len()
        invariant
            t == trimmed@,
            t == strip_leading(forward_slashes(raw@), '/'),
            t.len() > 0,
            segments@.len() == split_on(t, '/').len(),
            forall|k: int| 0 <= k < segments@.len() ==> #[trigger] segments@[k]@ == split_on(t, '/')[k],
            i <= segments@.len(),
            keep_segments(split_on(t, '/').take(i as int)) matches Some(kept) && kept.len() == count
                && out@ == join_segments(kept),
            count <= i,
        decreases segments@.len() - i,
    {
        let seg = &segments[i];
        let ghost segs = split_on(t, '/');
        proof {
            assert(segs.take(i + 1).drop_last() == segs.take(i as int));
            assert(segs.take(i + 1).last() == seg@);
        }
        let ghost kept0 = keep_segments(segs.take(i as int)).unwrap();
        let dot: Vec<char> = vec!['.'];
        let dotdot: Vec<char> = vec!['.', '.'];
        if seg.len() == 0 || seq_eq(seg.as_slice(), dot.as_slice()) {
            proof {
                assert(dot@ == seq!['.']);
                assert(keep_segments(segs.take(i + 1)) == Some(kept0));
            }
        } else if seq_eq(seg.as_slice(), dotdot.as_slice()) || contains_char(seg.as_slice(), '\0')
            || contains_char(seg.as_slice(), ':') {
            proof {
                assert(keep_segments(segs.take(i + 1)) is None);
                lemma_keep_none_extends(segs, (i + 1) as int);
                assert(segs.take(segs.len() as int) == segs);
            }
            return None;
        } else {
            let ghost out0 = out@;
            proof {
                assert(dot@ == seq!['.']);
                assert(dotdot@ == seq!['.', '.']);
                assert(seg@.len() > 0);
                assert(seg@ != seq!['.']);
                assert(seg@ != seq!['.', '.']);
                assert(!seg@.contains('\0'));
                assert(!seg@.contains(':'));
            }
            if count > 0 {
                out.push('/');
            }
            let mut piece = vstd::slice::slice_to_vec(seg.as_slice());
            out.append(&mut piece);
            count = count + 1;
            proof {
                let k2 = kept0.push(seg@);
                assert(k2.drop_last() =~= kept0);
                assert(k2.last() == seg@);
                if kept0.len() == 0 {
                    assert(k2[0] == seg@);
                    assert(out0 == Seq::<char>::empty());
                    assert(out@ =~= seg@);
                } else {
                    assert(out@ =~= out0 + seq!['/'] + seg@);
                }
                assert(keep_segments(segs.take(i + 1)) == Some(k2));
                assert(out@ == join_segments(k2));
            }
        }
        i = i + 1;
    }
    proof {
        assert(split_on(t, '/').take(segments@.len() as int) == split_on(t, '/'));
        let kept = keep_segments(split_on(t, '/')).unwrap();
        lemma_keep_segments_safe(split_on(t, '/'));
    }
    proof {
        assert(t == strip_leading(forward_slashes(raw@), '/'));
        assert(keep_segments(split_on(t, '/')) == Some(keep_segments(split_on(t, '/')).unwrap()));
    }
    if count == 0 {
        assert(sanitized_parts(raw@) is None);
        return None;
    }
    proof {
        let kept = keep_segments(split_on(t, '/')).unwrap();
        lemma_join_contained(kept);
    }
    Some(string_of(out.as_slice()))
}

/// Once a prefix of the segments is refused, so is the whole list.
proof fn lemma_keep_none_extends(segs: Seq<Seq<char>>, n: int)
    requires
        0 <= n <= segs.len(),
        keep_segments(segs.take(n)) is None,
    ensures
        keep_segments(segs) is None,
    decreases segs.len() - n,
{
    if n < segs.len() {
        assert(segs.take(n + 1).drop_last() == segs.take(n));
        lemma_keep_none_extends(segs, n + 1);
    } else {
        assert(segs.take(n) == segs);
    }
}

pub open spec fn so_ext() -> Seq<char> {
    ".so"@
}

pub open spec fn dotnet_suffix() -> Seq<char> {
    "/dotnet"@
}

/// Shared objects and the dotnet host must stay runnable even when the zip
/// was built without meaningful unix modes.
pub open spec fn needs_exec_spec(path: Seq<char>) -> bool {
    has_suffix(lower_seq(path), so_ext()) || has_suffix(lower_seq(path), dotnet_suffix())
}

pub fn needs_exec(path: &str) -> (b: bool)
    ensures
        b == needs_exec_spec(path@),
{
    let lower = to_lower(chars_of(path).as_slice());
    let so = chars_of(".so");
    let dotnet = chars_of("/dotnet");
    ends_with(lower.as_slice(), so.as_slice()) || ends_with(lower.as_slice(), dotnet.as_slice())
}

/// The permission bits an extracted file gets: the zip's mode bits when it
/// has any, else 0o644; executables get the exec bits too.
pub open spec fn entry_mode(mode: Option<u32>, path: Seq<char>) -> u32 {
    let base: u32 = match mode {
        Some(m) => if m & 511u32 != 0 { m & 511u32 } else { 420u32 },
        None => 420u32,
    };
    if needs_exec_spec(path) {
        base | 73u32
    } else {
        base
    }
}

pub open spec fn sat_add(a: u64, b: u64) -> u64 {
    if a + b > u64::MAX {
        u64::MAX
    } else {
        (a + b) as u64
    }
}

/// The entries (path, data, mode) extracted from entry `i` on, having
/// counted `total` uncompressed bytes so far; `None` when the archive is
/// refused.
pub open spec fn extract_from(b: Seq<u8>, i: nat, total: u64) -> Option<Seq<(Seq<char>, Seq<u8>, u32)>>
    decreases zip_count(b) - i,
{
    if i >= zip_count(b) {
        Some(Seq::empty())
    } else if !zip_entry_ok(b, i) {
        None
    } else if zip_dir_name(zip_name(b, i)) {
        extract_from(b, i + 1, total)
    } else {
        match sanitized_path(zip_name(b, i)) {
            None => None,
            Some(path) => {
                let t = sat_add(total, zip_size(b, i));
                if t > MAX_TOTAL_UNCOMPRESSED {
                    None
                } else {
                    match zip_read(b, i) {
                        None => None,
                        Some(data) => match extract_from(b, i + 1, t) {
                            Some(rest) => Some(seq![(path, data, entry_mode(zip_mode(b, i), path))] + rest),
                            None => None,
                        },
                    }
                }
            },
        }
    }
}

/// The extracted archive, `None` when it is refused: not a zip, more than
/// [`MAX_ENTRIES`] entries, a corrupt or escaping entry, or more than
/// [`MAX_TOTAL_UNCOMPRESSED`] bytes inflated.
pub open spec fn extract_spec(b: Seq<u8>) -> Option<Seq<(Seq<char>, Seq<u8>, u32)>> {
    if !zip_opens(b) || zip_count(b) > MAX_ENTRIES {
        None
    } else {
        extract_from(b, 0, 0)
    }
}

pub open spec fn entry_view(e: ArchiveEntry) -> (Seq<char>, Seq<u8>, u32) {
    (e.path@, e.data@, e.mode)
}

pub open spec fn prepend(acc: Seq<(Seq<char>, Seq<u8>, u32)>, r: Option<Seq<(Seq<char>, Seq<u8>, u32)>>) -> Option<Seq<(Seq<char>, Seq<u8>, u32)>> {
    match r {
        Some(rest) => Some(acc + rest),
        None => None,
    }
}

fn entry_mode_exec(mode: Option<u32>, path: &str) -> (m: u32)
    ensures
        m == entry_mode(mode, path@),
{
    let base: u32 = match mode {
        Some(m) => if m & 511u32 != 0 { m & 511u32 } else { 420u32 },
        None => 420u32,
    };
    if needs_exec(path) {
        base | 73u32
    } else {
        base
    }
}

/// Unpacks a zip held in memory.
pub fn extract_zip(bytes: &[u8]) -> (r: Result<Vec<ArchiveEntry>, String>)
    ensures
        extract_spec(bytes@) is None ==> r is Err,
        extract_spec(bytes@) is Some ==> (r matches Ok(v) && v@.len() == extract_spec(bytes@).unwrap().len()
            && forall|k: int| 0 <= k < v@.len() ==> entry_view(#[trigger] v@[k]) == extract_spec(bytes@).unwrap()[k]),
{
    let mut zip = match ZipSource::open(bytes) {
        Ok(z) => z,
        Err(e) => return Err(cat("not a zip archive: ", e.as_str())),
    };
    let n = zip.len();
    if n > MAX_ENTRIES {
        return Err(cat3("archive has too many entries (", u64_text(n as u64).as_str(), ")"));
    }
    let ghost b = bytes@;
    let mut total: u64 = 0;
    let mut entries: Vec<ArchiveEntry> = Vec::new();
    let mut index: usize = 0;
    while index < n
        invariant
            zip.bytes() == b,
            b == bytes@,
            n == zip_count(b),
            zip_opens(b),
            n <= MAX_ENTRIES,
            index <= n,
            extract_spec(b) == prepend(entries@.map_values(|e: ArchiveEntry| entry_view(e)), extract_from(b, index as nat, total)),
        decreases n - index,
    {
        let ghost acc = entries@.map_values(|e: ArchiveEntry| entry_view(e));
        assert(index < zip_count(b));
        let meta = match zip.meta(index) {
            Ok(m) => m,
            Err(e) => {
                assert(extract_from(b, index as nat, total) is None);
                return Err(cat("corrupt zip entry: ", e.as_str()));
            },
        };
        if meta.is_dir {
            index = index + 1;
            continue;
        }
        let path = match sanitize_zip_path(meta.name.as_str()) {
            Some(p) => p,
            None => {
                assert(extract_from(b, index as nat, total) is None);
                return Err(cat("archive entry escapes its root: ", meta.name.as_str()));
            },
        };
        let ghost old_total = total;
        total = if total > u64::MAX - meta.size { u64::MAX } else { total + meta.size };
        assert(total == sat_add(old_total, zip_size(b, index as nat)));
        if total > MAX_TOTAL_UNCOMPRESSED {
            assert(extract_from(b, index as nat, old_total) is None);
            return Err(String::from_str("archive is too large when uncompressed"));
        }
        let data = match zip.read(index) {
            Ok(d) => d,
            Err(e) => return Err(cat3("failed to inflate ", meta.name.as_str(), cat(": ", e.as_str()).as_str())),
        };
        let mode = entry_mode_exec(meta.unix_mode, path.as_str());
        let ghost item = (path@, data@, mode);
        entries.push(ArchiveEntry { path, data, mode });
        proof {
            assert(entries@.map_values(|e: ArchiveEntry| entry_view(e)) =~= acc.push(item));
            assert(acc.push(item) + Seq::<(Seq<char>, Seq<u8>, u32)>::empty() =~= acc.push(item));
            match extract_from(b, (index + 1) as nat, total) {
                Some(rest) => {
                    assert(acc + (seq![item] + rest) =~= acc.push(item) + rest);
                },
                None => {},
            }
        }
        index = index + 1;
    }
    proof {
        let acc = entries@.map_values(|e: ArchiveEntry| entry_view(e));
        assert(acc + Seq::<(Seq<char>, Seq<u8>, u32)>::empty() =~= acc);
        assert forall|k: int| 0 <= k < entries@.len() implies entry_view(#[trigger] entries@[k]) == acc[k] by {}
    }
    Ok(entries)
}

/// Where a plugin release archive's content should land, judged by its
/// layout.
#[derive(Debug, Clone, PartialEq, Eq)]
pub enum InstallRoot {
    /// Entries already rooted at the game dir (addons/…, cfg/…): extract as-is.
    GameDir,
    /// Entries rooted at the CounterStrikeSharp dir (plugins/…, shared/…),
    /// routed per entry: the CounterStrikeSharp dir entries into
    /// addons/counterstrikesharp, a bare `<Name>/` folder beside them into
    /// plugins/.
    CssDir,
    /// Entries rooted at a single `<Folder>/` that contains `<Folder>.dll`:
    /// extract into plugins/.
    PluginsDir,
    /// Loose files with a `<name>.dll` at the top: wrap into plugins/<name>/.
    WrapIntoFolder(String),
}

/// First segment of a path.
pub open spec fn top_of(path: Seq<char>) -> Seq<char> {
    split_on(path, '/')[0]
}

/// The game-dir prefixes a full-overlay release uses.
pub open spec fn game_dir_root(top: Seq<char>) -> bool {
    let l = lower_seq(top);
    l == "addons"@ || l == "cfg"@ || l == "maps"@ || l == "materials"@ || l == "sound"@ || l == "models"@
}

/// The prefixes that sit directly inside addons/counterstrikesharp.
pub open spec fn css_dir_root(top: Seq<char>) -> bool {
    let l = lower_seq(top);
    l == "plugins"@ || l == "shared"@ || l == "configs"@ || l == "gamedata"@
}

pub open spec fn is_css_dir_entry_spec(path: Seq<char>) -> bool {
    css_dir_root(top_of(path))
}

fn top_vec(path: &str) -> (r: Vec<char>)
    ensures
        r@ == top_of(path@),
{
    let v = chars_of(path);
    let parts = split_vec(v.as_slice(), '/');
    proof {
        lemma_split_nonempty(v@, '/');
    }
    let mut parts = parts;
    parts.swap_remove(0)
}

fn is_one_of(l: &[char], names: &Vec<&'static str>) -> (b: bool)
    ensures
        b == exists|k: int| 0 <= k < names@.len() && l@ == (#[trigger] names@[k])@,
{
    let mut k: usize = 0;
    while k < names.len()
        invariant
            k <= names@.len(),
            forall|j: int| 0 <= j < k ==> l@ != (#[trigger] names@[j])@,
        decreases names@.len() - k,
    {
        let c = chars_of(names[k]);
        if seq_eq(l, c.as_slice()) {
            return true;
        }
        k = k + 1;
    }
    false
}

fn is_game_dir_root(top: &[char]) -> (b: bool)
    ensures
        b == game_dir_root(top@),
{
    let l = to_lower(top);
    let names: Vec<&'static str> = vec!["addons", "cfg", "maps", "materials", "sound", "models"];
    let r = is_one_of(l.as_slice(), &names);
    proof {
        if game_dir_root(top@) {
            let l2 = lower_seq(top@);
            if l2 == "addons"@ { assert(l@ == names@[0]@); }
            else if l2 == "cfg"@ { assert(l@ == names@[1]@); }
            else if l2 == "maps"@ { assert(l@ == names@[2]@); }
            else if l2 == "materials"@ { assert(l@ == names@[3]@); }
            else if l2 == "sound"@ { assert(l@ == names@[4]@); }
            else { assert(l@ == names@[5]@); }
        }
    }
    r
}

fn is_css_dir_root(top: &[char]) -> (b: bool)
    ensures
        b == css_dir_root(top@),
{
    let l = to_lower(top);
    let names: Vec<&'static str> = vec!["plugins", "shared", "configs", "gamedata"];
    let r = is_one_of(l.as_slice(), &names);
    proof {
        if css_dir_root(top@) {
            let l2 = lower_seq(top@);
            if l2 == "plugins"@ { assert(l@ == names@[0]@); }
            else if l2 == "shared"@ { assert(l@ == names@[1]@); }
            else if l2 == "configs"@ { assert(l@ == names@[2]@); }
            else { assert(l@ == names@[3]@); }
        }
    }
    r
}

/// Whether an entry belongs to one of the CounterStrikeSharp dir prefixes,
/// rather than being a plugin folder shipped beside them.
pub fn is_css_dir_entry(path: &str) -> (b: bool)
    ensures
        b == is_css_dir_entry_spec(path@),
{
    let top = top_vec(path);
    is_css_dir_root(top.as_slice())
}

/// `<folder>/<folder>.dll`.
pub open spec fn own_dll(folder: Seq<char>) -> Seq<char> {
    folder + seq!['/'] + folder + ".dll"@
}

/// A first path segment that marks a full game-dir overlay (any case).
pub open spec fn overlay_top(top: Seq<char>) -> bool {
    let l = lower_seq(top);
    ||| l == "addons"@
    ||| l == "cfg"@
    ||| l == "maps"@
    ||| l == "materials"@
    ||| l == "sound"@
    ||| l == "models"@
}

/// A first path segment that sits directly inside the CounterStrikeSharp
/// dir (any case).
pub open spec fn css_top(top: Seq<char>) -> bool {
    let l = lower_seq(top);
    ||| l == "plugins"@
    ||| l == "shared"@
    ||| l == "configs"@
    ||| l == "gamedata"@
}

/// The layout decision over the entry paths.
pub open spec fn detect_spec(paths: Seq<Seq<char>>) -> Option<InstallRootView> {
    if paths.len() == 0 {
        None
    } else if exists|k: int| 0 <= k < paths.len() && game_dir_root(top_of(#[trigger] paths[k])) {
        Some(InstallRootView::GameDir)
    } else if exists|k: int| 0 <= k < paths.len() && css_dir_root(top_of(#[trigger] paths[k])) {
        Some(InstallRootView::CssDir)
    } else if top_of(paths[0]).len() > 0
        && (forall|k: int| 0 <= k < paths.len() ==> top_of(#[trigger] paths[k]) == top_of(paths[0]))
        && (exists|k: int| 0 <= k < paths.len() && lower_seq(#[trigger] paths[k]) == lower_seq(own_dll(top_of(paths[0])))) {
        Some(InstallRootView::PluginsDir)
    } else if exists|k: int| 0 <= k < paths.len() && loose_dll(#[trigger] paths[k]) {
        let k = choose|k: int| 0 <= k < paths.len() && loose_dll(paths[k]) && forall|j: int| 0 <= j < k ==> !loose_dll(#[trigger] paths[j]);
        Some(InstallRootView::WrapIntoFolder(paths[k].take(paths[k].len() - 4)))
    } else {
        None
    }
}

/// A top-level file named `*.dll` (any case).
pub open spec fn loose_dll(path: Seq<char>) -> bool {
    !path.contains('/') && has_suffix(lower_seq(path), ".dll"@)
}

/// [`InstallRoot`] with the folder name as a plain sequence.
pub enum InstallRootView {
    GameDir,
    CssDir,
    PluginsDir,
    WrapIntoFolder(Seq<char>),
}

pub open spec fn root_view(r: InstallRoot) -> InstallRootView {
    match r {
        InstallRoot::GameDir => InstallRootView::GameDir,
        InstallRoot::CssDir => InstallRootView::CssDir,
        InstallRoot::PluginsDir => InstallRootView::PluginsDir,
        InstallRoot::WrapIntoFolder(f) => InstallRootView::WrapIntoFolder(f@),
    }
}

pub open spec fn entry_paths(entries: Seq<ArchiveEntry>) -> Seq<Seq<char>> {
    entries.map_values(|e: ArchiveEntry| e.path@)
}

proof fn lemma_first_loose_exists(paths: Seq<Seq<char>>, w: int)
    requires
        0 <= w < paths.len(),
        loose_dll(paths[w]),
    ensures
        exists|k: int| 0 <= k < paths.len() && loose_dll(paths[k]) && forall|j: int| 0 <= j < k ==> !loose_dll(#[trigger] paths[j]),
    decreases w,
{
    if exists|j: int| 0 <= j < w && loose_dll(paths[j]) {
        let j = choose|j: int| 0 <= j < w && loose_dll(paths[j]);
        lemma_first_loose_exists(paths, j);
    }
}

/// Whether some entry path is `<folder>/<folder>.dll`, up to ASCII case.
fn has_own_dll(entries: &[ArchiveEntry], folder: &[char]) -> (b: bool)
    ensures
        b == exists|k: int| 0 <= k < entries@.len() && lower_seq(#[trigger] entry_paths(entries@)[k]) == lower_seq(own_dll(folder@)),
{
    proof {
        reveal_strlit("/");
        reveal_strlit(".dll");
    }
    let folder_text = string_of(folder);
    let dll = to_lower(chars_of(cat(cat3(folder_text.as_str(), "/", folder_text.as_str()).as_str(), ".dll").as_str()).as_slice());
    assert(dll@ == lower_seq(own_dll(folder@)));
    let ghost paths = entry_paths(entries@);
    let mut j: usize = 0;
    while j < entries.len()
        invariant
            paths == entry_paths(entries@),
            paths.len() == entries@.len(),
            j <= entries@.len(),
            dll@ == lower_seq(own_dll(folder@)),
            forall|i: int| 0 <= i < j ==> lower_seq(#[trigger] paths[i]) != dll@,
        decreases entries@.len() - j,
    {
        let l = to_lower(chars_of(entries[j].path.as_str()).as_slice());
        assert(paths[j as int] == entries@[j as int].path@);
        if seq_eq(l.as_slice(), dll.as_slice()) {
            return true;
        }
        j = j + 1;
    }
    false
}

/// Index of the first top-level `.dll` entry.
fn first_loose_dll(entries: &[ArchiveEntry]) -> (r: Option<usize>)
    ensures
        r matches Some(i) ==> i < entries@.len() && loose_dll(entry_paths(entries@)[i as int])
            && forall|j: int| 0 <= j < i ==> !loose_dll(#[trigger] entry_paths(entries@)[j]),
        r is None ==> forall|j: int| 0 <= j < entries@.len() ==> !loose_dll(#[trigger] entry_paths(entries@)[j]),
{
    let dll_ext = chars_of(".dll");
    let ghost paths = entry_paths(entries@);
    let mut i: usize = 0;
    while i < entries.len()
        invariant
            paths == entry_paths(entries@),
            paths.len() == entries@.len(),
            i <= entries@.len(),
            dll_ext@ == ".dll"@,
            forall|j: int| 0 <= j < i ==> !loose_dll(#[trigger] paths[j]),
        decreases entries@.len() - i,
    {
        let p = chars_of(entries[i].path.as_str());
        let l = to_lower(p.as_slice());
        assert(paths[i as int] == entries@[i as int].path@);
        if !contains_char(p.as_slice(), '/') && ends_with(l.as_slice(), dll_ext.as_slice()) {
            return Some(i);
        }
        i = i + 1;
    }
    None
}

/// Judges where an archive's entries belong.
pub fn detect_install_root(entries: &[ArchiveEntry]) -> (r: Result<InstallRoot, String>)
    ensures
        (exists|k: int| 0 <= k < entries@.len() && overlay_top(top_of(#[trigger] entries@[k].path@)))
            ==> r matches Ok(InstallRoot::GameDir),
        !(exists|k: int| 0 <= k < entries@.len() && overlay_top(top_of(#[trigger] entries@[k].path@)))
            && (exists|k: int| 0 <= k < entries@.len() && css_top(top_of(#[trigger] entries@[k].path@)))
            ==> r matches Ok(InstallRoot::CssDir),
        r matches Ok(InstallRoot::GameDir) ==> exists|k: int| 0 <= k < entries@.len()
            && overlay_top(top_of(#[trigger] entries@[k].path@)),
        r matches Ok(InstallRoot::WrapIntoFolder(f)) ==> exists|k: int| 0 <= k < entries@.len()
            && !(#[trigger] entries@[k].path@).contains('/') && entries@[k].path@ == f@ + entries@[k].path@.skip(f@.len() as int)
            && lower_seq(entries@[k].path@.skip(f@.len() as int)) == ".dll"@,
        entries@.len() == 0 ==> r is Err,
        entries@.len() > 0
            && !(exists|k: int| 0 <= k < entries@.len() && overlay_top(top_of(#[trigger] entries@[k].path@)))
            && !(exists|k: int| 0 <= k < entries@.len() && css_top(top_of(#[trigger] entries@[k].path@)))
            && top_of(entries@[0].path@).len() > 0
            && (forall|k: int| 0 <= k < entries@.len() ==> top_of(#[trigger] entries@[k].path@) == top_of(entries@[0].path@))
            && (exists|k: int| 0 <= k < entries@.len() && lower_seq(#[trigger] entries@[k].path@)
                == lower_seq(top_of(entries@[0].path@) + seq!['/'] + top_of(entries@[0].path@) + seq!['.', 'd', 'l', 'l']))
            ==> r matches Ok(InstallRoot::PluginsDir),
        r is Err ==> entries@.len() == 0 || forall|k: int| 0 <= k < entries@.len() ==> {
            let p = #[trigger] entries@[k].path@;
            &&& !overlay_top(top_of(p))
            &&& !css_top(top_of(p))
            &&& !(!p.contains('/') && has_suffix(lower_seq(p), seq!['.', 'd', 'l', 'l']))
        },
        detect_spec(entry_paths(entries@)) is None ==> r is Err,
        detect_spec(entry_paths(entries@)) is Some ==> (r matches Ok(root) && root_view(root) == detect_spec(entry_paths(entries@)).unwrap()),
{
    let ghost paths = entry_paths(entries@);
    if entries.len() == 0 {
        return Err(String::from_str("archive is empty"));
    }
    let mut k: usize = 0;
    let mut any_game = false;
    let mut any_css = false;
    let mut same_top = true;
    let first_top = top_vec(entries[0].path.as_str());
    while k < entries.len()
        invariant
            paths == entry_paths(entries@),
            first_top@ == top_of(paths[0]),
            paths.len() == entries@.len(),
            0 < entries@.len(),
            k <= entries@.len(),
            any_game == exists|j: int| 0 <= j < k && game_dir_root(top_of(#[trigger] paths[j])),
            any_css == exists|j: int| 0 <= j < k && css_dir_root(top_of(#[trigger] paths[j])),
            same_top == forall|j: int| 0 <= j < k ==> top_of(#[trigger] paths[j]) == top_of(paths[0]),
        decreases entries@.len() - k,
    {
        let top = top_vec(entries[k].path.as_str());
        assert(paths[k as int] == entries@[k as int].path@);
        if is_game_dir_root(top.as_slice()) {
            any_game = true;
        }
        if is_css_dir_root(top.as_slice()) {
            any_css = true;
        }
        if !seq_eq(top.as_slice(), first_top.as_slice()) {
            same_top = false;
        }
        k = k + 1;
    }
    proof {
        assert forall|j: int| 0 <= j < entries@.len() implies
            (overlay_top(top_of(#[trigger] entries@[j].path@)) == game_dir_root(top_of(paths[j])))
            && (css_top(top_of(entries@[j].path@)) == css_dir_root(top_of(paths[j]))) by {
            assert(paths[j] == entries@[j].path@);
        }
        assert forall|j: int| 0 <= j < entries@.len() implies #[trigger] paths[j] == entries@[j].path@ by {}
        reveal_strlit(".dll");
        assert(".dll"@ =~= seq!['.', 'd', 'l', 'l']);
        assert(own_dll(top_of(paths[0])) =~= top_of(entries@[0].path@) + seq!['/'] + top_of(entries@[0].path@) + seq!['.', 'd', 'l', 'l']);
    }
    if any_game {
        return Ok(InstallRoot::GameDir);
    }
    if any_css {
        return Ok(InstallRoot::CssDir);
    }
    if same_top && first_top.len() > 0 && has_own_dll(entries, first_top.as_slice()) {
        return Ok(InstallRoot::PluginsDir);
    }
    match first_loose_dll(entries) {
        Some(i) => {
            let p = chars_of(entries[i].path.as_str());
            proof {
                reveal_strlit(".dll");
                assert(paths[i as int] == p@);
                assert(lower_seq(p@).len() == p@.len());
                let w = choose|w: int| 0 <= w < paths.len() && loose_dll(paths[w]) && forall|j: int| 0 <= j < w ==> !loose_dll(#[trigger] paths[j]);
                if w < i {
                    assert(!loose_dll(paths[w]));
                } else if w > i {
                    assert(!loose_dll(paths[i as int]));
                }
            }
            let name = sub_chars(p.as_slice(), 0, p.len() - 4);
            Ok(InstallRoot::WrapIntoFolder(string_of(name.as_slice())))
        },
        None => Err(String::from_str("unrecognized archive layout: expected addons/…, plugins/…, <Name>/<Name>.dll or a top-level .dll")),
    }
}

} // verus!
