//! gameinfo.gi: is the Metamod search path wired in, and wiring it.
//!
//! Installing Metamod:Source on CS2 requires adding
//! `Game csgo/addons/metamod` to the SearchPaths block of gameinfo.gi.
//! Content is read as lossy UTF-8, line by line; comments (`//`) are ignored.

use vstd::prelude::*;
use vstd::utf8::encode_utf8;

use crate::text::{
    chars_of, contains, contains_seq, decode_text, find_from, first_occurrence_from,
    has_prefix, is_whitespace, is_ws, lemma_split_nonempty, lossy_text, lower_seq, occurs_at, eq_ic, split_on,
    split_vec, starts_with, sub_chars, to_lower, trim, trim_vec, eq_ignore_case, utf8_of,
};

verus! {

pub open spec fn comment_mark() -> Seq<char> {
    seq!['/', '/']
}

/// The code part of a line: everything before its first `//`.
pub open spec fn code_of(line: Seq<char>) -> Seq<char> {
    if contains_seq(line, comment_mark()) {
        line.take(choose|i: int| first_occurrence_from(line, comment_mark(), 0, i))
    } else {
        line
    }
}

pub proof fn lemma_first_occurrence_unique(s: Seq<char>, p: Seq<char>, i: int, k: int)
    requires
        first_occurrence_from(s, p, 0, i),
        first_occurrence_from(s, p, 0, k),
    ensures
        i == k,
{
}

fn code_vec(line: &[char]) -> (r: Vec<char>)
    ensures
        r@ == code_of(line@),
        r@.len() <= line@.len(),
{
    let mark: Vec<char> = vec!['/', '/'];
    match find_from(line, mark.as_slice(), 0) {
        Some(i) => {
            proof {
                let k = choose|k: int| first_occurrence_from(line@, comment_mark(), 0, k);
                lemma_first_occurrence_unique(line@, comment_mark(), i as int, k);
            }
            sub_chars(line, 0, i)
        },
        None => {
            assert(!contains_seq(line@, comment_mark()));
            vstd::slice::slice_to_vec(line)
        },
    }
}

pub open spec fn metamod_path() -> Seq<char> {
    "addons/metamod"@
}

/// A line whose code names the addons/metamod search path (any case).
pub open spec fn line_wired(line: Seq<char>) -> bool {
    contains_seq(lower_seq(code_of(line)), metamod_path())
}

/// Some line of the text is wired (`str::lines` splits at `\n`; a trailing
/// `\r` never changes whether a line names the path).
pub open spec fn wired_text(text: Seq<char>) -> bool {
    exists|k: int| 0 <= k < split_on(text, '\n').len() && line_wired(#[trigger] split_on(text, '\n')[k])
}

pub open spec fn metamod_wired(content: Seq<u8>) -> bool {
    wired_text(lossy_text(content))
}

fn wired_chars(text: &[char]) -> (r: bool)
    ensures
        r == wired_text(text@),
{
    let lines = split_vec(text, '\n');
    let path = chars_of("addons/metamod");
    let mut k: usize = 0;
    while k < lines.len()
        invariant
            lines@.len() == split_on(text@, '\n').len(),
            forall|j: int| 0 <= j < lines@.len() ==> #[trigger] lines@[j]@ == split_on(text@, '\n')[j],
            path@ == metamod_path(),
            k <= lines@.len(),
            forall|j: int| 0 <= j < k ==> !line_wired(#[trigger] split_on(text@, '\n')[j]),
        decreases lines@.len() - k,
    {
        let code = code_vec(lines[k].as_slice());
        let lower = to_lower(code.as_slice());
        if contains(lower.as_slice(), path.as_slice()) {
            assert(line_wired(split_on(text@, '\n')[k as int]));
            return true;
        }
        k = k + 1;
    }
    false
}

/// True when a non-comment line references the addons/metamod search path.
pub fn is_metamod_wired(content: &[u8]) -> (r: bool)
    ensures
        r == metamod_wired(content@),
{
    let text = decode_text(content);
    let chars = chars_of(text.as_str());
    wired_chars(chars.as_slice())
}

/// Length of the first line of `s`, its `\n` included.
pub open spec fn line_len(s: Seq<char>) -> nat
    decreases s.len(),
{
    if s.len() == 0 {
        0
    } else if s[0] == '\n' {
        1
    } else {
        1 + line_len(s.drop_first())
    }
}

pub proof fn lemma_line_len(s: Seq<char>)
    ensures
        line_len(s) <= s.len(),
        s.len() > 0 ==> line_len(s) >= 1,
    decreases s.len(),
{
    if s.len() > 0 && s[0] != '\n' {
        lemma_line_len(s.drop_first());
    }
}

pub open spec fn count_char(s: Seq<char>, c: char) -> int
    decreases s.len(),
{
    if s.len() == 0 {
        0
    } else {
        count_char(s.drop_last(), c) + if s.last() == c { 1int } else { 0int }
    }
}

pub proof fn lemma_count_bound(s: Seq<char>, c: char)
    ensures
        0 <= count_char(s, c) <= s.len(),
    decreases s.len(),
{
    if s.len() > 0 {
        lemma_count_bound(s.drop_last(), c);
    }
}

/// The longest prefix of `s` whose characters all satisfy `p`.
pub open spec fn take_while(s: Seq<char>, p: spec_fn(char) -> bool) -> Seq<char>
    decreases s.len(),
{
    if s.len() > 0 && p(s[0]) {
        seq![s[0]] + take_while(s.drop_first(), p)
    } else {
        Seq::empty()
    }
}

pub proof fn lemma_take_while(s: Seq<char>, p: spec_fn(char) -> bool, i: int)
    requires
        0 <= i <= s.len(),
        forall|j: int| 0 <= j < i ==> p(#[trigger] s[j]),
        i == s.len() || !p(s[i]),
    ensures
        take_while(s, p) == s.take(i),
    decreases i,
{
    if i > 0 {
        assert forall|j: int| 0 <= j < i - 1 implies p(#[trigger] s.drop_first()[j]) by {
            assert(s.drop_first()[j] == s[j + 1]);
        }
        lemma_take_while(s.drop_first(), p, i - 1);
        assert(seq![s[0]] + s.drop_first().take(i - 1) =~= s.take(i));
    }
}

pub open spec fn not_ws(c: char) -> bool {
    !is_ws(c)
}

pub open spec fn is_blank(c: char) -> bool {
    c == ' ' || c == '\t'
}

/// First white-space separated token of an already trimmed line.
pub open spec fn first_token(t: Seq<char>) -> Seq<char> {
    take_while(t, |c: char| not_ws(c))
}

/// Leading spaces and tabs of a line.
pub open spec fn indent_of(line: Seq<char>) -> Seq<char> {
    take_while(line, |c: char| is_blank(c))
}

/// The line scan that finds where the Metamod line goes: the start offset
/// and the indentation of the first `Game` entry inside the SearchPaths
/// block, or `None` when the block closes (or the text ends) without one.
pub open spec fn scan(rest: Seq<char>, offset: int, in_sp: bool, entered: bool, depth: int) -> Option<(int, Seq<char>)>
    decreases rest.len(),
{
    if rest.len() == 0 {
        None
    } else {
        let n = line_len(rest);
        let line = rest.take(n as int);
        let code = code_of(line);
        let t = trim(code);
        let opens = count_char(code, '{');
        if n == 0 {
            None
        } else if !in_sp {
            proof {
                lemma_line_len(rest);
            }
            if has_prefix(lower_seq(t), "searchpaths"@) {
                scan(rest.skip(n as int), offset + n, true, entered || depth + opens > 0, depth + opens)
            } else {
                scan(rest.skip(n as int), offset + n, false, entered, depth)
            }
        } else {
            let d = depth + opens;
            if d > 0 && eq_ic(first_token(t), "game"@) {
                Some((offset, indent_of(line)))
            } else {
                proof {
                    lemma_line_len(rest);
                }
                let ent = entered || d > 0;
                let d2 = d - count_char(code, '}');
                if ent && d2 <= 0 {
                    None
                } else {
                    scan(rest.skip(n as int), offset + n, true, ent, d2)
                }
            }
        }
    }
}

pub open spec fn metamod_line() -> Seq<char> {
    "Game\tcsgo/addons/metamod"@
}

/// The line break the text already uses.
pub open spec fn newline_of(text: Seq<char>) -> Seq<char> {
    if contains_seq(text, seq!['\r', '\n']) {
        seq!['\r', '\n']
    } else {
        seq!['\n']
    }
}

/// The patched text, or `None` when it is already wired or has no
/// SearchPaths `Game` entry to anchor the new line.
pub open spec fn wire_text(text: Seq<char>) -> Option<Seq<char>> {
    if wired_text(text) {
        None
    } else {
        match scan(text, 0, false, false, 0) {
            Some((at, indent)) => Some(
                text.take(at) + indent + metamod_line() + newline_of(text) + text.skip(at),
            ),
            None => None,
        }
    }
}

fn count_vec(s: &[char], c: char) -> (n: usize)
    ensures
        n == count_char(s@, c),
{
    let mut n: usize = 0;
    let mut i: usize = 0;
    while i < s.len()
        invariant
            i <= s@.len(),
            n == count_char(s@.take(i as int), c),
            n <= i,
        decreases s@.len() - i,
    {
        assert(s@.take(i + 1).drop_last() == s@.take(i as int));
        if s[i] == c {
            n = n + 1;
        }
        i = i + 1;
    }
    assert(s@.take(s@.len() as int) == s@);
    n
}

fn token_vec(t: &[char]) -> (r: Vec<char>)
    ensures
        r@ == first_token(t@),
{
    let mut i: usize = 0;
    while i < t.len() && !is_whitespace(t[i])
        invariant
            i <= t@.len(),
            forall|j: int| 0 <= j < i ==> not_ws(#[trigger] t@[j]),
        decreases t@.len() - i,
    {
        i = i + 1;
    }
    proof {
        lemma_take_while(t@, |c: char| not_ws(c), i as int);
    }
    sub_chars(t, 0, i)
}

fn indent_vec(line: &[char]) -> (r: Vec<char>)
    ensures
        r@ == indent_of(line@),
{
    let mut i: usize = 0;
    while i < line.len() && (line[i] == ' ' || line[i] == '\t')
        invariant
            i <= line@.len(),
            forall|j: int| 0 <= j < i ==> is_blank(#[trigger] line@[j]),
        decreases line@.len() - i,
    {
        i = i + 1;
    }
    proof {
        lemma_take_while(line@, |c: char| is_blank(c), i as int);
    }
    sub_chars(line, 0, i)
}

/// Index just past the first line that starts at `from`.
fn line_end(text: &[char], from: usize) -> (e: usize)
    requires
        from <= text@.len(),
    ensures
        e == from + line_len(text@.skip(from as int)),
        e <= text@.len(),
{
    let mut i: usize = from;
    proof {
        lemma_line_len(text@.skip(from as int));
    }
    while i < text.len() && text[i] != '\n'
        invariant
            from <= i <= text@.len(),
            forall|j: int| from <= j < i ==> text@[j] != '\n',
            line_len(text@.skip(from as int)) == (i - from) + line_len(text@.skip(i as int)),
        decreases text@.len() - i,
    {
        assert(text@.skip(i as int).drop_first() == text@.skip(i + 1));
        i = i + 1;
    }
    if i < text.len() {
        i + 1
    } else {
        assert(text@.skip(i as int).len() == 0);
        i
    }
}

fn find_anchor(text: &[char]) -> (r: Option<(usize, Vec<char>)>)
    ensures
        match scan(text@, 0, false, false, 0) {
            Some((at, indent)) => r matches Some((a, ind)) && a == at && ind@ == indent && a <= text@.len(),
            None => r is None,
        },
{
    let searchpaths = chars_of("searchpaths");
    let game = chars_of("game");
    proof {
        reveal_strlit("searchpaths");
        reveal_strlit("game");
    }
    let mut offset: usize = 0;
    let mut in_sp = false;
    let mut entered = false;
    let mut depth: i128 = 0;
    assert(text@.skip(0) == text@);
    while offset < text.len()
        invariant
            offset <= text@.len(),
            searchpaths@ == "searchpaths"@,
            game@ == "game"@,
            -(offset as int) <= depth <= offset,
            scan(text@, 0, false, false, 0) == scan(text@.skip(offset as int), offset as int, in_sp, entered, depth as int),
        decreases text@.len() - offset,
    {
        let ghost rest = text@.skip(offset as int);
        let end = line_end(text, offset);
        proof {
            lemma_line_len(rest);
        }
        let line: Vec<char> = sub_chars(text, offset, end);
        assert(line@ == rest.take(line_len(rest) as int));
        let code = code_vec(line.as_slice());
        let t = trim_vec(code.as_slice());
        let opens = count_vec(code.as_slice(), '{');
        proof {
            lemma_count_bound(code@, '{');
            lemma_count_bound(code@, '}');
            assert(rest.skip(line_len(rest) as int) == text@.skip(end as int));
        }
        if !in_sp {
            let lower = to_lower(t.as_slice());
            if starts_with(lower.as_slice(), searchpaths.as_slice()) {
                in_sp = true;
                depth = depth + opens as i128;
                if depth > 0 {
                    entered = true;
                }
            }
        } else {
            depth = depth + opens as i128;
            if depth > 0 {
                entered = true;
                let tok = token_vec(t.as_slice());
                if eq_ignore_case(tok.as_slice(), game.as_slice()) {
                    let indent = indent_vec(line.as_slice());
                    return Some((offset, indent));
                }
            }
            let closes = count_vec(code.as_slice(), '}');
            depth = depth - closes as i128;
            if entered && depth <= 0 {
                return None;
            }
        }
        offset = end;
    }
    None
}

/// Inserts the Metamod search path into the SearchPaths block, mimicking the
/// official install instructions: the line goes right before the first `Game`
/// entry, copying that entry's indentation. Returns `None` when the content is
/// already wired or has no SearchPaths block to patch (both mean "nothing to
/// write"; [`is_metamod_wired`] tells them apart).
pub fn wire_metamod(content: &[u8]) -> (r: Option<Vec<u8>>)
    ensures
        match wire_text(lossy_text(content@)) {
            Some(t) => r matches Some(b) && lossy_text(b@) == t && b@ == encode_utf8(t),
            None => r is None,
        },
        r matches Some(b) ==> metamod_wired(b@),
{
    let text = decode_text(content);
    let chars = chars_of(text.as_str());
    if wired_chars(chars.as_slice()) {
        return None;
    }
    let crlf: Vec<char> = vec!['\r', '\n'];
    let windows = contains(chars.as_slice(), crlf.as_slice());
    match find_anchor(chars.as_slice()) {
        Some((at, indent)) => {
            let mut out: Vec<char> = sub_chars(chars.as_slice(), 0, at);
            let mut tail: Vec<char> = sub_chars(chars.as_slice(), at, chars.len());
            let mut ind = indent;
            out.append(&mut ind);
            let mut line = chars_of("Game\tcsgo/addons/metamod");
            out.append(&mut line);
            if windows {
                out.push('\r');
            }
            out.push('\n');
            out.append(&mut tail);
            proof {
                assert(crlf@ == seq!['\r', '\n']);
                assert(out@ == chars@.take(at as int) + indent@ + metamod_line() + newline_of(chars@) + chars@.skip(at as int));
            }
            let patched = crate::text::string_of(out.as_slice());
            proof {
                lemma_wire_then_wired(chars@);
            }
            Some(utf8_of(patched.as_str()))
        },
        None => None,
    }
}

/// Splitting a concatenation: the last piece of `a` and the first piece of
/// `b` join into one.
pub proof fn lemma_split_concat(a: Seq<char>, b: Seq<char>, sep: char)
    ensures
        split_on(a + b, sep) == split_on(a, sep).drop_last() + seq![split_on(a, sep).last() + split_on(b, sep)[0]]
            + split_on(b, sep).drop_first(),
    decreases b.len(),
{
    lemma_split_nonempty(a, sep);
    lemma_split_nonempty(b, sep);
    let sa = split_on(a, sep);
    if b.len() == 0 {
        assert(a + b =~= a);
        assert(sa.last() + Seq::<char>::empty() =~= sa.last());
        assert(sa.drop_last() + seq![sa.last()] =~= sa);
        assert(split_on(b, sep).drop_first() =~= Seq::<Seq<char>>::empty());
        assert(sa.drop_last() + seq![sa.last() + split_on(b, sep)[0]] + split_on(b, sep).drop_first() =~= sa);
    } else {
        let b2 = b.drop_last();
        lemma_split_concat(a, b2, sep);
        lemma_split_nonempty(b2, sep);
        assert((a + b).drop_last() =~= a + b2);
        assert((a + b).last() == b.last());
        let r2 = split_on(b2, sep);
        let rb = split_on(b, sep);
        let whole2 = split_on(a + b2, sep);
        if b.last() == sep {
            assert(rb == r2.push(Seq::<char>::empty()));
            assert(rb[0] == r2[0]);
            assert(rb.drop_first() =~= r2.drop_first().push(Seq::<char>::empty()));
            assert(split_on(a + b, sep) == whole2.push(Seq::<char>::empty()));
            assert(whole2.push(Seq::<char>::empty()) =~= sa.drop_last() + seq![sa.last() + rb[0]] + rb.drop_first());
        } else {
            assert(rb == r2.update(r2.len() - 1, r2.last().push(b.last())));
            assert(split_on(a + b, sep) == whole2.update(whole2.len() - 1, whole2.last().push(b.last())));
            if r2.len() == 1 {
                assert(rb[0] == r2[0].push(b.last()));
                assert(rb.drop_first() =~= Seq::<Seq<char>>::empty());
                assert(r2.drop_first() =~= Seq::<Seq<char>>::empty());
                assert(sa.last() + r2[0].push(b.last()) =~= (sa.last() + r2[0]).push(b.last()));
                assert(whole2.update(whole2.len() - 1, whole2.last().push(b.last())) =~= sa.drop_last()
                    + seq![sa.last() + rb[0]] + rb.drop_first());
            } else {
                assert(rb[0] == r2[0]);
                assert(rb.drop_first() =~= r2.drop_first().update(r2.len() - 2, r2.last().push(b.last())));
                assert(whole2.update(whole2.len() - 1, whole2.last().push(b.last())) =~= sa.drop_last()
                    + seq![sa.last() + rb[0]] + rb.drop_first());
            }
        }
    }
}

/// A text without the separator is one piece.
pub proof fn lemma_split_single(s: Seq<char>, sep: char)
    requires
        !s.contains(sep),
    ensures
        split_on(s, sep) == seq![s],
    decreases s.len(),
{
    if s.len() > 0 {
        assert(!s.drop_last().contains(sep)) by {
            if s.drop_last().contains(sep) {
                let i = choose|i: int| 0 <= i < s.drop_last().len() && s.drop_last()[i] == sep;
                assert(s[i] == sep);
            }
        }
        lemma_split_single(s.drop_last(), sep);
        assert(s.last() != sep) by {
            assert(s[s.len() - 1] == s.last());
        }
        assert(s.drop_last().push(s.last()) =~= s);
        assert(seq![s.drop_last()].update(0, s.drop_last().push(s.last())) =~= seq![s]);
    } else {
        assert(s =~= Seq::<char>::empty());
    }
}

/// A text that ends with the separator ends with an empty piece.
pub proof fn lemma_split_ends_empty(s: Seq<char>, sep: char)
    requires
        s.len() == 0 || s.last() == sep,
    ensures
        split_on(s, sep).last() == Seq::<char>::empty(),
{
    if s.len() > 0 {
        lemma_split_nonempty(s.drop_last(), sep);
    }
}

pub proof fn lemma_take_while_all(s: Seq<char>, p: spec_fn(char) -> bool)
    ensures
        forall|j: int| 0 <= j < take_while(s, p).len() ==> p(#[trigger] take_while(s, p)[j]),
        take_while(s, p).len() <= s.len(),
    decreases s.len(),
{
    if s.len() > 0 && p(s[0]) {
        lemma_take_while_all(s.drop_first(), p);
        let t = take_while(s, p);
        let u = take_while(s.drop_first(), p);
        assert forall|j: int| 0 <= j < t.len() implies p(#[trigger] t[j]) by {
            if j > 0 {
                assert(t[j] == u[j - 1]);
            }
        }
    }
}

pub proof fn lemma_line_ends_with_newline(s: Seq<char>)
    requires
        line_len(s) < s.len(),
    ensures
        line_len(s) >= 1,
        s[line_len(s) - 1] == '\n',
    decreases s.len(),
{
    if s[0] != '\n' {
        lemma_line_ends_with_newline(s.drop_first());
    }
}

/// Where the scan anchors: at a line start, with blank indentation.
pub proof fn lemma_scan_anchor(rest: Seq<char>, offset: int, in_sp: bool, entered: bool, depth: int)
    ensures
        scan(rest, offset, in_sp, entered, depth) matches Some((at, ind)) ==> {
            &&& offset <= at <= offset + rest.len()
            &&& (at == offset || rest[at - offset - 1] == '\n')
            &&& forall|j: int| 0 <= j < ind.len() ==> is_blank(#[trigger] ind[j])
        },
    decreases rest.len(),
{
    if rest.len() > 0 {
        let n = line_len(rest);
        lemma_line_len(rest);
        let line = rest.take(n as int);
        lemma_take_while_all(line, |c: char| is_blank(c));
        let code = code_of(line);
        let t = trim(code);
        let opens = count_char(code, '{');
        let next = rest.skip(n as int);
        if !in_sp {
            lemma_scan_anchor(next, offset + n, true, entered || depth + opens > 0, depth + opens);
            lemma_scan_anchor(next, offset + n, false, entered, depth);
        } else {
            let d = depth + opens;
            let ent = entered || d > 0;
            let d2 = d - count_char(code, '}');
            lemma_scan_anchor(next, offset + n, true, ent, d2);
        }
        if scan(rest, offset, in_sp, entered, depth) is Some {
            let (at, ind) = scan(rest, offset, in_sp, entered, depth).unwrap();
            if at > offset {
                assert(next.len() > 0);
                lemma_line_ends_with_newline(rest);
                if at > offset + n {
                    assert(rest[at - offset - 1] == next[at - offset - n - 1]);
                }
            }
        }
    }
}

/// No `//` starts inside the Metamod line or right at its end.
proof fn lemma_no_mark_in_line(m: Seq<char>, q: Seq<char>, ind: Seq<char>)
    requires
        m == ind + metamod_line(),
        forall|j: int| 0 <= j < ind.len() ==> is_blank(#[trigger] ind[j]),
    ensures
        forall|i: int| 0 <= i < m.len() ==> !occurs_at(m + q, comment_mark(), i),
{
    reveal_strlit("Game\tcsgo/addons/metamod");
    assert forall|i: int| 0 <= i < m.len() implies !occurs_at(m + q, comment_mark(), i) by {
        if occurs_at(m + q, comment_mark(), i) {
            assert((m + q).subrange(i, i + 2)[0] == '/');
            assert((m + q)[i] == '/');
            assert(m[i] == '/');
            if i < ind.len() {
                assert(is_blank(ind[i]));
            } else {
                let k = i - ind.len();
                assert(metamod_line()[k] == '/');
                assert(i + 1 < m.len());
                assert((m + q).subrange(i, i + 2)[1] == '/');
                assert(m[i + 1] == '/');
                assert(metamod_line()[k + 1] == '/');
            }
        }
    }
}

/// Wiring a text leaves it wired: the inserted line names the path.
pub proof fn lemma_wire_then_wired(text: Seq<char>)
    requires
        wire_text(text) is Some,
    ensures
        wired_text(wire_text(text).unwrap()),
{
    reveal_strlit("Game\tcsgo/addons/metamod");
    reveal_strlit("addons/metamod");
    lemma_scan_anchor(text, 0, false, false, 0);
    let (at, ind) = scan(text, 0, false, false, 0).unwrap();
    let p = text.take(at);
    let m = ind + metamod_line();
    let q = newline_of(text) + text.skip(at);
    let t = wire_text(text).unwrap();
    assert(t =~= p + (m + q));
    assert(!m.contains('\n')) by {
        if m.contains('\n') {
            let i = choose|i: int| 0 <= i < m.len() && m[i] == '\n';
            if i < ind.len() {
                assert(is_blank(ind[i]));
            } else {
                assert(metamod_line()[i - ind.len()] == '\n');
            }
        }
    }
    lemma_split_concat(p, m + q, '\n');
    lemma_split_concat(m, q, '\n');
    lemma_split_single(m, '\n');
    lemma_split_ends_empty(p, '\n');
    lemma_split_nonempty(p, '\n');
    lemma_split_nonempty(q, '\n');
    let q0 = split_on(q, '\n')[0];
    let piece = m + q0;
    assert(split_on(m + q, '\n')[0] == Seq::<char>::empty().add(m) + q0) by {
        assert(seq![m].drop_last() =~= Seq::<Seq<char>>::empty());
    }
    assert(Seq::<char>::empty().add(m) =~= m);
    let k = split_on(p, '\n').len() - 1;
    assert(split_on(t, '\n')[k] == Seq::<char>::empty() + split_on(m + q, '\n')[0]);
    assert(Seq::<char>::empty() + piece =~= piece);
    assert(split_on(t, '\n')[k] == piece);
    lemma_no_mark_in_line(m, q0, ind);
    let code = code_of(piece);
    assert(has_prefix(code, m)) by {
        if contains_seq(piece, comment_mark()) {
            let i = choose|i: int| first_occurrence_from(piece, comment_mark(), 0, i);
            let w = choose|w: int| occurs_at(piece, comment_mark(), w);
            if !first_occurrence_from(piece, comment_mark(), 0, i) {
                lemma_first_exists(piece, comment_mark(), w);
            }
            assert(i >= m.len());
            assert(code.take(m.len() as int) =~= m);
        } else {
            assert(code.take(m.len() as int) =~= m);
        }
    }
    let off: int = ind.len() as int + 10;
    assert(lower_seq(code).subrange(off, off + 14) =~= metamod_path()) by {
        assert forall|j: int| 0 <= j < 14 implies lower_seq(code).subrange(off, off + 14)[j] == metamod_path()[j] by {
            assert(code[off + j] == m[off + j]);
            assert(m[off + j] == metamod_line()[10 + j]);
        }
    }
    assert(occurs_at(lower_seq(code), metamod_path(), off));
    assert(line_wired(split_on(t, '\n')[k]));
}

/// Repairing is idempotent: the text that wiring produces is wired, so a
/// second repair finds nothing to patch.
pub proof fn lemma_wire_idempotent(text: Seq<char>)
    requires
        wire_text(text) is Some,
    ensures
        wire_text(wire_text(text).unwrap()) is None,
{
    lemma_wire_then_wired(text);
}

/// Some occurrence implies a first one.
pub proof fn lemma_first_exists(s: Seq<char>, p: Seq<char>, w: int)
    requires
        occurs_at(s, p, w),
    ensures
        exists|i: int| first_occurrence_from(s, p, 0, i),
    decreases w,
{
    if exists|k: int| 0 <= k < w && occurs_at(s, p, k) {
        let k = choose|k: int| 0 <= k < w && occurs_at(s, p, k);
        lemma_first_exists(s, p, k);
    } else {
        assert(first_occurrence_from(s, p, 0, w));
    }
}

} // verus!
