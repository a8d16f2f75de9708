//! Forward-slash path helpers for node paths and request-supplied names.

use vstd::prelude::*;

use crate::text::{chars_of, contains_char, lemma_split_nonempty, split_on, split_vec, string_of};

verus! {

pub open spec fn strip_trailing(s: Seq<char>, c: char) -> Seq<char>
    decreases s.len(),
{
    if s.len() > 0 && s.last() == c {
        strip_trailing(s.drop_last(), c)
    } else {
        s
    }
}

pub open spec fn strip_leading(s: Seq<char>, c: char) -> Seq<char>
    decreases s.len(),
{
    if s.len() > 0 && s[0] == c {
        strip_leading(s.drop_first(), c)
    } else {
        s
    }
}

/// `base/rel` with exactly one slash between the parts; an empty part
/// leaves the other unchanged.
pub open spec fn join_spec(base: Seq<char>, rel: Seq<char>) -> Seq<char> {
    if base.len() == 0 {
        rel
    } else if rel.len() == 0 {
        base
    } else {
        strip_trailing(base, '/') + seq!['/'] + strip_leading(rel, '/')
    }
}

pub fn strip_trailing_vec(s: &[char], c: char) -> (r: Vec<char>)
    ensures
        r@ == strip_trailing(s@, c),
{
    let mut b: usize = s.len();
    assert(s@.take(s@.len() as int) == s@);
    while b > 0 && s[b - 1] == c
        invariant
            b <= s@.len(),
            strip_trailing(s@, c) == strip_trailing(s@.take(b as int), c),
        decreases b,
    {
        assert(s@.take(b as int).drop_last() == s@.take(b - 1));
        b = b - 1;
    }
    let mut r: Vec<char> = Vec::new();
    let mut i: usize = 0;
    while i < b
        invariant
            i <= b <= s@.len(),
            r@ == s@.take(i as int),
        decreases b - i,
    {
        r.push(s[i]);
        assert(s@.take(i + 1) == s@.take(i as int).push(s@[i as int]));
        i = i + 1;
    }
    proof {
        if b == s@.len() {
            assert(s@.take(b as int) == s@);
        }
    }
    r
}

pub fn strip_leading_vec(s: &[char], c: char) -> (r: Vec<char>)
    ensures
        r@ == strip_leading(s@, c),
{
    let mut a: usize = 0;
    assert(s@.skip(0) == s@);
    while a < s.len() && s[a] == c
        invariant
            a <= s@.len(),
            strip_leading(s@, c) == strip_leading(s@.skip(a as int), c),
        decreases s@.len() - a,
    {
        assert(s@.skip(a as int).drop_first() == s@.skip(a + 1));
        a = a + 1;
    }
    let mut r: Vec<char> = Vec::new();
    let mut i: usize = a;
    while i < s.len()
        invariant
            a <= i <= s@.len(),
            r@ == s@.subrange(a as int, i as int),
        decreases s@.len() - i,
    {
        r.push(s[i]);
        assert(s@.subrange(a as int, i + 1) == s@.subrange(a as int, i as int).push(s@[i as int]));
        i = i + 1;
    }
    assert(s@.subrange(a as int, s@.len() as int) == s@.skip(a as int));
    r
}

pub fn join(base: &str, rel: &str) -> (r: String)
    ensures
        r@ == join_spec(base@, rel@),
        base@.len() == 0 ==> r@ == rel@,
        rel@.len() == 0 ==> r@ == base@,
        base@.len() > 0 && rel@.len() > 0 && base@.last() != '/' && rel@[0] != '/'
            ==> r@ == base@ + seq!['/'] + rel@,
{
    let b = chars_of(base);
    let c = chars_of(rel);
    if b.len() == 0 {
        return rel.to_owned();
    }
    if c.len() == 0 {
        return base.to_owned();
    }
    let mut out = strip_trailing_vec(b.as_slice(), '/');
    out.push('/');
    let mut tail = strip_leading_vec(c.as_slice(), '/');
    out.append(&mut tail);
    string_of(out.as_slice())
}

/// The last `/`-separated segment.
pub open spec fn file_name_spec(path: Seq<char>) -> Seq<char> {
    split_on(path, '/').last()
}

pub proof fn lemma_split_last_no_sep(s: Seq<char>, sep: char, i: int)
    requires
        0 <= i <= s.len(),
        forall|k: int| i <= k < s.len() ==> s[k] != sep,
        i == 0 || s[i - 1] == sep,
    ensures
        split_on(s, sep).last() == s.skip(i),
    decreases s.len(),
{
    lemma_split_nonempty(s, sep);
    if s.len() == i {
        if i > 0 {
            lemma_split_nonempty(s.drop_last(), sep);
        }
        assert(s.skip(i) =~= Seq::<char>::empty());
    } else {
        lemma_split_last_no_sep(s.drop_last(), sep, i);
        lemma_split_nonempty(s.drop_last(), sep);
        assert(s.drop_last().skip(i).push(s.last()) =~= s.skip(i));
    }
}

pub fn file_name(path: &str) -> (r: String)
    ensures
        r@ == file_name_spec(path@),
{
    let v = chars_of(path);
    let mut i: usize = v.len();
    while i > 0 && v[i - 1] != '/'
        invariant
            i <= v@.len(),
            forall|k: int| i <= k < v@.len() ==> v@[k] != '/',
        decreases i,
    {
        i = i - 1;
    }
    proof {
        lemma_split_last_no_sep(v@, '/', i as int);
    }
    let mut r: Vec<char> = Vec::new();
    let mut k: usize = i;
    while k < v.len()
        invariant
            i <= k <= v@.len(),
            r@ == v@.subrange(i as int, k as int),
        decreases v@.len() - k,
    {
        r.push(v[k]);
        assert(v@.subrange(i as int, k + 1) == v@.subrange(i as int, k as int).push(v@[k as int]));
        k = k + 1;
    }
    assert(v@.subrange(i as int, v@.len() as int) == v@.skip(i as int));
    string_of(r.as_slice())
}

/// A single path component that cannot escape its directory.
pub open spec fn valid_file_name(s: Seq<char>) -> bool {
    &&& s.len() > 0
    &&& s != seq!['.']
    &&& s != seq!['.', '.']
    &&& !s.contains('/')
    &&& !s.contains('\\')
    &&& !s.contains('\0')
}

fn is_dot_or_dotdot(s: &[char]) -> (r: bool)
    ensures
        r == (s@ == seq!['.'] || s@ == seq!['.', '.']),
{
    if s.len() == 1 {
        let r = s[0] == '.';
        proof {
            if r {
                assert(s@ =~= seq!['.']);
            }
        }
        r
    } else if s.len() == 2 {
        let r = s[0] == '.' && s[1] == '.';
        proof {
            if r {
                assert(s@ =~= seq!['.', '.']);
            }
        }
        r
    } else {
        false
    }
}

/// Accepts a single path component; the error says what is wrong with it.
pub fn sanitize_file_name(name: &str) -> (r: Result<(), String>)
    ensures
        r is Ok <==> valid_file_name(name@),
{
    let v = chars_of(name);
    if v.len() == 0 {
        return Err(String::from_str("name must not be empty"));
    }
    if is_dot_or_dotdot(v.as_slice()) {
        return Err(String::from_str("name must not be . or .."));
    }
    if contains_char(v.as_slice(), '/') || contains_char(v.as_slice(), '\\') {
        return Err(String::from_str("name must not contain path separators"));
    }
    if contains_char(v.as_slice(), '\0') {
        return Err(String::from_str("name must not contain NUL"));
    }
    Ok(())
}

/// A relative path that stays inside its root: not empty, not absolute, no
/// backslash or NUL, and no `..` segment.
pub open spec fn valid_rel_path(s: Seq<char>) -> bool {
    &&& s.len() > 0
    &&& s[0] != '/'
    &&& !s.contains('\\')
    &&& !s.contains('\0')
    &&& forall|k: int| 0 <= k < split_on(s, '/').len() ==> #[trigger] split_on(s, '/')[k] != seq!['.', '.']
}

pub fn sanitize_rel_path(path: &str) -> (r: Result<(), String>)
    ensures
        r is Ok <==> valid_rel_path(path@),
{
    let v = chars_of(path);
    if v.len() == 0 {
        return Err(String::from_str("path must not be empty"));
    }
    if v[0] == '/' {
        return Err(String::from_str("path must be relative"));
    }
    if contains_char(v.as_slice(), '\\') || contains_char(v.as_slice(), '\0') {
        return Err(String::from_str("path contains a forbidden character"));
    }
    let segments = split_vec(v.as_slice(), '/');
    let mut i: usize = 0;
    while i < segments.len()
        invariant
            i <= segments@.len(),
            v@ == path@,
            segments@.len() == split_on(v@, '/').len(),
            forall|k: int| 0 <= k < segments@.len() ==> #[trigger] segments@[k]@ == split_on(v@, '/')[k],
            forall|k: int| 0 <= k < i ==> #[trigger] split_on(v@, '/')[k] != seq!['.', '.'],
        decreases segments@.len() - i,
    {
        let seg = &segments[i];
        if seg.len() == 2 && seg[0] == '.' && seg[1] == '.' {
            assert(segments@[i as int]@ =~= seq!['.', '.']);
            assert(split_on(v@, '/')[i as int] == seq!['.', '.']);
            assert(!valid_rel_path(path@));
            return Err(String::from_str("path must not contain .. segments"));
        }
        proof {
            if split_on(v@, '/')[i as int] == seq!['.', '.'] {
                assert(segments@[i as int]@.len() == 2);
            }
        }
        i = i + 1;
    }
    Ok(())
}

} // verus!
