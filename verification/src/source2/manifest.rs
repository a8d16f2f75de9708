//! plugins_meta.json: per-plugin comments and groups, keyed by plugin folder
//! name. The file is shared with the AddonsManager CounterStrikeSharp plugin
//! (its `css_addons comment/group` commands), so parsing keeps every field
//! this plugin does not understand.

use vstd::prelude::*;

use crate::json::{find_key as json_find_key, first_key_at, get_member, has_key, object_bytes_pretty, json_text_pretty, member, parse_json, parsed_json, Json};
use crate::order::{lex_less, lex_lt};
use crate::text::{chars_of, eq_ic, eq_ignore_case, trim, trim_vec, string_of};

verus! {

/// The members of a JSON object, in the order they are kept.
pub struct Manifest {
    pub root: Vec<(String, Json)>,
}

/// `i` is the first member whose key equals `name` up to ASCII case.
pub open spec fn first_ic_at(root: Seq<(String, Json)>, name: Seq<char>, i: int) -> bool {
    &&& 0 <= i < root.len()
    &&& eq_ic(root[i].0@, name)
    &&& forall|j: int| 0 <= j < i ==> !eq_ic(#[trigger] root[j].0@, name)
}

pub open spec fn has_ic(root: Seq<(String, Json)>, name: Seq<char>) -> bool {
    exists|i: int| 0 <= i < root.len() && eq_ic(#[trigger] root[i].0@, name)
}

/// The entry a name refers to: the member with exactly that key, else the
/// first whose key matches up to ASCII case.
pub open spec fn key_index(root: Seq<(String, Json)>, name: Seq<char>) -> Option<int> {
    if has_key(root, name) {
        Some(choose|i: int| first_key_at(root, name, i))
    } else if has_ic(root, name) {
        Some(choose|i: int| first_ic_at(root, name, i))
    } else {
        None
    }
}

pub open spec fn mf_contains(root: Seq<(String, Json)>, name: Seq<char>) -> bool {
    key_index(root, name) is Some
}

/// Free text as the manifest reports it: trimmed, and absent when empty.
pub open spec fn shown_text(s: Seq<char>) -> Option<Seq<char>> {
    if trim(s).len() > 0 {
        Some(trim(s))
    } else {
        None
    }
}

/// The text of a string field of an entry object.
pub open spec fn entry_field(v: Json, field: Seq<char>) -> Option<Seq<char>> {
    match v {
        Json::Object(m) => match member(m@, field) {
            Some(Json::Str(s)) => shown_text(s@),
            _ => None,
        },
        _ => None,
    }
}

pub open spec fn field_of(root: Seq<(String, Json)>, name: Seq<char>, field: Seq<char>) -> Option<Seq<char>> {
    match key_index(root, name) {
        Some(i) => entry_field(root[i].1, field),
        None => None,
    }
}

pub open spec fn comment_key() -> Seq<char> {
    "Comment"@
}

pub open spec fn group_key() -> Seq<char> {
    "Group"@
}

/// The members a file's bytes hold: those of its top-level object, none
/// when the file is not a JSON object.
pub open spec fn parsed_root(bytes: Seq<u8>) -> Seq<(String, Json)> {
    match parsed_json(bytes) {
        Some(Json::Object(m)) => m@,
        _ => Seq::empty(),
    }
}

/// The entry a name refers to is one of the members.
pub proof fn lemma_key_index_bounds(root: Seq<(String, Json)>, name: Seq<char>)
    ensures
        key_index(root, name) matches Some(i) ==> 0 <= i < root.len(),
        key_index(root, name) matches Some(i) ==> (first_key_at(root, name, i) || first_ic_at(root, name, i)),
{
    if has_key(root, name) {
        let w = choose|w: int| 0 <= w < root.len() && root[w].0@ == name;
        lemma_first_key_exists(root, name, w);
    } else if has_ic(root, name) {
        let w = choose|w: int| 0 <= w < root.len() && eq_ic(root[w].0@, name);
        lemma_first_ic_exists(root, name, w);
    }
}

proof fn lemma_first_ic_unique(root: Seq<(String, Json)>, name: Seq<char>, i: int, k: int)
    requires
        first_ic_at(root, name, i),
        first_ic_at(root, name, k),
    ensures
        i == k,
{
}

proof fn lemma_first_key_unique(root: Seq<(String, Json)>, name: Seq<char>, i: int, k: int)
    requires
        first_key_at(root, name, i),
        first_key_at(root, name, k),
    ensures
        i == k,
{
}

/// Index of the first member whose key matches `name` up to ASCII case.
fn find_ic(root: &Vec<(String, Json)>, name: &str) -> (r: Option<usize>)
    ensures
        match r {
            Some(i) => first_ic_at(root@, name@, i as int),
            None => !has_ic(root@, name@),
        },
{
    let wanted = chars_of(name);
    let mut i: usize = 0;
    while i < root.len()
        invariant
            wanted@ == name@,
            i <= root@.len(),
            forall|j: int| 0 <= j < i ==> !eq_ic(#[trigger] root@[j].0@, name@),
        decreases root@.len() - i,
    {
        let key = chars_of(root[i].0.as_str());
        if eq_ignore_case(key.as_slice(), wanted.as_slice()) {
            return Some(i);
        }
        i = i + 1;
    }
    None
}

/// Position where a new key keeps the members in key order.
fn sorted_position(root: &Vec<(String, Json)>, name: &str) -> (p: usize)
    ensures
        p <= root@.len(),
        forall|j: int| 0 <= j < p ==> !lex_lt(name@, (#[trigger] root@[j]).0@),
        p < root@.len() ==> lex_lt(name@, root@[p as int].0@),
{
    let wanted = chars_of(name);
    let mut i: usize = 0;
    while i < root.len()
        invariant
            i <= root@.len(),
            wanted@ == name@,
            forall|j: int| 0 <= j < i ==> !lex_lt(name@, (#[trigger] root@[j]).0@),
        decreases root@.len() - i,
    {
        let key = chars_of(root[i].0.as_str());
        if lex_less(wanted.as_slice(), key.as_slice()) {
            return i;
        }
        i = i + 1;
    }
    i
}

fn text_member(members: &Vec<(String, Json)>, field: &str) -> (r: Option<String>)
    ensures
        r matches Some(s) ==> entry_field(Json::Object(*members), field@) == Some(s@),
        r is None ==> entry_field(Json::Object(*members), field@) is None,
{
    match get_member(members, field) {
        Some(Json::Str(s)) => {
            let t = trim_vec(chars_of(s.as_str()).as_slice());
            if t.len() > 0 {
                Some(string_of(t.as_slice()))
            } else {
                None
            }
        },
        _ => None,
    }
}

fn has_member(members: &Vec<(String, Json)>, field: &str) -> (b: bool)
    ensures
        b == has_key(members@, field@),
{
    json_find_key(members, field).is_some()
}

/// An object value with `Comment` and `Group` members, the shape AddonsManager
/// writes, keeping every member already there.
fn entry_shape(v: Json) -> (r: Json)
    ensures
        r matches Json::Object(m) && has_key(m@, comment_key()) && has_key(m@, group_key()),
        entry_field(r, comment_key()) == entry_field(v, comment_key()),
        entry_field(r, group_key()) == entry_field(v, group_key()),
{
    proof {
        reveal_strlit("Comment");
        reveal_strlit("Group");
    }
    let mut m: Vec<(String, Json)> = match v {
        Json::Object(m) => m,
        _ => Vec::new(),
    };
    let ghost m0 = m@;
    if !has_member(&m, "Comment") {
        let kv = ("Comment".to_owned(), Json::Str(String::new()));
        let ghost kvg = kv;
        m.push(kv);
        proof {
            lemma_member_push_absent(m0, comment_key(), group_key(), kvg);
            lemma_member_push_absent(m0, comment_key(), comment_key(), kvg);
        }
    }
    let ghost m1 = m@;
    if !has_member(&m, "Group") {
        let kv = ("Group".to_owned(), Json::Str(String::new()));
        let ghost kvg = kv;
        m.push(kv);
        proof {
            lemma_member_push_absent(m1, group_key(), comment_key(), kvg);
            lemma_member_push_absent(m1, group_key(), group_key(), kvg);
        }
    }
    proof {
        assert(has_key(m@, comment_key()));
        assert(has_key(m@, group_key()));
    }
    Json::Object(m)
}

/// Appending a member under a key that is absent: lookups of other keys are
/// unchanged, and the new key finds the new member.
proof fn lemma_member_push_absent(m: Seq<(String, Json)>, added: Seq<char>, asked: Seq<char>, kv: (String, Json))
    requires
        !has_key(m, added),
        kv.0@ == added,
    ensures
        asked != added ==> member(m.push(kv), asked) == member(m, asked),
        asked == added ==> member(m.push(kv), asked) == Some(kv.1),
        has_key(m.push(kv), added),
        forall|k: Seq<char>| has_key(m, k) ==> has_key(m.push(kv), k),
{
    let n = m.push(kv);
    assert(n[m.len() as int] == kv);
    assert forall|k: Seq<char>| has_key(m, k) implies has_key(n, k) by {
        let i = choose|i: int| 0 <= i < m.len() && m[i].0@ == k;
        assert(n[i] == m[i]);
    }
    if asked != added {
        if has_key(m, asked) {
            let i = choose|i: int| first_key_at(m, asked, i);
            let w = choose|w: int| 0 <= w < m.len() && m[w].0@ == asked;
            lemma_first_key_exists(m, asked, w);
            let i2 = choose|i: int| first_key_at(m, asked, i);
            assert(first_key_at(n, asked, i2)) by {
                assert(n[i2] == m[i2]);
                assert forall|j: int| 0 <= j < i2 implies n[j].0@ != asked by {
                    assert(n[j] == m[j]);
                }
            }
            let k = choose|k: int| first_key_at(n, asked, k);
            lemma_first_key_unique(n, asked, i2, k);
        } else {
            assert(!has_key(n, asked)) by {
                if has_key(n, asked) {
                    let i = choose|i: int| 0 <= i < n.len() && n[i].0@ == asked;
                    if i < m.len() {
                        assert(n[i] == m[i]);
                    }
                }
            }
        }
    } else {
        assert(first_key_at(n, asked, m.len() as int)) by {
            assert forall|j: int| 0 <= j < m.len() implies n[j].0@ != asked by {
                assert(n[j] == m[j]);
            }
        }
        let k = choose|k: int| first_key_at(n, asked, k);
        lemma_first_key_unique(n, asked, m.len() as int, k);
    }
}

/// A key that occurs has a first occurrence.
pub proof fn lemma_first_key_exists(m: Seq<(String, Json)>, key: Seq<char>, w: int)
    requires
        0 <= w < m.len(),
        m[w].0@ == key,
    ensures
        exists|i: int| first_key_at(m, key, i),
    decreases w,
{
    if exists|j: int| 0 <= j < w && m[j].0@ == key {
        let j = choose|j: int| 0 <= j < w && m[j].0@ == key;
        lemma_first_key_exists(m, key, j);
    } else {
        assert(first_key_at(m, key, w));
    }
}

proof fn lemma_first_ic_exists(m: Seq<(String, Json)>, key: Seq<char>, w: int)
    requires
        0 <= w < m.len(),
        eq_ic(m[w].0@, key),
    ensures
        exists|i: int| first_ic_at(m, key, i),
    decreases w,
{
    if exists|j: int| 0 <= j < w && eq_ic(m[j].0@, key) {
        let j = choose|j: int| 0 <= j < w && eq_ic(m[j].0@, key);
        lemma_first_ic_exists(m, key, j);
    } else {
        assert(first_ic_at(m, key, w));
    }
}

impl Manifest {
    pub open spec fn view(&self) -> Seq<(String, Json)> {
        self.root@
    }

    /// Lossy parse: a malformed or non-object file gives an empty manifest
    /// rather than blocking every operation on the tab.
    pub fn parse(bytes: &[u8]) -> (m: Manifest)
        ensures
            m.root@ == parsed_root(bytes@),
    {
        match parse_json(bytes) {
            Some(Json::Object(members)) => Manifest { root: members },
            _ => Manifest { root: Vec::new() },
        }
    }

    pub fn empty() -> (m: Manifest)
        ensures
            m.root@ == Seq::<(String, Json)>::empty(),
    {
        Manifest { root: Vec::new() }
    }

    /// The file text: the object written by `serde_json::to_vec_pretty`,
    /// then a line break.
    pub fn to_bytes(&self) -> (b: Vec<u8>)
        ensures
            b@ == json_text_pretty(Json::Object(self.root)).push(10u8),
    {
        let mut out = object_bytes_pretty(&self.root);
        out.push(10u8);
        out
    }

    /// The entry a name refers to (exact key first, then up to ASCII case).
    pub fn find_key(&self, name: &str) -> (r: Option<usize>)
        ensures
            r is Some <==> key_index(self.root@, name@) is Some,
            r matches Some(i) ==> key_index(self.root@, name@) == Some(i as int) && i < self.root@.len(),
    {
        proof {
            lemma_key_index_bounds(self.root@, name@);
        }
        match json_find_key(&self.root, name) {
            Some(i) => {
                proof {
                    let k = choose|k: int| first_key_at(self.root@, name@, k);
                    lemma_first_key_unique(self.root@, name@, i as int, k);
                }
                Some(i)
            },
            None => match find_ic(&self.root, name) {
                Some(i) => {
                    proof {
                        let k = choose|k: int| first_ic_at(self.root@, name@, k);
                        lemma_first_ic_unique(self.root@, name@, i as int, k);
                    }
                    Some(i)
                },
                None => None,
            },
        }
    }

    pub fn contains(&self, name: &str) -> (b: bool)
        ensures
            b == mf_contains(self.root@, name@),
    {
        self.find_key(name).is_some()
    }

    /// The entry keys, in order.
    pub fn names(&self) -> (v: Vec<String>)
        ensures
            v@.len() == self.root@.len(),
            forall|i: int| 0 <= i < v@.len() ==> #[trigger] v@[i]@ == self.root@[i].0@,
    {
        let mut v: Vec<String> = Vec::new();
        let mut i: usize = 0;
        while i < self.root.len()
            invariant
                i <= self.root@.len(),
                v@.len() == i,
                forall|j: int| 0 <= j < i ==> #[trigger] v@[j]@ == self.root@[j].0@,
            decreases self.root@.len() - i,
        {
            v.push(self.root[i].0.clone());
            i = i + 1;
        }
        v
    }

    fn field(&self, name: &str, field: &str) -> (r: Option<String>)
        ensures
            r matches Some(s) ==> field_of(self.root@, name@, field@) == Some(s@),
            r is None ==> field_of(self.root@, name@, field@) is None,
    {
        match self.find_key(name) {
            Some(i) => {
                let v = &self.root[i].1;
                match v {
                    Json::Object(members) => {
                        let r = text_member(members, field);
                        assert(*v == Json::Object(*members));
                        r
                    },
                    _ => None,
                }
            },
            None => None,
        }
    }

    pub fn comment(&self, name: &str) -> (r: Option<String>)
        ensures
            r matches Some(s) ==> field_of(self.root@, name@, comment_key()) == Some(s@),
            r is None ==> field_of(self.root@, name@, comment_key()) is None,
    {
        proof {
            reveal_strlit("Comment");
        }
        self.field(name, "Comment")
    }

    pub fn group(&self, name: &str) -> (r: Option<String>)
        ensures
            r matches Some(s) ==> field_of(self.root@, name@, group_key()) == Some(s@),
            r is None ==> field_of(self.root@, name@, group_key()) is None,
    {
        proof {
            reveal_strlit("Group");
        }
        self.field(name, "Group")
    }

    /// Ensures an entry exists, in the AddonsManager shape. Texts already
    /// there are kept; entries of other names are not touched.
    pub fn ensure(&mut self, name: &str)
        ensures
            mf_contains(final(self).root@, name@),
            field_of(final(self).root@, name@, comment_key()) == field_of(old(self).root@, name@, comment_key()),
            field_of(final(self).root@, name@, group_key()) == field_of(old(self).root@, name@, group_key()),
            key_index(old(self).root@, name@) is Some ==> {
                &&& final(self).root@.len() == old(self).root@.len()
                &&& key_index(final(self).root@, name@) == key_index(old(self).root@, name@)
                &&& final(self).root@[key_index(old(self).root@, name@).unwrap()].0 == old(self).root@[key_index(old(self).root@, name@).unwrap()].0
                &&& forall|j: int| 0 <= j < old(self).root@.len() && j != key_index(old(self).root@, name@).unwrap() ==> final(self).root@[j] == old(self).root@[j]
            },
            key_index(old(self).root@, name@) is None ==> exists|p: int| 0 <= p <= old(self).root@.len()
                && #[trigger] final(self).root@.remove(p) == old(self).root@ && final(self).root@[p].0@ == name@,
            final(self).root@[key_index(final(self).root@, name@).unwrap()].1 matches Json::Object(m)
                && has_key(m@, comment_key()) && has_key(m@, group_key()),
    {
        match self.find_key(name) {
            Some(i) => {
                let ghost old_root = self.root@;
                let (key, value) = self.root.remove(i);
                let shaped = entry_shape(value);
                self.root.insert(i, (key, shaped));
                proof {
                    let n = self.root@;
                    assert(n.len() == old_root.len());
                    assert forall|j: int| 0 <= j < old_root.len() && j != i implies n[j] == old_root[j] by {}
                    assert forall|j: int| 0 <= j < n.len() implies #[trigger] n[j].0@ == old_root[j].0@ by {}
                    lemma_same_keys_same_index(old_root, n, name@);
                }
            },
            None => {
                let ghost old_root = self.root@;
                let p = sorted_position(&self.root, name);
                let shaped = entry_shape(Json::Object(Vec::new()));
                self.root.insert(p, (name.to_owned(), shaped));
                proof {
                    let n = self.root@;
                    assert(n.remove(p as int) =~= old_root);
                    assert(n[p as int].0@ == name@);
                    lemma_insert_absent_index(old_root, n, name@, p as int);
                    reveal_strlit("Comment");
                    reveal_strlit("Group");
                    assert(member(Seq::<(String, Json)>::empty(), comment_key()) is None);
                    assert(member(Seq::<(String, Json)>::empty(), group_key()) is None);
                }
            },
        }
    }

    fn set_field(&mut self, name: &str, field: &str, value: Option<&str>)
        requires
            field@ == comment_key() || field@ == group_key(),
        ensures
            mf_contains(final(self).root@, name@),
            field_of(final(self).root@, name@, field@) == match value {
                Some(v) => shown_text(v@),
                None => None::<Seq<char>>,
            },
            field@ == comment_key() ==> field_of(final(self).root@, name@, group_key()) == field_of(old(self).root@, name@, group_key()),
            field@ == group_key() ==> field_of(final(self).root@, name@, comment_key()) == field_of(old(self).root@, name@, comment_key()),
    {
        self.ensure(name);
        let ghost mid = self.root@;
        match self.find_key(name) {
            Some(i) => {
                let (key, value_json) = self.root.remove(i);
                let text: String = match value {
                    Some(v) => v.to_owned(),
                    None => String::new(),
                };
                proof {
                    reveal_strlit("Comment");
                    reveal_strlit("Group");
                    assert(trim(Seq::<char>::empty()).len() == 0);
                }
                let ghost old_value = value_json;
                let updated = match value_json {
                    Json::Object(members) => {
                        let ghost m0 = members@;
                        let m1 = set_member(members, field, text);
                        proof {
                            assert(comment_key().len() != group_key().len());
                            assert(member(m1@, group_key()) == member(m0, group_key()) || field@ == group_key());
                            assert(member(m1@, comment_key()) == member(m0, comment_key()) || field@ == comment_key());
                        }
                        Json::Object(m1)
                    },
                    other => other,
                };
                proof {
                    assert(field@ == comment_key() ==> entry_field(updated, group_key()) == entry_field(old_value, group_key()));
                    assert(field@ == group_key() ==> entry_field(updated, comment_key()) == entry_field(old_value, comment_key()));
                }
                self.root.insert(i, (key, updated));
                proof {
                    let n = self.root@;
                    assert forall|j: int| 0 <= j < n.len() implies #[trigger] n[j].0@ == mid[j].0@ by {}
                    lemma_same_keys_same_index(mid, n, name@);
                }
            },
            None => {},
        }
    }

    pub fn set_comment(&mut self, name: &str, comment: Option<&str>)
        ensures
            mf_contains(final(self).root@, name@),
            field_of(final(self).root@, name@, comment_key()) == match comment {
                Some(v) => shown_text(v@),
                None => None::<Seq<char>>,
            },
            field_of(final(self).root@, name@, group_key()) == field_of(old(self).root@, name@, group_key()),
    {
        proof {
            reveal_strlit("Comment");
            reveal_strlit("Group");
        }
        self.set_field(name, "Comment", comment);
    }

    pub fn set_group(&mut self, name: &str, group: Option<&str>)
        ensures
            mf_contains(final(self).root@, name@),
            field_of(final(self).root@, name@, group_key()) == match group {
                Some(v) => shown_text(v@),
                None => None::<Seq<char>>,
            },
            field_of(final(self).root@, name@, comment_key()) == field_of(old(self).root@, name@, comment_key()),
    {
        proof {
            reveal_strlit("Comment");
            reveal_strlit("Group");
        }
        self.set_field(name, "Group", group);
    }

    /// Removes the entry a name refers to; whether there was one.
    pub fn remove(&mut self, name: &str) -> (b: bool)
        ensures
            b == mf_contains(old(self).root@, name@),
            key_index(old(self).root@, name@) is Some ==> final(self).root@ == old(self).root@.remove(key_index(old(self).root@, name@).unwrap()),
            key_index(old(self).root@, name@) is None ==> final(self).root@ == old(self).root@,
    {
        match self.find_key(name) {
            Some(i) => {
                self.root.remove(i);
                true
            },
            None => false,
        }
    }
}

/// Sets one member of an object to a string, keeping the others.
fn set_member(members: Vec<(String, Json)>, field: &str, text: String) -> (r: Vec<(String, Json)>)
    ensures
        member(r@, field@) == Some(Json::Str(text)),
        forall|k: Seq<char>| k != field@ ==> member(r@, k) == member(members@, k),
{
    let mut m = members;
    match json_find_key(&m, field) {
        Some(i) => {
            let ghost m0 = m@;
            let kv = (field.to_owned(), Json::Str(text));
            let ghost kvg = kv;
            m.set(i, kv);
            proof {
                let n = m@;
                assert forall|k: Seq<char>| k != field@ implies member(n, k) == member(m0, k) by {
                    lemma_member_update(m0, i as int, k, kvg);
                }
                lemma_member_update(m0, i as int, field@, kvg);
            }
        },
        None => {
            let ghost m0 = m@;
            let kv = (field.to_owned(), Json::Str(text));
            let ghost kvg = kv;
            m.push(kv);
            proof {
                assert forall|k: Seq<char>| k != field@ implies member(m@, k) == member(m0, k) by {
                    lemma_member_push_absent(m0, field@, k, kvg);
                }
                lemma_member_push_absent(m0, field@, field@, kvg);
            }
        },
    }
    m
}

proof fn lemma_member_update(m: Seq<(String, Json)>, i: int, k: Seq<char>, kv: (String, Json))
    requires
        first_key_at(m, kv.0@, i),
    ensures
        k != kv.0@ ==> member(m.update(i, kv), k) == member(m, k),
        k == kv.0@ ==> member(m.update(i, kv), k) == Some(kv.1),
{
    let n = m.update(i, kv);
    if k != kv.0@ {
        assert forall|j: int| 0 <= j < m.len() implies (#[trigger] n[j].0@ == k) == (m[j].0@ == k) by {}
        if has_key(m, k) {
            let w = choose|w: int| 0 <= w < m.len() && m[w].0@ == k;
            lemma_first_key_exists(m, k, w);
            let a = choose|a: int| first_key_at(m, k, a);
            assert(first_key_at(n, k, a));
            let b = choose|b: int| first_key_at(n, k, b);
            lemma_first_key_unique(n, k, a, b);
        } else {
            assert(!has_key(n, k)) by {
                if has_key(n, k) {
                    let j = choose|j: int| 0 <= j < n.len() && n[j].0@ == k;
                }
            }
        }
    } else {
        assert(first_key_at(n, k, i));
        let b = choose|b: int| first_key_at(n, k, b);
        lemma_first_key_unique(n, k, i, b);
    }
}

/// Two member lists with the same keys at every position find a name at the
/// same index.
proof fn lemma_same_keys_same_index(a: Seq<(String, Json)>, b: Seq<(String, Json)>, name: Seq<char>)
    requires
        a.len() == b.len(),
        forall|j: int| 0 <= j < b.len() ==> #[trigger] b[j].0@ == a[j].0@,
    ensures
        key_index(b, name) == key_index(a, name),
{
    assert(has_key(a, name) == has_key(b, name)) by {
        if has_key(a, name) {
            let j = choose|j: int| 0 <= j < a.len() && a[j].0@ == name;
            assert(b[j].0@ == name);
        }
        if has_key(b, name) {
            let j = choose|j: int| 0 <= j < b.len() && b[j].0@ == name;
            assert(a[j].0@ == name);
        }
    }
    assert(has_ic(a, name) == has_ic(b, name)) by {
        if has_ic(a, name) {
            let j = choose|j: int| 0 <= j < a.len() && eq_ic(a[j].0@, name);
            assert(eq_ic(b[j].0@, name));
        }
        if has_ic(b, name) {
            let j = choose|j: int| 0 <= j < b.len() && eq_ic(b[j].0@, name);
            assert(eq_ic(a[j].0@, name));
        }
    }
    if has_key(a, name) {
        let w = choose|w: int| 0 <= w < a.len() && a[w].0@ == name;
        lemma_first_key_exists(a, name, w);
        let i = choose|i: int| first_key_at(a, name, i);
        assert(first_key_at(b, name, i));
        let k = choose|k: int| first_key_at(b, name, k);
        lemma_first_key_unique(b, name, i, k);
    } else if has_ic(a, name) {
        let w = choose|w: int| 0 <= w < a.len() && eq_ic(a[w].0@, name);
        lemma_first_ic_exists(a, name, w);
        let i = choose|i: int| first_ic_at(a, name, i);
        assert(first_ic_at(b, name, i));
        let k = choose|k: int| first_ic_at(b, name, k);
        lemma_first_ic_unique(b, name, i, k);
    }
}

/// Inserting a member under a name nothing matched: the name now finds it.
proof fn lemma_insert_absent_index(a: Seq<(String, Json)>, b: Seq<(String, Json)>, name: Seq<char>, p: int)
    requires
        key_index(a, name) is None,
        0 <= p <= a.len(),
        b.len() == a.len() + 1,
        b.remove(p) == a,
        b[p].0@ == name,
    ensures
        key_index(b, name) == Some(p),
{
    assert forall|j: int| 0 <= j < b.len() && j != p implies !eq_ic(#[trigger] b[j].0@, name) by {
        if j < p {
            assert(b[j] == b.remove(p)[j]);
        } else {
            assert(b[j] == b.remove(p)[j - 1]);
        }
        assert(!has_ic(a, name));
    }
    assert forall|j: int| 0 <= j < b.len() && j != p implies #[trigger] b[j].0@ != name by {
        assert(!eq_ic(b[j].0@, name));
    }
    assert(first_key_at(b, name, p));
    let k = choose|k: int| first_key_at(b, name, k);
    lemma_first_key_unique(b, name, p, k);
}

} // verus!
