//! YAML documents as plain values (the shape of `serde_yaml::Value`), and
//! the mapping operations that compose rewrites are made of, with the
//! semantics of `serde_yaml::Mapping`: keys are found by equality, a new key
//! goes last, and removing a key moves the last entry into its place.
use vstd::prelude::*;

use crate::text::str_eq;

verus! {

/// A YAML value.
#[derive(Debug)]
pub enum Yaml {
    Null,
    Bool(bool),
    /// A number, as the text that denotes it.
    Number(String),
    Str(String),
    List(Vec<Yaml>),
    Mapping(Vec<(Yaml, Yaml)>),
    /// A value with a `!tag`.
    Tagged(String, Box<Yaml>),
}

/// A YAML value as plain values.
pub enum YamlView {
    Null,
    Bool(bool),
    Number(Seq<char>),
    Str(Seq<char>),
    List(Seq<YamlView>),
    Mapping(Seq<(YamlView, YamlView)>),
    Tagged(Seq<char>, Box<YamlView>),
}

/// The view of a YAML value.
pub open spec fn yaml_view(y: Yaml) -> YamlView
    decreases y,
{
    match y {
        Yaml::Null => YamlView::Null,
        Yaml::Bool(b) => YamlView::Bool(b),
        Yaml::Number(n) => YamlView::Number(n@),
        Yaml::Str(s) => YamlView::Str(s@),
        Yaml::List(v) => YamlView::List(
            Seq::new(
                v@.len(),
                |i: int|
                    if 0 <= i < v@.len() {
                        yaml_view(v@[i])
                    } else {
                        YamlView::Null
                    },
            ),
        ),
        Yaml::Mapping(v) => YamlView::Mapping(
            Seq::new(
                v@.len(),
                |i: int|
                    if 0 <= i < v@.len() {
                        (yaml_view(v@[i].0), yaml_view(v@[i].1))
                    } else {
                        (YamlView::Null, YamlView::Null)
                    },
            ),
        ),
        Yaml::Tagged(t, b) => YamlView::Tagged(t@, Box::new(yaml_view(*b))),
    }
}

/// The views of the items of a list.
pub open spec fn items_view(s: Seq<Yaml>) -> Seq<YamlView> {
    Seq::new(s.len(), |i: int| yaml_view(s[i]))
}

/// The views of the entries of a mapping.
pub open spec fn pairs_view(s: Seq<(Yaml, Yaml)>) -> Seq<(YamlView, YamlView)> {
    Seq::new(s.len(), |i: int| (yaml_view(s[i].0), yaml_view(s[i].1)))
}

/// A mapping's view is made of its entries' views.
pub proof fn lemma_mapping_view(v: Vec<(Yaml, Yaml)>)
    ensures
        yaml_view(Yaml::Mapping(v)) == YamlView::Mapping(pairs_view(v@)),
{
    if let YamlView::Mapping(m) = yaml_view(Yaml::Mapping(v)) {
        assert(m =~= pairs_view(v@));
    }
}

/// A list's view is made of its items' views.
pub proof fn lemma_list_view(v: Vec<Yaml>)
    ensures
        yaml_view(Yaml::List(v)) == YamlView::List(items_view(v@)),
{
    if let YamlView::List(m) = yaml_view(Yaml::List(v)) {
        assert(m =~= items_view(v@));
    }
}

// ---------------------------------------------------------------------------
// Tags
// ---------------------------------------------------------------------------

/// The value under its tags (`serde_yaml`'s untagging).
pub open spec fn untag(v: YamlView) -> YamlView
    decreases v,
{
    match v {
        YamlView::Tagged(_, b) => untag(*b),
        _ => v,
    }
}

/// The tags around a value, outermost first.
pub open spec fn tags_of(v: YamlView) -> Seq<Seq<char>>
    decreases v,
{
    match v {
        YamlView::Tagged(t, b) => seq![t] + tags_of(*b),
        _ => Seq::empty(),
    }
}

/// A value wrapped in the given tags, outermost first.
pub open spec fn wrap(tags: Seq<Seq<char>>, inner: YamlView) -> YamlView
    decreases tags.len(),
{
    if tags.len() == 0 {
        inner
    } else {
        YamlView::Tagged(tags[0], Box::new(wrap(tags.drop_first(), inner)))
    }
}

/// A value is its untagged value wrapped in its tags.
pub proof fn lemma_wrap_tags(v: YamlView)
    ensures
        wrap(tags_of(v), untag(v)) == v,
    decreases v,
{
    if let YamlView::Tagged(t, b) = v {
        lemma_wrap_tags(*b);
        assert((seq![t] + tags_of(*b)).drop_first() =~= tags_of(*b));
    }
}

/// Takes the tags off a value.
pub fn split_tags(v: Yaml) -> (r: (Vec<String>, Yaml))
    ensures
        crate::text::views(r.0@) == tags_of(yaml_view(v)),
        yaml_view(r.1) == untag(yaml_view(v)),
        !(r.1 is Tagged),
    decreases v,
{
    match v {
        Yaml::Tagged(t, b) => {
            let (mut ts, inner) = split_tags(*b);
            let ghost rest = ts@;
            ts.insert(0, t);
            proof {
                assert(crate::text::views(ts@) =~= seq![t@] + crate::text::views(rest));
            }
            (ts, inner)
        },
        other => {
            let ts: Vec<String> = Vec::new();
            proof {
                assert(crate::text::views(ts@) =~= Seq::<Seq<char>>::empty());
            }
            (ts, other)
        },
    }
}

/// Puts tags back around a value.
pub fn wrap_tags(tags: Vec<String>, inner: Yaml) -> (r: Yaml)
    ensures
        yaml_view(r) == wrap(crate::text::views(tags@), yaml_view(inner)),
{
    let ghost tv = crate::text::views(tags@);
    let mut tags = tags;
    let mut result = inner;
    let n = tags.len();
    let mut i = n;
    assert(tv.subrange(n as int, n as int) =~= Seq::<Seq<char>>::empty());
    while i > 0
        invariant
            i <= tags@.len(),
            tags@.len() == n,
            tv == crate::text::views(tags@),
            yaml_view(result) == wrap(tv.subrange(i as int, n as int), yaml_view(inner)),
        decreases i,
    {
        let t = tags[i - 1].clone();
        let ghost prev = tv.subrange(i as int, n as int);
        assert(tv.subrange(i - 1, n as int).drop_first() =~= prev);
        assert(tv.subrange(i - 1, n as int)[0] == t@);
        result = Yaml::Tagged(t, Box::new(result));
        i = i - 1;
    }
    assert(tv.subrange(0, n as int) =~= tv);
    result
}

// ---------------------------------------------------------------------------
// Mappings
// ---------------------------------------------------------------------------

/// The first index at or after `i` whose key is the string `key`.
pub open spec fn find_key_from(m: Seq<(YamlView, YamlView)>, key: Seq<char>, i: int) -> Option<int>
    decreases m.len() - i,
{
    if i < 0 || i >= m.len() {
        None
    } else if m[i].0 == YamlView::Str(key) {
        Some(i)
    } else {
        find_key_from(m, key, i + 1)
    }
}

/// The index of the entry whose key is the string `key`.
pub open spec fn find_key(m: Seq<(YamlView, YamlView)>, key: Seq<char>) -> Option<int> {
    find_key_from(m, key, 0)
}

/// What `find_key_from` finds is an entry with that key.
pub proof fn lemma_find_key_from(m: Seq<(YamlView, YamlView)>, key: Seq<char>, i: int)
    ensures
        find_key_from(m, key, i) matches Some(j) ==> i <= j < m.len() && m[j].0 == YamlView::Str(key),
    decreases m.len() - i,
{
    if 0 <= i < m.len() && m[i].0 != YamlView::Str(key) {
        lemma_find_key_from(m, key, i + 1);
    }
}

/// The entries without the one at `i`, the last entry taking its place.
pub open spec fn swap_remove_at(m: Seq<(YamlView, YamlView)>, i: int) -> Seq<(YamlView, YamlView)> {
    m.update(i, m.last()).drop_last()
}

/// The entries without the entry of `key` (`Mapping::remove`).
pub open spec fn remove_key(m: Seq<(YamlView, YamlView)>, key: Seq<char>) -> Seq<(YamlView, YamlView)> {
    match find_key(m, key) {
        Some(i) => swap_remove_at(m, i),
        None => m,
    }
}

/// The entries with `key` set to `v` (`Mapping::insert`): in place when the
/// key is there, else last.
pub open spec fn set_key(m: Seq<(YamlView, YamlView)>, key: Seq<char>, v: YamlView) -> Seq<(YamlView, YamlView)> {
    match find_key(m, key) {
        Some(i) => m.update(i, (m[i].0, v)),
        None => m.push((YamlView::Str(key), v)),
    }
}

/// The entries after `entry(key).or_insert(default)`, and the index of the
/// entry of `key`.
pub open spec fn entry_or_insert(m: Seq<(YamlView, YamlView)>, key: Seq<char>, default: YamlView) -> (Seq<(YamlView, YamlView)>, int) {
    match find_key(m, key) {
        Some(i) => (m, i),
        None => (m.push((YamlView::Str(key), default)), m.len() as int),
    }
}

/// The entries after removing each key in turn, and whether any was there.
pub open spec fn remove_keys(m: Seq<(YamlView, YamlView)>, keys: Seq<Seq<char>>) -> (Seq<(YamlView, YamlView)>, bool)
    decreases keys.len(),
{
    if keys.len() == 0 {
        (m, false)
    } else {
        let (prev, removed) = remove_keys(m, keys.drop_last());
        (remove_key(prev, keys.last()), removed || find_key(prev, keys.last()) is Some)
    }
}

/// The mapping under a value's tags, if it is one.
pub open spec fn as_mapping(v: YamlView) -> Option<Seq<(YamlView, YamlView)>> {
    match untag(v) {
        YamlView::Mapping(m) => Some(m),
        _ => None,
    }
}

/// The list under a value's tags, if it is one.
pub open spec fn as_list(v: YamlView) -> Option<Seq<YamlView>> {
    match untag(v) {
        YamlView::List(s) => Some(s),
        _ => None,
    }
}

/// The string under a value's tags, if it is one.
pub open spec fn as_str(v: YamlView) -> Option<Seq<char>> {
    match untag(v) {
        YamlView::Str(s) => Some(s),
        _ => None,
    }
}

/// The value with the mapping under its tags replaced.
pub open spec fn with_mapping(v: YamlView, m: Seq<(YamlView, YamlView)>) -> YamlView {
    wrap(tags_of(v), YamlView::Mapping(m))
}

/// The value with the list under its tags replaced.
pub open spec fn with_list(v: YamlView, s: Seq<YamlView>) -> YamlView {
    wrap(tags_of(v), YamlView::List(s))
}

/// The mapping that a document holds under the top-level `key`.
pub open spec fn mapping_at(doc: YamlView, key: Seq<char>) -> Option<Seq<(YamlView, YamlView)>> {
    match as_mapping(doc) {
        Some(m) => match find_key(m, key) {
            Some(i) => as_mapping(m[i].1),
            None => None,
        },
        None => None,
    }
}

/// The document with the mapping under the top-level `key` replaced.
pub open spec fn replace_mapping_at(doc: YamlView, key: Seq<char>, x: Seq<(YamlView, YamlView)>) -> YamlView {
    let m = as_mapping(doc)->0;
    let i = find_key(m, key)->0;
    with_mapping(doc, m.update(i, (m[i].0, with_mapping(m[i].1, x))))
}

/// Whether a key is the string `key`.
pub fn key_is(k: &Yaml, key: &str) -> (r: bool)
    ensures
        r == (yaml_view(*k) == YamlView::Str(key@)),
{
    match k {
        Yaml::Str(s) => str_eq(s.as_str(), key),
        _ => false,
    }
}

/// The index of the entry of `key`.
pub fn find_key_exec(m: &Vec<(Yaml, Yaml)>, key: &str) -> (r: Option<usize>)
    ensures
        match find_key(pairs_view(m@), key@) {
            Some(i) => r is Some && r->0 == i,
            None => r is None,
        },
        r matches Some(i) ==> i < m@.len(),
{
    let ghost pv = pairs_view(m@);
    let mut i: usize = 0;
    while i < m.len()
        invariant
            i <= m@.len(),
            pv == pairs_view(m@),
            find_key_from(pv, key@, i as int) == find_key(pv, key@),
        decreases m.len() - i,
    {
        if key_is(&m[i].0, key) {
            return Some(i);
        }
        i = i + 1;
    }
    None
}

/// Removes the entry of `key`, the last entry taking its place; whether it
/// was there.
pub fn remove_key_exec(m: &mut Vec<(Yaml, Yaml)>, key: &str) -> (r: bool)
    ensures
        pairs_view(final(m)@) == remove_key(pairs_view(old(m)@), key@),
        r == find_key(pairs_view(old(m)@), key@) is Some,
{
    let ghost before = m@;
    match find_key_exec(m, key) {
        Some(i) => {
            let _ = m.swap_remove(i);
            assert(pairs_view(m@) =~= swap_remove_at(pairs_view(before), i as int));
            true
        },
        None => false,
    }
}

/// Removes the entries of the keys in turn; whether any was there.
pub fn remove_keys_exec(m: &mut Vec<(Yaml, Yaml)>, keys: &Vec<String>) -> (r: bool)
    ensures
        (pairs_view(final(m)@), r) == remove_keys(pairs_view(old(m)@), crate::text::views(keys@)),
{
    let ghost start = pairs_view(m@);
    let ghost kv = crate::text::views(keys@);
    let mut removed = false;
    let mut i: usize = 0;
    while i < keys.len()
        invariant
            i <= keys@.len(),
            kv == crate::text::views(keys@),
            (pairs_view(m@), removed) == remove_keys(start, kv.subrange(0, i as int)),
        decreases keys.len() - i,
    {
        assert(kv.subrange(0, i + 1).drop_last() =~= kv.subrange(0, i as int));
        let r = remove_key_exec(m, keys[i].as_str());
        removed = removed || r;
        i = i + 1;
    }
    assert(kv.subrange(0, keys@.len() as int) =~= kv);
    removed
}

/// Sets `key` to `v`: in place when the key is there, else last.
pub fn set_key_exec(m: &mut Vec<(Yaml, Yaml)>, key: &str, v: Yaml)
    ensures
        pairs_view(final(m)@) == set_key(pairs_view(old(m)@), key@, yaml_view(v)),
{
    let ghost before = m@;
    match find_key_exec(m, key) {
        Some(i) => {
            let (k, _) = m.remove(i);
            m.insert(i, (k, v));
            assert(pairs_view(m@) =~= pairs_view(before).update(
                i as int,
                (pairs_view(before)[i as int].0, yaml_view(v)),
            ));
        },
        None => {
            m.push((Yaml::Str(crate::text::owned(key)), v));
            assert(pairs_view(m@) =~= pairs_view(before).push((YamlView::Str(key@), yaml_view(v))));
        },
    }
}

/// `entry(key).or_insert(default)`: the index of the entry of `key`.
pub fn entry_or_insert_exec(m: &mut Vec<(Yaml, Yaml)>, key: &str, default: Yaml) -> (r: usize)
    ensures
        (pairs_view(final(m)@), r as int) == entry_or_insert(
            pairs_view(old(m)@),
            key@,
            yaml_view(default),
        ),
        r < final(m)@.len(),
{
    let ghost before = m@;
    match find_key_exec(m, key) {
        Some(i) => i,
        None => {
            let n = m.len();
            m.push((Yaml::Str(crate::text::owned(key)), default));
            assert(pairs_view(m@) =~= pairs_view(before).push((YamlView::Str(key@), yaml_view(default))));
            n
        },
    }
}

/// Takes the value of entry `i` out, leaving `Null` in its place.
pub fn take_value(m: &mut Vec<(Yaml, Yaml)>, i: usize) -> (r: Yaml)
    requires
        i < old(m)@.len(),
    ensures
        r == old(m)@[i as int].1,
        final(m)@ == old(m)@.update(i as int, (old(m)@[i as int].0, Yaml::Null)),
{
    let (k, v) = m.remove(i);
    m.insert(i, (k, Yaml::Null));
    assert(m@ =~= old(m)@.update(i as int, (old(m)@[i as int].0, Yaml::Null)));
    v
}

/// Puts a value back into entry `i`.
pub fn put_value(m: &mut Vec<(Yaml, Yaml)>, i: usize, v: Yaml)
    requires
        i < old(m)@.len(),
    ensures
        final(m)@ == old(m)@.update(i as int, (old(m)@[i as int].0, v)),
{
    let (k, _) = m.remove(i);
    m.insert(i, (k, v));
    assert(m@ =~= old(m)@.update(i as int, (old(m)@[i as int].0, v)));
}

/// A value opened as a mapping: its tags and its entries; a value that is
/// not a mapping is handed back.
pub fn open_mapping(v: Yaml) -> (r: Result<(Vec<String>, Vec<(Yaml, Yaml)>), Yaml>)
    ensures
        r is Ok ==> as_mapping(yaml_view(v)) == Some(pairs_view(r->Ok_0.1@)),
        r is Ok ==> crate::text::views(r->Ok_0.0@) == tags_of(yaml_view(v)),
        r is Err ==> as_mapping(yaml_view(v)) is None && yaml_view(r->Err_0) == yaml_view(v),
{
    let ghost vv = yaml_view(v);
    let (tags, inner) = split_tags(v);
    let ghost iv = yaml_view(inner);
    assert(iv == untag(vv));
    match inner {
        Yaml::Mapping(m) => {
            proof {
                lemma_mapping_view(m);
                assert(iv == YamlView::Mapping(pairs_view(m@)));
                assert(as_mapping(vv) == Some(pairs_view(m@)));
                assert(crate::text::views(tags@) == tags_of(vv));
            }
            Ok((tags, m))
        },
        other => {
            let w = wrap_tags(tags, other);
            proof {
                lemma_wrap_tags(vv);
            }
            Err(w)
        },
    }
}

/// Closes a mapping opened with `open_mapping`.
pub fn close_mapping(tags: Vec<String>, m: Vec<(Yaml, Yaml)>) -> (r: Yaml)
    ensures
        yaml_view(r) == wrap(crate::text::views(tags@), YamlView::Mapping(pairs_view(m@))),
{
    proof {
        lemma_mapping_view(m);
    }
    wrap_tags(tags, Yaml::Mapping(m))
}

/// A value opened as a list: its tags and its items; a value that is not a
/// list is handed back.
pub fn open_list(v: Yaml) -> (r: Result<(Vec<String>, Vec<Yaml>), Yaml>)
    ensures
        r is Ok ==> as_list(yaml_view(v)) == Some(items_view(r->Ok_0.1@)),
        r is Ok ==> crate::text::views(r->Ok_0.0@) == tags_of(yaml_view(v)),
        r is Err ==> as_list(yaml_view(v)) is None && yaml_view(r->Err_0) == yaml_view(v),
{
    let ghost vv = yaml_view(v);
    let (tags, inner) = split_tags(v);
    let ghost iv = yaml_view(inner);
    assert(iv == untag(vv));
    match inner {
        Yaml::List(s) => {
            proof {
                lemma_list_view(s);
                assert(iv == YamlView::List(items_view(s@)));
                assert(as_list(vv) == Some(items_view(s@)));
            }
            Ok((tags, s))
        },
        other => {
            let w = wrap_tags(tags, other);
            proof {
                lemma_wrap_tags(vv);
            }
            Err(w)
        },
    }
}

/// Closes a list opened with `open_list`.
pub fn close_list(tags: Vec<String>, s: Vec<Yaml>) -> (r: Yaml)
    ensures
        yaml_view(r) == wrap(crate::text::views(tags@), YamlView::List(items_view(s@))),
{
    proof {
        lemma_list_view(s);
    }
    wrap_tags(tags, Yaml::List(s))
}

/// The string under a value's tags, if it is one.
pub fn as_str_exec(v: &Yaml) -> (r: Option<&String>)
    ensures
        match as_str(yaml_view(*v)) {
            Some(s) => r matches Some(x) && x@ == s,
            None => r is None,
        },
    decreases v,
{
    match v {
        Yaml::Str(s) => Some(s),
        Yaml::Tagged(_, b) => as_str_exec(&**b),
        _ => None,
    }
}


// ---------------------------------------------------------------------------
// Facts about tags and entries
// ---------------------------------------------------------------------------

/// Tags wrapped around an untagged value are its tags, and untagging gives
/// the value back.
pub proof fn lemma_untag_wrap(tags: Seq<Seq<char>>, x: YamlView)
    requires
        !(x is Tagged),
    ensures
        untag(wrap(tags, x)) == x,
        tags_of(wrap(tags, x)) == tags,
    decreases tags.len(),
{
    if tags.len() > 0 {
        lemma_untag_wrap(tags.drop_first(), x);
        assert(seq![tags[0]] + tags.drop_first() =~= tags);
    }
}

/// A value with its mapping replaced is still a mapping, with the new
/// entries and the same tags.
pub proof fn lemma_with_mapping(v: YamlView, m: Seq<(YamlView, YamlView)>)
    ensures
        as_mapping(with_mapping(v, m)) == Some(m),
        tags_of(with_mapping(v, m)) == tags_of(v),
{
    lemma_untag_wrap(tags_of(v), YamlView::Mapping(m));
}

/// A value with its list replaced is still a list, with the new items and
/// the same tags.
pub proof fn lemma_with_list(v: YamlView, s: Seq<YamlView>)
    ensures
        as_list(with_list(v, s)) == Some(s),
        tags_of(with_list(v, s)) == tags_of(v),
{
    lemma_untag_wrap(tags_of(v), YamlView::List(s));
}

/// What is in an entry before it is swapped out does not matter.
pub proof fn lemma_swap_remove_update(m: Seq<(YamlView, YamlView)>, i: int, e: (YamlView, YamlView))
    requires
        0 <= i < m.len(),
    ensures
        swap_remove_at(m.update(i, e), i) == swap_remove_at(m, i),
{
    if i == m.len() - 1 {
        assert(swap_remove_at(m.update(i, e), i) =~= m.drop_last());
        assert(swap_remove_at(m, i) =~= m.drop_last());
    } else {
        assert(swap_remove_at(m.update(i, e), i) =~= swap_remove_at(m, i));
    }
}

/// Entries with the same keys find the same key at the same place.
pub proof fn lemma_find_key_same_keys(
    a: Seq<(YamlView, YamlView)>,
    b: Seq<(YamlView, YamlView)>,
    key: Seq<char>,
    i: int,
)
    requires
        a.len() == b.len(),
        forall|j: int| 0 <= j < a.len() ==> #[trigger] a[j].0 == b[j].0,
    ensures
        find_key_from(a, key, i) == find_key_from(b, key, i),
    decreases a.len() - i,
{
    if 0 <= i < a.len() {
        lemma_find_key_same_keys(a, b, key, i + 1);
    }
}

// ---------------------------------------------------------------------------
// Reading and editing values in place
// ---------------------------------------------------------------------------

/// The entries of the mapping under a value's tags.
pub fn mapping_ref(v: &Yaml) -> (r: Option<&Vec<(Yaml, Yaml)>>)
    ensures
        match as_mapping(yaml_view(*v)) {
            Some(m) => r matches Some(x) && pairs_view(x@) == m,
            None => r is None,
        },
    decreases v,
{
    match v {
        Yaml::Mapping(m) => {
            proof {
                lemma_mapping_view(*m);
            }
            Some(m)
        },
        Yaml::Tagged(_, b) => mapping_ref(&**b),
        _ => None,
    }
}

/// The items of the list under a value's tags.
pub fn list_ref(v: &Yaml) -> (r: Option<&Vec<Yaml>>)
    ensures
        match as_list(yaml_view(*v)) {
            Some(s) => r matches Some(x) && items_view(x@) == s,
            None => r is None,
        },
    decreases v,
{
    match v {
        Yaml::List(s) => {
            proof {
                lemma_list_view(*s);
            }
            Some(s)
        },
        Yaml::Tagged(_, b) => list_ref(&**b),
        _ => None,
    }
}

/// Opens the value of entry `i` as a mapping, leaving `Null` in its place;
/// a value that is not a mapping stays where it is.
pub fn open_entry_mapping(m: &mut Vec<(Yaml, Yaml)>, i: usize) -> (r: Option<(Vec<String>, Vec<(Yaml, Yaml)>)>)
    requires
        i < old(m)@.len(),
    ensures
        final(m)@.len() == old(m)@.len(),
        match r {
            Some((t, d)) => {
                &&& as_mapping(pairs_view(old(m)@)[i as int].1) == Some(pairs_view(d@))
                &&& crate::text::views(t@) == tags_of(pairs_view(old(m)@)[i as int].1)
                &&& pairs_view(final(m)@) == pairs_view(old(m)@).update(
                    i as int,
                    (pairs_view(old(m)@)[i as int].0, YamlView::Null),
                )
            },
            None => {
                &&& as_mapping(pairs_view(old(m)@)[i as int].1) is None
                &&& pairs_view(final(m)@) == pairs_view(old(m)@)
            },
        },
{
    let ghost before = m@;
    let v = take_value(m, i);
    match open_mapping(v) {
        Ok((t, d)) => {
            assert(pairs_view(m@) =~= pairs_view(before).update(
                i as int,
                (pairs_view(before)[i as int].0, YamlView::Null),
            ));
            Some((t, d))
        },
        Err(w) => {
            put_value(m, i, w);
            assert(pairs_view(m@) =~= pairs_view(before));
            None
        },
    }
}

/// Puts a mapping opened with `open_entry_mapping` back into entry `i`.
pub fn close_entry_mapping(m: &mut Vec<(Yaml, Yaml)>, i: usize, t: Vec<String>, d: Vec<(Yaml, Yaml)>)
    requires
        i < old(m)@.len(),
    ensures
        final(m)@.len() == old(m)@.len(),
        pairs_view(final(m)@) == pairs_view(old(m)@).update(
            i as int,
            (
                pairs_view(old(m)@)[i as int].0,
                wrap(crate::text::views(t@), YamlView::Mapping(pairs_view(d@))),
            ),
        ),
{
    let ghost before = m@;
    let v = close_mapping(t, d);
    put_value(m, i, v);
    assert(pairs_view(m@) =~= pairs_view(before).update(
        i as int,
        (pairs_view(before)[i as int].0, yaml_view(v)),
    ));
}

/// Opens the value of entry `i` as a list, leaving `Null` in its place; a
/// value that is not a list stays where it is.
pub fn open_entry_list(m: &mut Vec<(Yaml, Yaml)>, i: usize) -> (r: Option<(Vec<String>, Vec<Yaml>)>)
    requires
        i < old(m)@.len(),
    ensures
        final(m)@.len() == old(m)@.len(),
        match r {
            Some((t, d)) => {
                &&& as_list(pairs_view(old(m)@)[i as int].1) == Some(items_view(d@))
                &&& crate::text::views(t@) == tags_of(pairs_view(old(m)@)[i as int].1)
                &&& pairs_view(final(m)@) == pairs_view(old(m)@).update(
                    i as int,
                    (pairs_view(old(m)@)[i as int].0, YamlView::Null),
                )
            },
            None => {
                &&& as_list(pairs_view(old(m)@)[i as int].1) is None
                &&& pairs_view(final(m)@) == pairs_view(old(m)@)
            },
        },
{
    let ghost before = m@;
    let v = take_value(m, i);
    match open_list(v) {
        Ok((t, d)) => {
            assert(pairs_view(m@) =~= pairs_view(before).update(
                i as int,
                (pairs_view(before)[i as int].0, YamlView::Null),
            ));
            Some((t, d))
        },
        Err(w) => {
            put_value(m, i, w);
            assert(pairs_view(m@) =~= pairs_view(before));
            None
        },
    }
}

/// Puts a list opened with `open_entry_list` back into entry `i`.
pub fn close_entry_list(m: &mut Vec<(Yaml, Yaml)>, i: usize, t: Vec<String>, d: Vec<Yaml>)
    requires
        i < old(m)@.len(),
    ensures
        final(m)@.len() == old(m)@.len(),
        pairs_view(final(m)@) == pairs_view(old(m)@).update(
            i as int,
            (
                pairs_view(old(m)@)[i as int].0,
                wrap(crate::text::views(t@), YamlView::List(items_view(d@))),
            ),
        ),
{
    let ghost before = m@;
    let v = close_list(t, d);
    put_value(m, i, v);
    assert(pairs_view(m@) =~= pairs_view(before).update(
        i as int,
        (pairs_view(before)[i as int].0, yaml_view(v)),
    ));
}

} // verus!
