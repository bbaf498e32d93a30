use vstd::prelude::*;

verus! {

/// The abstract contents of a table: its entries, in insertion order, each a
/// key and the view of its value.
pub open spec fn entries_view<V: View>(s: Seq<(String, V)>) -> Seq<(Seq<char>, V::V)> {
    s.map_values(|e: (String, V)| (e.0@, e.1@))
}

/// Keys within one table never repeat.
pub open spec fn unique_keys<W>(s: Seq<(Seq<char>, W)>) -> bool {
    forall|i: int, j: int|
        0 <= i < s.len() && 0 <= j < s.len() && #[trigger] s[i].0 == #[trigger] s[j].0 ==> i == j
}

pub open spec fn has_key<W>(s: Seq<(Seq<char>, W)>, k: Seq<char>) -> bool {
    exists|i: int| 0 <= i < s.len() && #[trigger] s[i].0 == k
}

/// The position of key `k` in a table that holds it.
pub open spec fn key_pos<W>(s: Seq<(Seq<char>, W)>, k: Seq<char>) -> int
    recommends
        has_key(s, k),
{
    choose|i: int| 0 <= i < s.len() && #[trigger] s[i].0 == k
}

/// Setting key `k` to `w`: an existing entry is replaced where it stands, a
/// new key goes to the end.
pub open spec fn put<W>(s: Seq<(Seq<char>, W)>, k: Seq<char>, w: W) -> Seq<(Seq<char>, W)> {
    if has_key(s, k) {
        s.update(key_pos(s, k), (k, w))
    } else {
        s.push((k, w))
    }
}

/// The table as a mapping from keys to values.
pub open spec fn as_map<W>(s: Seq<(Seq<char>, W)>) -> Map<Seq<char>, W> {
    Map::new(|k: Seq<char>| has_key(s, k), |k: Seq<char>| s[key_pos(s, k)].1)
}

pub proof fn lemma_key_pos_unique<W>(s: Seq<(Seq<char>, W)>, i: int)
    requires
        unique_keys(s),
        0 <= i < s.len(),
    ensures
        has_key(s, s[i].0),
        key_pos(s, s[i].0) == i,
{
    let k = s[i].0;
    assert(has_key(s, k));
    let j = key_pos(s, k);
    assert(s[j].0 == s[i].0);
}

pub proof fn lemma_put_unique<W>(s: Seq<(Seq<char>, W)>, k: Seq<char>, w: W)
    requires
        unique_keys(s),
    ensures
        unique_keys(put(s, k, w)),
        has_key(put(s, k, w), k),
        as_map(put(s, k, w)) == as_map(s).insert(k, w),
{
    let r = put(s, k, w);
    if has_key(s, k) {
        let p = key_pos(s, k);
        assert(r[p].0 == k);
        assert forall|i: int, j: int|
            0 <= i < r.len() && 0 <= j < r.len() && #[trigger] r[i].0 == #[trigger] r[j].0 implies i
            == j by {
            assert(r[i].0 == s[i].0);
            assert(r[j].0 == s[j].0);
        }
    } else {
        assert(r[s.len() as int].0 == k);
        assert forall|i: int, j: int|
            0 <= i < r.len() && 0 <= j < r.len() && #[trigger] r[i].0 == #[trigger] r[j].0 implies i
            == j by {
            if i < s.len() && j < s.len() {
                assert(r[i].0 == s[i].0);
                assert(r[j].0 == s[j].0);
            } else if i < s.len() {
                assert(r[i].0 == s[i].0);
            } else if j < s.len() {
                assert(r[j].0 == s[j].0);
            }
        }
    }
    assert(has_key(r, k));
    assert forall|q: Seq<char>| #[trigger] has_key(r, q) == (q == k || has_key(s, q)) by {
        if has_key(s, q) {
            let i = key_pos(s, q);
            assert(r[i].0 == q || r[i].0 == k);
        }
        if has_key(r, q) && q != k {
            let i = key_pos(r, q);
            assert(s[i].0 == q);
        }
    }
    assert forall|q: Seq<char>| #[trigger] has_key(r, q) implies as_map(r)[q] == as_map(s).insert(
        k,
        w,
    )[q] by {
        let i = key_pos(r, q);
        lemma_key_pos_unique(r, i);
        if q != k {
            assert(s[i].0 == q);
            lemma_key_pos_unique(s, i);
        }
    }
    assert(as_map(r) =~= as_map(s).insert(k, w));
}

/// Looks up the position of `k` in `t`.
pub fn find_key<V: View>(t: &Vec<(String, V)>, k: &String) -> (r: Option<usize>)
    requires
        unique_keys(entries_view(t@)),
    ensures
        match r {
            Some(i) => i < t@.len() && t@[i as int].0@ == k@ && key_pos(entries_view(t@), k@)
                == i,
            None => !has_key(entries_view(t@), k@),
        },
{
    let ghost s = entries_view(t@);
    let mut i: usize = 0;
    while i < t.len()
        invariant
            i <= t@.len(),
            s == entries_view(t@),
            unique_keys(s),
            forall|j: int| 0 <= j < i ==> #[trigger] s[j].0 != k@,
        decreases t@.len() - i,
    {
        if t[i].0 == *k {
            proof {
                assert(s[i as int].0 == k@);
                lemma_key_pos_unique(s, i as int);
            }
            return Some(i);
        }
        assert(s[i as int].0 != k@);
        i = i + 1;
    }
    None
}

/// Sets `k` to `v` in `t`, replacing the value an existing entry holds.
pub fn insert_entry<V: View>(t: &mut Vec<(String, V)>, k: String, v: V)
    requires
        unique_keys(entries_view(old(t)@)),
    ensures
        entries_view(final(t)@) == put(entries_view(old(t)@), k@, v@),
        unique_keys(entries_view(final(t)@)),
{
    proof {
        lemma_put_unique(entries_view(t@), k@, v@);
    }
    let ghost kv = k@;
    let ghost vv = v@;
    match find_key(t, &k) {
        Some(i) => {
            assert(entries_view(old(t)@)[i as int].0 == kv);
            t.set(i, (k, v));
            assert(entries_view(t@) =~= put(entries_view(old(t)@), kv, vv));
        },
        None => {
            t.push((k, v));
            assert(entries_view(t@) =~= put(entries_view(old(t)@), kv, vv));
        },
    }
}

} // verus!
