use vstd::prelude::*;

use crate::text::same_text;

verus! {

/// A value that is identified by a name within its collection.
pub trait Named: View {
    spec fn key(&self) -> Seq<char>;

    fn key_str(&self) -> (r: &str)
        ensures
            r@ == self.key(),
    ;
}

/// No two items share a name.
pub open spec fn keys_unique<T: Named>(s: Seq<T>) -> bool {
    forall|i: int, j: int|
        0 <= i < s.len() && 0 <= j < s.len() && i != j ==> #[trigger] s[i].key() != #[trigger] s[j].key()
}

/// The views of the items of `s` by name; where names repeat, the later item
/// wins.
pub open spec fn map_of<T: Named>(s: Seq<T>) -> Map<Seq<char>, T::V>
    decreases s.len(),
{
    if s.len() == 0 {
        Map::empty()
    } else {
        map_of(s.drop_last()).insert(s.last().key(), s.last()@)
    }
}

/// Items with the same names and views give the same map.
pub proof fn lemma_map_of_views<T: Named>(s: Seq<T>, t: Seq<T>)
    requires
        s.len() == t.len(),
        forall|i: int| 0 <= i < s.len() ==> #[trigger] s[i]@ == t[i]@ && s[i].key() == t[i].key(),
    ensures
        map_of(s) == map_of(t),
    decreases s.len(),
{
    if s.len() > 0 {
        lemma_map_of_views(s.drop_last(), t.drop_last());
        assert(s[s.len() - 1]@ == t[t.len() - 1]@);
    }
}

/// A name is in the map exactly when some item carries it.
pub proof fn lemma_map_of_dom<T: Named>(s: Seq<T>)
    ensures
        forall|k: Seq<char>|
            #[trigger] map_of(s).contains_key(k) <==> exists|i: int|
                0 <= i < s.len() && #[trigger] s[i].key() == k,
    decreases s.len(),
{
    if s.len() > 0 {
        let p = s.drop_last();
        lemma_map_of_dom(p);
        assert(map_of(s) == map_of(p).insert(s.last().key(), s.last()@));
        assert forall|k: Seq<char>|
            #[trigger] map_of(s).contains_key(k) <==> exists|i: int|
                0 <= i < s.len() && #[trigger] s[i].key() == k by {
            if map_of(s).contains_key(k) {
                if k == s.last().key() {
                    assert(s[s.len() - 1].key() == k);
                } else {
                    assert(map_of(p).contains_key(k));
                    let j = choose|j: int| 0 <= j < p.len() && #[trigger] p[j].key() == k;
                    assert(s[j].key() == k);
                }
            }
            if exists|i: int| 0 <= i < s.len() && #[trigger] s[i].key() == k {
                let i = choose|i: int| 0 <= i < s.len() && #[trigger] s[i].key() == k;
                if i < s.len() - 1 {
                    assert(p[i].key() == k);
                }
            }
        }
    }
}

/// Under each name the map holds the last item that carries it.
pub proof fn lemma_map_of_last<T: Named>(s: Seq<T>)
    ensures
        forall|k: Seq<char>|
            #[trigger] map_of(s).contains_key(k) ==> exists|j: int|
                0 <= j < s.len() && s[j].key() == k && map_of(s)[k] == s[j]@ && forall|j2: int|
                    j < j2 < s.len() ==> #[trigger] s[j2].key() != k,
    decreases s.len(),
{
    if s.len() > 0 {
        let p = s.drop_last();
        lemma_map_of_last(p);
        assert(map_of(s) == map_of(p).insert(s.last().key(), s.last()@));
        assert forall|k: Seq<char>| #[trigger] map_of(s).contains_key(k) implies exists|j: int|
            0 <= j < s.len() && s[j].key() == k && map_of(s)[k] == s[j]@ && forall|j2: int|
                j < j2 < s.len() ==> #[trigger] s[j2].key() != k by {
            if k == s.last().key() {
                let j = s.len() - 1;
                assert(s[j].key() == k && map_of(s)[k] == s[j]@);
            } else {
                assert(map_of(p).contains_key(k));
                let j = choose|j: int|
                    0 <= j < p.len() && p[j].key() == k && map_of(p)[k] == p[j]@ && forall|j2: int|
                        j < j2 < p.len() ==> #[trigger] p[j2].key() != k;
                assert(s[j] == p[j]);
                assert forall|j2: int| j < j2 < s.len() implies #[trigger] s[j2].key() != k by {
                    if j2 < p.len() {
                        assert(s[j2] == p[j2]);
                        assert(p[j2].key() != k);
                    }
                }
            }
        }
    }
}

/// Where names are unique, each item is what the map holds under its name.
pub proof fn lemma_map_of_unique<T: Named>(s: Seq<T>)
    requires
        keys_unique(s),
    ensures
        forall|i: int|
            0 <= i < s.len() ==> map_of(s).contains_key(#[trigger] s[i].key()) && map_of(s)[s[i].key()]
                == s[i]@,
    decreases s.len(),
{
    lemma_map_of_dom(s);
    if s.len() > 0 {
        let p = s.drop_last();
        assert(keys_unique(p)) by {
            assert forall|i: int, j: int|
                0 <= i < p.len() && 0 <= j < p.len() && i != j implies #[trigger] p[i].key()
                != #[trigger] p[j].key() by {
                assert(s[i].key() != s[j].key());
            }
        }
        lemma_map_of_unique(p);
        assert forall|i: int| 0 <= i < s.len() implies map_of(s).contains_key(
            #[trigger] s[i].key(),
        ) && map_of(s)[s[i].key()] == s[i]@ by {
            if i < s.len() - 1 {
                assert(s[i] == p[i]);
                assert(s[i].key() != s[s.len() - 1].key());
            }
        }
    }
}

/// Putting an item in the place of the one with its name replaces that
/// name's entry.
pub proof fn lemma_map_of_update<T: Named>(s: Seq<T>, i: int, x: T)
    requires
        keys_unique(s),
        0 <= i < s.len(),
        s[i].key() == x.key(),
    ensures
        keys_unique(s.update(i, x)),
        map_of(s.update(i, x)) == map_of(s).insert(x.key(), x@),
{
    let k = x.key();
    let post = s.update(i, x);
    assert(keys_unique(post)) by {
        assert forall|a: int, b: int|
            0 <= a < post.len() && 0 <= b < post.len() && a != b implies #[trigger] post[a].key()
            != #[trigger] post[b].key() by {
            assert(s[a].key() != s[b].key());
        }
    }
    lemma_map_of_dom(s);
    lemma_map_of_dom(post);
    lemma_map_of_unique(s);
    lemma_map_of_unique(post);
    let m = map_of(s).insert(k, x@);
    assert forall|key: Seq<char>| #[trigger] map_of(post).contains_key(key) <==> m.contains_key(key) by {
        if m.contains_key(key) && key != k {
            let j = choose|j: int| 0 <= j < s.len() && #[trigger] s[j].key() == key;
            assert(post[j].key() == key);
        }
        if map_of(post).contains_key(key) {
            let j = choose|j: int| 0 <= j < post.len() && #[trigger] post[j].key() == key;
            if j != i {
                assert(s[j].key() == key);
            }
        }
        if key == k {
            assert(post[i].key() == k);
        }
    }
    assert forall|key: Seq<char>| #[trigger] map_of(post).contains_key(key) implies map_of(post)[key]
        == m[key] by {
        let j = choose|j: int| 0 <= j < post.len() && #[trigger] post[j].key() == key;
        if j != i {
            assert(s[j].key() == key);
        }
    }
    assert(map_of(post) =~= m);
}

/// Taking an item out of items with unique names removes that name's entry.
pub proof fn lemma_map_of_remove<T: Named>(s: Seq<T>, i: int)
    requires
        keys_unique(s),
        0 <= i < s.len(),
    ensures
        keys_unique(s.remove(i)),
        map_of(s.remove(i)) == map_of(s).remove(s[i].key()),
{
    let k = s[i].key();
    let post = s.remove(i);
    assert forall|a: int| 0 <= a < post.len() implies #[trigger] post[a] == (if a < i {
        s[a]
    } else {
        s[a + 1]
    }) by {}
    assert(keys_unique(post)) by {
        assert forall|a: int, b: int|
            0 <= a < post.len() && 0 <= b < post.len() && a != b implies #[trigger] post[a].key()
            != #[trigger] post[b].key() by {
            let a2 = if a < i { a } else { a + 1 };
            let b2 = if b < i { b } else { b + 1 };
            assert(s[a2].key() != s[b2].key());
        }
    }
    lemma_map_of_dom(s);
    lemma_map_of_dom(post);
    lemma_map_of_unique(s);
    lemma_map_of_unique(post);
    let m = map_of(s).remove(k);
    assert forall|key: Seq<char>| #[trigger] map_of(post).contains_key(key) <==> m.contains_key(key) by {
        if m.contains_key(key) {
            let j = choose|j: int| 0 <= j < s.len() && #[trigger] s[j].key() == key;
            assert(j != i);
            let j2 = if j < i { j } else { j - 1 };
            assert(post[j2].key() == key);
        }
        if map_of(post).contains_key(key) {
            let j = choose|j: int| 0 <= j < post.len() && #[trigger] post[j].key() == key;
            let j2 = if j < i { j } else { j + 1 };
            assert(s[j2].key() == key);
            assert(j2 != i);
        }
    }
    assert forall|key: Seq<char>| #[trigger] map_of(post).contains_key(key) implies map_of(post)[key]
        == m[key] by {
        let j = choose|j: int| 0 <= j < post.len() && #[trigger] post[j].key() == key;
        let j2 = if j < i { j } else { j + 1 };
        assert(s[j2].key() == key);
    }
    assert(map_of(post) =~= m);
}

/// The position of the item named `key`, if there is one.
pub fn find_index<T: Named>(items: &Vec<T>, key: &str) -> (r: Option<usize>)
    ensures
        r matches Some(i) ==> i < items@.len() && items@[i as int].key() == key@,
        r is None ==> forall|i: int| 0 <= i < items@.len() ==> #[trigger] items@[i].key() != key@,
{
    let n = items.len();
    let mut i: usize = 0;
    while i < n
        invariant
            n == items@.len(),
            i <= n,
            forall|j: int| 0 <= j < i ==> #[trigger] items@[j].key() != key@,
        decreases n - i,
    {
        if same_text(items[i].key_str(), key) {
            return Some(i);
        }
        i = i + 1;
    }
    None
}

/// The item named `key` among items with unique names.
pub fn find<'a, T: Named>(items: &'a Vec<T>, key: &str) -> (r: Option<&'a T>)
    requires
        keys_unique(items@),
    ensures
        r matches Some(x) ==> map_of(items@).contains_key(key@) && map_of(items@)[key@] == x@,
        r is None ==> !map_of(items@).contains_key(key@),
{
    proof {
        lemma_map_of_dom(items@);
        lemma_map_of_unique(items@);
    }
    match find_index(items, key) {
        Some(i) => Some(&items[i]),
        None => None,
    }
}

/// Puts `item` among items with unique names, in place of the one with its
/// name if there is one.
pub fn upsert<T: Named>(items: &mut Vec<T>, item: T)
    requires
        keys_unique(old(items)@),
    ensures
        keys_unique(final(items)@),
        map_of(final(items)@) == map_of(old(items)@).insert(item.key(), item@),
{
    let ghost k = item.key();
    let ghost pre = items@;
    match find_index(items, item.key_str()) {
        Some(i) => {
            let ghost x = item;
            items.set(i, item);
            proof {
                lemma_map_of_update(pre, i as int, x);
                assert(items@ =~= pre.update(i as int, x));
            }
        },
        None => {
            items.push(item);
            proof {
                let post = items@;
                assert(post.drop_last() =~= pre);
                assert(keys_unique(post)) by {
                    assert forall|a: int, b: int|
                        0 <= a < post.len() && 0 <= b < post.len() && a != b implies #[trigger] post[a].key()
                        != #[trigger] post[b].key() by {
                        if a < pre.len() && b < pre.len() {
                            assert(pre[a].key() != pre[b].key());
                        } else if a < pre.len() {
                            assert(pre[a].key() != k);
                        } else {
                            assert(pre[b].key() != k);
                        }
                    }
                }
            }
        },
    }
}

/// The items of `v` with unique names, later items in place of earlier ones
/// with the same name.
pub fn index_by_name<T: Named>(v: Vec<T>) -> (r: Vec<T>)
    ensures
        keys_unique(r@),
        map_of(r@) == map_of(v@),
{
    let mut out: Vec<T> = Vec::new();
    let mut rest = v;
    let ghost all = rest@;
    let ghost n = all.len();
    proof {
        assert(map_of(out@) =~= map_of(all.subrange(0, 0)));
        assert(rest@ =~= all.subrange(0, n as int));
    }
    while rest.len() > 0
        invariant
            n == all.len(),
            rest@.len() <= n,
            rest@ == all.subrange(n - rest@.len(), n as int),
            keys_unique(out@),
            map_of(out@) == map_of(all.subrange(0, n - rest@.len())),
        decreases rest@.len(),
    {
        let ghost done = n - rest@.len();
        let item = rest.remove(0);
        proof {
            assert(item == all[done]);
            assert(rest@ =~= all.subrange(done + 1, n as int));
            assert(all.subrange(0, done + 1).drop_last() =~= all.subrange(0, done));
        }
        upsert(&mut out, item);
    }
    proof {
        assert(all.subrange(0, n as int) =~= all);
    }
    out
}

} // verus!
