//! Lists of keys in which no key occurs twice.

use vstd::prelude::*;

verus! {

/// `keys`, followed by those keys of `added` that are not yet there, each
/// once and in the order of its first occurrence in `added`.
pub open spec fn with_keys(keys: Seq<Seq<char>>, added: Seq<Seq<char>>) -> Seq<Seq<char>>
    decreases added.len(),
{
    if added.len() == 0 {
        keys
    } else {
        let before = with_keys(keys, added.drop_last());
        if before.contains(added.last()) {
            before
        } else {
            before.push(added.last())
        }
    }
}

/// The keys of `keys` in the order of their first occurrence, each once.
pub open spec fn distinct(keys: Seq<Seq<char>>) -> Seq<Seq<char>> {
    with_keys(Seq::empty(), keys)
}

/// `with_keys` holds exactly the keys of both lists, keeps the first list at
/// its start, and repeats no key if the first list repeats none.
pub proof fn lemma_with_keys(keys: Seq<Seq<char>>, added: Seq<Seq<char>>)
    ensures
        forall|key: Seq<char>|
            with_keys(keys, added).contains(key) == (keys.contains(key) || added.contains(key)),
        keys.no_duplicates() ==> with_keys(keys, added).no_duplicates(),
        keys.len() <= with_keys(keys, added).len(),
        with_keys(keys, added).take(keys.len() as int) == keys,
    decreases added.len(),
{
    let all = with_keys(keys, added);
    if added.len() == 0 {
        assert(all.take(keys.len() as int) =~= keys);
    } else {
        let shorter = added.drop_last();
        let before = with_keys(keys, shorter);
        lemma_with_keys(keys, shorter);
        assert(all.take(keys.len() as int) =~= before.take(keys.len() as int));
        assert forall|key: Seq<char>|
            all.contains(key) == (keys.contains(key) || added.contains(key)) by {
            if added.contains(key) {
                let at = added.index_of(key);
                if at < shorter.len() {
                    assert(shorter[at] == key);
                    assert(shorter.contains(key));
                } else {
                    assert(key == added.last());
                }
            }
            if shorter.contains(key) {
                let at = shorter.index_of(key);
                assert(added[at] == key);
            }
            if before.contains(key) {
                let at = before.index_of(key);
                assert(all[at] == key);
            }
            if key == added.last() {
                assert(added[added.len() - 1] == key);
                if !before.contains(key) {
                    assert(all[before.len() as int] == key);
                }
            }
            if all.contains(key) {
                let at = all.index_of(key);
                if at < before.len() {
                    assert(before[at] == key);
                    assert(before.contains(key));
                }
            }
        }
    }
}

/// Adding two lists in turn is adding them joined.
pub proof fn lemma_with_keys_concat(
    keys: Seq<Seq<char>>,
    first: Seq<Seq<char>>,
    second: Seq<Seq<char>>,
)
    ensures
        with_keys(keys, first + second) == with_keys(with_keys(keys, first), second),
    decreases second.len(),
{
    if second.len() == 0 {
        assert(first + second =~= first);
    } else {
        assert((first + second).drop_last() =~= first + second.drop_last());
        lemma_with_keys_concat(keys, first, second.drop_last());
    }
}

/// Adding one key appends it unless it is there.
pub proof fn lemma_with_key(keys: Seq<Seq<char>>, key: Seq<char>)
    ensures
        with_keys(keys, seq![key]) == if keys.contains(key) {
            keys
        } else {
            keys.push(key)
        },
{
    assert(seq![key].drop_last() =~= Seq::<Seq<char>>::empty());
    assert(with_keys(keys, seq![key].drop_last()) == keys);
}

/// `distinct` keeps exactly the keys that occur, and none twice.
pub proof fn lemma_distinct(keys: Seq<Seq<char>>)
    ensures
        distinct(keys).no_duplicates(),
        forall|key: Seq<char>| distinct(keys).contains(key) == keys.contains(key),
{
    lemma_with_keys(Seq::empty(), keys);
}

/// The position of the first item of `items` of which `bad` holds.
pub open spec fn first_where<A>(items: Seq<A>, bad: spec_fn(A) -> bool) -> Option<int>
    decreases items.len(),
{
    if items.len() == 0 {
        None
    } else {
        match first_where(items.drop_last(), bad) {
            Some(at) => Some(at),
            None => if bad(items.last()) {
                Some(items.len() - 1)
            } else {
                None
            },
        }
    }
}

/// What `first_where` gives: a position of which `bad` holds and before
/// which it holds of none, or nothing if it holds of no item.
pub proof fn lemma_first_where<A>(items: Seq<A>, bad: spec_fn(A) -> bool)
    ensures
        match first_where(items, bad) {
            Some(at) => 0 <= at < items.len() && bad(items[at]) && forall|earlier: int|
                0 <= earlier < at ==> !bad(#[trigger] items[earlier]),
            None => forall|at: int| 0 <= at < items.len() ==> !bad(#[trigger] items[at]),
        },
    decreases items.len(),
{
    if items.len() > 0 {
        lemma_first_where(items.drop_last(), bad);
        assert forall|at: int| 0 <= at < items.len() - 1 implies items.drop_last()[at]
            == #[trigger] items[at] by {}
    }
}

/// The first bad item among the first `n` is the first bad item of all.
pub proof fn lemma_first_where_stays<A>(items: Seq<A>, bad: spec_fn(A) -> bool, n: int)
    requires
        0 <= n <= items.len(),
        first_where(items.take(n), bad) is Some,
    ensures
        first_where(items, bad) == first_where(items.take(n), bad),
    decreases items.len() - n,
{
    if n == items.len() {
        assert(items.take(n) =~= items);
    } else {
        assert(items.drop_last().take(n) =~= items.take(n));
        lemma_first_where_stays(items.drop_last(), bad, n);
    }
}

/// Looking at one more item: the first bad item among the first `n + 1`.
pub proof fn lemma_first_where_next<A>(items: Seq<A>, bad: spec_fn(A) -> bool, n: int)
    requires
        0 <= n < items.len(),
        first_where(items.take(n), bad) is None,
    ensures
        first_where(items.take(n + 1), bad) == if bad(items[n]) {
            Some(n)
        } else {
            None
        },
{
    assert(items.take(n + 1).drop_last() =~= items.take(n));
}

/// The texts of a list of keys.
pub open spec fn texts(keys: Seq<String>) -> Seq<Seq<char>> {
    Seq::new(keys.len(), |i: int| keys[i]@)
}

/// A list of no keys.
pub(crate) fn no_keys() -> (keys: Vec<String>)
    ensures
        texts(keys@) == Seq::<Seq<char>>::empty(),
{
    let keys: Vec<String> = Vec::new();
    assert(texts(keys@) =~= Seq::<Seq<char>>::empty());
    keys
}

/// Decides whether `key` is in `list`.
pub fn list_contains(list: &Vec<String>, key: &String) -> (found: bool)
    ensures
        found == texts(list@).contains(key@),
{
    let mut i: usize = 0;
    while i < list.len()
        invariant
            i <= list.len(),
            forall|k: int| 0 <= k < i ==> texts(list@)[k] != key@,
        decreases list.len() - i,
    {
        if list[i] == *key {
            assert(texts(list@)[i as int] == key@);
            return true;
        }
        i += 1;
    }
    false
}

/// Appends `key` to `list` unless it is there already.
pub fn push_new(list: &mut Vec<String>, key: String)
    ensures
        texts(final(list)@) == if texts(old(list)@).contains(key@) {
            texts(old(list)@)
        } else {
            texts(old(list)@).push(key@)
        },
{
    if !list_contains(list, &key) {
        let ghost before = list@;
        list.push(key);
        proof {
            assert(texts(list@) =~= texts(before).push(key@));
        }
    }
}

} // verus!
