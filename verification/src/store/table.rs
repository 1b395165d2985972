//! What the tables have in common: rows found by a key, and listed by the time they carry.
use crate::text;
use crate::text::{is_before, same};
use vstd::prelude::*;

verus! {

/// What can be handed out as a copy.
pub trait Record: View + Sized {
    fn copy(&self) -> (r: Self)
        ensures
            r@ == self@,
    ;
}

/// A row of a table.
pub trait Row: Record {
    /// The key of the row.
    spec fn key_of(m: Self::V) -> Seq<char>;

    /// The time that the row is listed by.
    spec fn stamp_of(m: Self::V) -> Seq<char>;

    fn key(&self) -> (r: &str)
        ensures
            r@ == Self::key_of(self@),
    ;

    fn stamp(&self) -> (r: &str)
        ensures
            r@ == Self::stamp_of(self@),
    ;
}

/// The models of the rows.
pub open spec fn models<T: View>(s: Seq<T>) -> Seq<T::V> {
    s.map_values(|x: T| x@)
}

/// The place of the first row with a key.
pub open spec fn place<T: Row>(s: Seq<T::V>, key: Seq<char>) -> Option<int>
    decreases s.len(),
{
    if s.len() == 0 {
        None
    } else {
        match place::<T>(s.drop_last(), key) {
            Some(i) => Some(i),
            None => if T::key_of(s.last()) == key {
                Some(s.len() - 1)
            } else {
                None
            },
        }
    }
}

/// The row with a key.
pub open spec fn row<T: Row>(s: Seq<T::V>, key: Seq<char>) -> Option<T::V> {
    match place::<T>(s, key) {
        Some(i) => Some(s[i]),
        None => None,
    }
}

/// The rows with `m` in the place of the one that has its key, or at the end where none has.
pub open spec fn put<T: Row>(s: Seq<T::V>, m: T::V) -> Seq<T::V> {
    match place::<T>(s, T::key_of(m)) {
        Some(i) => s.update(i, m),
        None => s.push(m),
    }
}

/// No two rows share a key.
pub open spec fn keys_differ<T: Row>(s: Seq<T::V>) -> bool {
    forall|i: int, j: int|
        0 <= i < j < s.len() ==> T::key_of(#[trigger] s[i]) != T::key_of(#[trigger] s[j])
}

/// The rows with one more: in front of the first one whose time is not later.
pub open spec fn list_in<T: Row>(listed: Seq<T::V>, m: T::V) -> Seq<T::V>
    decreases listed.len(),
{
    if listed.len() > 0 && !text::before(T::stamp_of(m), T::stamp_of(listed.last())) {
        list_in::<T>(listed.drop_last(), m).push(listed.last())
    } else {
        listed.push(m)
    }
}

/// The rows from the latest time to the earliest; of those of one time, the later row first.
pub open spec fn newest_first<T: Row>(s: Seq<T::V>) -> Seq<T::V>
    decreases s.len(),
{
    if s.len() == 0 {
        s
    } else {
        list_in::<T>(newest_first::<T>(s.drop_last()), s.last())
    }
}

/// The last rows, the latest first, at most `limit` of them.
pub open spec fn latest<M>(s: Seq<M>, limit: nat) -> Seq<M> {
    Seq::new(
        if limit < s.len() {
            limit
        } else {
            s.len()
        },
        |i: int| s[s.len() - 1 - i],
    )
}

/// What `place` finds is the first row with the key.
pub proof fn lemma_place<T: Row>(s: Seq<T::V>, key: Seq<char>)
    ensures
        (match place::<T>(s, key) {
            Some(i) => {
                &&& 0 <= i < s.len()
                &&& T::key_of(s[i]) == key
                &&& forall|k: int| 0 <= k < i ==> T::key_of(#[trigger] s[k]) != key
            },
            None => forall|k: int| 0 <= k < s.len() ==> T::key_of(#[trigger] s[k]) != key,
        }),
    decreases s.len(),
{
    if s.len() > 0 {
        let rest = s.drop_last();
        lemma_place::<T>(rest, key);
        match place::<T>(rest, key) {
            Some(i) => {
                assert(rest[i] == s[i]);
                assert forall|k: int| 0 <= k < i implies T::key_of(#[trigger] s[k]) != key by {
                    assert(rest[k] == s[k]);
                }
            },
            None => {
                assert forall|k: int| 0 <= k < s.len() - 1 implies T::key_of(#[trigger] s[k])
                    != key by {
                    assert(rest[k] == s[k]);
                }
            },
        }
    }
}

/// The first row with a key is where `place` finds it.
pub proof fn lemma_place_is<T: Row>(s: Seq<T::V>, key: Seq<char>, i: int)
    requires
        0 <= i < s.len(),
        T::key_of(s[i]) == key,
        forall|k: int| 0 <= k < i ==> T::key_of(#[trigger] s[k]) != key,
    ensures
        place::<T>(s, key) == Some(i),
{
    lemma_place::<T>(s, key);
    match place::<T>(s, key) {
        Some(j) => {
            if j < i {
                assert(T::key_of(s[j]) != key);
            } else if i < j {
                assert(T::key_of(s[i]) != key);
            }
        },
        None => {},
    }
}

/// A row that was put is found under its key.
pub proof fn lemma_put_then_row<T: Row>(s: Seq<T::V>, m: T::V)
    ensures
        row::<T>(put::<T>(s, m), T::key_of(m)) == Some(m),
        place::<T>(s, T::key_of(m)) is None ==> place::<T>(put::<T>(s, m), T::key_of(m)) == Some(
            s.len() as int,
        ),
        place::<T>(s, T::key_of(m)) is Some ==> place::<T>(put::<T>(s, m), T::key_of(m))
            == place::<T>(s, T::key_of(m)),
{
    let key = T::key_of(m);
    let t = put::<T>(s, m);
    lemma_place::<T>(s, key);
    match place::<T>(s, key) {
        Some(i) => {
            assert forall|k: int| 0 <= k < i implies T::key_of(#[trigger] t[k]) != key by {
                assert(t[k] == s[k]);
            }
            lemma_place_is::<T>(t, key, i);
        },
        None => {
            assert forall|k: int| 0 <= k < s.len() implies T::key_of(#[trigger] t[k]) != key by {
                assert(t[k] == s[k]);
            }
            lemma_place_is::<T>(t, key, s.len() as int);
        },
    }
}

/// Putting a row leaves those with other keys as they are.
pub proof fn lemma_put_keeps_others<T: Row>(s: Seq<T::V>, m: T::V, key: Seq<char>)
    requires
        key != T::key_of(m),
    ensures
        row::<T>(put::<T>(s, m), key) == row::<T>(s, key),
        place::<T>(put::<T>(s, m), key) == place::<T>(s, key),
{
    let t = put::<T>(s, m);
    lemma_place::<T>(s, T::key_of(m));
    lemma_place::<T>(s, key);
    lemma_place::<T>(t, key);
    match place::<T>(s, key) {
        Some(i) => {
            assert(t[i] == s[i]);
            assert forall|k: int| 0 <= k < i implies T::key_of(#[trigger] t[k]) != key by {
                assert(t[k] == s[k] || t[k] == m);
            }
            lemma_place_is::<T>(t, key, i);
        },
        None => {
            assert forall|k: int| 0 <= k < t.len() implies T::key_of(#[trigger] t[k]) != key by {
                assert(t[k] == m || t[k] == s[k]);
            }
        },
    }
}

/// Putting a row keeps the keys apart.
pub proof fn lemma_put_keeps_keys<T: Row>(s: Seq<T::V>, m: T::V)
    requires
        keys_differ::<T>(s),
    ensures
        keys_differ::<T>(put::<T>(s, m)),
{
    let t = put::<T>(s, m);
    lemma_place::<T>(s, T::key_of(m));
    assert forall|i: int, j: int| 0 <= i < j < t.len() implies T::key_of(#[trigger] t[i])
        != T::key_of(#[trigger] t[j]) by {
        match place::<T>(s, T::key_of(m)) {
            Some(p) => {
                assert(T::key_of(t[i]) == T::key_of(s[i]));
                assert(T::key_of(t[j]) == T::key_of(s[j]));
            },
            None => {
                assert(t[i] == s[i]);
                if j < s.len() {
                    assert(t[j] == s[j]);
                }
            },
        }
    }
}

/// Finds the first row with a key.
pub fn find<T: Row>(rows: &Vec<T>, key: &str) -> (r: Option<usize>)
    ensures
        (match r {
            Some(i) => i < rows@.len() && place::<T>(models(rows@), key@) == Some(i as int),
            None => place::<T>(models(rows@), key@) is None,
        }),
{
    let ghost s = models(rows@);
    let mut i: usize = 0;
    while i < rows.len()
        invariant
            i <= rows@.len(),
            s == models(rows@),
            forall|k: int| 0 <= k < i ==> T::key_of(#[trigger] s[k]) != key@,
        decreases rows@.len() - i,
    {
        assert(s[i as int] == rows@[i as int]@);
        if same(rows[i].key(), key) {
            proof {
                lemma_place_is::<T>(s, key@, i as int);
            }
            return Some(i);
        }
        i = i + 1;
    }
    proof {
        lemma_place::<T>(s, key@);
    }
    None
}

/// A copy of the row with a key.
pub fn get<T: Row>(rows: &Vec<T>, key: &str) -> (r: Option<T>)
    ensures
        (match r {
            Some(m) => row::<T>(models(rows@), key@) == Some(m@),
            None => row::<T>(models(rows@), key@) is None,
        }),
{
    match find(rows, key) {
        Some(i) => {
            assert(models(rows@)[i as int] == rows@[i as int]@);
            Some(rows[i].copy())
        },
        None => None,
    }
}

/// The keys of the rows.
pub open spec fn keys<T: Row>(s: Seq<T::V>) -> Seq<Seq<char>> {
    s.map_values(|m: T::V| T::key_of(m))
}

/// The keys of the rows, in code point order.
pub fn sorted_keys<T: Row>(rows: &Vec<T>) -> (r: Vec<String>)
    ensures
        text::all(r@) == text::sorted(keys::<T>(models(rows@))),
{
    let mut out: Vec<String> = Vec::new();
    let mut i: usize = 0;
    while i < rows.len()
        invariant
            i <= rows.len(),
            out@.len() == i,
            forall|k: int| 0 <= k < i ==> (#[trigger] out@[k])@ == T::key_of(rows@[k]@),
        decreases rows.len() - i,
    {
        out.push(rows[i].key().to_owned());
        i = i + 1;
    }
    assert(text::all(out@) =~= keys::<T>(models(rows@)));
    text::sort(&out)
}

/// Puts a row in the place of the one that has its key, or at the end where none has.
pub fn put_row<T: Row>(rows: &mut Vec<T>, m: T)
    ensures
        models(final(rows)@) == put::<T>(models(old(rows)@), m@),
{
    match find(rows, m.key()) {
        Some(i) => {
            rows.set(i, m);
            assert(models(rows@) =~= models(old(rows)@).update(i as int, m@));
        },
        None => {
            rows.push(m);
            assert(models(rows@) =~= models(old(rows)@).push(m@));
        },
    }
}

/// Copies of the last rows, the latest first, at most `limit` of them.
pub fn list_latest<T: Record>(rows: &Vec<T>, limit: u32) -> (r: Vec<T>)
    ensures
        models(r@) == latest(models(rows@), limit as nat),
{
    let mut out: Vec<T> = Vec::new();
    let mut left: usize = rows.len();
    let mut taken: u32 = 0;
    while left > 0 && taken < limit
        invariant
            left + taken == rows@.len(),
            taken <= limit,
            out@.len() == taken,
            forall|k: int| 0 <= k < taken ==> (#[trigger] out@[k])@ == rows@[rows@.len() - 1 - k]@,
        decreases left,
    {
        out.push(rows[left - 1].copy());
        left = left - 1;
        taken = taken + 1;
    }
    assert(models(out@) =~= latest(models(rows@), limit as nat));
    out
}

/// The rows from the latest time to the earliest.
pub fn list_newest<T: Row>(rows: &Vec<T>) -> (r: Vec<T>)
    ensures
        models(r@) == newest_first::<T>(models(rows@)),
{
    let ghost s = models(rows@);
    let mut out: Vec<T> = Vec::new();
    let mut i: usize = 0;
    assert(models(out@) =~= s.take(0));
    while i < rows.len()
        invariant
            i <= rows.len(),
            s == models(rows@),
            models(out@) == newest_first::<T>(s.take(i as int)),
        decreases rows.len() - i,
    {
        let m: T = rows[i].copy();
        let ghost before = out@;
        let ghost listed = models(before);
        let mut at: usize = out.len();
        assert(listed.take(at as int) =~= listed);
        assert(list_in::<T>(listed, m@) =~= list_in::<T>(listed.take(at as int), m@) + listed.skip(
            at as int,
        ));
        while at > 0 && !is_before(m.stamp(), out[at - 1].stamp())
            invariant
                at <= out.len(),
                out@ == before,
                listed == models(before),
                list_in::<T>(listed, m@) == list_in::<T>(listed.take(at as int), m@) + listed.skip(
                    at as int,
                ),
            decreases at,
        {
            assert(listed[at - 1] == out@[at - 1]@);
            assert(listed.take(at as int).drop_last() =~= listed.take(at - 1));
            assert(list_in::<T>(listed.take(at - 1), m@).push(listed[at - 1]) + listed.skip(
                at as int,
            ) =~= list_in::<T>(listed.take(at - 1), m@) + listed.skip(at - 1));
            at = at - 1;
        }
        if at > 0 {
            assert(listed[at - 1] == out@[at - 1]@);
            assert(listed.take(at as int).last() == listed[at - 1]);
        }
        assert(list_in::<T>(listed.take(at as int), m@) == listed.take(at as int).push(m@));
        out.insert(at, m);
        assert(models(out@) =~= listed.take(at as int).push(m@) + listed.skip(at as int));
        assert(s.take(i + 1).drop_last() =~= s.take(i as int));
        assert(s.take(i + 1).last() == m@);
        i = i + 1;
    }
    assert(s.take(i as int) =~= s);
    out
}

/// No row stands before one of a later time.
pub open spec fn is_newest_first<T: Row>(s: Seq<T::V>) -> bool {
    forall|i: int, j: int|
        0 <= i < j < s.len() ==> !text::before(
            T::stamp_of(#[trigger] s[i]),
            T::stamp_of(#[trigger] s[j]),
        )
}

proof fn lemma_list_in<T: Row>(listed: Seq<T::V>, m: T::V)
    requires
        is_newest_first::<T>(listed),
    ensures
        is_newest_first::<T>(list_in::<T>(listed, m)),
        list_in::<T>(listed, m).to_multiset() == listed.to_multiset().insert(m),
        list_in::<T>(listed, m).len() == listed.len() + 1,
        forall|i: int|
            0 <= i < list_in::<T>(listed, m).len() ==> {
                ||| #[trigger] list_in::<T>(listed, m)[i] == m
                ||| exists|k: int| 0 <= k < listed.len() && list_in::<T>(listed, m)[i] == listed[k]
            },
    decreases listed.len(),
{
    broadcast use vstd::seq_lib::group_to_multiset_ensures;

    let out = list_in::<T>(listed, m);
    if listed.len() > 0 && !text::before(T::stamp_of(m), T::stamp_of(listed.last())) {
        let rest = listed.drop_last();
        let last = listed.last();
        assert(is_newest_first::<T>(rest)) by {
            assert forall|i: int, j: int| 0 <= i < j < rest.len() implies !text::before(
                T::stamp_of(#[trigger] rest[i]),
                T::stamp_of(#[trigger] rest[j]),
            ) by {
                assert(rest[i] == listed[i] && rest[j] == listed[j]);
            }
        }
        lemma_list_in::<T>(rest, m);
        let inner = list_in::<T>(rest, m);
        assert(listed =~= rest.push(last));
        assert(out.to_multiset() =~= listed.to_multiset().insert(m));
        assert forall|i: int| 0 <= i < out.len() implies {
            ||| #[trigger] out[i] == m
            ||| exists|k: int| 0 <= k < listed.len() && out[i] == listed[k]
        } by {
            if i < inner.len() {
                assert(out[i] == inner[i]);
                if inner[i] != m {
                    let k = choose|k: int| 0 <= k < rest.len() && inner[i] == rest[k];
                    assert(out[i] == listed[k]);
                }
            } else {
                assert(out[i] == listed[listed.len() - 1]);
            }
        }
        assert forall|i: int, j: int| 0 <= i < j < out.len() implies !text::before(
            T::stamp_of(#[trigger] out[i]),
            T::stamp_of(#[trigger] out[j]),
        ) by {
            assert(out[i] == inner[i]);
            if j < inner.len() {
                assert(out[j] == inner[j]);
            } else {
                assert(out[j] == last);
                if inner[i] != m {
                    let k = choose|k: int| 0 <= k < rest.len() && inner[i] == rest[k];
                    assert(rest[k] == listed[k]);
                    assert(!text::before(
                        T::stamp_of(listed[k]),
                        T::stamp_of(listed[listed.len() - 1]),
                    ));
                }
            }
        }
    } else {
        assert forall|i: int, j: int| 0 <= i < j < out.len() implies !text::before(
            T::stamp_of(#[trigger] out[i]),
            T::stamp_of(#[trigger] out[j]),
        ) by {
            assert(out[i] == listed[i]);
            if j < listed.len() {
                assert(out[j] == listed[j]);
            } else {
                let a = T::stamp_of(listed[i]);
                let z = T::stamp_of(listed[listed.len() - 1]);
                let x = T::stamp_of(m);
                if i < listed.len() - 1 {
                    assert(!text::before(a, z));
                } else {
                    text::lemma_before_irreflexive(a);
                }
                // x comes before z, and z does not come after a
                if text::before(a, x) {
                    text::lemma_before_transitive(a, x, z);
                }
            }
        }
        assert forall|i: int| 0 <= i < out.len() implies {
            ||| #[trigger] out[i] == m
            ||| exists|k: int| 0 <= k < listed.len() && out[i] == listed[k]
        } by {
            if i < listed.len() {
                assert(out[i] == listed[i]);
            }
        }
    }
}

/// A listing holds every row of the table, each as often as the table does, and none before one of a
/// later time.
pub proof fn law_listing_is_complete<T: Row>(s: Seq<T::V>)
    ensures
        is_newest_first::<T>(newest_first::<T>(s)),
        newest_first::<T>(s).to_multiset() == s.to_multiset(),
        newest_first::<T>(s).len() == s.len(),
    decreases s.len(),
{
    broadcast use vstd::seq_lib::group_to_multiset_ensures;

    if s.len() > 0 {
        law_listing_is_complete::<T>(s.drop_last());
        lemma_list_in::<T>(newest_first::<T>(s.drop_last()), s.last());
        assert(s =~= s.drop_last().push(s.last()));
    }
}

/// A listing holds every row of the table.
pub proof fn lemma_listing_contains<T: Row>(s: Seq<T::V>, m: T::V)
    ensures
        newest_first::<T>(s).contains(m) == s.contains(m),
{
    broadcast use vstd::seq_lib::group_to_multiset_ensures;

    law_listing_is_complete::<T>(s);
    assert(newest_first::<T>(s).to_multiset().count(m) == s.to_multiset().count(m));
}

/// The last rows come the latest first, as many as asked for or as there are.
pub proof fn law_latest_are_the_last<M>(s: Seq<M>, limit: nat)
    ensures
        latest(s, limit) == s.reverse().take(
            if limit < s.len() {
                limit as int
            } else {
                s.len() as int
            },
        ),
{
    assert(latest(s, limit) =~= s.reverse().take(
        if limit < s.len() {
            limit as int
        } else {
            s.len() as int
        },
    ));
}

/// A row is found under its key if and only if one is there that has it, and it is the first of those.
pub proof fn law_row_has_its_key<T: Row>(s: Seq<T::V>, key: Seq<char>)
    ensures
        (match row::<T>(s, key) {
            Some(m) => T::key_of(m) == key && s.contains(m),
            None => forall|k: int| 0 <= k < s.len() ==> T::key_of(#[trigger] s[k]) != key,
        }),
{
    lemma_place::<T>(s, key);
}

/// Nothing passes a filter that no row meets.
proof fn lemma_filter_none<M>(s: Seq<M>, keep: spec_fn(M) -> bool)
    requires
        forall|i: int| 0 <= i < s.len() ==> !keep(#[trigger] s[i]),
    ensures
        s.filter(keep) == Seq::<M>::empty(),
    decreases s.len(),
{
    reveal(Seq::filter);
    if s.len() > 0 {
        let rest = s.drop_last();
        assert forall|i: int| 0 <= i < rest.len() implies !keep(#[trigger] rest[i]) by {
            assert(rest[i] == s[i]);
        }
        lemma_filter_none(rest, keep);
        assert(!keep(s[s.len() - 1]));
    }
}

/// A row is listed in front of those of its own time.
proof fn lemma_listed_in_front<T: Row>(
    listed: Seq<T::V>,
    m: T::V,
    stamp: Seq<char>,
    keep: spec_fn(T::V) -> bool,
)
    requires
        is_newest_first::<T>(listed),
        forall|x: T::V| #[trigger] keep(x) == (T::stamp_of(x) == stamp),
    ensures
        list_in::<T>(listed, m).filter(keep) == if keep(m) {
            seq![m] + listed.filter(keep)
        } else {
            listed.filter(keep)
        },
    decreases listed.len(),
{
    reveal(Seq::filter);
    let out = list_in::<T>(listed, m);
    if listed.len() > 0 && !text::before(T::stamp_of(m), T::stamp_of(listed.last())) {
        let rest = listed.drop_last();
        let last = listed.last();
        assert(is_newest_first::<T>(rest)) by {
            assert forall|i: int, j: int| 0 <= i < j < rest.len() implies !text::before(
                T::stamp_of(#[trigger] rest[i]),
                T::stamp_of(#[trigger] rest[j]),
            ) by {
                assert(rest[i] == listed[i] && rest[j] == listed[j]);
            }
        }
        lemma_listed_in_front::<T>(rest, m, stamp, keep);
        let inner = list_in::<T>(rest, m);
        assert(out.drop_last() =~= inner);
        assert(out.last() == last);
        assert((seq![m] + rest.filter(keep)).push(last) =~= seq![m] + rest.filter(keep).push(last));
    } else {
        assert(out.drop_last() =~= listed);
        if keep(m) {
            assert forall|i: int| 0 <= i < listed.len() implies !keep(#[trigger] listed[i]) by {
                let z = listed[listed.len() - 1];
                if i < listed.len() - 1 {
                    assert(!text::before(T::stamp_of(listed[i]), T::stamp_of(z)));
                } else {
                    text::lemma_before_irreflexive(T::stamp_of(z));
                }
            }
            lemma_filter_none(listed, keep);
            assert(Seq::<T::V>::empty().push(m) =~= seq![m] + Seq::<T::V>::empty());
        }
    }
}

/// Of the rows of one time, the later one is listed first.
pub proof fn law_later_row_of_one_time_comes_first<T: Row>(s: Seq<T::V>, stamp: Seq<char>)
    ensures
        newest_first::<T>(s).filter(|m: T::V| T::stamp_of(m) == stamp) == s.filter(
            |m: T::V| T::stamp_of(m) == stamp,
        ).reverse(),
    decreases s.len(),
{
    let keep = |m: T::V| T::stamp_of(m) == stamp;
    reveal(Seq::filter);
    if s.len() == 0 {
        assert(s.filter(keep).reverse() =~= Seq::<T::V>::empty());
        assert(newest_first::<T>(s).filter(keep) =~= Seq::<T::V>::empty());
    } else {
        let rest = s.drop_last();
        law_later_row_of_one_time_comes_first::<T>(rest, stamp);
        law_listing_is_complete::<T>(rest);
        lemma_listed_in_front::<T>(newest_first::<T>(rest), s.last(), stamp, keep);
        assert(rest.filter(keep).push(s.last()).reverse() =~= seq![s.last()] + rest.filter(
            keep,
        ).reverse());
    }
}

} // verus!
