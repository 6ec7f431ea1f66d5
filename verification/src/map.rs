//! The map frame: text keys, each at most once, kept in ascending order.

use crate::frame::{FrameView, RespFrame};
use vstd::prelude::*;
use vstd::utf8::{encode_utf8, encode_utf8_decode_utf8};

verus! {

/// The order of byte strings: by the first byte that differs, a proper prefix
/// before what it is a prefix of.
pub open spec fn bytes_lt(a: Seq<u8>, b: Seq<u8>) -> bool
    decreases a.len(),
{
    if b.len() == 0 {
        false
    } else if a.len() == 0 {
        true
    } else if a[0] != b[0] {
        a[0] < b[0]
    } else {
        bytes_lt(a.skip(1), b.skip(1))
    }
}

/// The order of keys: that of their UTF-8 bytes.
pub open spec fn key_lt(a: Seq<char>, b: Seq<char>) -> bool {
    bytes_lt(encode_utf8(a), encode_utf8(b))
}

/// Each key is less than the next, so none comes twice.
pub open spec fn sorted_keys<V>(entries: Seq<(Seq<char>, V)>) -> bool {
    forall|i: int, j: int|
        0 <= i < j < entries.len() ==> key_lt(#[trigger] entries[i].0, #[trigger] entries[j].0)
}

/// Where `key` belongs among `entries`: behind the last entry whose key is less.
pub open spec fn rank<V>(entries: Seq<(Seq<char>, V)>, key: Seq<char>) -> nat
    decreases entries.len(),
{
    if entries.len() == 0 {
        0
    } else if key_lt(entries.last().0, key) {
        entries.len()
    } else {
        rank(entries.drop_last(), key)
    }
}

/// `entries` with `key` bound to `value`: in place of the entry that had the key,
/// or as a new entry where the key belongs.
pub open spec fn insert_entry<V>(entries: Seq<(Seq<char>, V)>, key: Seq<char>, value: V) -> Seq<
    (Seq<char>, V),
> {
    let p = rank(entries, key) as int;
    if p < entries.len() && entries[p].0 == key {
        entries.update(p, (key, value))
    } else {
        entries.insert(p, (key, value))
    }
}

/// The map that results from inserting the first `n` of `pairs`, in their order,
/// into an empty one.
pub open spec fn insert_all<V>(pairs: Seq<(Seq<char>, V)>, n: nat) -> Seq<(Seq<char>, V)>
    decreases n,
{
    if n == 0 || n > pairs.len() {
        Seq::empty()
    } else {
        insert_entry(insert_all(pairs, (n - 1) as nat), pairs[n - 1].0, pairs[n - 1].1)
    }
}

/// No byte string is less than itself.
pub proof fn lemma_bytes_lt_irreflexive(a: Seq<u8>)
    ensures
        !bytes_lt(a, a),
    decreases a.len(),
{
    if a.len() > 0 {
        lemma_bytes_lt_irreflexive(a.skip(1));
    }
}

/// The order of byte strings is transitive.
pub proof fn lemma_bytes_lt_transitive(a: Seq<u8>, b: Seq<u8>, c: Seq<u8>)
    requires
        bytes_lt(a, b),
        bytes_lt(b, c),
    ensures
        bytes_lt(a, c),
    decreases a.len(),
{
    if a.len() > 0 && a[0] == b[0] && b[0] == c[0] {
        lemma_bytes_lt_transitive(a.skip(1), b.skip(1), c.skip(1));
    }
}

/// Of two different byte strings one is less than the other.
pub proof fn lemma_bytes_lt_total(a: Seq<u8>, b: Seq<u8>)
    ensures
        a == b || bytes_lt(a, b) || bytes_lt(b, a),
    decreases a.len(),
{
    if a.len() == 0 || b.len() == 0 {
        if a.len() == 0 && b.len() == 0 {
            assert(a =~= b);
        }
    } else if a[0] == b[0] {
        lemma_bytes_lt_total(a.skip(1), b.skip(1));
        if a.skip(1) == b.skip(1) {
            assert forall|i: int| 0 <= i < a.len() implies a[i] == b[i] by {
                if i > 0 {
                    assert(a[i] == a.skip(1)[i - 1]);
                    assert(b[i] == b.skip(1)[i - 1]);
                }
            }
            assert(a.len() == a.skip(1).len() + 1);
            assert(b.len() == b.skip(1).len() + 1);
            assert(a =~= b);
        }
    }
}

/// No key is less than itself.
pub proof fn lemma_key_lt_irreflexive(a: Seq<char>)
    ensures
        !key_lt(a, a),
{
    lemma_bytes_lt_irreflexive(encode_utf8(a));
}

/// The order of keys is transitive.
pub proof fn lemma_key_lt_transitive(a: Seq<char>, b: Seq<char>, c: Seq<char>)
    requires
        key_lt(a, b),
        key_lt(b, c),
    ensures
        key_lt(a, c),
{
    lemma_bytes_lt_transitive(encode_utf8(a), encode_utf8(b), encode_utf8(c));
}

/// Of two different keys one is less than the other.
pub proof fn lemma_key_lt_total(a: Seq<char>, b: Seq<char>)
    ensures
        a == b || key_lt(a, b) || key_lt(b, a),
{
    lemma_bytes_lt_total(encode_utf8(a), encode_utf8(b));
    encode_utf8_decode_utf8(a);
    encode_utf8_decode_utf8(b);
}

/// In a sorted map the rank of a key parts the entries: those before it have
/// lesser keys, those from it on do not.
pub proof fn lemma_rank<V>(entries: Seq<(Seq<char>, V)>, key: Seq<char>)
    requires
        sorted_keys(entries),
    ensures
        rank(entries, key) <= entries.len(),
        forall|i: int| 0 <= i < rank(entries, key) ==> key_lt(#[trigger] entries[i].0, key),
        forall|i: int|
            rank(entries, key) <= i < entries.len() ==> !key_lt(#[trigger] entries[i].0, key),
    decreases entries.len(),
{
    if entries.len() == 0 {
    } else if key_lt(entries.last().0, key) {
        assert forall|i: int| 0 <= i < entries.len() implies key_lt(
            #[trigger] entries[i].0,
            key,
        ) by {
            if i < entries.len() - 1 {
                lemma_key_lt_transitive(entries[i].0, entries.last().0, key);
            }
        }
    } else {
        let init = entries.drop_last();
        assert forall|i: int, j: int| 0 <= i < j < init.len() implies key_lt(
            #[trigger] init[i].0,
            #[trigger] init[j].0,
        ) by {
            assert(init[i] == entries[i] && init[j] == entries[j]);
        }
        lemma_rank(init, key);
        assert forall|i: int| 0 <= i < rank(entries, key) implies key_lt(
            #[trigger] entries[i].0,
            key,
        ) by {
            assert(init[i] == entries[i]);
        }
        assert forall|i: int| rank(entries, key) <= i < entries.len() implies !key_lt(
            #[trigger] entries[i].0,
            key,
        ) by {
            if i < entries.len() - 1 {
                assert(init[i] == entries[i]);
            }
        }
    }
}

/// Inserting into a sorted map leaves it sorted.
pub proof fn lemma_insert_entry_sorted<V>(entries: Seq<(Seq<char>, V)>, key: Seq<char>, value: V)
    requires
        sorted_keys(entries),
    ensures
        sorted_keys(insert_entry(entries, key, value)),
{
    lemma_rank(entries, key);
    let p = rank(entries, key) as int;
    let after = insert_entry(entries, key, value);
    if p < entries.len() && entries[p].0 == key {
        assert forall|i: int, j: int| 0 <= i < j < after.len() implies key_lt(
            #[trigger] after[i].0,
            #[trigger] after[j].0,
        ) by {
            assert(after[i].0 == entries[i].0 && after[j].0 == entries[j].0);
        }
    } else {
        assert forall|j: int| p <= j < entries.len() implies key_lt(
            key,
            #[trigger] entries[j].0,
        ) by {
            lemma_key_lt_total(key, entries[p].0);
            if j > p {
                lemma_key_lt_transitive(key, entries[p].0, entries[j].0);
            }
        }
        assert forall|i: int, j: int| 0 <= i < j < after.len() implies key_lt(
            #[trigger] after[i].0,
            #[trigger] after[j].0,
        ) by {
            if j < p {
                assert(after[i] == entries[i] && after[j] == entries[j]);
            } else if j == p {
                assert(after[i] == entries[i]);
            } else if i < p {
                assert(after[i] == entries[i] && after[j] == entries[j - 1]);
                lemma_key_lt_transitive(entries[i].0, key, entries[j - 1].0);
            } else if i == p {
                assert(after[j] == entries[j - 1]);
            } else {
                assert(after[i] == entries[i - 1] && after[j] == entries[j - 1]);
            }
        }
    }
}

/// Whatever is inserted, in whatever order, the result is sorted.
pub proof fn lemma_insert_all_sorted<V>(pairs: Seq<(Seq<char>, V)>, n: nat)
    ensures
        sorted_keys(insert_all(pairs, n)),
    decreases n,
{
    if n == 0 || n > pairs.len() {
    } else {
        lemma_insert_all_sorted(pairs, (n - 1) as nat);
        lemma_insert_entry_sorted(
            insert_all(pairs, (n - 1) as nat),
            pairs[n - 1].0,
            pairs[n - 1].1,
        );
    }
}

/// Inserting the entries of a sorted map in their order builds that map again.
pub proof fn lemma_insert_all_of_sorted<V>(entries: Seq<(Seq<char>, V)>, n: nat)
    requires
        sorted_keys(entries),
        n <= entries.len(),
    ensures
        insert_all(entries, n) == entries.take(n as int),
    decreases n,
{
    if n == 0 {
        assert(entries.take(0) =~= Seq::empty());
    } else {
        lemma_insert_all_of_sorted(entries, (n - 1) as nat);
        let before = entries.take(n - 1);
        let key = entries[n - 1].0;
        if n - 1 > 0 {
            assert(before.last() == entries[n - 2]);
            assert(key_lt(entries[n - 2].0, entries[n - 1].0));
        }
        assert(rank(before, key) == before.len());
        assert(before.insert(n - 1, entries[n - 1]) =~= entries.take(n as int));
    }
}

/// Inserting the first `n` pairs does not look at the others.
pub proof fn lemma_insert_all_prefix<V>(
    pairs: Seq<(Seq<char>, V)>,
    more: Seq<(Seq<char>, V)>,
    n: nat,
)
    requires
        n <= pairs.len(),
    ensures
        insert_all(pairs + more, n) == insert_all(pairs, n),
    decreases n,
{
    if n > 0 {
        lemma_insert_all_prefix(pairs, more, (n - 1) as nat);
    }
}

/// No key comes before one that is less: the order of a sorted list, in which a
/// key may come more than once.
pub open spec fn ordered_keys<V>(entries: Seq<(Seq<char>, V)>) -> bool {
    forall|i: int, j: int|
        0 <= i < j < entries.len() ==> !key_lt(#[trigger] entries[j].0, #[trigger] entries[i].0)
}

/// Where an entry with `key` goes into a sorted list: behind the last entry whose
/// key is not greater, so that it comes after the entries with the same key.
pub open spec fn rank_after<V>(entries: Seq<(Seq<char>, V)>, key: Seq<char>) -> nat
    decreases entries.len(),
{
    if entries.len() == 0 {
        0
    } else if !key_lt(key, entries.last().0) {
        entries.len()
    } else {
        rank_after(entries.drop_last(), key)
    }
}

/// The first `n` of `pairs` sorted by key, entries with the same key in the order
/// in which they came: each is put into the sorted list of those before it.
pub open spec fn sort_all<V>(pairs: Seq<(Seq<char>, V)>, n: nat) -> Seq<(Seq<char>, V)>
    decreases n,
{
    if n == 0 || n > pairs.len() {
        Seq::empty()
    } else {
        let before = sort_all(pairs, (n - 1) as nat);
        before.insert(rank_after(before, pairs[n - 1].0) as int, pairs[n - 1])
    }
}

/// In a sorted list the place of a key parts the entries: those before it have
/// keys that are not greater, those from it on have greater keys.
pub proof fn lemma_rank_after<V>(entries: Seq<(Seq<char>, V)>, key: Seq<char>)
    requires
        ordered_keys(entries),
    ensures
        rank_after(entries, key) <= entries.len(),
        forall|i: int| 0 <= i < rank_after(entries, key) ==> !key_lt(key, #[trigger] entries[i].0),
        forall|i: int|
            rank_after(entries, key) <= i < entries.len() ==> key_lt(key, #[trigger] entries[i].0),
    decreases entries.len(),
{
    if entries.len() == 0 {
    } else if !key_lt(key, entries.last().0) {
        assert forall|i: int| 0 <= i < entries.len() implies !key_lt(
            key,
            #[trigger] entries[i].0,
        ) by {
            if i < entries.len() - 1 && key_lt(key, entries[i].0) {
                assert(!key_lt(entries.last().0, entries[i].0));
                lemma_key_lt_total(entries[i].0, entries.last().0);
                if entries[i].0 != entries.last().0 {
                    lemma_key_lt_transitive(key, entries[i].0, entries.last().0);
                }
            }
        }
    } else {
        let init = entries.drop_last();
        assert forall|i: int, j: int| 0 <= i < j < init.len() implies !key_lt(
            #[trigger] init[j].0,
            #[trigger] init[i].0,
        ) by {
            assert(init[i] == entries[i] && init[j] == entries[j]);
        }
        lemma_rank_after(init, key);
        assert forall|i: int| 0 <= i < rank_after(entries, key) implies !key_lt(
            key,
            #[trigger] entries[i].0,
        ) by {
            assert(init[i] == entries[i]);
        }
        assert forall|i: int| rank_after(entries, key) <= i < entries.len() implies key_lt(
            key,
            #[trigger] entries[i].0,
        ) by {
            if i < entries.len() - 1 {
                assert(init[i] == entries[i]);
            }
        }
    }
}

/// What `sort_all` gives is sorted, and holds as many entries as were given.
pub proof fn lemma_sort_all<V>(pairs: Seq<(Seq<char>, V)>, n: nat)
    requires
        n <= pairs.len(),
    ensures
        ordered_keys(sort_all(pairs, n)),
        sort_all(pairs, n).len() == n,
    decreases n,
{
    if n > 0 {
        lemma_sort_all(pairs, (n - 1) as nat);
        let before = sort_all(pairs, (n - 1) as nat);
        let key = pairs[n - 1].0;
        lemma_rank_after(before, key);
        let p = rank_after(before, key) as int;
        let after = sort_all(pairs, n);
        assert forall|i: int, j: int| 0 <= i < j < after.len() implies !key_lt(
            #[trigger] after[j].0,
            #[trigger] after[i].0,
        ) by {
            if j < p {
                assert(after[i] == before[i] && after[j] == before[j]);
            } else if j == p {
                assert(after[i] == before[i]);
            } else if i < p {
                assert(after[i] == before[i] && after[j] == before[j - 1]);
            } else if i == p {
                assert(after[j] == before[j - 1]);
                assert(key_lt(key, before[j - 1].0));
                if key_lt(before[j - 1].0, key) {
                    lemma_key_lt_transitive(key, before[j - 1].0, key);
                    lemma_key_lt_irreflexive(key);
                }
            } else {
                assert(after[i] == before[i - 1] && after[j] == before[j - 1]);
            }
        }
    }
}

/// What a map holds for a key: the value of the first entry with that key.
pub open spec fn lookup<V>(entries: Seq<(Seq<char>, V)>, key: Seq<char>, from: nat) -> Option<V>
    decreases entries.len() - from,
{
    if from >= entries.len() {
        None
    } else if entries[from as int].0 == key {
        Some(entries[from as int].1)
    } else {
        lookup(entries, key, from + 1)
    }
}

/// Whether one text comes before another in the order of keys.
pub fn key_less(a: &str, b: &str) -> (r: bool)
    ensures
        r == key_lt(a@, b@),
{
    let x: &[u8] = a.as_bytes();
    let y: &[u8] = b.as_bytes();
    let mut i: usize = 0;
    assert(x@.skip(0) =~= x@ && y@.skip(0) =~= y@);
    while i < x.len() && i < y.len()
        invariant
            i <= x@.len(),
            i <= y@.len(),
            x@ == encode_utf8(a@),
            y@ == encode_utf8(b@),
            bytes_lt(x@, y@) == bytes_lt(x@.skip(i as int), y@.skip(i as int)),
        decreases x@.len() - i,
    {
        assert(x@.skip(i as int)[0] == x@[i as int] && y@.skip(i as int)[0] == y@[i as int]);
        if x[i] != y[i] {
            return x[i] < y[i];
        }
        assert(x@.skip(i as int).skip(1) =~= x@.skip(i + 1));
        assert(y@.skip(i as int).skip(1) =~= y@.skip(i + 1));
        i += 1;
    }
    x.len() < y.len()
}

/// Whether two texts are the same key.
pub fn same_key(a: &str, b: &str) -> (r: bool)
    ensures
        r == (a@ == b@),
{
    proof {
        lemma_key_lt_total(a@, b@);
        lemma_key_lt_irreflexive(a@);
    }
    !key_less(a, b) && !key_less(b, a)
}

/// In a sorted map a key is found at its rank or nowhere.
pub proof fn lemma_lookup_sorted<V>(entries: Seq<(Seq<char>, V)>, key: Seq<char>)
    requires
        sorted_keys(entries),
    ensures
        lookup(entries, key, 0) == if rank(entries, key) < entries.len() && entries[rank(
            entries,
            key,
        ) as int].0 == key {
            Some(entries[rank(entries, key) as int].1)
        } else {
            None
        },
{
    lemma_lookup(entries, key, 0);
    lemma_rank(entries, key);
    lemma_key_lt_irreflexive(key);
    let p = rank(entries, key) as int;
    match lookup(entries, key, 0) {
        Some(v) => {
            let i = choose|i: int|
                0 <= i < entries.len() && #[trigger] entries[i].0 == key && entries[i].1 == v
                    && forall|j: int| 0 <= j < i ==> entries[j].0 != key;
            if i < p {
                assert(key_lt(entries[i].0, key));
            } else if i > p {
                assert(!key_lt(entries[p].0, key));
                lemma_key_lt_total(entries[p].0, key);
                assert(key_lt(entries[p].0, entries[i].0));
            }
        },
        None => {
            if p < entries.len() {
                assert(entries[p].0 != key);
            }
        },
    }
}

/// Where a key belongs among stored entries.
fn position(entries: &Vec<(String, RespFrame)>, key: &str) -> (i: usize)
    ensures
        i == rank(entry_views(entries@), key@),
        i <= entries@.len(),
{
    let ghost views = entry_views(entries@);
    let n: usize = entries.len();
    let mut i: usize = n;
    assert(views.take(n as int) =~= views);
    while i > 0 && !key_less(entries[i - 1].0.as_str(), key)
        invariant
            i <= n,
            n == entries@.len(),
            views == entry_views(entries@),
            rank(views, key@) == rank(views.take(i as int), key@),
        decreases i,
    {
        assert(views.take(i as int).drop_last() =~= views.take(i - 1));
        assert(views.take(i as int).last() == views[i - 1]);
        i -= 1;
    }
    proof {
        if i > 0 {
            assert(views.take(i as int).last() == views[i - 1]);
        }
    }
    i
}

/// `%<count>\r\n<key><value>...`: a map from text keys to frames. No key occurs
/// twice, and the entries are kept in the order of their keys.
#[derive(Debug, PartialEq, Eq, PartialOrd)]
pub struct RespMap(Vec<(String, RespFrame)>);

/// The views of stored entries.
pub open spec fn entry_views(stored: Seq<(String, RespFrame)>) -> Seq<(Seq<char>, FrameView)>
    decreases stored,
{
    Seq::new(
        stored.len(),
        |i: int|
            if 0 <= i < stored.len() {
                (stored[i].0@, stored[i].1.view())
            } else {
                (Seq::empty(), FrameView::Null)
            },
    )
}

impl View for RespMap {
    type V = Seq<(Seq<char>, FrameView)>;

    closed spec fn view(&self) -> Seq<(Seq<char>, FrameView)>
        decreases self,
    {
        entry_views(self.0@)
    }
}

impl RespMap {
    #[verifier::type_invariant]
    spec fn ordered(self) -> bool {
        sorted_keys(self@)
    }

    /// An empty map.
    pub fn new() -> (m: Self)
        ensures
            m@ == Seq::<(Seq<char>, FrameView)>::empty(),
    {
        let m = RespMap(Vec::new());
        assert(m@ =~= Seq::<(Seq<char>, FrameView)>::empty());
        m
    }

    /// The number of entries. That a map is sorted by key is stated here, for
    /// callers that need it.
    pub fn len(&self) -> (n: usize)
        ensures
            n == self@.len(),
            sorted_keys(self@),
    {
        proof {
            use_type_invariant(self);
        }
        self.0.len()
    }

    /// The entry at a position, in key order.
    pub fn entry(&self, i: usize) -> (e: (&String, &RespFrame))
        requires
            i < self@.len(),
        ensures
            e.0@ == self@[i as int].0,
            e.1@ == self@[i as int].1,
            decreases_to!(self => e.1),
    {
        (&self.0[i].0, &self.0[i].1)
    }

    /// Binds `key` to `value`, and hands back the value that the key had.
    pub fn insert(&mut self, key: String, value: RespFrame) -> (previous: Option<RespFrame>)
        ensures
            final(self)@ == insert_entry(old(self)@, key@, value@),
            sorted_keys(final(self)@),
            match previous {
                Some(v) => lookup(old(self)@, key@, 0) == Some(v@),
                None => lookup(old(self)@, key@, 0) is None,
            },
    {
        proof {
            use_type_invariant(&*self);
        }
        let ghost before = self@;
        let mut entries: Vec<(String, RespFrame)> = Vec::new();
        assert(entry_views(entries@) =~= Seq::empty());
        core::mem::swap(&mut self.0, &mut entries);
        let i: usize = position(&entries, key.as_str());
        proof {
            lemma_lookup_sorted(before, key@);
            lemma_insert_entry_sorted(before, key@, value@);
        }
        let previous = if i < entries.len() && entries[i].0 == key {
            let old_entry = entries.remove(i);
            entries.insert(i, (key, value));
            assert(entry_views(entries@) =~= before.update(i as int, (key@, value@)));
            Some(old_entry.1)
        } else {
            entries.insert(i, (key, value));
            assert(entry_views(entries@) =~= before.insert(i as int, (key@, value@)));
            None
        };
        core::mem::swap(&mut self.0, &mut entries);
        previous
    }

    /// The value that a key is bound to.
    pub fn get(&self, key: &str) -> (found: Option<&RespFrame>)
        ensures
            match found {
                Some(v) => lookup(self@, key@, 0) == Some(v@),
                None => lookup(self@, key@, 0) is None,
            },
    {
        let n: usize = self.0.len();
        let mut i: usize = 0;
        while i < n
            invariant
                i <= n,
                n == self.0@.len(),
                lookup(self@, key@, 0) == lookup(self@, key@, i as nat),
            decreases n - i,
        {
            assert(self@[i as int] == (self.0@[i as int].0@, self.0@[i as int].1@));
            if same_key(self.0[i].0.as_str(), key) {
                return Some(&self.0[i].1);
            }
            i += 1;
        }
        None
    }
}

/// A key that no entry has is looked up in vain; a key that the entry at `at` has,
/// and none before it, is found there.
pub proof fn lemma_lookup<V>(entries: Seq<(Seq<char>, V)>, key: Seq<char>, from: nat)
    ensures
        match lookup(entries, key, from) {
            Some(v) => exists|i: int|
                from <= i < entries.len() && #[trigger] entries[i].0 == key && entries[i].1 == v
                    && forall|j: int| from <= j < i ==> entries[j].0 != key,
            None => forall|i: int| from <= i < entries.len() ==> (#[trigger] entries[i]).0 != key,
        },
    decreases entries.len() - from,
{
    if from >= entries.len() {
    } else if entries[from as int].0 == key {
    } else {
        lemma_lookup(entries, key, from + 1);
    }
}

} // verus!
