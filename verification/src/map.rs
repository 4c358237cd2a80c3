//! A map from names to values that keeps each name once and the names in
//! order.

use crate::value::{entries_view, lemma_entries_view, Value, ValueView};
use vstd::prelude::*;
use vstd::utf8::{encode_utf8, encode_utf8_decode_utf8};

verus! {

/// The entries of a compound: names and values, each name once, ordered by
/// name. Names are ordered as strings are: byte by byte.
#[derive(Debug, PartialEq)]
pub struct TagMap {
    pub entries: Vec<(String, Value)>,
}

/// Whether `a` comes before `b` in the order of byte strings: at the first
/// place where they differ `a` has the smaller byte, or `a` ends there.
pub open spec fn precedes(a: Seq<u8>, b: Seq<u8>) -> bool
    decreases a.len(),
{
    if b.len() == 0 {
        false
    } else if a.len() == 0 {
        true
    } else if a[0] != b[0] {
        a[0] < b[0]
    } else {
        precedes(a.drop_first(), b.drop_first())
    }
}

/// Whether the name `a` comes before the name `b`.
pub open spec fn name_before(a: Seq<char>, b: Seq<char>) -> bool {
    precedes(encode_utf8(a), encode_utf8(b))
}

/// The number of entries at the head of `entries` whose names come before
/// `key`: among ordered entries, the place where `key` belongs.
pub open spec fn rank(entries: Seq<(Seq<char>, ValueView)>, key: Seq<char>) -> int
    decreases entries.len(),
{
    if entries.len() == 0 {
        0
    } else if name_before(entries[0].0, key) {
        1 + rank(entries.drop_first(), key)
    } else {
        0
    }
}

/// Whether `entries` hold the name `key` at the place where it belongs.
pub open spec fn holds(entries: Seq<(Seq<char>, ValueView)>, key: Seq<char>) -> bool {
    rank(entries, key) < entries.len() && entries[rank(entries, key)].0 == key
}

/// `entries` with `value` under the name `key`: in the place of the entry of
/// that name where there is one, else as a new entry at the place where the
/// name belongs.
pub open spec fn put(entries: Seq<(Seq<char>, ValueView)>, key: Seq<char>, value: ValueView) -> Seq<
    (Seq<char>, ValueView),
> {
    let at = rank(entries, key);
    if holds(entries, key) {
        entries.update(at, (key, value))
    } else {
        entries.insert(at, (key, value))
    }
}

/// Whether the names of `entries` stand in order, each before the next.
pub open spec fn sorted(entries: Seq<(Seq<char>, ValueView)>) -> bool {
    forall|i: int, j: int|
        0 <= i < j < entries.len() ==> name_before(
            (#[trigger] entries[i]).0,
            (#[trigger] entries[j]).0,
        )
}

/// No byte string comes before itself.
pub proof fn lemma_precedes_irreflexive(a: Seq<u8>)
    ensures
        !precedes(a, a),
    decreases a.len(),
{
    if a.len() > 0 {
        lemma_precedes_irreflexive(a.drop_first());
    }
}

/// What comes before something that comes before a third comes before the
/// third.
pub proof fn lemma_precedes_transitive(a: Seq<u8>, b: Seq<u8>, c: Seq<u8>)
    requires
        precedes(a, b),
        precedes(b, c),
    ensures
        precedes(a, c),
    decreases a.len(),
{
    if a.len() > 0 && a[0] == b[0] && b[0] == c[0] {
        lemma_precedes_transitive(a.drop_first(), b.drop_first(), c.drop_first());
    }
}

/// Of two byte strings that differ one comes before the other.
pub proof fn lemma_precedes_total(a: Seq<u8>, b: Seq<u8>)
    ensures
        precedes(a, b) || a == b || precedes(b, a),
    decreases a.len(),
{
    if a.len() > 0 && b.len() > 0 && a[0] == b[0] {
        lemma_precedes_total(a.drop_first(), b.drop_first());
        if a.drop_first() == b.drop_first() {
            assert(a =~= seq![a[0]] + a.drop_first());
            assert(b =~= seq![b[0]] + b.drop_first());
        }
    } else if a.len() == 0 && b.len() == 0 {
        assert(a =~= b);
    }
}

/// Byte strings that agree up to `n` are ordered as what follows.
pub proof fn lemma_precedes_skip(a: Seq<u8>, b: Seq<u8>, n: int)
    requires
        0 <= n <= a.len(),
        n <= b.len(),
        forall|k: int| 0 <= k < n ==> a[k] == b[k],
    ensures
        precedes(a, b) == precedes(a.skip(n), b.skip(n)),
    decreases n,
{
    if n == 0 {
        assert(a.skip(0) =~= a);
        assert(b.skip(0) =~= b);
    } else {
        let a1 = a.drop_first();
        let b1 = b.drop_first();
        assert forall|k: int| 0 <= k < n - 1 implies a1[k] == b1[k] by {
            assert(a1[k] == a[k + 1] && b1[k] == b[k + 1]);
        }
        lemma_precedes_skip(a1, b1, n - 1);
        assert(a1.skip(n - 1) =~= a.skip(n));
        assert(b1.skip(n - 1) =~= b.skip(n));
    }
}

/// Names whose bytes are the same are the same.
pub proof fn lemma_name_by_bytes(a: Seq<char>, b: Seq<char>)
    requires
        encode_utf8(a) == encode_utf8(b),
    ensures
        a == b,
{
    encode_utf8_decode_utf8(a);
    encode_utf8_decode_utf8(b);
}

/// Where `rank` points.
pub proof fn lemma_rank(entries: Seq<(Seq<char>, ValueView)>, key: Seq<char>)
    ensures
        0 <= rank(entries, key) <= entries.len(),
        rank(entries, key) < entries.len() ==> !name_before(entries[rank(entries, key)].0, key),
        forall|i: int|
            0 <= i < rank(entries, key) ==> name_before((#[trigger] entries[i]).0, key),
    decreases entries.len(),
{
    if entries.len() > 0 && name_before(entries[0].0, key) {
        let rest = entries.drop_first();
        lemma_rank(rest, key);
        assert forall|i: int| 0 <= i < rank(entries, key) implies name_before(
            (#[trigger] entries[i]).0,
            key,
        ) by {
            if i > 0 {
                assert(entries[i] == rest[i - 1]);
            }
        }
    }
}

/// The rank of a name is the first place whose name does not come before it.
pub proof fn lemma_rank_is(entries: Seq<(Seq<char>, ValueView)>, key: Seq<char>, at: int)
    requires
        0 <= at <= entries.len(),
        at < entries.len() ==> !name_before(entries[at].0, key),
        forall|i: int| 0 <= i < at ==> name_before((#[trigger] entries[i]).0, key),
    ensures
        rank(entries, key) == at,
{
    lemma_rank(entries, key);
    let r = rank(entries, key);
    if r < at {
        assert(name_before(entries[r].0, key));
    } else if r > at {
        assert(name_before(entries[at].0, key));
    }
}

/// Among entries in order a name that occurs at all occurs where it belongs:
/// there the map finds it.
pub proof fn law_name_held(entries: Seq<(Seq<char>, ValueView)>, key: Seq<char>, i: int)
    requires
        sorted(entries),
        0 <= i < entries.len(),
        entries[i].0 == key,
    ensures
        rank(entries, key) == i,
        holds(entries, key),
{
    lemma_precedes_irreflexive(encode_utf8(key));
    assert forall|j: int| 0 <= j < i implies name_before((#[trigger] entries[j]).0, key) by {
        assert(name_before(entries[j].0, entries[i].0));
    }
    lemma_rank_is(entries, key, i);
}

/// Putting a value keeps the names in order.
pub proof fn lemma_put_sorted(
    entries: Seq<(Seq<char>, ValueView)>,
    key: Seq<char>,
    value: ValueView,
)
    requires
        sorted(entries),
    ensures
        sorted(put(entries, key, value)),
{
    lemma_rank(entries, key);
    let at = rank(entries, key);
    let after = put(entries, key, value);
    if holds(entries, key) {
        assert forall|i: int, j: int| 0 <= i < j < after.len() implies name_before(
            (#[trigger] after[i]).0,
            (#[trigger] after[j]).0,
        ) by {
            assert(after[i].0 == entries[i].0);
            assert(after[j].0 == entries[j].0);
        }
    } else {
        if at < entries.len() {
            lemma_precedes_total(encode_utf8(key), encode_utf8(entries[at].0));
            if encode_utf8(key) == encode_utf8(entries[at].0) {
                lemma_name_by_bytes(key, entries[at].0);
            }
            assert(name_before(key, entries[at].0));
        }
        assert forall|i: int, j: int| 0 <= i < j < after.len() implies name_before(
            (#[trigger] after[i]).0,
            (#[trigger] after[j]).0,
        ) by {
            if j < at {
                assert(after[i] == entries[i] && after[j] == entries[j]);
            } else if j == at {
                assert(after[i] == entries[i]);
            } else if i < at {
                assert(after[i] == entries[i] && after[j] == entries[j - 1]);
            } else if i == at {
                assert(after[j] == entries[j - 1]);
                if j - 1 > at {
                    assert(name_before(entries[at].0, entries[j - 1].0));
                    lemma_precedes_transitive(
                        encode_utf8(key),
                        encode_utf8(entries[at].0),
                        encode_utf8(entries[j - 1].0),
                    );
                }
            } else {
                assert(after[i] == entries[i - 1] && after[j] == entries[j - 1]);
            }
        }
    }
}

/// How two byte strings stand to each other.
#[derive(Clone, Copy, Debug, PartialEq, Eq, Structural)]
pub enum Order {
    Before,
    Same,
    After,
}

/// Tells which of two byte strings comes first.
pub fn compare_bytes(a: &[u8], b: &[u8]) -> (r: Order)
    ensures
        r is Before <==> precedes(a@, b@),
        r is Same <==> a@ == b@,
        r is After <==> precedes(b@, a@),
{
    let mut i: usize = 0;
    while i < a.len() && i < b.len()
        invariant
            i <= a.len(),
            i <= b.len(),
            forall|k: int| 0 <= k < i ==> a@[k] == b@[k],
        decreases a.len() - i,
    {
        if a[i] != b[i] {
            proof {
                lemma_precedes_skip(a@, b@, i as int);
                lemma_precedes_skip(b@, a@, i as int);
                assert(a@.skip(i as int)[0] == a@[i as int]);
                assert(b@.skip(i as int)[0] == b@[i as int]);
            }
            return if a[i] < b[i] {
                Order::Before
            } else {
                Order::After
            };
        }
        i += 1;
    }
    proof {
        lemma_precedes_skip(a@, b@, i as int);
        lemma_precedes_skip(b@, a@, i as int);
        if a.len() == b.len() {
            assert(a@ =~= b@);
            lemma_precedes_irreflexive(a@);
        }
    }
    if a.len() < b.len() {
        Order::Before
    } else if a.len() == b.len() {
        Order::Same
    } else {
        Order::After
    }
}

impl View for TagMap {
    type V = Seq<(Seq<char>, ValueView)>;

    open spec fn view(&self) -> Seq<(Seq<char>, ValueView)> {
        entries_view(self.entries, self.entries.len() as nat)
    }
}

impl TagMap {
    /// The invariant: the names stand in order, so that none occurs twice.
    pub open spec fn wf(&self) -> bool {
        sorted(self@)
    }

    /// Whether the map holds an entry of the name `key`.
    pub open spec fn has(&self, key: Seq<char>) -> bool {
        holds(self@, key)
    }

    /// Makes a new empty map.
    pub fn new() -> (r: Self)
        ensures
            r@ == Seq::<(Seq<char>, ValueView)>::empty(),
            r.wf(),
    {
        TagMap { entries: Vec::new() }
    }

    /// Makes a new empty map. The map is kept in order, so that room asked for
    /// ahead serves nothing: `capacity` is not used.
    pub fn with_capacity(capacity: usize) -> (r: Self)
        ensures
            r@ == Seq::<(Seq<char>, ValueView)>::empty(),
            r.wf(),
    {
        let _ = capacity;
        TagMap { entries: Vec::new() }
    }

    pub fn len(&self) -> (n: usize)
        ensures
            n == self@.len(),
    {
        proof {
            lemma_entries_view(self.entries, self.entries.len() as nat);
        }
        self.entries.len()
    }

    pub fn is_empty(&self) -> (b: bool)
        ensures
            b == (self@.len() == 0),
    {
        proof {
            lemma_entries_view(self.entries, self.entries.len() as nat);
        }
        self.entries.len() == 0
    }

    pub fn clear(&mut self)
        ensures
            final(self)@ == Seq::<(Seq<char>, ValueView)>::empty(),
            final(self).wf(),
    {
        self.entries.clear();
    }

    /// The place where the name `key` belongs, and whether it stands there.
    fn find(&self, key: &str) -> (r: (usize, bool))
        ensures
            r.0 == rank(self@, key@),
            r.0 <= self.entries.len(),
            r.1 == holds(self@, key@),
            self@.len() == self.entries.len(),
    {
        proof {
            lemma_entries_view(self.entries, self.entries.len() as nat);
        }
        let mut i: usize = 0;
        while i < self.entries.len()
            invariant
                i <= self.entries.len(),
                self@.len() == self.entries.len(),
                forall|j: int|
                    0 <= j < self.entries.len() ==> #[trigger] self@[j] == (
                        self.entries[j].0@,
                        self.entries[j].1.view(),
                    ),
                forall|j: int| 0 <= j < i ==> name_before((#[trigger] self@[j]).0, key@),
            decreases self.entries.len() - i,
        {
            match compare_bytes(self.entries[i].0.as_str().as_bytes(), key.as_bytes()) {
                Order::Before => {
                    i += 1;
                },
                Order::Same => {
                    proof {
                        lemma_name_by_bytes(self@[i as int].0, key@);
                        lemma_precedes_irreflexive(encode_utf8(key@));
                        lemma_rank_is(self@, key@, i as int);
                    }
                    return (i, true);
                },
                Order::After => {
                    proof {
                        lemma_precedes_irreflexive(encode_utf8(key@));
                        if name_before(self@[i as int].0, key@) {
                            lemma_precedes_transitive(
                                encode_utf8(key@),
                                encode_utf8(self@[i as int].0),
                                encode_utf8(key@),
                            );
                        }
                        lemma_rank_is(self@, key@, i as int);
                    }
                    return (i, false);
                },
            }
        }
        proof {
            lemma_rank_is(self@, key@, i as int);
        }
        (i, false)
    }

    /// The value under the name `key`.
    pub fn get(&self, key: &str) -> (r: Option<&Value>)
        ensures
            r is Some <==> self.has(key@),
            r matches Some(v) ==> v@ == self@[rank(self@, key@)].1,
    {
        proof {
            lemma_entries_view(self.entries, self.entries.len() as nat);
        }
        let (at, found) = self.find(key);
        if found {
            Some(&self.entries[at].1)
        } else {
            None
        }
    }

    /// The value under the name `key`, to be changed in place. The entry keeps
    /// its name and its place.
    pub fn get_mut(&mut self, key: &str) -> (r: Option<&mut Value>)
        ensures
            r is Some <==> old(self).has(key@),
            r matches Some(v) ==> (*v)@ == old(self)@[rank(old(self)@, key@)].1 && final(self)@
                == old(self)@.update(rank(old(self)@, key@), (key@, (*final(v))@)),
            r is None ==> final(self)@ == old(self)@,
            old(self).wf() ==> final(self).wf(),
    {
        let (at, found) = self.find(key);
        let ghost before = self.entries;
        proof {
            lemma_entries_view(before, before.len() as nat);
            assert forall|after: Vec<(String, Value)>, e: (String, Value)|
                found && after@ == #[trigger] before@.update(at as int, e) && e.0
                    == before@[at as int].0 implies {
                &&& (#[trigger] entries_view(after, after.len() as nat)) == old(self)@.update(
                    at as int,
                    (key@, e.1@),
                )
                &&& old(self).wf() ==> sorted(entries_view(after, after.len() as nat))
            } by {
                lemma_entries_view(after, after.len() as nat);
                let now = entries_view(after, after.len() as nat);
                assert(now =~= old(self)@.update(at as int, (key@, e.1@)));
                if old(self).wf() {
                    assert forall|i: int, j: int| 0 <= i < j < now.len() implies name_before(
                        (#[trigger] now[i]).0,
                        (#[trigger] now[j]).0,
                    ) by {
                        assert(now[i].0 == old(self)@[i].0);
                        assert(now[j].0 == old(self)@[j].0);
                    }
                }
            }
        }
        if found {
            let entry = &mut self.entries[at];
            Some(&mut entry.1)
        } else {
            None
        }
    }

    /// The entries, in order: each name with its value.
    pub fn iter(&self) -> (r: Vec<(&String, &Value)>)
        ensures
            r@.len() == self@.len(),
            forall|i: int|
                0 <= i < r@.len() ==> ((#[trigger] r@[i]).0@, r@[i].1@) == self@[i],
    {
        proof {
            lemma_entries_view(self.entries, self.entries.len() as nat);
        }
        let mut r: Vec<(&String, &Value)> = Vec::new();
        let mut i: usize = 0;
        while i < self.entries.len()
            invariant
                i <= self.entries.len(),
                r@.len() == i,
                self@.len() == self.entries.len(),
                forall|j: int|
                    0 <= j < self.entries.len() ==> #[trigger] self@[j] == (
                        self.entries[j].0@,
                        self.entries[j].1.view(),
                    ),
                forall|j: int| 0 <= j < i ==> ((#[trigger] r@[j]).0@, r@[j].1@) == self@[j],
            decreases self.entries.len() - i,
        {
            r.push((&self.entries[i].0, &self.entries[i].1));
            i += 1;
        }
        r
    }

    /// Whether there is an entry of the name `key`.
    pub fn contains_key(&self, key: &str) -> (b: bool)
        ensures
            b == self.has(key@),
    {
        let (_, found) = self.find(key);
        found
    }

    /// Puts `v` under the name `k`, and hands out the value that stood there.
    pub fn insert(&mut self, k: String, v: Value) -> (r: Option<Value>)
        ensures
            final(self)@ == put(old(self)@, k@, v@),
            old(self).wf() ==> final(self).wf(),
            r is Some <==> old(self).has(k@),
            r matches Some(was) ==> was@ == old(self)@[rank(old(self)@, k@)].1,
    {
        let (at, found) = self.find(k.as_str());
        let ghost before = self.entries;
        proof {
            lemma_entries_view(before, before.len() as nat);
            if old(self).wf() {
                lemma_put_sorted(old(self)@, k@, v@);
            }
        }
        if found {
            self.entries.push((k, v));
            let was = self.entries.swap_remove(at);
            proof {
                lemma_entries_view(self.entries, self.entries.len() as nat);
                assert(self@ =~= put(old(self)@, k@, v@));
            }
            Some(was.1)
        } else {
            self.entries.insert(at, (k, v));
            proof {
                lemma_entries_view(self.entries, self.entries.len() as nat);
                assert(self@ =~= put(old(self)@, k@, v@));
            }
            None
        }
    }

    /// Takes the entry of the name `key` out, and hands out its value. The
    /// other entries keep their order.
    pub fn remove(&mut self, key: &str) -> (r: Option<Value>)
        ensures
            r is Some <==> old(self).has(key@),
            r matches Some(was) ==> was@ == old(self)@[rank(old(self)@, key@)].1 && final(self)@
                == old(self)@.remove(rank(old(self)@, key@)),
            r is None ==> final(self)@ == old(self)@,
            old(self).wf() ==> final(self).wf(),
    {
        let (at, found) = self.find(key);
        let ghost before = self.entries;
        proof {
            lemma_entries_view(before, before.len() as nat);
        }
        if found {
            let was = self.entries.remove(at);
            proof {
                lemma_entries_view(self.entries, self.entries.len() as nat);
                assert(self@ =~= old(self)@.remove(at as int));
                if old(self).wf() {
                    assert forall|i: int, j: int| 0 <= i < j < self@.len() implies name_before(
                        (#[trigger] self@[i]).0,
                        (#[trigger] self@[j]).0,
                    ) by {
                        let a = if i < at {
                            i
                        } else {
                            i + 1
                        };
                        let b = if j < at {
                            j
                        } else {
                            j + 1
                        };
                        assert(self@[i] == old(self)@[a]);
                        assert(self@[j] == old(self)@[b]);
                    }
                }
            }
            Some(was.1)
        } else {
            None
        }
    }

    /// The names, in order.
    pub fn keys(&self) -> (r: Vec<&String>)
        ensures
            r@.len() == self@.len(),
            forall|i: int| 0 <= i < r@.len() ==> (#[trigger] r@[i])@ == self@[i].0,
    {
        proof {
            lemma_entries_view(self.entries, self.entries.len() as nat);
        }
        let mut r: Vec<&String> = Vec::new();
        let mut i: usize = 0;
        while i < self.entries.len()
            invariant
                i <= self.entries.len(),
                r@.len() == i,
                self@.len() == self.entries.len(),
                forall|j: int|
                    0 <= j < self.entries.len() ==> #[trigger] self@[j] == (
                        self.entries[j].0@,
                        self.entries[j].1.view(),
                    ),
                forall|j: int| 0 <= j < i ==> (#[trigger] r@[j])@ == self@[j].0,
            decreases self.entries.len() - i,
        {
            r.push(&self.entries[i].0);
            i += 1;
        }
        r
    }
}

impl Default for TagMap {
    fn default() -> (r: Self)
        ensures
            r@ == Seq::<(Seq<char>, ValueView)>::empty(),
            r.wf(),
    {
        TagMap::new()
    }
}

} // verus!
