//! A map from strings to strings that is kept in the order of its keys.

use crate::text::to_chars;
use vstd::prelude::*;

verus! {

/// Whether `a` stands before `b` in the order of strings: character by character, by code point,
/// a proper prefix first.
pub open spec fn before(a: Seq<char>, b: Seq<char>) -> bool
    decreases a.len(),
{
    b.len() > 0 && (a.len() == 0 || a[0] < b[0] || (a[0] == b[0] && before(a.skip(1), b.skip(1))))
}

/// Nothing stands before itself.
pub proof fn lemma_before_irreflexive(a: Seq<char>)
    ensures
        !before(a, a),
    decreases a.len(),
{
    if a.len() > 0 {
        lemma_before_irreflexive(a.skip(1));
    }
}

/// The order is transitive.
pub proof fn lemma_before_transitive(a: Seq<char>, b: Seq<char>, c: Seq<char>)
    requires
        before(a, b),
        before(b, c),
    ensures
        before(a, c),
    decreases a.len(),
{
    if a.len() > 0 && a[0] == b[0] && b[0] == c[0] {
        lemma_before_transitive(a.skip(1), b.skip(1), c.skip(1));
    }
}

/// Of two texts one is the other or stands before it.
pub proof fn lemma_before_total(a: Seq<char>, b: Seq<char>)
    ensures
        a == b || before(a, b) || before(b, a),
    decreases a.len(),
{
    if a.len() > 0 && b.len() > 0 {
        if a[0] == b[0] {
            lemma_before_total(a.skip(1), b.skip(1));
            if a.skip(1) == b.skip(1) {
                assert(a == seq![a[0]] + a.skip(1));
                assert(b == seq![b[0]] + b.skip(1));
            }
        }
    } else if a.len() == 0 && b.len() == 0 {
        assert(a == b);
    }
}

/// How one string stands to another in the order of strings.
#[derive(Clone, Copy, PartialEq, Eq, Structural, Debug)]
pub enum Place {
    Before,
    Same,
    After,
}

/// Compares two strings character by character.
pub fn place(a: &str, b: &str) -> (p: Place)
    ensures
        p == Place::Before <==> before(a@, b@),
        p == Place::Same <==> a@ == b@,
        p == Place::After <==> before(b@, a@),
{
    let x = to_chars(a);
    let y = to_chars(b);
    let ghost s = a@;
    let ghost t = b@;
    let mut i: usize = 0;
    assert(s.skip(0) == s);
    assert(t.skip(0) == t);
    proof {
        lemma_before_irreflexive(s);
        lemma_before_irreflexive(t);
        if before(s, t) && before(t, s) {
            lemma_before_transitive(s, t, s);
        }
    }
    while i < x.len() && i < y.len()
        invariant
            i <= x@.len(),
            i <= y@.len(),
            x@ == s,
            y@ == t,
            a@ == s,
            b@ == t,
            s.take(i as int) == t.take(i as int),
            before(s, t) == before(s.skip(i as int), t.skip(i as int)),
            before(t, s) == before(t.skip(i as int), s.skip(i as int)),
            !(before(s, t) && before(t, s)),
            !before(s, s),
            !before(t, t),
        decreases x@.len() - i,
    {
        let ghost u = s.skip(i as int);
        let ghost v = t.skip(i as int);
        assert(u[0] == s[i as int] && v[0] == t[i as int]);
        if x[i] < y[i] {
            assert(before(u, v));
            return Place::Before;
        }
        if y[i] < x[i] {
            assert(before(v, u));
            return Place::After;
        }
        assert(u.skip(1) == s.skip(i + 1));
        assert(v.skip(1) == t.skip(i + 1));
        assert(s.take(i + 1) == s.take(i as int).push(s[i as int]));
        assert(t.take(i + 1) == t.take(i as int).push(t[i as int]));
        i += 1;
    }
    if i < y.len() {
        Place::Before
    } else if i < x.len() {
        Place::After
    } else {
        assert(s.take(i as int) == s);
        assert(t.take(i as int) == t);
        Place::Same
    }
}

/// Whether each pair stands before the next by its key.
pub open spec fn ascending(s: Seq<(Seq<char>, Seq<char>)>) -> bool {
    forall|i: int, j: int| 0 <= i < j < s.len() ==> before(#[trigger] s[i].0, #[trigger] s[j].0)
}

/// Whether a pair with this key stands at this position.
pub open spec fn key_at(s: Seq<(Seq<char>, Seq<char>)>, i: int, key: Seq<char>) -> bool {
    0 <= i < s.len() && s[i].0 == key
}

/// The map that holds the given pairs.
pub open spec fn as_map(s: Seq<(Seq<char>, Seq<char>)>) -> Map<Seq<char>, Seq<char>> {
    Map::new(
        |key: Seq<char>| exists|i: int| key_at(s, i, key),
        |key: Seq<char>| s[choose|i: int| key_at(s, i, key)].1,
    )
}

/// The pairs of a map in the order of their keys.
pub open spec fn listing(m: Map<Seq<char>, Seq<char>>) -> Seq<(Seq<char>, Seq<char>)> {
    choose|s: Seq<(Seq<char>, Seq<char>)>| #[trigger] ascending(s) && as_map(s) == m
}

/// In an ascending sequence a key stands in one place only, and the map holds its value.
pub proof fn lemma_key_at(s: Seq<(Seq<char>, Seq<char>)>, i: int)
    requires
        ascending(s),
        0 <= i < s.len(),
    ensures
        as_map(s).contains_key(s[i].0),
        as_map(s)[s[i].0] == s[i].1,
        forall|j: int| key_at(s, j, s[i].0) ==> j == i,
{
    let key = s[i].0;
    assert(key_at(s, i, key));
    assert forall|j: int| key_at(s, j, key) implies j == i by {
        lemma_before_irreflexive(key);
        if j < i {
            assert(before(s[j].0, s[i].0));
        }
        if i < j {
            assert(before(s[i].0, s[j].0));
        }
    }
}

/// Without its first pair an ascending sequence holds the map without that key.
pub proof fn lemma_skip_first(s: Seq<(Seq<char>, Seq<char>)>)
    requires
        ascending(s),
        s.len() > 0,
    ensures
        ascending(s.skip(1)),
        as_map(s.skip(1)) == as_map(s).remove(s[0].0),
{
    let rest = s.skip(1);
    assert forall|i: int, j: int| 0 <= i < j < rest.len() implies before(
        #[trigger] rest[i].0,
        #[trigger] rest[j].0,
    ) by {
        assert(before(s[i + 1].0, s[j + 1].0));
    }
    assert forall|key: Seq<char>| as_map(rest).contains_key(key) == as_map(s).remove(
        s[0].0,
    ).contains_key(key) by {
        if as_map(rest).contains_key(key) {
            let i = choose|i: int| key_at(rest, i, key);
            assert(key_at(s, i + 1, key));
            lemma_key_at(s, i + 1);
            assert(!key_at(s, 0, key));
        }
        if as_map(s).contains_key(key) && key != s[0].0 {
            let i = choose|i: int| key_at(s, i, key);
            assert(key_at(rest, i - 1, key));
        }
    }
    assert forall|key: Seq<char>| as_map(rest).contains_key(key) implies as_map(rest)[key]
        == as_map(s)[key] by {
        let i = choose|i: int| key_at(rest, i, key);
        lemma_key_at(rest, i);
        assert(rest[i] == s[i + 1]);
        lemma_key_at(s, i + 1);
    }
    assert(as_map(rest) =~= as_map(s).remove(s[0].0));
}

/// Two ascending sequences that hold the same map are the same.
pub proof fn lemma_listing_unique(s: Seq<(Seq<char>, Seq<char>)>, t: Seq<(Seq<char>, Seq<char>)>)
    requires
        ascending(s),
        ascending(t),
        as_map(s) == as_map(t),
    ensures
        s == t,
    decreases s.len(),
{
    if s.len() == 0 {
        if t.len() > 0 {
            lemma_key_at(t, 0);
            assert(exists|i: int| key_at(s, i, t[0].0));
        }
        assert(s == t);
    } else {
        lemma_key_at(s, 0);
        assert(as_map(t).contains_key(s[0].0));
        let j = choose|j: int| key_at(t, j, s[0].0);
        lemma_key_at(t, 0);
        assert(as_map(s).contains_key(t[0].0));
        let i = choose|i: int| key_at(s, i, t[0].0);
        if j > 0 && i > 0 {
            assert(before(s[0].0, s[i].0));
            assert(before(t[0].0, t[j].0));
            lemma_before_transitive(s[0].0, t[0].0, s[0].0);
            lemma_before_irreflexive(s[0].0);
        }
        assert(s[0] == t[0]);
        lemma_skip_first(s);
        lemma_skip_first(t);
        lemma_listing_unique(s.skip(1), t.skip(1));
        assert(s == seq![s[0]] + s.skip(1));
        assert(t == seq![t[0]] + t.skip(1));
    }
}

/// An ascending sequence is the listing of the map that it holds.
pub proof fn lemma_listing(s: Seq<(Seq<char>, Seq<char>)>)
    requires
        ascending(s),
    ensures
        listing(as_map(s)) == s,
{
    lemma_listing_unique(listing(as_map(s)), s);
}

/// The map that an ascending sequence holds has one key for each pair.
pub proof fn lemma_map_len(s: Seq<(Seq<char>, Seq<char>)>)
    requires
        ascending(s),
    ensures
        as_map(s).dom().finite(),
        as_map(s).len() == s.len(),
    decreases s.len(),
{
    if s.len() == 0 {
        assert(as_map(s) =~= Map::empty());
    } else {
        lemma_skip_first(s);
        lemma_map_len(s.skip(1));
        lemma_key_at(s, 0);
        let rest = as_map(s).remove(s[0].0);
        assert(as_map(s).dom() =~= rest.dom().insert(s[0].0));
    }
}

/// A map is what an ascending sequence holds when the two agree on every key.
proof fn lemma_as_map_is(s: Seq<(Seq<char>, Seq<char>)>, m: Map<Seq<char>, Seq<char>>)
    requires
        ascending(s),
        forall|i: int|
            0 <= i < s.len() ==> m.contains_key(#[trigger] s[i].0) && m[s[i].0] == s[i].1,
        forall|key: Seq<char>| #[trigger]
            m.contains_key(key) ==> exists|i: int| key_at(s, i, key),
    ensures
        as_map(s) == m,
{
    assert forall|key: Seq<char>| as_map(s).contains_key(key) implies #[trigger] m.contains_key(key)
        && as_map(s)[key] == m[key] by {
        let i = choose|i: int| key_at(s, i, key);
        lemma_key_at(s, i);
    }
    assert(as_map(s) =~= m);
}

/// A pair with a new key, put where its key belongs.
proof fn lemma_insert_pair(
    s: Seq<(Seq<char>, Seq<char>)>,
    pos: int,
    key: Seq<char>,
    value: Seq<char>,
)
    requires
        ascending(s),
        0 <= pos <= s.len(),
        forall|i: int| 0 <= i < pos ==> before(#[trigger] s[i].0, key),
        forall|i: int| pos <= i < s.len() ==> before(key, #[trigger] s[i].0),
    ensures
        ascending(s.insert(pos, (key, value))),
        as_map(s.insert(pos, (key, value))) == as_map(s).insert(key, value),
{
    let t = s.insert(pos, (key, value));
    let m = as_map(s).insert(key, value);
    assert forall|i: int, j: int| 0 <= i < j < t.len() implies before(
        #[trigger] t[i].0,
        #[trigger] t[j].0,
    ) by {
        let x = if i < pos { i } else { i - 1 };
        let y = if j < pos { j } else { j - 1 };
        if i == pos {
            assert(t[j] == s[y]);
        } else if j == pos {
            assert(t[i] == s[x]);
        } else {
            assert(t[i] == s[x] && t[j] == s[y]);
        }
    }
    assert forall|i: int| 0 <= i < t.len() implies m.contains_key(#[trigger] t[i].0) && m[t[i].0]
        == t[i].1 by {
        if i != pos {
            let x = if i < pos { i } else { i - 1 };
            assert(t[i] == s[x]);
            lemma_key_at(s, x);
            lemma_before_irreflexive(key);
        }
    }
    assert forall|k: Seq<char>| #[trigger] m.contains_key(k) implies exists|i: int|
        key_at(t, i, k) by {
        if k == key {
            assert(key_at(t, pos, k));
        } else {
            let x = choose|x: int| key_at(s, x, k);
            assert(key_at(t, if x < pos { x } else { x + 1 }, k));
        }
    }
    lemma_as_map_is(t, m);
}

/// A pair given another value.
proof fn lemma_update_pair(s: Seq<(Seq<char>, Seq<char>)>, pos: int, value: Seq<char>)
    requires
        ascending(s),
        0 <= pos < s.len(),
    ensures
        ascending(s.update(pos, (s[pos].0, value))),
        as_map(s.update(pos, (s[pos].0, value))) == as_map(s).insert(s[pos].0, value),
{
    let key = s[pos].0;
    let t = s.update(pos, (key, value));
    let m = as_map(s).insert(key, value);
    assert(forall|i: int| 0 <= i < t.len() ==> #[trigger] t[i].0 == s[i].0);
    lemma_key_at(s, pos);
    assert forall|i: int| 0 <= i < t.len() implies m.contains_key(#[trigger] t[i].0) && m[t[i].0]
        == t[i].1 by {
        if i != pos {
            lemma_key_at(s, i);
            assert(!key_at(s, pos, s[i].0));
        }
    }
    assert forall|k: Seq<char>| #[trigger] m.contains_key(k) implies exists|i: int|
        key_at(t, i, k) by {
        let x = if k == key { pos } else { choose|x: int| key_at(s, x, k) };
        assert(key_at(t, x, k));
    }
    lemma_as_map_is(t, m);
}

/// A pair taken out.
proof fn lemma_remove_pair(s: Seq<(Seq<char>, Seq<char>)>, pos: int)
    requires
        ascending(s),
        0 <= pos < s.len(),
    ensures
        ascending(s.remove(pos)),
        as_map(s.remove(pos)) == as_map(s).remove(s[pos].0),
{
    let t = s.remove(pos);
    let m = as_map(s).remove(s[pos].0);
    assert forall|i: int| 0 <= i < t.len() implies #[trigger] t[i] == s[if i < pos {
        i
    } else {
        i + 1
    }] by {}
    assert forall|i: int, j: int| 0 <= i < j < t.len() implies before(
        #[trigger] t[i].0,
        #[trigger] t[j].0,
    ) by {
        let x = if i < pos { i } else { i + 1 };
        let y = if j < pos { j } else { j + 1 };
        assert(before(s[x].0, s[y].0));
    }
    lemma_key_at(s, pos);
    assert forall|i: int| 0 <= i < t.len() implies m.contains_key(#[trigger] t[i].0) && m[t[i].0]
        == t[i].1 by {
        let x = if i < pos { i } else { i + 1 };
        lemma_key_at(s, x);
        assert(!key_at(s, pos, s[x].0));
    }
    assert forall|k: Seq<char>| #[trigger] m.contains_key(k) implies exists|i: int|
        key_at(t, i, k) by {
        let x = choose|x: int| key_at(s, x, k);
        assert(key_at(t, if x < pos { x } else { x - 1 }, k));
    }
    lemma_as_map_is(t, m);
}

/// A key that each pair's key stands before or after is not in the map.
proof fn lemma_absent(s: Seq<(Seq<char>, Seq<char>)>, pos: int, key: Seq<char>)
    requires
        0 <= pos <= s.len(),
        forall|i: int| 0 <= i < pos ==> before(#[trigger] s[i].0, key),
        forall|i: int| pos <= i < s.len() ==> before(key, #[trigger] s[i].0),
    ensures
        !as_map(s).contains_key(key),
{
    lemma_before_irreflexive(key);
    if as_map(s).contains_key(key) {
        let i = choose|i: int| key_at(s, i, key);
        assert(before(s[i].0, key) || before(key, s[i].0));
    }
}

/// The number of pairs whose keys stand before the given one.
spec fn slot(s: Seq<(Seq<char>, Seq<char>)>, key: Seq<char>) -> nat
    decreases s.len(),
{
    if s.len() == 0 || !before(s[0].0, key) {
        0
    } else {
        1 + slot(s.skip(1), key)
    }
}

/// In an ascending sequence without the key, the slot is where the key belongs.
proof fn lemma_slot(s: Seq<(Seq<char>, Seq<char>)>, key: Seq<char>)
    requires
        ascending(s),
        !as_map(s).contains_key(key),
    ensures
        slot(s, key) <= s.len(),
        forall|i: int| 0 <= i < slot(s, key) ==> before(#[trigger] s[i].0, key),
        forall|i: int| slot(s, key) <= i < s.len() ==> before(key, #[trigger] s[i].0),
    decreases s.len(),
{
    if s.len() > 0 {
        lemma_key_at(s, 0);
        lemma_before_total(s[0].0, key);
        let rest = s.skip(1);
        if before(s[0].0, key) {
            lemma_skip_first(s);
            lemma_slot(rest, key);
            assert forall|i: int| 0 <= i < slot(s, key) implies before(#[trigger] s[i].0, key) by {
                if i > 0 {
                    assert(s[i] == rest[i - 1]);
                }
            }
            assert forall|i: int| slot(s, key) <= i < s.len() implies before(
                key,
                #[trigger] s[i].0,
            ) by {
                assert(s[i] == rest[i - 1]);
            }
        } else {
            assert forall|i: int| 0 <= i < s.len() implies before(key, #[trigger] s[i].0) by {
                if i > 0 {
                    lemma_before_transitive(key, s[0].0, s[i].0);
                }
            }
        }
    }
}

/// Every finite map has a listing.
pub proof fn lemma_listing_exists(m: Map<Seq<char>, Seq<char>>)
    requires
        m.dom().finite(),
    ensures
        ascending(listing(m)),
        as_map(listing(m)) == m,
    decreases m.dom().len(),
{
    if m.dom().len() == 0 {
        let none = Seq::<(Seq<char>, Seq<char>)>::empty();
        assert(m.dom() =~= Set::empty());
        assert(as_map(none) =~= m);
        assert(ascending(none));
    } else {
        let key = m.dom().choose();
        let rest = m.remove(key);
        lemma_listing_exists(rest);
        let s = listing(rest);
        let pos = slot(s, key) as int;
        lemma_slot(s, key);
        lemma_insert_pair(s, pos, key, m[key]);
        assert(rest.insert(key, m[key]) =~= m);
        assert(ascending(s.insert(pos, (key, m[key]))));
    }
}

/// The listing of a finite map has one pair for each key.
pub proof fn lemma_listing_len(m: Map<Seq<char>, Seq<char>>)
    requires
        m.dom().finite(),
    ensures
        listing(m).len() == m.len(),
{
    lemma_listing_exists(m);
    lemma_map_len(listing(m));
}

/// A map from strings to strings, one value for each key.
#[derive(Debug)]
pub struct Entries {
    items: Vec<(String, String)>,
}

/// The characters of the keys and values.
spec fn pairs_of(items: Seq<(String, String)>) -> Seq<(Seq<char>, Seq<char>)> {
    Seq::new(items.len(), |i: int| (items[i].0@, items[i].1@))
}

impl View for Entries {
    type V = Map<Seq<char>, Seq<char>>;

    closed spec fn view(&self) -> Map<Seq<char>, Seq<char>> {
        as_map(pairs_of(self.items@))
    }
}

impl Entries {
    /// The keys are in order, so none occurs twice.
    #[verifier::type_invariant]
    spec fn ordered(self) -> bool {
        ascending(pairs_of(self.items@))
    }

    /// A map without entries.
    pub fn new() -> (out: Entries)
        ensures
            out@ == Map::<Seq<char>, Seq<char>>::empty(),
    {
        let out = Entries { items: Vec::new() };
        assert(out@ =~= Map::empty());
        out
    }

    /// Finds the position of a key, or the one where it belongs.
    fn find(items: &Vec<(String, String)>, key: &str) -> (out: (bool, usize))
        requires
            ascending(pairs_of(items@)),
        ensures
            out.1 <= items@.len(),
            forall|i: int| 0 <= i < out.1 ==> before(#[trigger] pairs_of(items@)[i].0, key@),
            out.0 ==> out.1 < items@.len() && items@[out.1 as int].0@ == key@,
            !out.0 ==> forall|i: int|
                out.1 <= i < items@.len() ==> before(key@, #[trigger] pairs_of(items@)[i].0),
    {
        let ghost s = pairs_of(items@);
        let mut low: usize = 0;
        let mut high: usize = items.len();
        while low < high
            invariant
                low <= high <= items@.len(),
                s == pairs_of(items@),
                ascending(s),
                forall|i: int| 0 <= i < low ==> before(#[trigger] s[i].0, key@),
                forall|i: int| high <= i < items@.len() ==> before(key@, #[trigger] s[i].0),
            decreases high - low,
        {
            let mid: usize = low + (high - low) / 2;
            assert(s[mid as int].0 == items@[mid as int].0@);
            match place(items[mid].0.as_str(), key) {
                Place::Before => {
                    assert forall|i: int| 0 <= i <= mid implies before(
                        #[trigger] s[i].0,
                        key@,
                    ) by {
                        if i < mid {
                            lemma_before_transitive(s[i].0, s[mid as int].0, key@);
                        }
                    }
                    low = mid + 1;
                },
                Place::After => {
                    assert forall|i: int| mid <= i < items@.len() implies before(
                        key@,
                        #[trigger] s[i].0,
                    ) by {
                        if mid < i {
                            lemma_before_transitive(key@, s[mid as int].0, s[i].0);
                        }
                    }
                    high = mid;
                },
                Place::Same => {
                    return (true, mid);
                },
            }
        }
        (false, low)
    }

    /// The number of entries.
    pub fn len(&self) -> (n: usize)
        ensures
            n == self@.len(),
            self@.dom().finite(),
    {
        proof {
            use_type_invariant(&*self);
            lemma_map_len(pairs_of(self.items@));
        }
        self.items.len()
    }

    /// Whether there is an entry for the key.
    pub fn contains_key(&self, key: &str) -> (found: bool)
        ensures
            found == self@.contains_key(key@),
    {
        self.get(key).is_some()
    }

    /// The value of the entry for the key, where there is one.
    pub fn get(&self, key: &str) -> (value: Option<&String>)
        ensures
            match value {
                Some(v) => self@.contains_key(key@) && v@ == self@[key@],
                None => !self@.contains_key(key@),
            },
    {
        proof {
            use_type_invariant(&*self);
        }
        let ghost s = pairs_of(self.items@);
        let (found, pos) = Entries::find(&self.items, key);
        if found {
            proof {
                lemma_key_at(s, pos as int);
            }
            Some(&self.items[pos].1)
        } else {
            proof {
                lemma_absent(s, pos as int, key@);
            }
            None
        }
    }

    /// The entry at a position in the order of the keys.
    pub fn at(&self, i: usize) -> (entry: (&String, &String))
        requires
            i < self@.len(),
        ensures
            (entry.0@, entry.1@) == listing(self@)[i as int],
    {
        proof {
            use_type_invariant(&*self);
            lemma_map_len(pairs_of(self.items@));
            lemma_listing(pairs_of(self.items@));
        }
        let entry = &self.items[i];
        (&entry.0, &entry.1)
    }

    /// Sets the value of a key, in the place of the one that it had.
    pub fn insert(&mut self, key: String, value: String)
        ensures
            final(self)@ == old(self)@.insert(key@, value@),
    {
        proof {
            use_type_invariant(&*self);
        }
        let mut items: Vec<(String, String)> = Vec::new();
        std::mem::swap(&mut items, &mut self.items);
        let ghost s = pairs_of(items@);
        let (found, pos) = Entries::find(&items, key.as_str());
        if found {
            proof {
                lemma_update_pair(s, pos as int, value@);
                assert(pairs_of(items@.update(pos as int, (key, value))) =~= s.update(
                    pos as int,
                    (key@, value@),
                ));
            }
            items.set(pos, (key, value));
        } else {
            proof {
                lemma_insert_pair(s, pos as int, key@, value@);
                assert(pairs_of(items@.insert(pos as int, (key, value))) =~= s.insert(
                    pos as int,
                    (key@, value@),
                ));
            }
            items.insert(pos, (key, value));
        }
        self.items = items;
    }

    /// Takes out the entry for the key, where there is one.
    pub fn remove(&mut self, key: &str)
        ensures
            final(self)@ == old(self)@.remove(key@),
    {
        proof {
            use_type_invariant(&*self);
        }
        let mut items: Vec<(String, String)> = Vec::new();
        std::mem::swap(&mut items, &mut self.items);
        let ghost s = pairs_of(items@);
        let (found, pos) = Entries::find(&items, key);
        if found {
            proof {
                lemma_remove_pair(s, pos as int);
                assert(pairs_of(items@.remove(pos as int)) =~= s.remove(pos as int));
            }
            items.remove(pos);
        } else {
            proof {
                lemma_absent(s, pos as int, key@);
                assert(as_map(s).remove(key@) =~= as_map(s));
            }
        }
        self.items = items;
    }
}

/// A text stands before another where it is a proper prefix of it, or where the first character in
/// which they differ is the smaller one.
pub proof fn law_order_goes_by_the_first_difference(
    same: Seq<char>,
    a: Seq<char>,
    b: Seq<char>,
)
    ensures
        b.len() > 0 ==> before(same, same + b) && !before(same + b, same),
        a.len() > 0 && b.len() > 0 && a[0] < b[0] ==> before(same + a, same + b) && !before(
            same + b,
            same + a,
        ),
    decreases same.len(),
{
    if same.len() == 0 {
        assert(same + a == a);
        assert(same + b == b);
    } else {
        law_order_goes_by_the_first_difference(same.skip(1), a, b);
        assert((same + a).skip(1) == same.skip(1) + a);
        assert((same + b).skip(1) == same.skip(1) + b);
    }
}

/// A listing holds each entry of the map once and nothing else, in the order of the keys.
pub proof fn law_listing_holds_each_entry_once(m: Map<Seq<char>, Seq<char>>)
    requires
        m.dom().finite(),
    ensures
        listing(m).len() == m.dom().len(),
        forall|i: int|
            0 <= i < listing(m).len() ==> m.contains_key((#[trigger] listing(m)[i]).0)
                && m[listing(m)[i].0] == listing(m)[i].1,
        forall|key: Seq<char>|
            m.contains_key(key) ==> exists|i: int|
                0 <= i < listing(m).len() && (#[trigger] listing(m)[i]).0 == key,
        forall|i: int, j: int|
            0 <= i < j < listing(m).len() ==> before(
                (#[trigger] listing(m)[i]).0,
                (#[trigger] listing(m)[j]).0,
            ),
{
    let s = listing(m);
    lemma_listing_exists(m);
    lemma_listing_len(m);
    assert forall|i: int| 0 <= i < s.len() implies m.contains_key((#[trigger] s[i]).0)
        && m[s[i].0] == s[i].1 by {
        lemma_key_at(s, i);
    }
    assert forall|key: Seq<char>| m.contains_key(key) implies exists|i: int|
        0 <= i < s.len() && (#[trigger] s[i]).0 == key by {
        assert(as_map(s).contains_key(key));
        let i = choose|i: int| key_at(s, i, key);
        assert(key_at(s, i, key));
    }
}

} // verus!
