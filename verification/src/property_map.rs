//! A finite map from names to text, kept as a list of entries with distinct
//! names, and the ascending listing of such a map.

use crate::text::{
    lemma_precedes_irreflexive, lemma_precedes_total, lemma_precedes_transitive, precedes,
    same_text, text_precedes,
};
use vstd::prelude::*;
use vstd::std_specs::cmp::PartialEqSpecImpl;

verus! {

/// A name with the text that belongs to it.
pub type Pair = (Seq<char>, Seq<char>);

/// The map that `pairs` build when they are inserted one after the other:
/// of two pairs with the same name the later one counts.
pub open spec fn map_of(pairs: Seq<Pair>) -> Map<Seq<char>, Seq<char>>
    decreases pairs.len(),
{
    if pairs.len() == 0 {
        Map::empty()
    } else {
        map_of(pairs.drop_last()).insert(pairs.last().0, pairs.last().1)
    }
}

/// Whether no name occurs twice among `pairs`.
pub open spec fn distinct_names(pairs: Seq<Pair>) -> bool {
    forall|i: int, j: int| 0 <= i < j < pairs.len() ==> pairs[i].0 != pairs[j].0
}

/// Whether the names of `pairs` ascend strictly in the lexicographic order.
pub open spec fn ascending(pairs: Seq<Pair>) -> bool {
    forall|i: int, j: int| 0 <= i < j < pairs.len() ==> precedes(pairs[i].0, pairs[j].0)
}

/// Whether `pairs` lists `map`: the names ascend, every pair is an entry of
/// the map, and every name of the map has its pair.
pub open spec fn lists(pairs: Seq<Pair>, map: Map<Seq<char>, Seq<char>>) -> bool {
    &&& ascending(pairs)
    &&& forall|i: int| 0 <= i < pairs.len() ==> map.contains_pair(pairs[i].0, pairs[i].1)
    &&& forall|name: Seq<char>| #[trigger]
        map.contains_key(name) ==> exists|i: int| 0 <= i < pairs.len() && pairs[i].0 == name
}

/// The entries of `map` in ascending order of their names.
pub open spec fn listing(map: Map<Seq<char>, Seq<char>>) -> Seq<Pair> {
    choose|pairs: Seq<Pair>| lists(pairs, map)
}

/// The views of a sequence of owned pairs.
pub open spec fn pair_views(pairs: Seq<(String, String)>) -> Seq<Pair> {
    pairs.map_values(|p: (String, String)| (p.0@, p.1@))
}

/// A name is in `map_of(pairs)` exactly when one of the pairs carries it.
pub proof fn lemma_map_of_names(pairs: Seq<Pair>, name: Seq<char>)
    ensures
        map_of(pairs).contains_key(name) <==> exists|i: int|
            0 <= i < pairs.len() && pairs[i].0 == name,
    decreases pairs.len(),
{
    if pairs.len() > 0 {
        let front = pairs.drop_last();
        lemma_map_of_names(front, name);
        if map_of(pairs).contains_key(name) {
            if pairs.last().0 == name {
                assert(pairs[pairs.len() - 1].0 == name);
            } else {
                let i = choose|i: int| 0 <= i < front.len() && front[i].0 == name;
                assert(pairs[i].0 == name);
            }
        }
        if exists|i: int| 0 <= i < pairs.len() && pairs[i].0 == name {
            let i = choose|i: int| 0 <= i < pairs.len() && pairs[i].0 == name;
            if i < front.len() {
                assert(front[i].0 == name);
            }
        }
    }
}

/// Where no name occurs twice, none does once the last pair is left out.
proof fn lemma_distinct_front(pairs: Seq<Pair>)
    requires
        distinct_names(pairs),
        pairs.len() > 0,
    ensures
        distinct_names(pairs.drop_last()),
{
    let front = pairs.drop_last();
    assert forall|a: int, b: int| 0 <= a < b < front.len() implies front[a].0 != front[b].0 by {
        assert(front[a] == pairs[a] && front[b] == pairs[b]);
    }
}

/// Where no name occurs twice, each pair is an entry of `map_of(pairs)`.
pub proof fn lemma_map_of_entry(pairs: Seq<Pair>, i: int)
    requires
        distinct_names(pairs),
        0 <= i < pairs.len(),
    ensures
        map_of(pairs).contains_pair(pairs[i].0, pairs[i].1),
    decreases pairs.len(),
{
    if i < pairs.len() - 1 {
        let front = pairs.drop_last();
        lemma_distinct_front(pairs);
        lemma_map_of_entry(front, i);
        assert(front[i] == pairs[i]);
    }
}

/// `map_of(pairs)` is finite, and where no name occurs twice it has as many
/// entries as there are pairs.
pub proof fn lemma_map_of_len(pairs: Seq<Pair>)
    ensures
        map_of(pairs).dom().finite(),
        distinct_names(pairs) ==> map_of(pairs).len() == pairs.len(),
    decreases pairs.len(),
{
    if pairs.len() > 0 {
        let front = pairs.drop_last();
        lemma_map_of_len(front);
        if distinct_names(pairs) {
            lemma_distinct_front(pairs);
            lemma_map_of_names(front, pairs.last().0);
            if map_of(front).contains_key(pairs.last().0) {
                let i = choose|i: int| 0 <= i < front.len() && front[i].0 == pairs.last().0;
                assert(front[i] == pairs[i]);
            }
        }
    }
}

/// Giving a name of `pairs` a new text is inserting it into `map_of(pairs)`.
pub proof fn lemma_map_of_update(pairs: Seq<Pair>, at: int, value: Seq<char>)
    requires
        distinct_names(pairs),
        0 <= at < pairs.len(),
    ensures
        distinct_names(pairs.update(at, (pairs[at].0, value))),
        map_of(pairs.update(at, (pairs[at].0, value))) == map_of(pairs).insert(
            pairs[at].0,
            value,
        ),
    decreases pairs.len(),
{
    let name = pairs[at].0;
    let changed = pairs.update(at, (name, value));
    let front = pairs.drop_last();
    if at == pairs.len() - 1 {
        assert(changed.drop_last() =~= front);
        assert(map_of(changed) =~= map_of(pairs).insert(name, value));
    } else {
        lemma_distinct_front(pairs);
        assert(front[at] == pairs[at]);
        lemma_map_of_update(front, at, value);
        assert(changed.drop_last() =~= front.update(at, (name, value)));
        assert(changed.last() == pairs.last());
        assert(pairs.last().0 != name);
        assert(map_of(changed) =~= map_of(pairs).insert(name, value));
    }
}

/// A map has one ascending listing at most.
pub proof fn lemma_listing_unique(a: Seq<Pair>, b: Seq<Pair>, map: Map<Seq<char>, Seq<char>>)
    requires
        lists(a, map),
        lists(b, map),
    ensures
        a == b,
    decreases a.len(),
{
    if a.len() == 0 {
        if b.len() > 0 {
            assert(map.contains_key(b[0].0));
        }
        assert(a =~= b);
    } else {
        let top = a.last();
        assert(map.contains_pair(top.0, top.1));
        assert(map.contains_key(top.0));
        let j = choose|j: int| 0 <= j < b.len() && b[j].0 == top.0;
        let last = b.len() - 1;
        assert(map.contains_key(b[last].0));
        let i = choose|i: int| 0 <= i < a.len() && a[i].0 == b[last].0;
        if j < last {
            // `top` would come before the last of `b`, which is a name of `a`
            // and so not after `top`.
            if i < a.len() - 1 {
                lemma_precedes_transitive(a[i].0, top.0, b[last].0);
            }
            lemma_precedes_irreflexive(b[last].0);
            assert(false);
        }
        assert(map.contains_pair(b[last].0, b[last].1));
        assert(b[last] == top);
        let rest = map.remove(top.0);
        let fa = a.drop_last();
        let fb = b.drop_last();
        assert(lists(fa, rest)) by {
            assert forall|x: int| 0 <= x < fa.len() implies rest.contains_pair(
                fa[x].0,
                fa[x].1,
            ) by {
                assert(fa[x] == a[x]);
                assert(precedes(a[x].0, top.0));
                lemma_precedes_irreflexive(top.0);
            }
            assert forall|name: Seq<char>| #[trigger] rest.contains_key(name) implies exists|
                x: int,
            | 0 <= x < fa.len() && fa[x].0 == name by {
                assert(map.contains_key(name));
                let x = choose|x: int| 0 <= x < a.len() && a[x].0 == name;
                assert(fa[x].0 == name);
            }
        }
        assert(lists(fb, rest)) by {
            assert forall|x: int| 0 <= x < fb.len() implies rest.contains_pair(
                fb[x].0,
                fb[x].1,
            ) by {
                assert(fb[x] == b[x]);
                assert(precedes(b[x].0, b[last].0));
                lemma_precedes_irreflexive(top.0);
            }
            assert forall|name: Seq<char>| #[trigger] rest.contains_key(name) implies exists|
                x: int,
            | 0 <= x < fb.len() && fb[x].0 == name by {
                assert(map.contains_key(name));
                let x = choose|x: int| 0 <= x < b.len() && b[x].0 == name;
                assert(fb[x].0 == name);
            }
        }
        lemma_listing_unique(fa, fb, rest);
        assert(a =~= fa.push(top));
        assert(b =~= fb.push(top));
    }
}

/// A listing stays one when a new name is put where the order wants it.
pub proof fn lemma_lists_insert(
    pairs: Seq<Pair>,
    map: Map<Seq<char>, Seq<char>>,
    at: int,
    name: Seq<char>,
    value: Seq<char>,
)
    requires
        lists(pairs, map),
        !map.contains_key(name),
        0 <= at <= pairs.len(),
        forall|q: int| 0 <= q < at ==> precedes(pairs[q].0, name),
        forall|q: int| at <= q < pairs.len() ==> precedes(name, pairs[q].0),
    ensures
        lists(pairs.insert(at, (name, value)), map.insert(name, value)),
{
    let grown = pairs.insert(at, (name, value));
    let larger = map.insert(name, value);
    assert forall|i: int, j: int| 0 <= i < j < grown.len() implies precedes(
        grown[i].0,
        grown[j].0,
    ) by {
        if i < at && j > at {
            assert(grown[i] == pairs[i] && grown[j] == pairs[j - 1]);
        }
    }
    assert forall|i: int| 0 <= i < grown.len() implies larger.contains_pair(
        grown[i].0,
        grown[i].1,
    ) by {
        if i < at {
            assert(grown[i] == pairs[i]);
            assert(map.contains_pair(pairs[i].0, pairs[i].1));
        } else if i > at {
            assert(grown[i] == pairs[i - 1]);
            assert(map.contains_pair(pairs[i - 1].0, pairs[i - 1].1));
        }
    }
    assert forall|k: Seq<char>| #[trigger] larger.contains_key(k) implies exists|i: int|
        0 <= i < grown.len() && grown[i].0 == k by {
        if k == name {
            assert(grown[at].0 == k);
        } else {
            assert(map.contains_key(k));
            let i = choose|i: int| 0 <= i < pairs.len() && pairs[i].0 == k;
            if i < at {
                assert(grown[i].0 == k);
            } else {
                assert(grown[i + 1].0 == k);
            }
        }
    }
}

/// In an ascending sequence there is a place for every name that it lacks:
/// what stands before the place comes before the name, and what stands from
/// there on comes after it.
proof fn lemma_place_exists(pairs: Seq<Pair>, name: Seq<char>) -> (at: int)
    requires
        ascending(pairs),
        forall|q: int| 0 <= q < pairs.len() ==> pairs[q].0 != name,
    ensures
        0 <= at <= pairs.len(),
        forall|q: int| 0 <= q < at ==> precedes(pairs[q].0, name),
        forall|q: int| at <= q < pairs.len() ==> precedes(name, pairs[q].0),
    decreases pairs.len(),
{
    if pairs.len() == 0 {
        0
    } else {
        let top = pairs.last();
        lemma_precedes_total(top.0, name);
        if precedes(top.0, name) {
            assert forall|q: int| 0 <= q < pairs.len() implies precedes(pairs[q].0, name) by {
                if q < pairs.len() - 1 {
                    lemma_precedes_transitive(pairs[q].0, top.0, name);
                }
            }
            pairs.len() as int
        } else {
            let front = pairs.drop_last();
            assert forall|q: int| 0 <= q < front.len() implies front[q].0 != name by {
                assert(front[q] == pairs[q]);
            }
            assert(ascending(front)) by {
                assert forall|i: int, j: int| 0 <= i < j < front.len() implies precedes(
                    front[i].0,
                    front[j].0,
                ) by {
                    assert(front[i] == pairs[i] && front[j] == pairs[j]);
                }
            }
            let at = lemma_place_exists(front, name);
            assert forall|q: int| 0 <= q < at implies precedes(pairs[q].0, name) by {
                assert(front[q] == pairs[q]);
            }
            assert forall|q: int| at <= q < pairs.len() implies precedes(name, pairs[q].0) by {
                if q < front.len() {
                    assert(front[q] == pairs[q]);
                }
            }
            at
        }
    }
}

/// Every finite map has its ascending listing.
pub proof fn lemma_listing_exists(map: Map<Seq<char>, Seq<char>>)
    requires
        map.dom().finite(),
    ensures
        lists(listing(map), map),
    decreases map.dom().len(),
{
    if map.dom().len() == 0 {
        assert(lists(Seq::<Pair>::empty(), map)) by {
            assert forall|name: Seq<char>| #[trigger] map.contains_key(name) implies false by {
                assert(map.dom().contains(name));
            }
        }
    } else {
        let name = map.dom().choose();
        let rest = map.remove(name);
        lemma_listing_exists(rest);
        let pairs = listing(rest);
        assert forall|q: int| 0 <= q < pairs.len() implies pairs[q].0 != name by {
            assert(rest.contains_pair(pairs[q].0, pairs[q].1));
        }
        let at = lemma_place_exists(pairs, name);
        lemma_lists_insert(pairs, rest, at, name, map[name]);
        assert(rest.insert(name, map[name]) =~= map);
    }
}

/// One entry of a property map.
#[derive(Debug)]
struct Entry {
    name: String,
    value: String,
}

spec fn entry_pairs(entries: Seq<Entry>) -> Seq<Pair> {
    entries.map_values(|e: Entry| (e.name@, e.value@))
}

/// A finite map from property names to text.
///
/// The view is the map itself. The entries are kept in the order in which
/// their names first came, which no contract speaks of.
#[derive(Debug)]
pub struct Properties {
    entries: Vec<Entry>,
}

impl View for Properties {
    type V = Map<Seq<char>, Seq<char>>;

    closed spec fn view(&self) -> Self::V {
        map_of(entry_pairs(self.entries@))
    }
}

impl Properties {
    #[verifier::type_invariant]
    spec fn well_formed(self) -> bool {
        distinct_names(entry_pairs(self.entries@))
    }

    /// The map of a property map is finite.
    pub proof fn lemma_finite(self)
        ensures
            self@.dom().finite(),
    {
        lemma_map_of_len(entry_pairs(self.entries@));
    }

    /// The empty map.
    pub fn new() -> (properties: Self)
        ensures
            properties@ == Map::<Seq<char>, Seq<char>>::empty(),
    {
        Properties { entries: Vec::new() }
    }

    /// The number of entries.
    pub fn len(&self) -> (n: usize)
        ensures
            self@.dom().finite(),
            n == self@.len(),
    {
        proof {
            use_type_invariant(self);
            lemma_map_of_len(entry_pairs(self.entries@));
        }
        self.entries.len()
    }

    /// Whether the map has no entry.
    pub fn is_empty(&self) -> (empty: bool)
        ensures
            empty == (self@ == Map::<Seq<char>, Seq<char>>::empty()),
    {
        proof {
            if self.entries@.len() > 0 {
                lemma_map_of_names(entry_pairs(self.entries@), self.entries@[0].name@);
                assert(entry_pairs(self.entries@)[0].0 == self.entries@[0].name@);
            } else {
                assert(self@ =~= Map::<Seq<char>, Seq<char>>::empty());
            }
        }
        self.entries.len() == 0
    }

    /// Where among the entries `name` stands.
    fn position(&self, name: &str) -> (at: Option<usize>)
        ensures
            match at {
                Some(i) => i < self.entries.len() && self.entries[i as int].name@ == name@,
                None => !self@.contains_key(name@),
            },
    {
        let mut i: usize = 0;
        while i < self.entries.len()
            invariant
                i <= self.entries.len(),
                forall|j: int| 0 <= j < i ==> self.entries[j].name@ != name@,
            decreases self.entries.len() - i,
        {
            if same_text(self.entries[i].name.as_str(), name) {
                return Some(i);
            }
            i += 1;
        }
        proof {
            let pairs = entry_pairs(self.entries@);
            lemma_map_of_names(pairs, name@);
            if self@.contains_key(name@) {
                let j = choose|j: int| 0 <= j < pairs.len() && pairs[j].0 == name@;
                assert(self.entries[j].name@ == name@);
            }
        }
        None
    }

    /// Whether `name` has an entry.
    pub fn contains_key(&self, name: &str) -> (found: bool)
        ensures
            found == self@.contains_key(name@),
    {
        match self.position(name) {
            Some(i) => {
                proof {
                    let pairs = entry_pairs(self.entries@);
                    lemma_map_of_names(pairs, name@);
                    assert(pairs[i as int].0 == name@);
                }
                true
            },
            None => false,
        }
    }

    /// The text that belongs to `name`, if it has an entry.
    pub fn get(&self, name: &str) -> (value: Option<&String>)
        ensures
            match value {
                Some(text) => self@.contains_key(name@) && text@ == self@[name@],
                None => !self@.contains_key(name@),
            },
    {
        match self.position(name) {
            Some(i) => {
                proof {
                    use_type_invariant(self);
                    lemma_map_of_entry(entry_pairs(self.entries@), i as int);
                }
                Some(&self.entries[i].value)
            },
            None => None,
        }
    }

    /// Gives `name` the text `value`, whether or not it had one before.
    pub fn insert(&mut self, name: String, value: String)
        ensures
            final(self)@ == old(self)@.insert(name@, value@),
    {
        proof {
            use_type_invariant(&*self);
        }
        let at = self.position(name.as_str());
        let ghost before = entry_pairs(self.entries@);
        let mut entries = Vec::new();
        std::mem::swap(&mut entries, &mut self.entries);
        match at {
            Some(i) => {
                proof {
                    lemma_map_of_update(before, i as int, value@);
                }
                entries.set(i, Entry { name, value });
                assert(entry_pairs(entries@) =~= before.update(i as int, (name@, value@)));
            },
            None => {
                proof {
                    lemma_map_of_names(before, name@);
                }
                entries.push(Entry { name, value });
                assert(entry_pairs(entries@) =~= before.push((name@, value@)));
                assert(before.push((name@, value@)).drop_last() =~= before);
            },
        }
        self.entries = entries;
    }

    /// The entries in ascending order of their names.
    pub fn ascending_pairs(&self) -> (pairs: Vec<(String, String)>)
        ensures
            lists(pair_views(pairs@), self@),
    {
        proof {
            use_type_invariant(self);
        }
        let ghost all = entry_pairs(self.entries@);
        let mut pairs: Vec<(String, String)> = Vec::new();
        let mut i: usize = 0;
        while i < self.entries.len()
            invariant
                i <= self.entries.len(),
                all == entry_pairs(self.entries@),
                distinct_names(all),
                lists(pair_views(pairs@), map_of(all.take(i as int))),
            decreases self.entries.len() - i,
        {
            let entry = &self.entries[i];
            let ghost sorted = pair_views(pairs@);
            let ghost seen = map_of(all.take(i as int));
            proof {
                // the name of this entry is none of those before it
                lemma_map_of_names(all.take(i as int), entry.name@);
                if seen.contains_key(entry.name@) {
                    let j = choose|j: int|
                        0 <= j < all.take(i as int).len() && all.take(i as int)[j].0
                            == entry.name@;
                    assert(all[j].0 == all[i as int].0);
                }
            }
            let mut at: usize = 0;
            while at < pairs.len() && text_precedes(pairs[at].0.as_str(), entry.name.as_str())
                invariant
                    at <= pairs.len(),
                    sorted == pair_views(pairs@),
                    forall|q: int| 0 <= q < at ==> precedes(sorted[q].0, entry.name@),
                decreases pairs.len() - at,
            {
                at += 1;
            }
            proof {
                assert forall|q: int| at <= q < sorted.len() implies precedes(
                    entry.name@,
                    sorted[q].0,
                ) by {
                    assert(seen.contains_pair(sorted[at as int].0, sorted[at as int].1));
                    lemma_precedes_total(entry.name@, sorted[at as int].0);
                    if q > at {
                        lemma_precedes_transitive(entry.name@, sorted[at as int].0, sorted[q].0);
                    }
                }
                lemma_lists_insert(sorted, seen, at as int, entry.name@, entry.value@);
                assert(all.take(i + 1).drop_last() =~= all.take(i as int));
            }
            pairs.insert(at, (entry.name.clone(), entry.value.clone()));
            assert(pair_views(pairs@) =~= sorted.insert(at as int, (entry.name@, entry.value@)));
            i += 1;
        }
        assert(all.take(i as int) =~= all);
        pairs
    }
}

impl Clone for Properties {
    fn clone(&self) -> (copy: Self)
        ensures
            copy@ == self@,
    {
        proof {
            use_type_invariant(self);
        }
        let mut entries: Vec<Entry> = Vec::new();
        let mut i: usize = 0;
        while i < self.entries.len()
            invariant
                i <= self.entries.len(),
                entry_pairs(entries@) == entry_pairs(self.entries@).take(i as int),
            decreases self.entries.len() - i,
        {
            let entry = &self.entries[i];
            let ghost copied = entry_pairs(entries@);
            entries.push(Entry { name: entry.name.clone(), value: entry.value.clone() });
            assert(entry_pairs(entries@) =~= copied.push((entry.name@, entry.value@)));
            assert(entry_pairs(entries@) =~= entry_pairs(self.entries@).take(i + 1));
            i += 1;
        }
        assert(entry_pairs(entries@) =~= entry_pairs(self.entries@));
        Properties { entries }
    }
}

/// A finite map that lies within another of the same size is that map.
proof fn lemma_included_same_size(a: Map<Seq<char>, Seq<char>>, b: Map<Seq<char>, Seq<char>>)
    requires
        a.dom().finite(),
        b.dom().finite(),
        a.len() == b.len(),
        forall|name: Seq<char>| #[trigger] a.contains_key(name) ==> b.contains_pair(name, a[name]),
    ensures
        a == b,
{
    assert(a.dom().subset_of(b.dom())) by {
        assert forall|name: Seq<char>| a.dom().contains(name) implies b.dom().contains(name) by {
            assert(a.contains_key(name));
        }
    }
    vstd::set_lib::lemma_subset_equality(a.dom(), b.dom());
    assert(a =~= b) by {
        assert forall|name: Seq<char>| a.dom().contains(name) implies a[name] == b[name] by {
            assert(a.contains_key(name));
        }
    }
}

impl PartialEq for Properties {
    /// Two property maps are equal when they hold the same entries, in
    /// whatever order these came.
    fn eq(&self, other: &Self) -> (same: bool) {
        proof {
            use_type_invariant(self);
            use_type_invariant(other);
            lemma_map_of_len(entry_pairs(self.entries@));
            lemma_map_of_len(entry_pairs(other.entries@));
        }
        if self.entries.len() != other.entries.len() {
            return false;
        }
        let ghost mine = entry_pairs(self.entries@);
        let mut i: usize = 0;
        while i < self.entries.len()
            invariant
                i <= self.entries.len(),
                mine == entry_pairs(self.entries@),
                distinct_names(mine),
                forall|j: int| 0 <= j < i ==> other@.contains_pair(mine[j].0, mine[j].1),
            decreases self.entries.len() - i,
        {
            let entry = &self.entries[i];
            proof {
                lemma_map_of_entry(mine, i as int);
            }
            match other.get(entry.name.as_str()) {
                Some(text) => {
                    if !same_text(text.as_str(), entry.value.as_str()) {
                        return false;
                    }
                },
                None => {
                    return false;
                },
            }
            i += 1;
        }
        proof {
            assert forall|name: Seq<char>| #[trigger]
                self@.contains_key(name) implies other@.contains_pair(name, self@[name]) by {
                lemma_map_of_names(mine, name);
                let j = choose|j: int| 0 <= j < mine.len() && mine[j].0 == name;
                lemma_map_of_entry(mine, j);
            }
            lemma_included_same_size(self@, other@);
        }
        true
    }
}

impl PartialEqSpecImpl for Properties {
    open spec fn obeys_eq_spec() -> bool {
        true
    }

    open spec fn eq_spec(&self, other: &Self) -> bool {
        self@ == other@
    }
}

} // verus!
