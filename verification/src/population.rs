//! Populations: how many of each name there are, listed in the order of the names.
use vstd::prelude::*;
use vstd::string::*;

use crate::text::chars_of;

verus! {

/// Whether `a` comes before `b` in the lexicographic order of code points.
pub open spec fn precedes(a: Seq<char>, b: Seq<char>) -> bool
    decreases a.len(),
{
    if b.len() == 0 {
        false
    } else if a.len() == 0 {
        true
    } else if a[0] != b[0] {
        a[0] < b[0]
    } else {
        precedes(a.drop_first(), b.drop_first())
    }
}

/// Whether the names of a listing stand in strictly ascending order.
pub open spec fn ascending(list: Seq<(Seq<char>, nat)>) -> bool {
    forall|i: int, j: int|
        0 <= i < j < list.len() ==> precedes(#[trigger] list[i].0, #[trigger] list[j].0)
}

/// Whether `list` lists `name` at position `i`.
pub open spec fn listed_at(list: Seq<(Seq<char>, nat)>, name: Seq<char>, i: int) -> bool {
    0 <= i < list.len() && list[i].0 == name
}

/// The counts of a listing by name.
pub open spec fn counts(list: Seq<(Seq<char>, nat)>) -> Map<Seq<char>, nat> {
    Map::new(
        |name: Seq<char>| exists|i: int| listed_at(list, name, i),
        |name: Seq<char>| list[choose|i: int| listed_at(list, name, i)].1,
    )
}

/// The sum of the counts of a listing.
pub open spec fn total(list: Seq<(Seq<char>, nat)>) -> nat
    decreases list.len(),
{
    if list.len() == 0 {
        0
    } else {
        total(list.drop_last()) + list.last().1
    }
}

/// The listing of `m` in ascending order of its names.
pub open spec fn sorted_listing(m: Map<Seq<char>, nat>) -> Seq<(Seq<char>, nat)> {
    choose|list: Seq<(Seq<char>, nat)>| ascending(list) && #[trigger] counts(list) == m
}

/// How many `m` counts of `name`, nothing where it does not list the name.
pub open spec fn count(m: Map<Seq<char>, nat>, name: Seq<char>) -> nat {
    if m.contains_key(name) {
        m[name]
    } else {
        0
    }
}

/// Nothing comes before itself.
pub proof fn lemma_precedes_irreflexive(a: Seq<char>)
    ensures
        !precedes(a, a),
    decreases a.len(),
{
    if a.len() > 0 {
        lemma_precedes_irreflexive(a.drop_first());
    }
}

/// What comes before something comes before all that follows it.
pub proof fn lemma_precedes_transitive(a: Seq<char>, b: Seq<char>, c: Seq<char>)
    requires
        precedes(a, b),
        precedes(b, c),
    ensures
        precedes(a, c),
    decreases a.len(),
{
    if a.len() > 0 && a[0] == b[0] && b[0] == c[0] {
        lemma_precedes_transitive(a.drop_first(), b.drop_first(), c.drop_first());
    }
}

/// A listing in ascending order gives each name once.
proof fn lemma_listed_once(list: Seq<(Seq<char>, nat)>, i: int, j: int)
    requires
        ascending(list),
        0 <= i < list.len(),
        0 <= j < list.len(),
        list[i].0 == list[j].0,
    ensures
        i == j,
{
    lemma_precedes_irreflexive(list[i].0);
}

/// The count of a listed name is the one beside it.
proof fn lemma_count_at(list: Seq<(Seq<char>, nat)>, i: int)
    requires
        ascending(list),
        0 <= i < list.len(),
    ensures
        counts(list).contains_key(list[i].0),
        counts(list)[list[i].0] == list[i].1,
{
    let name = list[i].0;
    assert(listed_at(list, name, i));
    let k = choose|k: int| listed_at(list, name, k);
    lemma_listed_once(list, i, k);
}

/// A name that would stand between neighbours is not counted.
pub proof fn lemma_absent(list: Seq<(Seq<char>, nat)>, name: Seq<char>, i: int)
    requires
        forall|k: int| 0 <= k < i && k < list.len() ==> precedes(#[trigger] list[k].0, name),
        forall|k: int| i <= k < list.len() ==> precedes(name, #[trigger] list[k].0),
    ensures
        !counts(list).contains_key(name),
{
    lemma_precedes_irreflexive(name);
    assert forall|k: int| 0 <= k < list.len() implies #[trigger] list[k].0 != name by {
        if k < i {
            assert(precedes(list[k].0, name));
        } else {
            assert(precedes(name, list[k].0));
        }
    }
}

/// A name that is counted is listed somewhere.
proof fn lemma_counted(list: Seq<(Seq<char>, nat)>, name: Seq<char>) -> (i: int)
    requires
        counts(list).contains_key(name),
    ensures
        listed_at(list, name, i),
{
    choose|i: int| listed_at(list, name, i)
}

/// Two listings in ascending order with the same counts are the same.
pub proof fn lemma_listing_unique(a: Seq<(Seq<char>, nat)>, b: Seq<(Seq<char>, nat)>)
    requires
        ascending(a),
        ascending(b),
        counts(a) == counts(b),
    ensures
        a == b,
    decreases a.len(),
{
    if a.len() == 0 {
        if b.len() > 0 {
            lemma_count_at(b, 0);
            let i = lemma_counted(a, b[0].0);
        }
    } else {
        lemma_count_at(a, a.len() - 1);
        let j = lemma_counted(b, a.last().0);
        lemma_count_at(b, b.len() - 1);
        let i = lemma_counted(a, b.last().0);
        if j < b.len() - 1 {
            assert(precedes(b[j].0, b.last().0));
            if i < a.len() - 1 {
                assert(precedes(a[i].0, a.last().0));
                lemma_precedes_transitive(a.last().0, b.last().0, a.last().0);
            }
            lemma_precedes_irreflexive(a.last().0);
        }
        lemma_count_at(b, j);
        assert(a.last() == b.last());
        let a1 = a.drop_last();
        let b1 = b.drop_last();
        lemma_counts_drop_last(a);
        lemma_counts_drop_last(b);
        lemma_listing_unique(a1, b1);
        assert(a == a1.push(a.last()));
        assert(b == b1.push(b.last()));
    }
}

/// A listing without its last line counts all names but that one.
proof fn lemma_counts_drop_last(list: Seq<(Seq<char>, nat)>)
    requires
        ascending(list),
        list.len() > 0,
    ensures
        ascending(list.drop_last()),
        counts(list.drop_last()) == counts(list).remove(list.last().0),
{
    let front = list.drop_last();
    let full = counts(list).remove(list.last().0);
    assert forall|i: int, j: int| 0 <= i < j < front.len() implies precedes(
        #[trigger] front[i].0,
        #[trigger] front[j].0,
    ) by {
        assert(front[i] == list[i] && front[j] == list[j]);
    }
    assert forall|name: Seq<char>| counts(front).contains_key(name) == full.contains_key(name) by {
        if counts(front).contains_key(name) {
            let i = lemma_counted(front, name);
            lemma_count_at(list, i);
            if name == list.last().0 {
                lemma_listed_once(list, i, list.len() - 1);
            }
        }
        if full.contains_key(name) {
            let i = lemma_counted(list, name);
            assert(listed_at(front, name, i));
        }
    }
    assert forall|name: Seq<char>| counts(front).contains_key(name) implies counts(front)[name]
        == full[name] by {
        assert(full.contains_key(name));
        let i = lemma_counted(front, name);
        lemma_count_at(front, i);
        lemma_count_at(list, i);
    }
    assert(counts(front) =~= full);
}

/// A listing in ascending order is the sorted listing of its counts.
pub proof fn lemma_sorted_listing(list: Seq<(Seq<char>, nat)>)
    requires
        ascending(list),
    ensures
        sorted_listing(counts(list)) == list,
{
    let other = sorted_listing(counts(list));
    assert(ascending(list) && counts(list) == counts(list));
    lemma_listing_unique(other, list);
}

/// A listing in ascending order has as many lines as it counts names.
proof fn lemma_counts_len(list: Seq<(Seq<char>, nat)>)
    requires
        ascending(list),
    ensures
        counts(list).dom().finite(),
        counts(list).len() == list.len(),
    decreases list.len(),
{
    if list.len() == 0 {
        assert(counts(list).dom() =~= Set::<Seq<char>>::empty());
    } else {
        lemma_counts_drop_last(list);
        lemma_counts_len(list.drop_last());
        lemma_count_at(list, list.len() - 1);
        let dom = counts(list).dom();
        let name = list.last().0;
        assert(counts(list.drop_last()).dom() =~= dom.remove(name));
        assert(dom =~= dom.remove(name).insert(name));
    }
}

/// Replacing a count changes the sum by the difference.
proof fn lemma_total_update(list: Seq<(Seq<char>, nat)>, i: int, n: nat)
    requires
        0 <= i < list.len(),
    ensures
        total(list.update(i, (list[i].0, n))) == total(list) - list[i].1 + n,
    decreases list.len(),
{
    let new = list.update(i, (list[i].0, n));
    if i == list.len() - 1 {
        assert(new.drop_last() == list.drop_last());
    } else {
        lemma_total_update(list.drop_last(), i, n);
        assert(new.drop_last() == list.drop_last().update(i, (list[i].0, n)));
    }
}

/// A new line adds its count to the sum.
proof fn lemma_total_insert(list: Seq<(Seq<char>, nat)>, i: int, line: (Seq<char>, nat))
    requires
        0 <= i <= list.len(),
    ensures
        total(list.insert(i, line)) == total(list) + line.1,
    decreases list.len(),
{
    let new = list.insert(i, line);
    if i == list.len() {
        assert(new.drop_last() == list);
    } else {
        lemma_total_insert(list.drop_last(), i, line);
        assert(new.drop_last() == list.drop_last().insert(i, line));
    }
}

/// No count is above the sum.
proof fn lemma_total_at_least(list: Seq<(Seq<char>, nat)>, i: int)
    requires
        0 <= i < list.len(),
    ensures
        list[i].1 <= total(list),
    decreases list.len(),
{
    if i < list.len() - 1 {
        lemma_total_at_least(list.drop_last(), i);
    }
}

/// The place of one text relative to another.
enum Place {
    Before,
    Same,
    After,
}

/// Where `a` stands relative to `b`.
fn place(a: &str, b: &str) -> (p: Place)
    ensures
        match p {
            Place::Before => precedes(a@, b@),
            Place::Same => a@ == b@,
            Place::After => precedes(b@, a@),
        },
{
    let s = chars_of(a);
    let t = chars_of(b);
    let mut i: usize = 0;
    assert(a@.skip(0) == a@);
    assert(b@.skip(0) == b@);
    while i < s.len() && i < t.len() && s[i] == t[i]
        invariant
            s@ == a@,
            t@ == b@,
            i <= s@.len(),
            i <= t@.len(),
            a@.take(i as int) == b@.take(i as int),
            precedes(a@, b@) == precedes(a@.skip(i as int), b@.skip(i as int)),
            precedes(b@, a@) == precedes(b@.skip(i as int), a@.skip(i as int)),
        decreases s@.len() - i,
    {
        assert(a@.skip(i as int).drop_first() == a@.skip(i + 1));
        assert(b@.skip(i as int).drop_first() == b@.skip(i + 1));
        assert(a@.take(i + 1) == a@.take(i as int).push(a@[i as int]));
        assert(b@.take(i + 1) == b@.take(i as int).push(b@[i as int]));
        i = i + 1;
    }
    let ghost u = a@.skip(i as int);
    let ghost v = b@.skip(i as int);
    assert(i < a@.len() ==> u[0] == s@[i as int]);
    assert(i < b@.len() ==> v[0] == t@[i as int]);
    if i == s.len() {
        if i == t.len() {
            assert(a@ == a@.take(i as int));
            assert(b@ == b@.take(i as int));
            Place::Same
        } else {
            Place::Before
        }
    } else if i == t.len() {
        Place::After
    } else if s[i] < t[i] {
        Place::Before
    } else {
        Place::After
    }
}

/// How many of each name there are.
pub struct Population {
    entries: Vec<(String, u64)>,
}

/// What the entries of a population list.
spec fn listing_of(entries: Seq<(String, u64)>) -> Seq<(Seq<char>, nat)> {
    entries.map_values(|e: (String, u64)| (e.0@, e.1 as nat))
}

impl View for Population {
    type V = Map<Seq<char>, nat>;

    open spec fn view(&self) -> Map<Seq<char>, nat> {
        counts(self.listing())
    }
}

impl Population {
    /// The names with their counts, in the order in which they are held.
    pub closed spec fn listing(self) -> Seq<(Seq<char>, nat)> {
        listing_of(self.entries@)
    }

    /// The sum of all counts.
    pub open spec fn sum(self) -> nat {
        total(self.listing())
    }

    #[verifier::type_invariant]
    spec fn valid(self) -> bool {
        &&& ascending(self.listing())
        &&& total(self.listing()) <= u64::MAX
    }

    /// A population of nothing.
    pub fn new() -> (p: Population)
        ensures
            p@ == Map::<Seq<char>, nat>::empty(),
            p.sum() == 0,
    {
        let p = Population { entries: Vec::new() };
        assert(p@ =~= Map::<Seq<char>, nat>::empty());
        p
    }

    /// The number of names.
    pub fn len(&self) -> (n: usize)
        ensures
            n == self.listing().len(),
            n == self@.len(),
            self@.dom().finite(),
            ascending(self.listing()),
            self.listing() == sorted_listing(self@),
            self.sum() <= u64::MAX,
    {
        proof {
            use_type_invariant(self);
            lemma_counts_len(self.listing());
            lemma_sorted_listing(self.listing());
        }
        self.entries.len()
    }

    /// Whether no name is counted.
    pub fn is_empty(&self) -> (empty: bool)
        ensures
            empty == (self@ == Map::<Seq<char>, nat>::empty()),
    {
        let empty = self.len() == 0;
        proof {
            use_type_invariant(self);
            if empty {
                assert(self@ =~= Map::<Seq<char>, nat>::empty());
            } else {
                lemma_count_at(self.listing(), 0);
            }
        }
        empty
    }

    /// The name in place `i` and its count.
    pub fn entry(&self, i: usize) -> (e: (&str, u64))
        requires
            i < self.listing().len(),
        ensures
            e.0@ == self.listing()[i as int].0,
            e.1 == self.listing()[i as int].1,
            self@.contains_key(e.0@),
            self@[e.0@] == e.1,
    {
        proof {
            use_type_invariant(self);
            lemma_count_at(self.listing(), i as int);
        }
        (self.entries[i].0.as_str(), self.entries[i].1)
    }

    /// Where `name` is held, or else where it would be.
    fn locate(&self, name: &str) -> (found: (usize, bool))
        ensures
            found.0 <= self.listing().len(),
            found.1 == self@.contains_key(name@),
            found.1 ==> found.0 < self.listing().len() && self.listing()[found.0 as int].0 == name@,
            !found.1 ==> {
                &&& forall|i: int|
                    0 <= i < found.0 ==> precedes(#[trigger] self.listing()[i].0, name@)
                &&& forall|i: int|
                    found.0 <= i < self.listing().len() ==> precedes(
                        name@,
                        #[trigger] self.listing()[i].0,
                    )
            },
    {
        proof {
            use_type_invariant(self);
        }
        let ghost list = self.listing();
        let mut i: usize = 0;
        while i < self.entries.len()
            invariant
                list == self.listing(),
                ascending(list),
                i <= self.entries@.len(),
                forall|j: int| 0 <= j < i ==> precedes(#[trigger] list[j].0, name@),
            decreases self.entries@.len() - i,
        {
            assert(list[i as int].0 == self.entries@[i as int].0@);
            match place(self.entries[i].0.as_str(), name) {
                Place::Before => {},
                Place::Same => {
                    proof {
                        lemma_count_at(list, i as int);
                    }
                    return (i, true);
                },
                Place::After => {
                    assert forall|k: int| i <= k < list.len() implies precedes(
                        name@,
                        #[trigger] list[k].0,
                    ) by {
                        if k > i {
                            lemma_precedes_transitive(name@, list[i as int].0, list[k].0);
                        }
                    }
                    proof {
                        lemma_absent(list, name@, i as int);
                    }
                    return (i, false);
                },
            }
            i = i + 1;
        }
        proof {
            lemma_absent(list, name@, i as int);
        }
        (i, false)
    }

    /// The count of `name`, if the name is held.
    pub fn get(&self, name: &str) -> (n: Option<u64>)
        ensures
            match n {
                Some(n) => self@.contains_key(name@) && self@[name@] == n,
                None => !self@.contains_key(name@),
            },
    {
        let (i, held) = self.locate(name);
        proof {
            use_type_invariant(self);
            if held {
                lemma_count_at(self.listing(), i as int);
            }
        }
        if held {
            Some(self.entries[i].1)
        } else {
            None
        }
    }

    /// Counts `n` more of `name`.
    pub fn add_count(&mut self, name: &str, n: u64)
        requires
            old(self).sum() + n <= u64::MAX,
        ensures
            final(self)@ == old(self)@.insert(name@, count(old(self)@, name@) + n as nat),
            final(self).sum() == old(self).sum() + n,
    {
        let (i, held) = self.locate(name);
        proof {
            use_type_invariant(&*self);
        }
        let ghost list = self.listing();
        let mut entries: Vec<(String, u64)> = Vec::new();
        std::mem::swap(&mut entries, &mut self.entries);
        if held {
            proof {
                lemma_count_at(list, i as int);
                lemma_total_at_least(list, i as int);
                lemma_total_update(list, i as int, list[i as int].1 + n as nat);
            }
            let sum = entries[i].1 + n;
            let same = entries[i].0.clone();
            entries.set(i, (same, sum));
        } else {
            proof {
                lemma_total_insert(list, i as int, (name@, n as nat));
            }
            entries.insert(i, (name.to_string(), n));
        }
        let ghost new = listing_of(entries@);
        proof {
            if held {
                assert(new =~= list.update(i as int, (list[i as int].0, list[i as int].1 + n as nat)));
                lemma_counts_update(list, i as int, list[i as int].1 + n as nat);
            } else {
                assert(new =~= list.insert(i as int, (name@, n as nat)));
                lemma_counts_insert(list, i as int, (name@, n as nat));
            }
        }
        self.entries = entries;
    }
}

/// Replacing the count of a line replaces the count of its name.
proof fn lemma_counts_update(list: Seq<(Seq<char>, nat)>, i: int, n: nat)
    requires
        ascending(list),
        0 <= i < list.len(),
    ensures
        ascending(list.update(i, (list[i].0, n))),
        counts(list.update(i, (list[i].0, n))) == counts(list).insert(list[i].0, n),
{
    let new = list.update(i, (list[i].0, n));
    let want = counts(list).insert(list[i].0, n);
    assert forall|a: int, b: int| 0 <= a < b < new.len() implies precedes(
        #[trigger] new[a].0,
        #[trigger] new[b].0,
    ) by {
        assert(new[a].0 == list[a].0);
        assert(new[b].0 == list[b].0);
    }
    assert forall|name: Seq<char>| counts(new).contains_key(name) == want.contains_key(name) by {
        if counts(new).contains_key(name) {
            let k = lemma_counted(new, name);
            assert(listed_at(list, name, k));
        }
        if want.contains_key(name) {
            if name == list[i].0 {
                assert(listed_at(new, name, i));
            } else {
                let k = lemma_counted(list, name);
                assert(listed_at(new, name, k));
            }
        }
    }
    assert forall|name: Seq<char>| counts(new).contains_key(name) implies counts(new)[name]
        == want[name] by {
        let k = lemma_counted(new, name);
        lemma_count_at(new, k);
        lemma_count_at(list, k);
        if name == list[i].0 {
            lemma_listed_once(new, i, k);
        }
    }
    assert(counts(new) =~= want);
}

/// A new line in its place adds its name and count.
pub proof fn lemma_counts_insert(list: Seq<(Seq<char>, nat)>, i: int, line: (Seq<char>, nat))
    requires
        ascending(list),
        0 <= i <= list.len(),
        forall|k: int| 0 <= k < i ==> precedes(#[trigger] list[k].0, line.0),
        forall|k: int| i <= k < list.len() ==> precedes(line.0, #[trigger] list[k].0),
    ensures
        ascending(list.insert(i, line)),
        counts(list.insert(i, line)) == counts(list).insert(line.0, line.1),
{
    let new = list.insert(i, line);
    let want = counts(list).insert(line.0, line.1);
    assert forall|a: int, b: int| 0 <= a < b < new.len() implies precedes(
        #[trigger] new[a].0,
        #[trigger] new[b].0,
    ) by {
        let a0 = if a < i { a } else { a - 1 };
        let b0 = if b < i { b } else { b - 1 };
        if a != i {
            assert(new[a] == list[a0]);
        }
        if b != i {
            assert(new[b] == list[b0]);
        }
    }
    assert forall|name: Seq<char>| counts(new).contains_key(name) == want.contains_key(name) by {
        if counts(new).contains_key(name) && name != line.0 {
            let k = lemma_counted(new, name);
            assert(listed_at(list, name, if k < i { k } else { k - 1 }));
        }
        if want.contains_key(name) {
            if name == line.0 {
                assert(listed_at(new, name, i));
            } else {
                let k = lemma_counted(list, name);
                assert(listed_at(new, name, if k < i { k } else { k + 1 }));
            }
        }
    }
    assert forall|name: Seq<char>| counts(new).contains_key(name) implies counts(new)[name]
        == want[name] by {
        let k = lemma_counted(new, name);
        lemma_count_at(new, k);
        if name == line.0 {
            lemma_listed_once(new, i, k);
        } else {
            lemma_count_at(list, if k < i { k } else { k - 1 });
        }
    }
    assert(counts(new) =~= want);
}

impl Clone for Population {
    fn clone(&self) -> (p: Population)
        ensures
            p@ == self@,
            p.listing() == self.listing(),
    {
        proof {
            use_type_invariant(self);
        }
        let mut entries: Vec<(String, u64)> = Vec::new();
        let mut i: usize = 0;
        while i < self.entries.len()
            invariant
                i <= self.entries@.len(),
                entries@.len() == i,
                forall|j: int| 0 <= j < i ==> #[trigger] entries@[j] == self.entries@[j],
            decreases self.entries@.len() - i,
        {
            let name = self.entries[i].0.clone();
            entries.push((name, self.entries[i].1));
            i = i + 1;
        }
        assert(entries@ =~= self.entries@);
        Population { entries }
    }
}

} // verus!
