//! Samples of the open windows, read from a listing with one window per line.
use vstd::prelude::*;
use vstd::string::*;

use crate::identity::{extract_app_id, window_identity};
use crate::number::to_decimal;
use crate::population::Population;
use crate::text::{split_at_char, trim, Class};

verus! {

use crate::identity::{app_id, identity};
use crate::number::decimal;
use crate::population::count;
use crate::text::{pieces, texts, trimmed};

/// The lines of a listing that hold more than white space, without the white space around them.
pub open spec fn kept(parts: Seq<Seq<char>>) -> Seq<Seq<char>>
    decreases parts.len(),
{
    if parts.len() == 0 {
        seq![]
    } else {
        let rest = kept(parts.drop_last());
        let line = trimmed(parts.last(), Class::Space);
        if line.len() == 0 {
            rest
        } else {
            rest.push(line)
        }
    }
}

/// The lines of the listing `raw` that say something.
pub open spec fn lines(raw: Seq<char>) -> Seq<Seq<char>> {
    kept(pieces(raw, '\n'))
}

/// The application ids that `lines` name, one for each line that names one.
pub open spec fn apps(lines: Seq<Seq<char>>) -> Seq<Seq<char>>
    decreases lines.len(),
{
    if lines.len() == 0 {
        seq![]
    } else {
        let rest = apps(lines.drop_last());
        match app_id(lines.last()) {
            Some(app) => rest.push(app),
            None => rest,
        }
    }
}

/// The identities of the windows that `lines` list, one for each line that lists one.
pub open spec fn identities(lines: Seq<Seq<char>>) -> Seq<Seq<char>>
    decreases lines.len(),
{
    if lines.len() == 0 {
        seq![]
    } else {
        let rest = identities(lines.drop_last());
        match identity(lines.last()) {
            Some(id) => rest.push(id),
            None => rest,
        }
    }
}

/// How often `x` stands in `list`.
pub open spec fn occurrences(list: Seq<Seq<char>>, x: Seq<char>) -> nat
    decreases list.len(),
{
    if list.len() == 0 {
        0
    } else {
        occurrences(list.drop_last(), x) + (if list.last() == x {
            1nat
        } else {
            0nat
        })
    }
}

/// The name in place `i` of `list`; from the second time on that it occurs, with a hash sign and
/// the number of the occurrence behind it.
pub open spec fn numbered(list: Seq<Seq<char>>, i: int) -> Seq<char> {
    let n = occurrences(list.take(i + 1), list[i]);
    if n == 1 {
        list[i]
    } else {
        list[i] + seq!['#'] + decimal(n)
    }
}

/// Whether the name in place `i` of `list`, numbered where it is repeated, is `name`.
pub open spec fn numbered_as(list: Seq<Seq<char>>, i: int, name: Seq<char>) -> bool {
    0 <= i < list.len() && numbered(list, i) == name
}

/// One of each name of `list`, repeated names told apart by their numbers.
pub open spec fn one_each(list: Seq<Seq<char>>) -> Map<Seq<char>, nat> {
    Map::new(
        |name: Seq<char>| exists|i: int| numbered_as(list, i, name),
        |name: Seq<char>| 1nat,
    )
}

/// How often each name stands in `list`.
pub open spec fn tally(list: Seq<Seq<char>>) -> Map<Seq<char>, nat> {
    Map::new(
        |name: Seq<char>| occurrences(list, name) > 0,
        |name: Seq<char>| occurrences(list, name),
    )
}

/// The windows that `raw` lists, by their identities.
pub open spec fn windows_in(raw: Seq<char>) -> Map<Seq<char>, nat> {
    one_each(identities(lines(raw)))
}

/// How many windows `raw` lists of each application.
pub open spec fn apps_in(raw: Seq<char>) -> Map<Seq<char>, nat> {
    tally(apps(lines(raw)))
}

proof fn lemma_tally_push(list: Seq<Seq<char>>, x: Seq<char>)
    ensures
        tally(list.push(x)) == tally(list).insert(x, count(tally(list), x) + 1),
        occurrences(list.push(x), x) == count(tally(list), x) + 1,
{
    assert(list.push(x).drop_last() == list);
    assert(tally(list.push(x)) =~= tally(list).insert(x, count(tally(list), x) + 1));
}

proof fn lemma_one_each_push(list: Seq<Seq<char>>, x: Seq<char>)
    ensures
        one_each(list.push(x)) == one_each(list).insert(
            numbered(list.push(x), list.len() as int),
            1nat,
        ),
{
    let new = list.push(x);
    let last = numbered(new, list.len() as int);
    assert forall|i: int| 0 <= i < list.len() implies numbered(list, i) == numbered(new, i) by {
        assert(list.take(i + 1) == new.take(i + 1));
    }
    assert forall|name: Seq<char>|
        one_each(new).contains_key(name) == one_each(list).insert(last, 1nat).contains_key(name) by {
        if one_each(new).contains_key(name) {
            let i = choose|i: int| numbered_as(new, i, name);
            if i < list.len() {
                assert(numbered_as(list, i, name));
            }
        }
        if one_each(list).contains_key(name) {
            let i = choose|i: int| numbered_as(list, i, name);
            assert(numbered_as(new, i, name));
        }
        if name == last {
            assert(numbered_as(new, list.len() as int, name));
        }
    }
    assert(one_each(new) =~= one_each(list).insert(last, 1nat));
}

/// The lines of the listing `raw` that say something.
fn listed_lines(raw: &str) -> (list: Vec<String>)
    ensures
        texts(list@) == lines(raw@),
{
    let parts = split_at_char(raw, '\n');
    let mut list: Vec<String> = Vec::new();
    let mut i: usize = 0;
    let ghost all = texts(parts@);
    assert(texts(list@) == kept(all.take(0)));
    while i < parts.len()
        invariant
            i <= parts@.len(),
            all == texts(parts@),
            texts(list@) == kept(all.take(i as int)),
        decreases parts@.len() - i,
    {
        let line = trim(parts[i].as_str(), Class::Space);
        let ghost before = list@;
        assert(all.take(i + 1).drop_last() == all.take(i as int));
        if !line.is_empty() {
            let line = line.to_string();
            list.push(line);
            assert(texts(list@) == texts(before).push(line@));
        }
        i = i + 1;
    }
    assert(all.take(all.len() as int) == all);
    list
}

/// The population that `raw` lists: how many windows there are of each application.
pub fn parse_population(raw: &str) -> (population: Population)
    ensures
        population@ == apps_in(raw@),
{
    let list = listed_lines(raw);
    let mut population = Population::new();
    let mut i: usize = 0;
    let ghost all = texts(list@);
    let ghost mut found = Seq::<Seq<char>>::empty();
    proof {
        assert(apps(all.take(0)) == found);
        assert(tally(found) =~= Map::<Seq<char>, nat>::empty());
    }
    while i < list.len()
        invariant
            i <= list@.len(),
            all == texts(list@),
            found == apps(all.take(i as int)),
            population@ == tally(found),
            population.sum() <= i,
        decreases list@.len() - i,
    {
        assert(all.take(i + 1).drop_last() == all.take(i as int));
        assert(all.take(i + 1).last() == list@[i as int]@);
        if let Some(app) = extract_app_id(list[i].as_str()) {
            proof {
                lemma_tally_push(found, app@);
                found = found.push(app@);
            }
            population.add_count(app.as_str(), 1);
        }
        i = i + 1;
    }
    assert(all.take(all.len() as int) == all);
    population
}

/// The windows that `raw` lists, by their identities: one of each, windows that would share an
/// identity told apart by numbers.
pub fn window_population(raw: &str) -> (windows: Population)
    ensures
        windows@ == windows_in(raw@),
{
    let list = listed_lines(raw);
    let mut windows = Population::new();
    let mut seen = Population::new();
    let mut i: usize = 0;
    let ghost all = texts(list@);
    let ghost mut ids = Seq::<Seq<char>>::empty();
    proof {
        assert(identities(all.take(0)) == ids);
        assert(one_each(ids) =~= Map::<Seq<char>, nat>::empty());
        assert(tally(ids) =~= Map::<Seq<char>, nat>::empty());
    }
    while i < list.len()
        invariant
            i <= list@.len(),
            all == texts(list@),
            ids == identities(all.take(i as int)),
            windows@ == one_each(ids),
            windows.sum() <= i,
            seen@ == tally(ids),
            seen.sum() <= i,
        decreases list@.len() - i,
    {
        let found = window_identity(list[i].as_str());
        assert(all.take(i + 1).drop_last() == all.take(i as int));
        assert(all.take(i + 1).last() == list@[i as int]@);
        if let Some(base) = found {
            proof {
                lemma_tally_push(ids, base@);
                lemma_one_each_push(ids, base@);
                assert(ids.push(base@).take(ids.len() as int + 1) == ids.push(base@));
            }
            seen.add_count(base.as_str(), 1);
            let ordinal: u64 = match seen.get(base.as_str()) {
                Some(n) => n,
                None => 0,
            };
            let mut name = base.clone();
            if ordinal != 1 {
                name.append("#");
                name.append(to_decimal(ordinal as u128).as_str());
            }
            proof {
                reveal_strlit("#");
                assert("#"@ == seq!['#']);
                assert(name@ == numbered(ids.push(base@), ids.len() as int));
            }
            if windows.get(name.as_str()).is_none() {
                windows.add_count(name.as_str(), 1);
            } else {
                assert(windows@.insert(name@, 1nat) =~= windows@);
            }
            proof {
                ids = ids.push(base@);
            }
        }
        i = i + 1;
    }
    assert(all.take(all.len() as int) == all);
    windows
}

/// The windows that are open at one time.
pub struct Sample {
    /// The windows, by their identities.
    pub windows: Population,
    /// How many windows there are of each application.
    pub apps: Population,
}

impl Sample {
    /// Whether the sample is what `raw` lists.
    pub open spec fn lists(self, raw: Seq<char>) -> bool {
        self.windows@ == windows_in(raw) && self.apps@ == apps_in(raw)
    }

    /// What `raw` lists.
    pub fn parse(raw: &str) -> (sample: Sample)
        ensures
            sample.lists(raw@),
    {
        Sample { windows: window_population(raw), apps: parse_population(raw) }
    }
}

impl Clone for Sample {
    fn clone(&self) -> (sample: Sample)
        ensures
            sample.windows@ == self.windows@,
            sample.apps@ == self.apps@,
    {
        Sample { windows: self.windows.clone(), apps: self.apps.clone() }
    }
}

} // verus!
