//! Drift: what a population has gained.
use vstd::prelude::*;
use vstd::string::*;

use crate::identity::identity_app;
use crate::number::to_decimal;
use crate::population::Population;
use crate::text::join;

verus! {

use crate::identity::app_of;
use crate::number::decimal;
use crate::population::{
    ascending, count, counts, lemma_absent, lemma_counts_insert, precedes, sorted_listing, total,
};
use crate::text::{joined, texts};

/// What `now` has more of than `before`: each name whose count has grown, and by how much.
pub open spec fn grown(before: Map<Seq<char>, nat>, now: Map<Seq<char>, nat>) -> Map<
    Seq<char>,
    nat,
> {
    Map::new(
        |name: Seq<char>| count(now, name) > count(before, name),
        |name: Seq<char>| (count(now, name) - count(before, name)) as nat,
    )
}

/// The names of the first `n` lines of `list` that have grown since `before`, and by how much.
spec fn grown_upto(
    before: Map<Seq<char>, nat>,
    list: Seq<(Seq<char>, nat)>,
    n: int,
) -> Map<Seq<char>, nat> {
    grown(before, counts(list.take(n)))
}

/// What `current` has more of than `snapshot`.
pub fn population_delta(snapshot: &Population, current: &Population) -> (delta: Population)
    ensures
        delta@ == grown(snapshot@, current@),
{
    let len = current.len();
    let mut delta = Population::new();
    let mut i: usize = 0;
    let ghost list = current.listing();
    proof {
        assert(list.take(0) == Seq::<(Seq<char>, nat)>::empty());
        assert(grown_upto(snapshot@, list, 0) =~= Map::<Seq<char>, nat>::empty());
    }
    while i < len
        invariant
            i <= len,
            len == list.len(),
            list == current.listing(),
            ascending(list),
            total(list) <= u64::MAX,
            delta@ == grown_upto(snapshot@, list, i as int),
            delta.sum() <= total(list.take(i as int)),
        decreases len - i,
    {
        let (name, now) = current.entry(i);
        let before: u64 = match snapshot.get(name) {
            Some(n) => n,
            None => 0,
        };
        proof {
            lemma_total_take(list, i + 1);
            assert(list.take(i + 1).drop_last() == list.take(i as int));
            lemma_counts_step(list, i as int);
        }
        if now > before {
            delta.add_count(name, now - before);
        }
        assert(delta@ =~= grown_upto(snapshot@, list, i + 1));
        i = i + 1;
    }
    assert(list.take(len as int) == list);
    delta
}

/// The first lines of a listing never sum up to more than all of it.
proof fn lemma_total_take(list: Seq<(Seq<char>, nat)>, n: int)
    requires
        0 <= n <= list.len(),
    ensures
        total(list.take(n)) <= total(list),
    decreases list.len(),
{
    if n == list.len() {
        assert(list.take(n) == list);
    } else {
        lemma_total_take(list.drop_last(), n);
        assert(list.drop_last().take(n) == list.take(n));
    }
}

/// One more line of a listing in ascending order counts one more name.
pub proof fn lemma_counts_step(list: Seq<(Seq<char>, nat)>, i: int)
    requires
        ascending(list),
        0 <= i < list.len(),
    ensures
        !counts(list.take(i)).contains_key(list[i].0),
        counts(list.take(i + 1)) == counts(list.take(i)).insert(list[i].0, list[i].1),
{
    let front = list.take(i);
    let next = list.take(i + 1);
    let want = counts(front).insert(list[i].0, list[i].1);
    assert forall|k: int| 0 <= k < front.len() implies precedes(#[trigger] front[k].0, list[i].0) by {
        assert(front[k] == list[k]);
    }
    lemma_counts_insert(front, i, list[i]);
    assert(front.insert(i, list[i]) =~= next);
    lemma_absent(front, list[i].0, i);
}

/// The sum of the counts of `list` whose names belong to `app`.
pub open spec fn app_total(list: Seq<(Seq<char>, nat)>, app: Seq<char>) -> nat
    decreases list.len(),
{
    if list.len() == 0 {
        0
    } else {
        app_total(list.drop_last(), app) + (if app_of(list.last().0) == app {
            list.last().1
        } else {
            0
        })
    }
}

/// Whether the name in place `i` of `list` belongs to `app`.
pub open spec fn belongs(list: Seq<(Seq<char>, nat)>, i: int, app: Seq<char>) -> bool {
    0 <= i < list.len() && app_of(list[i].0) == app
}

/// The counts of `list` by application.
pub open spec fn by_app(list: Seq<(Seq<char>, nat)>) -> Map<Seq<char>, nat> {
    Map::new(
        |app: Seq<char>| exists|i: int| belongs(list, i, app),
        |app: Seq<char>| app_total(list, app),
    )
}

/// The applications of `list` with a plus sign and their counts.
pub open spec fn gains(list: Seq<(Seq<char>, nat)>) -> Seq<Seq<char>> {
    list.map_values(|e: (Seq<char>, nat)| e.0 + seq!['+'] + decimal(e.1))
}

/// What `delta` holds in words: its counts by application, in the order of the applications.
pub open spec fn delta_words(delta: Map<Seq<char>, nat>) -> Seq<char> {
    if delta == Map::<Seq<char>, nat>::empty() {
        "none"@
    } else {
        joined(gains(sorted_listing(by_app(sorted_listing(delta)))), ", "@)
    }
}

/// One more line adds its count to its application.
pub proof fn lemma_by_app_step(list: Seq<(Seq<char>, nat)>, i: int)
    requires
        0 <= i < list.len(),
    ensures
        by_app(list.take(i + 1)) == by_app(list.take(i)).insert(
            app_of(list[i].0),
            count(by_app(list.take(i)), app_of(list[i].0)) + list[i].1,
        ),
{
    let front = list.take(i);
    let next = list.take(i + 1);
    let app = app_of(list[i].0);
    assert(next.drop_last() == front);
    assert(next.last() == list[i]);
    assert forall|a: Seq<char>| !by_app(front).contains_key(a) implies app_total(front, a) == 0 by {
        lemma_no_total(front, a);
    }
    assert forall|a: Seq<char>|
        by_app(next).contains_key(a) == (by_app(front).contains_key(a) || a == app) by {
        if by_app(next).contains_key(a) {
            let k = choose|k: int| belongs(next, k, a);
            if k < i {
                assert(belongs(front, k, a));
            }
        }
        if by_app(front).contains_key(a) {
            let k = choose|k: int| belongs(front, k, a);
            assert(belongs(next, k, a));
        }
        if a == app {
            assert(belongs(next, i, a));
        }
    }
    let want = by_app(front).insert(app, count(by_app(front), app) + list[i].1);
    assert forall|a: Seq<char>| by_app(next).contains_key(a) implies #[trigger] by_app(next)[a]
        == want[a] by {
        assert(app_total(next, a) == app_total(front, a) + (if a == app {
            list[i].1
        } else {
            0
        }));
    }
    assert(by_app(next) =~= want);
}

/// An application that no name belongs to has a sum of nothing.
proof fn lemma_no_total(list: Seq<(Seq<char>, nat)>, app: Seq<char>)
    requires
        forall|i: int| !belongs(list, i, app),
    ensures
        app_total(list, app) == 0,
    decreases list.len(),
{
    if list.len() > 0 {
        let front = list.drop_last();
        assert forall|i: int| !belongs(front, i, app) by {
            assert(!belongs(list, i, app));
        }
        assert(!belongs(list, list.len() - 1, app));
        lemma_no_total(front, app);
    }
}

/// What `delta` holds in words.
pub fn delta_text(delta: &Population) -> (words: String)
    ensures
        words@ == delta_words(delta@),
{
    if delta.is_empty() {
        return "none".to_string();
    }
    let len = delta.len();
    let mut grouped = Population::new();
    let mut i: usize = 0;
    let ghost list = delta.listing();
    proof {
        assert(list.take(0) == Seq::<(Seq<char>, nat)>::empty());
        assert(by_app(list.take(0)) =~= Map::<Seq<char>, nat>::empty());
    }
    while i < len
        invariant
            i <= len,
            len == list.len(),
            list == delta.listing(),
            total(list) <= u64::MAX,
            grouped@ == by_app(list.take(i as int)),
            grouped.sum() == total(list.take(i as int)),
        decreases len - i,
    {
        let (name, n) = delta.entry(i);
        proof {
            lemma_total_take(list, i + 1);
            assert(list.take(i + 1).drop_last() == list.take(i as int));
            lemma_by_app_step(list, i as int);
        }
        grouped.add_count(identity_app(name), n);
        i = i + 1;
    }
    assert(list.take(len as int) == list);
    let count_of_apps = grouped.len();
    let ghost lines = grouped.listing();
    let mut parts: Vec<String> = Vec::new();
    let mut k: usize = 0;
    while k < count_of_apps
        invariant
            k <= count_of_apps,
            count_of_apps == lines.len(),
            lines == grouped.listing(),
            texts(parts@) == gains(lines.take(k as int)),
        decreases count_of_apps - k,
    {
        let (app, n) = grouped.entry(k);
        let ghost before = parts@;
        let mut part = app.to_string();
        part.append("+");
        part.append(to_decimal(n as u128).as_str());
        proof {
            reveal_strlit("+");
            assert("+"@ == seq!['+']);
            assert(gains(lines.take(k + 1)) == gains(lines.take(k as int)).push(part@));
        }
        parts.push(part);
        assert(texts(parts@) == texts(before).push(part@));
        k = k + 1;
    }
    assert(lines.take(count_of_apps as int) == lines);
    join(&parts, ", ")
}

} // verus!
