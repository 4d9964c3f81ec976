//! The order and the layout of a listing do not matter: what counts is which lines it has.
use vstd::multiset::*;
use vstd::prelude::*;
use vstd::seq_lib::*;

use crate::text::Class;

verus! {

use crate::drift::grown;
use crate::identity::{app_id, identity};
use crate::number::decimal;
use crate::sample::{
    apps, apps_in, identities, kept, lines, numbered, numbered_as, occurrences, one_each, tally,
    windows_in,
};
use crate::text::{
    lemma_run, lemma_run_is, lemma_tail_run, lemma_tail_run_is, pieces, run, tail_run, trimmed,
    without_prefix, without_suffix,
};

/// How many of `lines` `names` gives the name `x`.
spec fn named(
    lines: Seq<Seq<char>>,
    names: spec_fn(Seq<char>) -> Option<Seq<char>>,
    x: Seq<char>,
) -> nat
    decreases lines.len(),
{
    if lines.len() == 0 {
        0
    } else {
        named(lines.drop_last(), names, x) + (if names(lines.last()) == Some(x) {
            1nat
        } else {
            0nat
        })
    }
}

proof fn lemma_named_apps(lines: Seq<Seq<char>>, x: Seq<char>)
    ensures
        occurrences(apps(lines), x) == named(lines, |line: Seq<char>| app_id(line), x),
    decreases lines.len(),
{
    if lines.len() > 0 {
        lemma_named_apps(lines.drop_last(), x);
        let rest = apps(lines.drop_last());
        if let Some(app) = app_id(lines.last()) {
            assert(rest.push(app).drop_last() == rest);
        }
    }
}

proof fn lemma_named_identities(lines: Seq<Seq<char>>, x: Seq<char>)
    ensures
        occurrences(identities(lines), x) == named(lines, |line: Seq<char>| identity(line), x),
    decreases lines.len(),
{
    if lines.len() > 0 {
        lemma_named_identities(lines.drop_last(), x);
        let rest = identities(lines.drop_last());
        if let Some(id) = identity(lines.last()) {
            assert(rest.push(id).drop_last() == rest);
        }
    }
}

/// A line less is a name less.
proof fn lemma_named_remove(
    lines: Seq<Seq<char>>,
    names: spec_fn(Seq<char>) -> Option<Seq<char>>,
    x: Seq<char>,
    j: int,
)
    requires
        0 <= j < lines.len(),
    ensures
        named(lines, names, x) == named(lines.remove(j), names, x) + (if names(lines[j]) == Some(x) {
            1nat
        } else {
            0nat
        }),
    decreases lines.len(),
{
    if j == lines.len() - 1 {
        assert(lines.remove(j) == lines.drop_last());
    } else {
        lemma_named_remove(lines.drop_last(), names, x, j);
        assert(lines.remove(j).drop_last() == lines.drop_last().remove(j));
        assert(lines.remove(j).last() == lines.last());
    }
}

/// The order of the lines does not change how many have a name.
proof fn lemma_named_permuted(
    a: Seq<Seq<char>>,
    b: Seq<Seq<char>>,
    names: spec_fn(Seq<char>) -> Option<Seq<char>>,
    x: Seq<char>,
)
    requires
        a.to_multiset() == b.to_multiset(),
    ensures
        named(a, names, x) == named(b, names, x),
    decreases a.len(),
{
    broadcast use group_to_multiset_ensures;

    assert(a.len() == a.to_multiset().len());
    assert(b.len() == b.to_multiset().len());
    if a.len() > 0 {
        let line = a.last();
        assert(a.contains(line));
        assert(a.to_multiset().count(line) > 0);
        assert(b.contains(line));
        let j = choose|j: int| 0 <= j < b.len() && b[j] == line;
        let n = a.len() - 1;
        assert(a.remove(n) == a.drop_last());
        assert(a.remove(n).to_multiset() == a.to_multiset().remove(line));
        assert(b.remove(j).to_multiset() == b.to_multiset().remove(line));
        lemma_named_permuted(a.drop_last(), b.remove(j), names, x);
        lemma_named_remove(b, names, x, j);
    }
}

/// `name` with a hash sign and `n` behind it, unless `n` is one.
pub open spec fn with_number(name: Seq<char>, n: nat) -> Seq<char> {
    if n == 1 {
        name
    } else {
        name + seq!['#'] + decimal(n)
    }
}

/// Whether `name` is the `n`th of the names `base` in `list`.
pub open spec fn is_nth(list: Seq<Seq<char>>, base: Seq<char>, n: nat, name: Seq<char>) -> bool {
    1 <= n <= occurrences(list, base) && name == with_number(base, n)
}

/// The beginning of a list has a name no more often than all of it.
proof fn lemma_occurrences_take(list: Seq<Seq<char>>, x: Seq<char>, n: int)
    requires
        0 <= n <= list.len(),
    ensures
        occurrences(list.take(n), x) <= occurrences(list, x),
    decreases list.len(),
{
    if n < list.len() {
        lemma_occurrences_take(list.drop_last(), x, n);
        assert(list.drop_last().take(n) == list.take(n));
    } else {
        assert(list.take(n) == list);
    }
}

/// Where the `n`th of the names `base` stands.
proof fn lemma_nth(list: Seq<Seq<char>>, base: Seq<char>, n: nat) -> (i: int)
    requires
        1 <= n <= occurrences(list, base),
    ensures
        0 <= i < list.len(),
        list[i] == base,
        occurrences(list.take(i + 1), base) == n,
    decreases list.len(),
{
    let front = list.drop_last();
    if n <= occurrences(front, base) {
        let i = lemma_nth(front, base, n);
        assert(front.take(i + 1) == list.take(i + 1));
        i
    } else {
        assert(list.take(list.len() as int) == list);
        list.len() - 1
    }
}

/// One of each name is one for each number up to how often it occurs.
pub proof fn lemma_one_each(list: Seq<Seq<char>>, name: Seq<char>)
    ensures
        one_each(list).contains_key(name) <==> exists|base: Seq<char>, n: nat|
            is_nth(list, base, n, name),
{
    if one_each(list).contains_key(name) {
        let i = choose|i: int| numbered_as(list, i, name);
        let n = occurrences(list.take(i + 1), list[i]);
        lemma_occurrences_take(list, list[i], i + 1);
        assert(list.take(i + 1).last() == list[i]);
        assert(n >= 1);
        assert(is_nth(list, list[i], n, name));
    }
    if exists|base: Seq<char>, n: nat| is_nth(list, base, n, name) {
        let (base, n) = choose|base: Seq<char>, n: nat| is_nth(list, base, n, name);
        let i = lemma_nth(list, base, n);
        assert(numbered(list, i) == name);
        assert(numbered_as(list, i, name));
    }
}

/// Lists with each name equally often have the same of each.
proof fn lemma_same_names(a: Seq<Seq<char>>, b: Seq<Seq<char>>)
    requires
        forall|x: Seq<char>| #[trigger] occurrences(a, x) == occurrences(b, x),
    ensures
        one_each(a) == one_each(b),
        tally(a) == tally(b),
{
    assert forall|name: Seq<char>| one_each(a).contains_key(name) == one_each(b).contains_key(
        name,
    ) by {
        lemma_one_each(a, name);
        lemma_one_each(b, name);
        if one_each(a).contains_key(name) {
            let (base, n) = choose|base: Seq<char>, n: nat| is_nth(a, base, n, name);
            assert(occurrences(a, base) == occurrences(b, base));
            assert(is_nth(b, base, n, name));
        }
        if one_each(b).contains_key(name) {
            let (base, n) = choose|base: Seq<char>, n: nat| is_nth(b, base, n, name);
            assert(occurrences(a, base) == occurrences(b, base));
            assert(is_nth(a, base, n, name));
        }
    }
    assert(one_each(a) =~= one_each(b));
    assert(tally(a) =~= tally(b));
}

/// The order in which the windows are listed does not matter: two listings whose lines that say
/// something are the same but for their order list the same windows and the same applications.
pub proof fn law_order_does_not_matter(a: Seq<char>, b: Seq<char>)
    requires
        lines(a).to_multiset() == lines(b).to_multiset(),
    ensures
        windows_in(a) == windows_in(b),
        apps_in(a) == apps_in(b),
{
    let x = lines(a);
    let y = lines(b);
    assert forall|id: Seq<char>| #[trigger] occurrences(identities(x), id) == occurrences(
        identities(y),
        id,
    ) by {
        lemma_named_identities(x, id);
        lemma_named_identities(y, id);
        lemma_named_permuted(x, y, |line: Seq<char>| identity(line), id);
    }
    lemma_same_names(identities(x), identities(y));
    assert forall|app: Seq<char>| #[trigger] occurrences(apps(x), app) == occurrences(
        apps(y),
        app,
    ) by {
        lemma_named_apps(x, app);
        lemma_named_apps(y, app);
        lemma_named_permuted(x, y, |line: Seq<char>| app_id(line), app);
    }
    lemma_same_names(apps(x), apps(y));
}

/// Whether `s` is nothing but white space.
pub open spec fn is_blank(s: Seq<char>) -> bool {
    forall|i: int| 0 <= i < s.len() ==> Class::Space.has(#[trigger] s[i])
}

/// Blank lines are left out, wherever they stand.
pub proof fn law_blank_lines_do_not_matter(
    before: Seq<Seq<char>>,
    blank: Seq<char>,
    after: Seq<Seq<char>>,
)
    requires
        is_blank(blank),
    ensures
        kept(before.push(blank) + after) == kept(before + after),
    decreases after.len(),
{
    let with = before.push(blank) + after;
    if after.len() == 0 {
        lemma_run_is(blank, Class::Space, blank.len());
        assert(with == before.push(blank));
        assert(with.drop_last() == before);
        assert(before + after == before);
        assert(without_prefix(blank, Class::Space).len() == 0);
    } else {
        law_blank_lines_do_not_matter(before, blank, after.drop_last());
        assert(with.drop_last() == before.push(blank) + after.drop_last());
        assert((before + after).drop_last() == before + after.drop_last());
        assert(with.last() == after.last() && (before + after).last() == after.last());
    }
}

/// White space at the ends of a line is left out.
pub proof fn law_space_at_line_ends_does_not_matter(left: Seq<char>, s: Seq<char>, right: Seq<char>)
    requires
        is_blank(left),
        is_blank(right),
    ensures
        trimmed(left + s + right, Class::Space) == trimmed(s, Class::Space),
{
    let all = left + s + right;
    let n = run(s, Class::Space);
    lemma_run(s, Class::Space);
    let core = without_prefix(s, Class::Space);
    assert forall|i: int| 0 <= i < left.len() + n implies Class::Space.has(#[trigger] all[i]) by {
        if i < left.len() {
            assert(all[i] == left[i]);
        } else {
            assert(all[i] == s[i - left.len()]);
        }
    }
    if core.len() == 0 {
        assert forall|i: int| 0 <= i < all.len() implies Class::Space.has(#[trigger] all[i]) by {
            if i >= left.len() + s.len() {
                assert(all[i] == right[i - left.len() - s.len()]);
            }
        }
        lemma_run_is(all, Class::Space, all.len());
        assert(without_prefix(all, Class::Space).len() == 0);
        assert(trimmed(all, Class::Space) =~= trimmed(s, Class::Space));
    } else {
        assert(all[left.len() + n as int] == s[n as int]);
        lemma_run_is(all, Class::Space, left.len() + n);
        let rest = without_prefix(all, Class::Space);
        assert(rest =~= core + right);
        let m = tail_run(core, Class::Space);
        lemma_tail_run(core, Class::Space);
        assert(core[0] == s[n as int]);
        if m == core.len() {
            assert(Class::Space.has(core[0]));
        }
        assert forall|i: int| rest.len() - (m + right.len()) <= i < rest.len() implies Class::Space.has(
            #[trigger] rest[i],
        ) by {
            if i < core.len() {
                assert(rest[i] == core[i]);
            } else {
                assert(rest[i] == right[i - core.len()]);
            }
        }
        assert(rest[core.len() - m - 1] == core[core.len() - m - 1]);
        lemma_tail_run_is(rest, Class::Space, m + right.len());
        assert(without_suffix(rest, Class::Space) =~= without_suffix(core, Class::Space));
    }
}

/// Whether `padded` is `plain` with white space added at its ends.
pub open spec fn pads(padded: Seq<char>, plain: Seq<char>) -> bool {
    exists|left: Seq<char>, right: Seq<char>|
        is_blank(left) && is_blank(right) && padded == #[trigger] (left + plain + right)
}

/// White space at the ends of the lines changes none of what is kept of them.
pub proof fn law_padding_does_not_matter(padded: Seq<Seq<char>>, plain: Seq<Seq<char>>)
    requires
        padded.len() == plain.len(),
        forall|i: int| 0 <= i < plain.len() ==> pads(#[trigger] padded[i], plain[i]),
    ensures
        kept(padded) == kept(plain),
    decreases plain.len(),
{
    if plain.len() > 0 {
        let n = plain.len() - 1;
        assert(pads(padded[n], plain[n]));
        let (left, right) = choose|left: Seq<char>, right: Seq<char>|
            is_blank(left) && is_blank(right) && padded[n] == #[trigger] (left + plain[n] + right);
        law_space_at_line_ends_does_not_matter(left, plain[n], right);
        assert forall|i: int| 0 <= i < n implies pads(
            #[trigger] padded.drop_last()[i],
            plain.drop_last()[i],
        ) by {
            assert(pads(padded[i], plain[i]));
        }
        law_padding_does_not_matter(padded.drop_last(), plain.drop_last());
    }
}

/// What is kept of a line, as a multiset.
spec fn kept_of(line: Seq<char>) -> Multiset<Seq<char>> {
    if trimmed(line, Class::Space).len() == 0 {
        Multiset::empty()
    } else {
        Multiset::singleton(trimmed(line, Class::Space))
    }
}

/// What is kept of the lines is what is kept of all but the last and of the last.
proof fn lemma_kept_last(parts: Seq<Seq<char>>)
    requires
        parts.len() > 0,
    ensures
        kept(parts).to_multiset() == kept(parts.drop_last()).to_multiset().add(
            kept_of(parts.last()),
        ),
{
    broadcast use group_to_multiset_ensures;

    assert(kept(parts).to_multiset() =~= kept(parts.drop_last()).to_multiset().add(
        kept_of(parts.last()),
    ));
}

/// What is kept of the lines is what is kept of one and of the others.
proof fn lemma_kept_remove(parts: Seq<Seq<char>>, j: int)
    requires
        0 <= j < parts.len(),
    ensures
        kept(parts).to_multiset() == kept(parts.remove(j)).to_multiset().add(kept_of(parts[j])),
    decreases parts.len(),
{
    lemma_kept_last(parts);
    if j == parts.len() - 1 {
        assert(parts.remove(j) == parts.drop_last());
    } else {
        let rest = parts.remove(j);
        lemma_kept_remove(parts.drop_last(), j);
        lemma_kept_last(rest);
        assert(rest.drop_last() == parts.drop_last().remove(j));
        assert(rest.last() == parts.last());
        assert(kept(parts).to_multiset() =~= kept(rest).to_multiset().add(kept_of(parts[j])));
    }
}

/// The order of the lines only changes the order of what is kept of them.
proof fn lemma_kept_permuted(a: Seq<Seq<char>>, b: Seq<Seq<char>>)
    requires
        a.to_multiset() == b.to_multiset(),
    ensures
        kept(a).to_multiset() == kept(b).to_multiset(),
    decreases a.len(),
{
    broadcast use group_to_multiset_ensures;

    assert(a.len() == a.to_multiset().len());
    assert(b.len() == b.to_multiset().len());
    if a.len() > 0 {
        let line = a.last();
        assert(a.contains(line));
        assert(a.to_multiset().count(line) > 0);
        assert(b.contains(line));
        let j = choose|j: int| 0 <= j < b.len() && b[j] == line;
        let n = a.len() - 1;
        assert(a.remove(n) == a.drop_last());
        assert(a.remove(n).to_multiset() == a.to_multiset().remove(line));
        assert(b.remove(j).to_multiset() == b.to_multiset().remove(line));
        lemma_kept_permuted(a.drop_last(), b.remove(j));
        lemma_kept_last(a);
        lemma_kept_remove(b, j);
    }
}

/// Nothing is kept of blank lines behind others.
proof fn lemma_blanks_behind(parts: Seq<Seq<char>>, blanks: Seq<Seq<char>>)
    requires
        forall|i: int| 0 <= i < blanks.len() ==> is_blank(#[trigger] blanks[i]),
    ensures
        kept(parts + blanks) == kept(parts),
    decreases blanks.len(),
{
    if blanks.len() > 0 {
        let rest = blanks.drop_last();
        lemma_blanks_behind(parts, rest);
        law_blank_lines_do_not_matter(parts + rest, blanks.last(), seq![]);
        assert((parts + rest).push(blanks.last()) + seq![] == parts + blanks);
        assert((parts + rest) + seq![] == parts + rest);
    } else {
        assert(parts + blanks == parts);
    }
}

/// How windows are listed never looks like drift: where the lines of `b` are those of `a` in any
/// order, with white space added at their ends and blank lines added among them, both list the same
/// windows and the same applications.
pub proof fn law_layout_does_not_matter(
    a: Seq<char>,
    b: Seq<char>,
    padded: Seq<Seq<char>>,
    blanks: Seq<Seq<char>>,
)
    requires
        padded.len() == pieces(a, '\n').len(),
        forall|i: int| 0 <= i < padded.len() ==> pads(#[trigger] padded[i], pieces(a, '\n')[i]),
        forall|i: int| 0 <= i < blanks.len() ==> is_blank(#[trigger] blanks[i]),
        pieces(b, '\n').to_multiset() == (padded + blanks).to_multiset(),
    ensures
        windows_in(a) == windows_in(b),
        apps_in(a) == apps_in(b),
        grown(apps_in(a), apps_in(b)) == Map::<Seq<char>, nat>::empty(),
{
    law_padding_does_not_matter(padded, pieces(a, '\n'));
    lemma_blanks_behind(padded, blanks);
    lemma_kept_permuted(pieces(b, '\n'), padded + blanks);
    law_order_does_not_matter(a, b);
    assert(grown(apps_in(a), apps_in(b)) =~= Map::<Seq<char>, nat>::empty());
}

} // verus!
