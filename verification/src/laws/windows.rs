//! What holds of window listings, whatever is read from them: which application a line names, how
//! many windows there are of each, and what has drifted.
use vstd::prelude::*;
use vstd::string::*;

use crate::drift::{delta_text, population_delta};
use crate::identity::{extract_app_id, extract_key_value, identity_app, window_identity};
use crate::laws::text::{lemma_trimmed, lemma_trimmed_is};
use crate::population::Population;
use crate::sample::{parse_population, window_population, Sample};
use crate::text::{join, split_words, Class};

verus! {

use crate::drift::{app_total, by_app, lemma_by_app_step};
use crate::identity::{
    after_separator, app_id, app_of, identity, key_value, leading_value,
    lemma_first_occurrence_is, lower, occurs_at, occurs_first_at, opt_text, up_to,
};
use crate::number::{decimal, is_digit};
use crate::order::{is_nth, lemma_one_each, with_number};
use crate::population::{ascending, counts, listed_at, precedes};
use crate::sample::{apps, apps_in, identities, kept, lines, occurrences};
use crate::spacing::{is_solid, lemma_first_word, starts_apart};
use crate::text::{
    is_space, joined, lemma_run, lemma_run_is, pieces, texts, trimmed, without_prefix, words,
};

/// `s` with its ASCII capital letters made small.
pub open spec fn folded(s: Seq<char>) -> Seq<char> {
    Seq::new(
        s.len(),
        |i: int|
            if 'A' <= s[i] <= 'Z' {
                ((s[i] as u32 + 32) as u32) as char
            } else {
                s[i]
            },
    )
}

/// Whether all of `s` belongs to `class`.
pub open spec fn within(s: Seq<char>, class: Class) -> bool {
    forall|i: int| 0 <= i < s.len() ==> class.has(#[trigger] s[i])
}

/// Whether `s` neither starts nor ends with a character of `class`.
pub open spec fn bounded(s: Seq<char>, class: Class) -> bool {
    s.len() > 0 ==> !class.has(s[0]) && !class.has(s.last())
}

proof fn lemma_folded(s: Seq<char>)
    ensures
        folded(s) == lower(s),
{
    assert(folded(s) =~= lower(s));
}

/// A line in which a key does not occur gives no value for it.
pub proof fn law_no_key_no_value(line: &str, key: &str, found: Option<String>)
    requires
        call_ensures(extract_key_value, (line, key), found),
        forall|j: int|
            0 <= j && j + key@.len() <= line@.len() ==> #[trigger] folded(line@).subrange(
                j,
                j + key@.len(),
            ) != key@,
    ensures
        found is None,
{
    lemma_folded(line@);
    assert forall|j: int| !occurs_first_at(lower(line@), key@, j) by {
        if occurs_at(lower(line@), key@, j) {
            assert(folded(line@).subrange(j, j + key@.len()) == key@);
        }
    }
}

/// What follows a separator and the white space around it.
proof fn lemma_after_separator(gap: Seq<char>, sep: Seq<char>, space: Seq<char>, body: Seq<char>)
    requires
        within(gap, Class::Space),
        within(space, Class::Space),
        sep == seq!['='] || sep == seq![':'] || (sep.len() == 0 && space.len() == 0 && (body.len()
            > 0 ==> body[0] != '=' && body[0] != ':')),
        body.len() > 0 ==> !is_space(body[0]),
    ensures
        after_separator(gap + sep + space + body) == body,
{
    let all = gap + sep + space + body;
    assert forall|i: int| 0 <= i < gap.len() implies Class::Space.has(#[trigger] all[i]) by {
        assert(all[i] == gap[i]);
    }
    if sep.len() == 0 {
        if body.len() > 0 {
            assert(all[gap.len() as int] == body[0]);
        }
        lemma_run_is(all, Class::Space, gap.len());
        assert(without_prefix(all, Class::Space) =~= body);
    } else {
        assert(all[gap.len() as int] == sep[0]);
        lemma_run_is(all, Class::Space, gap.len());
        let t = without_prefix(all, Class::Space);
        assert(t =~= sep + space + body);
        assert(t[0] == sep[0]);
        let u = t.drop_first();
        assert(u =~= space + body);
        assert forall|i: int| 0 <= i < space.len() implies Class::Space.has(#[trigger] u[i]) by {
            assert(u[i] == space[i]);
        }
        if body.len() > 0 {
            assert(u[space.len() as int] == body[0]);
        }
        lemma_run_is(u, Class::Space, space.len());
        assert(without_prefix(u, Class::Space) =~= body);
    }
}

/// Whether `v` is the value that `body` starts with: nothing of nothing; behind a quote, all up to
/// the next such quote or to the end; and else the first word without the commas around it.
pub open spec fn starts_with_value(body: Seq<char>, v: Option<Seq<char>>) -> bool {
    if body.len() == 0 {
        v is None
    } else if body[0] == '"' || body[0] == '\'' {
        &&& v is Some
        &&& !v->0.contains(body[0])
        &&& 1 + v->0.len() <= body.len()
        &&& body.subrange(1, 1 + v->0.len() as int) == v->0
        &&& 1 + v->0.len() < body.len() ==> body[1 + v->0.len() as int] == body[0]
    } else {
        &&& v is Some
        &&& bounded(v->0, Class::Only(','))
        &&& exists|left: Seq<char>, right: Seq<char>, rest: Seq<char>|
            {
                &&& body == #[trigger] (left + v->0 + right + rest)
                &&& within(left, Class::Only(','))
                &&& within(right, Class::Only(','))
                &&& is_solid(left + v->0 + right)
                &&& starts_apart(rest)
            }
    }
}

proof fn lemma_up_to(s: Seq<char>, end: char)
    ensures
        up_to(s, end).len() <= s.len(),
        !up_to(s, end).contains(end),
        s.take(up_to(s, end).len() as int) == up_to(s, end),
        up_to(s, end).len() < s.len() ==> s[up_to(s, end).len() as int] == end,
{
    lemma_run(s, Class::Except(end));
    let v = up_to(s, end);
    if v.contains(end) {
        let k = choose|k: int| 0 <= k < v.len() && v[k] == end;
        assert(Class::Except(end).has(s[k]));
    }
}

proof fn lemma_starts_with_value(body: Seq<char>)
    requires
        body.len() > 0 ==> !is_space(body[0]),
    ensures
        starts_with_value(body, leading_value(body)),
{
    if body.len() > 0 {
        if body[0] == '"' || body[0] == '\'' {
            let inner = body.drop_first();
            lemma_up_to(inner, body[0]);
            let v = leading_value(body)->0;
            assert(body.subrange(1, 1 + v.len() as int) =~= inner.take(v.len() as int));
            if v.len() < inner.len() {
                assert(body[1 + v.len() as int] == inner[v.len() as int]);
            }
        } else {
            let (word, rest) = lemma_first_word(body);
            let v = leading_value(body)->0;
            let (left, right) = lemma_trimmed(word, Class::Only(','));
            assert(left + v + right == word);
            assert(body == left + v + right + rest);
        }
    }
}

/// The value of a key is what follows its first occurrence, whatever the case of the line's ASCII
/// letters, behind at most one `=` or `:` and the white space around it.
pub proof fn law_value_follows_key(
    line: &str,
    key: &str,
    before: Seq<char>,
    word: Seq<char>,
    gap: Seq<char>,
    sep: Seq<char>,
    space: Seq<char>,
    body: Seq<char>,
    found: Option<String>,
)
    requires
        call_ensures(extract_key_value, (line, key), found),
        line@ == before + word + (gap + sep + space + body),
        folded(word) == key@,
        forall|j: int|
            0 <= j < before.len() && j + key@.len() <= line@.len() ==> #[trigger] folded(
                line@,
            ).subrange(j, j + key@.len()) != key@,
        within(gap, Class::Space),
        within(space, Class::Space),
        sep == seq!['='] || sep == seq![':'] || (sep.len() == 0 && space.len() == 0 && (body.len()
            > 0 ==> body[0] != '=' && body[0] != ':')),
        body.len() > 0 ==> !is_space(body[0]),
    ensures
        starts_with_value(body, opt_text(found)),
{
    let at = before.len() as int;
    let s = lower(line@);
    lemma_folded(line@);
    lemma_folded(word);
    assert(s.subrange(at, at + key@.len()) =~= key@) by {
        assert forall|i: int| 0 <= i < key@.len() implies s[at + i] == #[trigger] key@[i] by {
            assert(line@[at + i] == word[i]);
            assert(lower(word)[i] == key@[i]);
        }
    }
    assert forall|j: int| 0 <= j < at implies !#[trigger] occurs_at(s, key@, j) by {
        if occurs_at(s, key@, j) {
            assert(folded(line@).subrange(j, j + key@.len()) == key@);
        }
    }
    lemma_first_occurrence_is(s, key@, at);
    assert(line@.skip(at + key@.len()) =~= gap + sep + space + body);
    lemma_after_separator(gap, sep, space, body);
    lemma_starts_with_value(body);
}

/// The application id of a line is the value of the first of its keys that has one.
pub proof fn law_keys_in_order(
    line: &str,
    first: &str,
    second: &str,
    third: &str,
    fourth: &str,
    values: (Option<String>, Option<String>, Option<String>, Option<String>),
    app: Option<String>,
)
    requires
        first@ == "app_id"@,
        second@ == "app-id"@,
        third@ == "appid"@,
        fourth@ == "app"@,
        call_ensures(extract_key_value, (line, first), values.0),
        call_ensures(extract_key_value, (line, second), values.1),
        call_ensures(extract_key_value, (line, third), values.2),
        call_ensures(extract_key_value, (line, fourth), values.3),
        call_ensures(extract_app_id, (line,), app),
    ensures
        values.0 is Some ==> app is Some && app->0@ == values.0->0@,
        values.0 is None && values.1 is Some ==> app is Some && app->0@ == values.1->0@,
        values.0 is None && values.1 is None && values.2 is Some ==> app is Some && app->0@
            == values.2->0@,
        values.0 is None && values.1 is None && values.2 is None && values.3 is Some ==> app is Some
            && app->0@ == values.3->0@,
{
}

/// Where no key has a value, the application id is all of the first word but for the quotes,
/// brackets and separators around it, unless nothing or a mere number is left.
pub proof fn law_first_word_names_the_application(
    line: &str,
    list: Vec<String>,
    left: Seq<char>,
    core: Seq<char>,
    right: Seq<char>,
    app: Option<String>,
)
    requires
        key_value(line@, "app_id"@) is None,
        key_value(line@, "app-id"@) is None,
        key_value(line@, "appid"@) is None,
        key_value(line@, "app"@) is None,
        call_ensures(split_words, (line,), list),
        call_ensures(extract_app_id, (line,), app),
        list@.len() > 0 ==> list@[0]@ == left + core + right,
        within(left, Class::Wrapping),
        within(right, Class::Wrapping),
        bounded(core, Class::Wrapping),
    ensures
        list@.len() == 0 ==> app is None,
        list@.len() > 0 ==> (app is Some <==> exists|i: int|
            0 <= i < core.len() && !('0' <= #[trigger] core[i] <= '9')),
        list@.len() > 0 && app is Some ==> app->0@ == core,
{
    assert(texts(list@).len() == list@.len());
    if list@.len() > 0 {
        assert(texts(list@)[0] == list@[0]@);
        lemma_trimmed_is(left, core, right, Class::Wrapping);
        if exists|i: int| 0 <= i < core.len() && !('0' <= #[trigger] core[i] <= '9') {
            let i = choose|i: int| 0 <= i < core.len() && !('0' <= #[trigger] core[i] <= '9');
            assert(!is_digit(core[i]));
        } else {
            assert forall|i: int| 0 <= i < core.len() implies is_digit(#[trigger] core[i]) by {}
        }
    }
}

/// A key does not occur where its beginning does not.
proof fn lemma_no_longer_key(line: Seq<char>, key: Seq<char>)
    requires
        key.len() >= 3,
        key.take(3) == "app"@,
        forall|j: int|
            0 <= j && j + 3 <= line.len() ==> #[trigger] folded(line).subrange(j, j + 3) != "app"@,
    ensures
        key_value(line, key) is None,
{
    reveal_strlit("app");
    lemma_folded(line);
    assert forall|j: int| !occurs_first_at(lower(line), key, j) by {
        if occurs_at(lower(line), key, j) {
            assert(folded(line).subrange(j, j + 3) =~= key.take(3)) by {
                let found = lower(line).subrange(j, j + key.len());
                assert forall|i: int| 0 <= i < 3 implies folded(line)[j + i] == #[trigger] key[i] by {
                    assert(found[i] == lower(line)[j + i]);
                }
            }
        }
    }
}

/// A line without keys whose first word has nothing around it and is no mere number names the
/// application by that whole word, so lines with different first words name different applications.
pub proof fn law_whole_word_names_the_application(
    a: &str,
    list_a: Vec<String>,
    app_a: Option<String>,
    b: &str,
    list_b: Vec<String>,
    app_b: Option<String>,
)
    requires
        forall|j: int|
            0 <= j && j + 3 <= a@.len() ==> #[trigger] folded(a@).subrange(j, j + 3) != "app"@,
        forall|j: int|
            0 <= j && j + 3 <= b@.len() ==> #[trigger] folded(b@).subrange(j, j + 3) != "app"@,
        call_ensures(split_words, (a,), list_a),
        call_ensures(split_words, (b,), list_b),
        call_ensures(extract_app_id, (a,), app_a),
        call_ensures(extract_app_id, (b,), app_b),
        list_a@.len() > 0,
        list_b@.len() > 0,
        bounded(list_a@[0]@, Class::Wrapping),
        bounded(list_b@[0]@, Class::Wrapping),
        exists|i: int| 0 <= i < list_a@[0]@.len() && !is_digit(#[trigger] list_a@[0]@[i]),
        exists|i: int| 0 <= i < list_b@[0]@.len() && !is_digit(#[trigger] list_b@[0]@[i]),
    ensures
        app_a is Some && app_a->0@ == list_a@[0]@,
        app_b is Some && app_b->0@ == list_b@[0]@,
        app_a->0@ == app_b->0@ <==> list_a@[0]@ == list_b@[0]@,
{
    reveal_strlit("app_id");
    reveal_strlit("app-id");
    reveal_strlit("appid");
    reveal_strlit("app");
    assert("app_id"@.take(3) =~= "app"@);
    assert("app-id"@.take(3) =~= "app"@);
    assert("appid"@.take(3) =~= "app"@);
    assert("app"@.take(3) =~= "app"@);
    lemma_no_longer_key(a@, "app_id"@);
    lemma_no_longer_key(a@, "app-id"@);
    lemma_no_longer_key(a@, "appid"@);
    lemma_no_longer_key(a@, "app"@);
    lemma_no_longer_key(b@, "app_id"@);
    lemma_no_longer_key(b@, "app-id"@);
    lemma_no_longer_key(b@, "appid"@);
    lemma_no_longer_key(b@, "app"@);
    let none = Seq::<char>::empty();
    let x = list_a@[0]@;
    let y = list_b@[0]@;
    assert(none + x + none == x);
    assert(none + y + none == y);
    let i = choose|i: int| 0 <= i < x.len() && !is_digit(#[trigger] x[i]);
    assert(!('0' <= x[i] <= '9'));
    let k = choose|k: int| 0 <= k < y.len() && !is_digit(#[trigger] y[k]);
    assert(!('0' <= y[k] <= '9'));
    law_first_word_names_the_application(a, list_a, none, x, none, app_a);
    law_first_word_names_the_application(b, list_b, none, y, none, app_b);
}

/// The identity of a window is its application id, a tab, and the words of its line with single
/// spaces between them; there is one exactly where there is an application id.
pub proof fn law_identity_is_app_and_line(
    line: &str,
    app: Option<String>,
    list: &Vec<String>,
    space: &str,
    normal: String,
    id: Option<String>,
)
    requires
        space@ == seq![' '],
        call_ensures(extract_app_id, (line,), app),
        call_ensures(split_words, (line,), *list),
        call_ensures(join, (list, space), normal),
        call_ensures(window_identity, (line,), id),
    ensures
        id is Some <==> app is Some,
        id is Some ==> id->0@ == app->0@ + seq!['\t'] + normal@,
{
}

/// The application that an identity belongs to is what stands before its first tab.
pub proof fn law_application_is_before_the_tab(id: &str, app: &str)
    requires
        call_ensures(identity_app, (id,), app),
    ensures
        !app@.contains('\t'),
        app@.len() <= id@.len(),
        id@.take(app@.len() as int) == app@,
        app@.len() < id@.len() ==> id@[app@.len() as int] == '\t',
{
    lemma_up_to(id@, '\t');
}

/// Whether `line`, without the white space around it, names `app`.
pub open spec fn names(line: Seq<char>, app: Seq<char>) -> bool {
    app_id(trimmed(line, Class::Space)) == Some(app)
}

/// How many lines of `raw` name `app`.
pub open spec fn lines_naming(raw: Seq<char>, app: Seq<char>) -> nat {
    pieces(raw, '\n').filter(|line: Seq<char>| names(line, app)).len()
}

/// How many lines of `raw` list a window of the identity `id`.
pub open spec fn lines_identified(raw: Seq<char>, id: Seq<char>) -> nat {
    pieces(raw, '\n').filter(
        |line: Seq<char>| identity(trimmed(line, Class::Space)) == Some(id),
    ).len()
}

/// A line of nothing names no application.
proof fn lemma_nothing_named()
    ensures
        app_id(Seq::<char>::empty()) is None,
        identity(Seq::<char>::empty()) is None,
{
    let none = Seq::<char>::empty();
    reveal_strlit("app_id");
    reveal_strlit("app-id");
    reveal_strlit("appid");
    reveal_strlit("app");
    assert(lower(none).len() == 0);
    assert forall|key: Seq<char>, i: int| key.len() > 0 implies !occurs_first_at(
        lower(none),
        key,
        i,
    ) by {}
    assert(key_value(none, "app_id"@) is None);
    assert(key_value(none, "app-id"@) is None);
    assert(key_value(none, "appid"@) is None);
    assert(key_value(none, "app"@) is None);
    assert(without_prefix(none, Class::Space).len() == 0);
    assert(words(none).len() == 0);
}

proof fn lemma_lines_naming(parts: Seq<Seq<char>>, app: Seq<char>)
    ensures
        occurrences(apps(kept(parts)), app) == parts.filter(
            |line: Seq<char>| names(line, app),
        ).len(),
    decreases parts.len(),
{
    reveal(Seq::filter);
    lemma_nothing_named();
    if parts.len() > 0 {
        lemma_lines_naming(parts.drop_last(), app);
        let line = trimmed(parts.last(), Class::Space);
        let rest = kept(parts.drop_last());
        if line.len() == 0 {
            assert(line =~= Seq::<char>::empty());
        } else {
            assert(rest.push(line).drop_last() == rest);
            if let Some(x) = app_id(line) {
                assert(apps(rest).push(x).drop_last() == apps(rest));
            }
        }
    }
}

proof fn lemma_lines_identified(parts: Seq<Seq<char>>, id: Seq<char>)
    ensures
        occurrences(identities(kept(parts)), id) == parts.filter(
            |line: Seq<char>| identity(trimmed(line, Class::Space)) == Some(id),
        ).len(),
    decreases parts.len(),
{
    reveal(Seq::filter);
    lemma_nothing_named();
    if parts.len() > 0 {
        lemma_lines_identified(parts.drop_last(), id);
        let line = trimmed(parts.last(), Class::Space);
        let rest = kept(parts.drop_last());
        if line.len() == 0 {
            assert(line =~= Seq::<char>::empty());
        } else {
            assert(rest.push(line).drop_last() == rest);
            if let Some(x) = identity(line) {
                assert(identities(rest).push(x).drop_last() == identities(rest));
            }
        }
    }
}

/// How many of `name` a population has.
pub open spec fn number_of(p: Map<Seq<char>, nat>, name: Seq<char>) -> nat {
    if p.contains_key(name) {
        p[name]
    } else {
        0
    }
}

/// What is counted of the applications of `raw` is how many lines name each.
pub proof fn lemma_apps_in(raw: Seq<char>)
    ensures
        forall|app: Seq<char>| #[trigger] number_of(apps_in(raw), app) == lines_naming(raw, app),
        forall|app: Seq<char>| #[trigger]
            apps_in(raw).contains_key(app) <==> lines_naming(raw, app) > 0,
{
    assert forall|app: Seq<char>| #[trigger] number_of(apps_in(raw), app) == lines_naming(
        raw,
        app,
    ) by {
        lemma_lines_naming(pieces(raw, '\n'), app);
    }
    assert forall|app: Seq<char>| #[trigger] apps_in(raw).contains_key(app) <==> lines_naming(
        raw,
        app,
    ) > 0 by {
        lemma_lines_naming(pieces(raw, '\n'), app);
    }
}

/// A population has as many of each application as there are lines, among all of the listing, that
/// name it, and no others.
pub proof fn law_population_counts_lines(raw: &str, p: Population)
    requires
        call_ensures(parse_population, (raw,), p),
    ensures
        forall|app: Seq<char>| #[trigger] number_of(p@, app) == lines_naming(raw@, app),
        forall|app: Seq<char>| #[trigger] p@.contains_key(app) <==> lines_naming(raw@, app) > 0,
{
    lemma_apps_in(raw@);
}

/// Every line that lists a window is a window of its own: of as many lines as share an identity, the
/// first has that identity and each other has it with its number behind.
pub proof fn law_windows_are_lines(raw: &str, p: Population)
    requires
        call_ensures(window_population, (raw,), p),
    ensures
        forall|name: Seq<char>| #[trigger]
            p@.contains_key(name) <==> exists|id: Seq<char>, n: nat|
                1 <= n <= lines_identified(raw@, id) && name == #[trigger] with_number(id, n),
        forall|name: Seq<char>| #[trigger] p@.contains_key(name) ==> p@[name] == 1,
        forall|id: Seq<char>| #[trigger] with_number(id, 1) == id,
        forall|id: Seq<char>, n: nat| n > 1 ==> #[trigger] with_number(id, n) == id + seq!['#'] + decimal(n),
{
    let list = identities(lines(raw@));
    assert forall|name: Seq<char>| #[trigger] p@.contains_key(name) <==> exists|
        id: Seq<char>,
        n: nat,
    | 1 <= n <= lines_identified(raw@, id) && name == #[trigger] with_number(id, n) by {
        lemma_one_each(list, name);
        if p@.contains_key(name) {
            let (id, n) = choose|id: Seq<char>, n: nat| is_nth(list, id, n, name);
            lemma_lines_identified(pieces(raw@, '\n'), id);
            assert(name == with_number(id, n));
        }
        if exists|id: Seq<char>, n: nat|
            1 <= n <= lines_identified(raw@, id) && name == #[trigger] with_number(id, n) {
            let (id, n) = choose|id: Seq<char>, n: nat|
                1 <= n <= lines_identified(raw@, id) && name == #[trigger] with_number(id, n);
            lemma_lines_identified(pieces(raw@, '\n'), id);
            assert(is_nth(list, id, n, name));
        }
    }
}

/// A sample is the population of its listing and its windows.
pub proof fn law_sample_is_its_listing(
    raw: &str,
    sample: Sample,
    population: Population,
    windows: Population,
)
    requires
        call_ensures(Sample::parse, (raw,), sample),
        call_ensures(parse_population, (raw,), population),
        call_ensures(window_population, (raw,), windows),
    ensures
        sample.apps@ == population@,
        sample.windows@ == windows@,
{
}

/// A copy counts the same.
pub proof fn law_copies_are_the_same(p: &Population, q: Population, s: &Sample, t: Sample)
    requires
        call_ensures(Population::clone, (p,), q),
        call_ensures(Sample::clone, (s,), t),
    ensures
        q@ == p@,
        t.apps@ == s.apps@,
        t.windows@ == s.windows@,
{
}

/// What is counted more of a name is added to what was counted of it, and nothing else changes.
pub proof fn law_counting(p: &mut Population, name: &str, n: u64, done: ())
    requires
        old(p).sum() + n <= u64::MAX,
        call_ensures(Population::add_count, (p, name, n), done),
    ensures
        number_of(final(p)@, name@) == number_of(old(p)@, name@) + n,
        final(p)@.contains_key(name@),
        forall|other: Seq<char>|
            other != name@ ==> #[trigger] final(p)@.contains_key(other) == old(p)@.contains_key(
                other,
            ),
        forall|other: Seq<char>|
            other != name@ ==> #[trigger] number_of(final(p)@, other) == number_of(old(p)@, other),
{
}

/// What is looked up is what was counted.
pub proof fn law_looking_up(p: &Population, name: &str, n: Option<u64>, empty: bool)
    requires
        call_ensures(Population::get, (p, name), n),
        call_ensures(Population::is_empty, (p,), empty),
    ensures
        n is Some <==> p@.contains_key(name@),
        n is Some ==> n->0 == p@[name@],
        n is Some ==> !empty,
        empty <==> forall|name: Seq<char>| !p@.contains_key(name),
{
    if forall|name: Seq<char>| !p@.contains_key(name) {
        assert(p@ =~= Map::<Seq<char>, nat>::empty());
    }
}

/// What comes before something has its first different character before the other's, or ends where
/// the other goes on.
proof fn lemma_precedes_at(a: Seq<char>, b: Seq<char>) -> (k: int)
    requires
        precedes(a, b),
    ensures
        0 <= k <= a.len(),
        k < b.len(),
        a.take(k) == b.take(k),
        k == a.len() || a[k] < b[k],
    decreases a.len(),
{
    if a.len() > 0 && a[0] == b[0] {
        let n = lemma_precedes_at(a.drop_first(), b.drop_first());
        let k = n + 1;
        assert(a.take(k) =~= seq![a[0]] + a.drop_first().take(n));
        assert(b.take(k) =~= seq![b[0]] + b.drop_first().take(n));
        k
    } else {
        0
    }
}

/// The names of a population are listed in the order of their code points, each with its count.
pub proof fn law_listed_in_order(
    p: &Population,
    len: usize,
    i: usize,
    j: usize,
    first: (&str, u64),
    second: (&str, u64),
)
    requires
        call_ensures(Population::len, (p,), len),
        i < j < p.listing().len(),
        call_ensures(Population::entry, (p, i), first),
        call_ensures(Population::entry, (p, j), second),
    ensures
        len == p@.dom().len(),
        p@.contains_key(first.0@) && p@[first.0@] == first.1,
        p@.contains_key(second.0@) && p@[second.0@] == second.1,
        exists|k: int|
            {
                &&& 0 <= k <= first.0@.len()
                &&& k < second.0@.len()
                &&& #[trigger] first.0@.take(k) == second.0@.take(k)
                &&& k == first.0@.len() || first.0@[k] < second.0@[k]
            },
{
    let k = lemma_precedes_at(first.0@, second.0@);
    assert(first.0@.take(k) == second.0@.take(k));
}

/// What has drifted is, name by name, what there is more of, whatever there is less of.
pub proof fn law_delta_is_what_there_is_more_of(
    before: &Population,
    now: &Population,
    delta: Population,
)
    requires
        call_ensures(population_delta, (before, now), delta),
    ensures
        forall|name: Seq<char>| #[trigger]
            delta@.contains_key(name) <==> number_of(now@, name) > number_of(before@, name),
        forall|name: Seq<char>| #[trigger]
            delta@.contains_key(name) ==> number_of(before@, name) + delta@[name] == number_of(
                now@,
                name,
            ),
{
}

/// From one listing to another, what has drifted is how many more lines name each application.
pub proof fn law_delta_of_listings(
    start: &str,
    now: &str,
    before: &Population,
    after: &Population,
    delta: Population,
)
    requires
        call_ensures(parse_population, (start,), *before),
        call_ensures(parse_population, (now,), *after),
        call_ensures(population_delta, (before, after), delta),
    ensures
        forall|app: Seq<char>| #[trigger]
            delta@.contains_key(app) <==> lines_naming(now@, app) > lines_naming(start@, app),
        forall|app: Seq<char>| #[trigger]
            delta@.contains_key(app) ==> lines_naming(start@, app) + delta@[app] == lines_naming(
                now@,
                app,
            ),
{
    lemma_apps_in(start@);
    lemma_apps_in(now@);
    assert forall|app: Seq<char>| #[trigger] delta@.contains_key(app) <==> lines_naming(now@, app)
        > lines_naming(start@, app) by {
        assert(number_of(apps_in(start@), app) == lines_naming(start@, app));
        assert(number_of(apps_in(now@), app) == lines_naming(now@, app));
    }
    assert forall|app: Seq<char>| #[trigger] delta@.contains_key(app) implies lines_naming(
        start@,
        app,
    ) + delta@[app] == lines_naming(now@, app) by {
        assert(number_of(apps_in(start@), app) == lines_naming(start@, app));
        assert(number_of(apps_in(now@), app) == lines_naming(now@, app));
    }
}

/// What has drifted is told in the order of the names, each with a plus sign and its count, commas
/// between; nothing is told as none.
pub proof fn law_delta_in_words(
    list: Seq<(Seq<char>, nat)>,
    parts: Seq<Seq<char>>,
    delta: &Population,
    words: String,
)
    requires
        ascending(list),
        forall|i: int| 0 <= i < list.len() ==> !(#[trigger] list[i].0).contains('\t'),
        forall|i: int| 0 <= i < list.len() ==> delta@.contains_key(#[trigger] list[i].0),
        forall|i: int| 0 <= i < list.len() ==> delta@[list[i].0] == (#[trigger] list[i]).1,
        forall|name: Seq<char>| #[trigger]
            delta@.contains_key(name) ==> exists|i: int| listed_at(list, name, i),
        parts.len() == list.len(),
        forall|i: int|
            0 <= i < list.len() ==> #[trigger] parts[i] == list[i].0 + seq!['+'] + decimal(list[i].1),
        call_ensures(delta_text, (delta,), words),
    ensures
        list.len() == 0 ==> words@ == "none"@,
        list.len() > 0 ==> words@ == joined(parts, ", "@),
{
    assert forall|name: Seq<char>| counts(list).contains_key(name) implies #[trigger] counts(
        list,
    )[name] == delta@[name] by {
        let k = choose|k: int| listed_at(list, name, k);
        assert(delta@[list[k].0] == list[k].1);
    }
    assert forall|name: Seq<char>| counts(list).contains_key(name) == delta@.contains_key(name) by {
        if counts(list).contains_key(name) {
            let k = choose|k: int| listed_at(list, name, k);
            assert(delta@.contains_key(list[k].0));
        }
    }
    assert(counts(list) =~= delta@);
    if list.len() == 0 {
        assert(delta@ =~= Map::<Seq<char>, nat>::empty());
    } else {
        crate::laws::law_names_are_told(list);
        assert(crate::drift::gains(list) =~= parts);
    }
}

/// The counts of names that belong to one application are told as their sum.
pub proof fn law_delta_sums_by_application(list: Seq<(Seq<char>, nat)>, i: int, app: Seq<char>)
    requires
        0 <= i < list.len(),
    ensures
        app_total(list.take(i + 1), app) == app_total(list.take(i), app) + (if app_of(list[i].0)
            == app {
            list[i].1
        } else {
            0
        }),
        app_total(list.take(0), app) == 0,
        by_app(list.take(i + 1)).contains_key(app_of(list[i].0)),
        by_app(list.take(i + 1))[app_of(list[i].0)] == app_total(
            list.take(i + 1),
            app_of(list[i].0),
        ),
{
    assert(list.take(i + 1).drop_last() == list.take(i));
    lemma_by_app_step(list, i);
}

} // verus!
