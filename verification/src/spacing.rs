//! The spacing of a line does not matter: what it says of its window depends on its words alone.
use vstd::prelude::*;

use crate::text::Class;

verus! {

use crate::identity::{
    after_separator, app_id, first_occurrence, identity, key_value, leading_value,
    lemma_first_occurrence_is, lower, occurs_at, occurs_first_at,
};
use crate::text::{
    is_space, joined, lemma_run, lemma_run_is, run, trimmed, without_prefix, words,
};

/// Whether `s` is free of white space.
pub open spec fn is_solid(s: Seq<char>) -> bool {
    forall|i: int| 0 <= i < s.len() ==> !is_space(#[trigger] s[i])
}

/// Whether a word before `s` ends where `s` starts.
pub open spec fn starts_apart(s: Seq<char>) -> bool {
    s.len() == 0 || is_space(s[0])
}

/// `s` as a list of words, which has none where `s` is empty.
pub open spec fn as_words(s: Seq<char>) -> Seq<Seq<char>> {
    if s.len() == 0 {
        seq![]
    } else {
        seq![s]
    }
}

/// The words after the first occurrence of `key` within a word of `list`.
spec fn words_after(list: Seq<Seq<char>>, key: Seq<char>) -> Option<Seq<Seq<char>>>
    decreases list.len(),
{
    if list.len() == 0 {
        None
    } else {
        match first_occurrence(lower(list[0]), key) {
            Some(i) => Some(as_words(list[0].skip(i + key.len())) + list.drop_first()),
            None => words_after(list.drop_first(), key),
        }
    }
}

/// The first of the words of `list`, without the commas around it.
spec fn first_word(list: Seq<Seq<char>>) -> Option<Seq<char>> {
    if list.len() == 0 {
        None
    } else {
        Some(trimmed(list[0], Class::Only(',')))
    }
}

/// The first of the words of `list` after at most one `=` or `:`, without the commas around it.
spec fn word_value(list: Seq<Seq<char>>) -> Option<Seq<char>> {
    if list.len() > 0 && (list[0][0] == '=' || list[0][0] == ':') {
        first_word(as_words(list[0].drop_first()) + list.drop_first())
    } else {
        first_word(list)
    }
}

/// Whether `c` opens or closes a quoted text.
pub open spec fn is_quote(c: char) -> bool {
    c == '"' || c == '\''
}

/// Whether `s` is free of quotes.
pub open spec fn is_unquoted(s: Seq<char>) -> bool {
    forall|i: int| 0 <= i < s.len() ==> !is_quote(#[trigger] s[i])
}

/// Whether no word of `list` holds a quote.
pub open spec fn all_unquoted(list: Seq<Seq<char>>) -> bool {
    forall|i: int| 0 <= i < list.len() ==> is_unquoted(#[trigger] list[i])
}

/// White space in front of a text adds no word.
pub proof fn lemma_words_behind_space(s: Seq<char>)
    ensures
        run(without_prefix(s, Class::Space), Class::Space) == 0,
        words(without_prefix(s, Class::Space)) == words(s),
{
    let t = without_prefix(s, Class::Space);
    lemma_run(s, Class::Space);
    if t.len() > 0 {
        assert(t[0] == s[run(s, Class::Space) as int]);
    }
    lemma_run_is(t, Class::Space, 0);
    assert(without_prefix(t, Class::Space) == t);
}

/// A text that does not start with white space consists of its first word and the rest.
pub proof fn lemma_first_word(t: Seq<char>) -> (parts: (Seq<char>, Seq<char>))
    requires
        t.len() > 0,
        !is_space(t[0]),
    ensures
        run(t, Class::Word) <= t.len(),
        parts.0 == t.take(run(t, Class::Word) as int),
        parts.1 == t.skip(run(t, Class::Word) as int),
        t == parts.0 + parts.1,
        parts.0.len() > 0,
        is_solid(parts.0),
        starts_apart(parts.1),
        words(t) == seq![parts.0] + words(parts.1),
{
    lemma_run(t, Class::Word);
    let n = run(t, Class::Word);
    let word = t.take(n as int);
    let rest = t.skip(n as int);
    assert(n > 0);
    lemma_run_is(t, Class::Space, 0);
    assert(without_prefix(t, Class::Space) == t);
    assert(t == word + rest);
    (word, rest)
}

/// Solid text in front of what stands apart is a word of its own.
pub proof fn lemma_words_in_front(s: Seq<char>, rest: Seq<char>)
    requires
        is_solid(s),
        starts_apart(rest),
    ensures
        words(s + rest) == as_words(s) + words(rest),
{
    let t = s + rest;
    if s.len() == 0 {
        assert(t == rest);
        assert(as_words(s) + words(rest) == words(rest));
    } else {
        assert(t[0] == s[0]);
        assert forall|i: int| 0 <= i < s.len() implies Class::Word.has(#[trigger] t[i]) by {
            assert(t[i] == s[i]);
        }
        if rest.len() > 0 {
            assert(t[s.len() as int] == rest[0]);
        }
        lemma_run_is(t, Class::Word, s.len());
        lemma_run_is(t, Class::Space, 0);
        assert(without_prefix(t, Class::Space) == t);
        assert(t.take(s.len() as int) == s);
        assert(t.skip(s.len() as int) == rest);
    }
}

/// The words of two texts of which the second stands apart are those of one and of the other.
pub proof fn lemma_words_of_both(a: Seq<char>, b: Seq<char>)
    requires
        starts_apart(b),
    ensures
        words(a + b) == words(a) + words(b),
    decreases a.len(),
{
    let n = run(a, Class::Space);
    let t = without_prefix(a, Class::Space);
    let all = a + b;
    lemma_run(a, Class::Space);
    lemma_words_behind_space(a);
    assert forall|i: int| 0 <= i < n implies Class::Space.has(#[trigger] all[i]) by {
        assert(all[i] == a[i]);
    }
    if t.len() > 0 {
        assert(t[0] == a[n as int] && all[n as int] == a[n as int]);
        let (word, rest) = lemma_first_word(t);
        lemma_run_is(all, Class::Space, n);
        lemma_words_behind_space(all);
        assert(without_prefix(all, Class::Space) =~= word + (rest + b));
        if rest.len() == 0 {
            assert(rest + b == b);
        } else {
            assert((rest + b)[0] == rest[0]);
        }
        lemma_words_in_front(word, rest + b);
        lemma_words_of_both(rest, b);
        assert(words(all) =~= words(a) + words(b));
    } else {
        lemma_run(b, Class::Space);
        let m = run(b, Class::Space);
        assert forall|i: int| 0 <= i < n + m implies Class::Space.has(#[trigger] all[i]) by {
            if i >= n {
                assert(all[i] == b[i - n]);
            }
        }
        if m < b.len() {
            assert(all[n + m as int] == b[m as int]);
        }
        lemma_run_is(all, Class::Space, n + m);
        assert(without_prefix(all, Class::Space) =~= without_prefix(b, Class::Space));
        lemma_words_behind_space(all);
        lemma_words_behind_space(b);
        assert(words(a) =~= seq![]);
        assert(words(all) =~= words(a) + words(b));
    }
}

/// The words of a text are not empty and are solid, and they are free of quotes where it is.
pub proof fn lemma_words(s: Seq<char>)
    ensures
        forall|i: int| 0 <= i < words(s).len() ==> (#[trigger] words(s)[i]).len() > 0,
        forall|i: int| 0 <= i < words(s).len() ==> is_solid(#[trigger] words(s)[i]),
        is_unquoted(s) ==> all_unquoted(words(s)),
    decreases s.len(),
{
    let t = without_prefix(s, Class::Space);
    lemma_run(s, Class::Space);
    lemma_words_behind_space(s);
    if t.len() > 0 {
        assert(t[0] == s[run(s, Class::Space) as int]);
        let (word, rest) = lemma_first_word(t);
        lemma_words(rest);
        let list = words(s);
        assert forall|i: int| 0 < i < list.len() implies #[trigger] list[i] == words(rest)[i - 1] by {}
        if is_unquoted(s) {
            let n = run(s, Class::Space) as int;
            assert forall|i: int| 0 <= i < word.len() implies !is_quote(#[trigger] word[i]) by {
                assert(word[i] == t[i] && t[i] == s[n + i]);
            }
            assert forall|i: int| 0 <= i < rest.len() implies !is_quote(#[trigger] rest[i]) by {
                assert(rest[i] == t[word.len() + i] && rest[i] == s[n + word.len() + i]);
            }
        }
    }
}

/// A key that occurs somewhere first occurs somewhere.
proof fn lemma_first_exists(s: Seq<char>, key: Seq<char>, i: int)
    requires
        occurs_at(s, key, i),
    ensures
        exists|k: int| occurs_first_at(s, key, k),
    decreases i,
{
    if exists|j: int| 0 <= j < i && #[trigger] occurs_at(s, key, j) {
        let j = choose|j: int| 0 <= j < i && #[trigger] occurs_at(s, key, j);
        lemma_first_exists(s, key, j);
    } else {
        assert(occurs_first_at(s, key, i));
    }
}

/// What the first occurrence of a key is.
proof fn lemma_first_occurrence(s: Seq<char>, key: Seq<char>)
    ensures
        match first_occurrence(s, key) {
            Some(i) => occurs_first_at(s, key, i),
            None => forall|i: int| !occurs_at(s, key, i),
        },
{
    if first_occurrence(s, key) is None {
        assert forall|i: int| !occurs_at(s, key, i) by {
            if occurs_at(s, key, i) {
                lemma_first_exists(s, key, i);
            }
        }
    }
}

/// A key within a part of a text occurs in both at the same place.
proof fn lemma_occurs_within(s: Seq<char>, key: Seq<char>, from: int, to: int, i: int)
    requires
        0 <= from <= i,
        i + key.len() <= to <= s.len(),
    ensures
        occurs_at(lower(s), key, i) == occurs_at(lower(s.subrange(from, to)), key, i - from),
{
    let part = lower(s.subrange(from, to));
    assert(lower(s).subrange(i, i + key.len()) =~= part.subrange(
        i - from,
        i - from + key.len(),
    ));
}

/// A key without white space does not occur across white space.
proof fn lemma_no_space_within(s: Seq<char>, key: Seq<char>, i: int, at: int)
    requires
        is_solid(key),
        occurs_at(lower(s), key, i),
        i <= at < i + key.len(),
    ensures
        !is_space(s[at]),
{
    assert(lower(s).subrange(i, i + key.len())[at - i] == lower(s)[at]);
    assert(!is_space(key[at - i]));
}

/// What follows the first occurrence of a key in a text has the words that follow it in the words of
/// the text.
proof fn lemma_words_after(s: Seq<char>, key: Seq<char>)
    requires
        key.len() > 0,
        is_solid(key),
    ensures
        match first_occurrence(lower(s), key) {
            Some(i) => 0 <= i && i + key.len() <= s.len() && words_after(words(s), key) == Some(
                words(s.skip(i + key.len())),
            ),
            None => words_after(words(s), key) is None,
        },
    decreases s.len(),
{
    let n = run(s, Class::Space) as int;
    let t = without_prefix(s, Class::Space);
    lemma_run(s, Class::Space);
    lemma_words_behind_space(s);
    lemma_first_occurrence(lower(s), key);
    assert forall|i: int| #[trigger] occurs_at(lower(s), key, i) implies i >= n by {
        if i < n {
            lemma_no_space_within(s, key, i, i);
            assert(Class::Space.has(s[i]));
        }
    }
    if t.len() > 0 {
        assert(t[0] == s[n]);
        let (word, rest) = lemma_first_word(t);
        let end = n + word.len();
        let list = words(s);
        assert(list.drop_first() == words(rest));
        assert(s.subrange(n, end) =~= word);
        assert(s.subrange(end, s.len() as int) =~= rest);
        assert forall|i: int| #[trigger] occurs_at(lower(s), key, i) && i < end implies i
            + key.len() <= end && occurs_at(lower(word), key, i - n) by {
            if i + key.len() > end {
                lemma_no_space_within(s, key, i, end);
                assert(rest[0] == s[end]);
            }
            lemma_occurs_within(s, key, n, end, i);
        }
        lemma_first_occurrence(lower(word), key);
        match first_occurrence(lower(word), key) {
            Some(o) => {
                lemma_occurs_within(s, key, n, end, n + o);
                assert forall|j: int| 0 <= j < n + o implies !#[trigger] occurs_at(
                    lower(s),
                    key,
                    j,
                ) by {
                    if occurs_at(lower(s), key, j) {
                        assert(occurs_at(lower(word), key, j - n));
                    }
                }
                assert(occurs_first_at(lower(s), key, n + o));
                lemma_first_occurrence_is(lower(s), key, n + o);
                let tail = word.skip(o + key.len());
                assert forall|i: int| 0 <= i < tail.len() implies !is_space(#[trigger] tail[i]) by {
                    assert(tail[i] == word[i + o + key.len()]);
                }
                lemma_words_in_front(tail, rest);
                assert(s.skip(n + o + key.len()) =~= tail + rest);
            },
            None => {
                lemma_words_after(rest, key);
                lemma_first_occurrence(lower(rest), key);
                assert forall|i: int| #[trigger] occurs_at(lower(s), key, i) implies i >= end
                    && occurs_at(lower(rest), key, i - end) by {
                    if i < end {
                        assert(occurs_at(lower(word), key, i - n));
                    }
                    lemma_occurs_within(s, key, end, s.len() as int, i);
                }
                if let Some(k) = first_occurrence(lower(rest), key) {
                    lemma_occurs_within(s, key, end, s.len() as int, end + k);
                    assert forall|j: int| 0 <= j < end + k implies !#[trigger] occurs_at(
                        lower(s),
                        key,
                        j,
                    ) by {
                        if occurs_at(lower(s), key, j) {
                            assert(occurs_at(lower(rest), key, j - end));
                        }
                    }
                    assert(occurs_first_at(lower(s), key, end + k));
                    lemma_first_occurrence_is(lower(s), key, end + k);
                    assert(s.skip(end + k + key.len()) =~= rest.skip(k + key.len()));
                }
            },
        }
    } else if let Some(i) = first_occurrence(lower(s), key) {
        assert(occurs_at(lower(s), key, i));
    }
}

/// A key does not add quotes to the words after it.
proof fn lemma_words_after_unquoted(list: Seq<Seq<char>>, key: Seq<char>)
    requires
        all_unquoted(list),
        words_after(list, key) is Some,
    ensures
        all_unquoted(words_after(list, key)->0),
    decreases list.len(),
{
    let others = list.drop_first();
    assert forall|i: int| 0 <= i < others.len() implies is_unquoted(#[trigger] others[i]) by {
        assert(is_unquoted(list[i + 1]));
    }
    lemma_first_occurrence(lower(list[0]), key);
    match first_occurrence(lower(list[0]), key) {
        Some(k) => {
            let tail = list[0].skip(k + key.len());
            assert(is_unquoted(list[0]));
            assert(is_unquoted(tail)) by {
                assert forall|i: int| 0 <= i < tail.len() implies !is_quote(#[trigger] tail[i]) by {
                    assert(tail[i] == list[0][i + k + key.len()]);
                }
            }
            let all = as_words(tail) + others;
            assert forall|i: int| 0 <= i < all.len() implies is_unquoted(#[trigger] all[i]) by {
                if i < as_words(tail).len() {
                    assert(all[i] == tail);
                } else {
                    assert(all[i] == others[i - as_words(tail).len()]);
                }
            }
        },
        None => {
            lemma_words_after_unquoted(others, key);
        },
    }
}

/// The value at the start of a text without quotes is its first word.
proof fn lemma_leading_value(v: Seq<char>)
    requires
        run(v, Class::Space) == 0,
        all_unquoted(words(v)),
    ensures
        leading_value(v) == first_word(words(v)),
{
    lemma_run(v, Class::Space);
    if v.len() > 0 {
        let (word, rest) = lemma_first_word(v);
        assert(words(v)[0] == word);
        assert(is_unquoted(words(v)[0]));
        assert(word[0] == v[0]);
    } else {
        assert(without_prefix(v, Class::Space).len() == 0);
    }
}

/// The value after a key in a text without quotes depends on its words alone.
proof fn lemma_word_value(t: Seq<char>)
    requires
        all_unquoted(words(t)),
    ensures
        leading_value(after_separator(t)) == word_value(words(t)),
{
    let v = without_prefix(t, Class::Space);
    lemma_words_behind_space(t);
    lemma_run(v, Class::Space);
    if v.len() > 0 {
        let (word, rest) = lemma_first_word(v);
        let list = words(t);
        assert(list[0] == word);
        assert(word[0] == v[0]);
        if v[0] == '=' || v[0] == ':' {
            let tail = word.drop_first();
            let u = v.drop_first();
            assert(u =~= tail + rest);
            assert forall|i: int| 0 <= i < tail.len() implies !is_space(#[trigger] tail[i]) by {
                assert(tail[i] == word[i + 1]);
            }
            lemma_words_in_front(tail, rest);
            assert(list.drop_first() == words(rest));
            let all = words(u);
            assert(all == as_words(tail) + list.drop_first());
            assert forall|i: int| 0 <= i < all.len() implies is_unquoted(#[trigger] all[i]) by {
                if i < as_words(tail).len() {
                    assert(is_unquoted(list[0]));
                    assert forall|j: int| 0 <= j < tail.len() implies !is_quote(
                        #[trigger] tail[j],
                    ) by {
                        assert(tail[j] == list[0][j + 1]);
                    }
                } else {
                    assert(all[i] == list[i - as_words(tail).len() + 1]);
                }
            }
            lemma_words_behind_space(u);
            lemma_leading_value(without_prefix(u, Class::Space));
        } else {
            lemma_leading_value(v);
        }
    } else {
        assert(words(t).len() == 0);
    }
}

/// The value that a line without quotes gives for a key depends on its words alone.
proof fn lemma_key_value(line: Seq<char>, key: Seq<char>)
    requires
        key.len() > 0,
        is_solid(key),
        all_unquoted(words(line)),
    ensures
        key_value(line, key) == (match words_after(words(line), key) {
            Some(list) => word_value(list),
            None => None,
        }),
{
    lemma_words_after(line, key);
    if let Some(i) = first_occurrence(lower(line), key) {
        lemma_words_after_unquoted(words(line), key);
        lemma_word_value(line.skip(i + key.len()));
    }
}

/// The application id that a line without quotes names depends on its words alone.
proof fn lemma_app_id(a: Seq<char>, b: Seq<char>)
    requires
        words(a) == words(b),
        all_unquoted(words(a)),
    ensures
        app_id(a) == app_id(b),
{
    reveal_strlit("app_id");
    reveal_strlit("app-id");
    reveal_strlit("appid");
    reveal_strlit("app");
    lemma_key_value(a, "app_id"@);
    lemma_key_value(b, "app_id"@);
    lemma_key_value(a, "app-id"@);
    lemma_key_value(b, "app-id"@);
    lemma_key_value(a, "appid"@);
    lemma_key_value(b, "appid"@);
    lemma_key_value(a, "app"@);
    lemma_key_value(b, "app"@);
}

/// Joined words start with the first of them.
pub proof fn lemma_joined_front(list: Seq<Seq<char>>, sep: Seq<char>)
    requires
        list.len() >= 2,
    ensures
        joined(list, sep) == list[0] + (sep + joined(list.drop_first(), sep)),
    decreases list.len(),
{
    let rest = list.drop_first();
    let front = list.drop_last();
    if list.len() == 2 {
        assert(joined(front, sep) == list[0]);
        assert(joined(rest, sep) == list[1]);
        assert(joined(list, sep) =~= list[0] + (sep + list[1]));
    } else {
        lemma_joined_front(front, sep);
        assert(front.drop_first() == rest.drop_last());
        assert(rest.last() == list.last());
        assert(joined(list, sep) =~= list[0] + (sep + joined(rest, sep)));
    }
}

/// Words joined by single spaces are the words of the text that they make.
proof fn lemma_words_of_joined(list: Seq<Seq<char>>)
    requires
        forall|i: int| 0 <= i < list.len() ==> (#[trigger] list[i]).len() > 0,
        forall|i: int| 0 <= i < list.len() ==> is_solid(#[trigger] list[i]),
    ensures
        words(joined(list, seq![' '])) == list,
    decreases list.len(),
{
    let all = joined(list, seq![' ']);
    if list.len() == 0 {
        assert(without_prefix(all, Class::Space).len() == 0);
        assert(words(all) =~= list);
    } else if list.len() == 1 {
        lemma_words_in_front(list[0], seq![]);
        assert(all + seq![] == all);
        assert(without_prefix(Seq::<char>::empty(), Class::Space).len() == 0);
        assert(words(all) =~= list);
    } else {
        let rest = list.drop_first();
        assert forall|i: int| 0 <= i < rest.len() implies (#[trigger] rest[i]).len() > 0 by {
            assert(list[i + 1].len() > 0);
        }
        assert forall|i: int| 0 <= i < rest.len() implies is_solid(#[trigger] rest[i]) by {
            assert(is_solid(list[i + 1]));
        }
        lemma_words_of_joined(rest);
        lemma_joined_front(list, seq![' ']);
        let behind = seq![' '] + joined(rest, seq![' ']);
        lemma_words_in_front(list[0], behind);
        let text = joined(rest, seq![' ']);
        lemma_run(text, Class::Space);
        assert forall|i: int| 0 <= i < 1 + run(text, Class::Space) implies Class::Space.has(
            #[trigger] behind[i],
        ) by {
            if i > 0 {
                assert(behind[i] == text[i - 1]);
            }
        }
        if run(text, Class::Space) < text.len() {
            assert(behind[1 + run(text, Class::Space) as int] == text[run(text, Class::Space) as int]);
        }
        lemma_run_is(behind, Class::Space, 1 + run(text, Class::Space));
        assert(without_prefix(behind, Class::Space) =~= without_prefix(text, Class::Space));
        lemma_words_behind_space(behind);
        lemma_words_behind_space(text);
        assert(words(all) =~= list);
    }
}

/// Spacing alone never tells two windows apart: lines with the same words have the same identity, if
/// they are free of quotes.
pub proof fn law_same_words_same_identity(a: Seq<char>, b: Seq<char>)
    requires
        words(a) == words(b),
        is_unquoted(a),
    ensures
        app_id(a) == app_id(b),
        identity(a) == identity(b),
{
    lemma_words(a);
    lemma_app_id(a, b);
}

/// The identity of a line without quotes is that of its words with single spaces between them: its
/// application id, a tab and those words, if it names an application.
pub proof fn law_spacing_does_not_matter(line: Seq<char>)
    requires
        is_unquoted(line),
    ensures
        ({
            let normal = joined(words(line), seq![' ']);
            &&& identity(line) == identity(normal)
            &&& identity(line) is None <==> app_id(line) is None
            &&& app_id(line) matches Some(app) ==> identity(line) == Some(
                app + seq!['\t'] + normal,
            )
        }),
{
    lemma_words(line);
    lemma_words_of_joined(words(line));
    law_same_words_same_identity(line, joined(words(line), seq![' ']));
}

} // verus!
