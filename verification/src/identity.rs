//! What a line of a window listing says about its window: the application id and the
//! identity of the window.
use vstd::prelude::*;
use vstd::string::*;

use crate::text::{chars_of, join, run_end, split_words, trim, Class};

verus! {

use crate::number::{all_digits, is_digit};
use crate::text::{joined, lemma_run_is, run, texts, trimmed, without_prefix, words};

/// `c` with an ASCII capital letter made small.
pub open spec fn lower_char(c: char) -> char {
    if 'A' <= c <= 'Z' {
        (c as u32 + 32) as char
    } else {
        c
    }
}

/// `s` with its ASCII capital letters made small.
pub open spec fn lower(s: Seq<char>) -> Seq<char> {
    s.map_values(|c: char| lower_char(c))
}

/// Whether `key` stands in `s` at position `i`.
pub open spec fn occurs_at(s: Seq<char>, key: Seq<char>, i: int) -> bool {
    0 <= i && i + key.len() <= s.len() && s.subrange(i, i + key.len()) == key
}

/// Whether `i` is the first position at which `key` stands in `s`.
pub open spec fn occurs_first_at(s: Seq<char>, key: Seq<char>, i: int) -> bool {
    occurs_at(s, key, i) && forall|j: int| 0 <= j < i ==> !#[trigger] occurs_at(s, key, j)
}

/// The first position at which `key` stands in `s`.
pub open spec fn first_occurrence(s: Seq<char>, key: Seq<char>) -> Option<int> {
    if exists|i: int| occurs_first_at(s, key, i) {
        Some(choose|i: int| occurs_first_at(s, key, i))
    } else {
        None
    }
}

/// The part of `s` before the first `end`, or all of it.
pub open spec fn up_to(s: Seq<char>, end: char) -> Seq<char> {
    s.take(run(s, Class::Except(end)) as int)
}

/// What follows a key, after at most one `=` or `:` and the white space around it.
pub open spec fn after_separator(after_key: Seq<char>) -> Seq<char> {
    let t = without_prefix(after_key, Class::Space);
    if t.len() > 0 && (t[0] == '=' || t[0] == ':') {
        without_prefix(t.drop_first(), Class::Space)
    } else {
        t
    }
}

/// The value at the start of `s`: a quoted text without its quotes, where the closing quote may
/// be missing, or a word without the commas around it.
pub open spec fn leading_value(s: Seq<char>) -> Option<Seq<char>> {
    if s.len() == 0 {
        None
    } else if s[0] == '"' || s[0] == '\'' {
        Some(up_to(s.drop_first(), s[0]))
    } else {
        Some(trimmed(s.take(run(s, Class::Word) as int), Class::Only(',')))
    }
}

/// The value that `line` gives for `key`: the one after the first occurrence of the key,
/// whatever the case of the line's ASCII letters.
pub open spec fn key_value(line: Seq<char>, key: Seq<char>) -> Option<Seq<char>> {
    match first_occurrence(lower(line), key) {
        Some(i) => leading_value(after_separator(line.skip(i + key.len()))),
        None => None,
    }
}

/// The application id that `line` starts with: its first word without quotes, brackets and
/// separators around it, unless nothing or a mere number is left.
pub open spec fn leading_app_id(line: Seq<char>) -> Option<Seq<char>> {
    if words(line).len() == 0 {
        None
    } else {
        let first = trimmed(words(line)[0], Class::Wrapping);
        if first.len() == 0 || all_digits(first) {
            None
        } else {
            Some(first)
        }
    }
}

/// The application id that `line` names: the value of the first of the keys `app_id`,
/// `app-id`, `appid` and `app` that has one, and else what the line starts with.
pub open spec fn app_id(line: Seq<char>) -> Option<Seq<char>> {
    if key_value(line, "app_id"@) is Some {
        key_value(line, "app_id"@)
    } else if key_value(line, "app-id"@) is Some {
        key_value(line, "app-id"@)
    } else if key_value(line, "appid"@) is Some {
        key_value(line, "appid"@)
    } else if key_value(line, "app"@) is Some {
        key_value(line, "app"@)
    } else {
        leading_app_id(line)
    }
}

/// The identity of the window that `line` lists: its application id, a tab, and the line with
/// every stretch of white space made one space.
pub open spec fn identity(line: Seq<char>) -> Option<Seq<char>> {
    match app_id(line) {
        Some(app) => Some(app + seq!['\t'] + joined(words(line), seq![' '])),
        None => None,
    }
}

/// The application that an identity belongs to: what stands before its first tab.
pub open spec fn app_of(identity: Seq<char>) -> Seq<char> {
    up_to(identity, '\t')
}

/// What an optional string holds.
pub open spec fn opt_text(s: Option<String>) -> Option<Seq<char>> {
    match s {
        Some(s) => Some(s@),
        None => None,
    }
}

/// Where a text first occurs is where it occurs and did not before.
pub proof fn lemma_first_occurrence_is(s: Seq<char>, key: Seq<char>, i: int)
    requires
        occurs_first_at(s, key, i),
    ensures
        first_occurrence(s, key) == Some(i),
{
    let k = choose|k: int| occurs_first_at(s, key, k);
    assert(occurs_first_at(s, key, k));
    if k < i {
        assert(!occurs_at(s, key, k));
    }
    if i < k {
        assert(!occurs_at(s, key, i));
    }
}

/// `c` with an ASCII capital letter made small.
fn to_lower(c: char) -> (l: char)
    ensures
        l == lower_char(c),
{
    if 'A' <= c && c <= 'Z' {
        ((c as u8) + 32) as char
    } else {
        c
    }
}

/// Whether `key` stands at `at` in `line`, the line's ASCII capitals taken as small letters.
fn key_stands_at(line: &Vec<char>, key: &Vec<char>, at: usize) -> (yes: bool)
    requires
        at + key@.len() <= line@.len(),
    ensures
        yes == occurs_at(lower(line@), key@, at as int),
{
    let len = line.len();
    let mut j: usize = 0;
    let ghost there = lower(line@).subrange(at as int, at + key@.len());
    while j < key.len()
        invariant
            len == line@.len(),
            at + key@.len() <= len,
            there == lower(line@).subrange(at as int, at + key@.len()),
            j <= key@.len(),
            forall|i: int| 0 <= i < j ==> there[i] == #[trigger] key@[i],
        decreases key@.len() - j,
    {
        if to_lower(line[at + j]) != key[j] {
            assert(there[j as int] != key@[j as int]);
            return false;
        }
        j = j + 1;
    }
    assert(there == key@);
    true
}

/// Where `key` first stands in `line`, the line's ASCII capitals taken as small letters.
fn find_key(line: &Vec<char>, key: &Vec<char>) -> (found: Option<usize>)
    ensures
        match found {
            Some(i) => first_occurrence(lower(line@), key@) == Some(i as int) && i + key@.len()
                <= line@.len(),
            None => first_occurrence(lower(line@), key@) is None,
        },
{
    let ghost s = lower(line@);
    if key.len() > line.len() {
        assert forall|i: int| !occurs_first_at(s, key@, i) by {}
        return None;
    }
    let last = line.len() - key.len();
    let mut i: usize = 0;
    loop
        invariant
            s == lower(line@),
            last == line@.len() - key@.len(),
            i <= last,
            forall|j: int| 0 <= j < i ==> !#[trigger] occurs_at(s, key@, j),
        ensures
            forall|j: int| 0 <= j <= last ==> !#[trigger] occurs_at(s, key@, j),
        decreases last - i,
    {
        if key_stands_at(line, key, i) {
            proof {
                lemma_first_occurrence_is(s, key@, i as int);
            }
            return Some(i);
        }
        if i == last {
            break;
        }
        i = i + 1;
    }
    assert forall|k: int| !occurs_first_at(s, key@, k) by {
        if occurs_at(s, key@, k) {
            assert(k <= last);
        }
    }
    None
}

/// The value that `line` gives for `key`.
pub fn extract_key_value(line: &str, key: &str) -> (found: Option<String>)
    ensures
        opt_text(found) == key_value(line@, key@),
{
    let chars = chars_of(line);
    let key_chars = chars_of(key);
    let len = chars.len();
    let start = match find_key(&chars, &key_chars) {
        Some(start) => start,
        None => {
            return None;
        },
    };
    let from = start + key_chars.len();
    let ghost after_key = line@.skip(from as int);
    assert(chars@.subrange(from as int, len as int) == after_key);
    let sep = run_end(&chars, from, len, Class::Space);
    let ghost t = without_prefix(after_key, Class::Space);
    assert(t == line@.skip(sep as int));
    let at = if sep < len && (chars[sep] == '=' || chars[sep] == ':') {
        assert(t.drop_first() == chars@.subrange(sep + 1, len as int));
        run_end(&chars, sep + 1, len, Class::Space)
    } else {
        sep
    };
    let ghost v = after_separator(after_key);
    assert(v == line@.skip(at as int));
    if at >= len {
        return None;
    }
    let c = chars[at];
    assert(v[0] == c);
    if c == '"' || c == '\'' {
        let end = run_end(&chars, at + 1, len, Class::Except(c));
        assert(chars@.subrange(at + 1, len as int) == v.drop_first());
        assert(line@.subrange(at + 1, end as int) == up_to(v.drop_first(), c));
        return Some(line.substring_char(at + 1, end).to_string());
    }
    let end = run_end(&chars, at, len, Class::Word);
    assert(chars@.subrange(at as int, len as int) == v);
    assert(line@.subrange(at as int, end as int) == v.take(run(v, Class::Word) as int));
    Some(trim(line.substring_char(at, end), Class::Only(',')).to_string())
}

/// Whether every character of `s` is a digit.
fn is_number(s: &str) -> (yes: bool)
    ensures
        yes == all_digits(s@),
{
    let chars = chars_of(s);
    let mut i: usize = 0;
    while i < chars.len()
        invariant
            chars@ == s@,
            i <= chars@.len(),
            forall|j: int| 0 <= j < i ==> is_digit(#[trigger] s@[j]),
        decreases chars@.len() - i,
    {
        if !('0' <= chars[i] && chars[i] <= '9') {
            assert(!is_digit(s@[i as int]));
            return false;
        }
        i = i + 1;
    }
    true
}

/// The application id that `line` names.
pub fn extract_app_id(line: &str) -> (app: Option<String>)
    ensures
        opt_text(app) == app_id(line@),
{
    let value = extract_key_value(line, "app_id");
    if value.is_some() {
        return value;
    }
    let value = extract_key_value(line, "app-id");
    if value.is_some() {
        return value;
    }
    let value = extract_key_value(line, "appid");
    if value.is_some() {
        return value;
    }
    let value = extract_key_value(line, "app");
    if value.is_some() {
        return value;
    }
    let list = split_words(line);
    if list.len() == 0 {
        assert(texts(list@).len() == 0);
        return None;
    }
    assert(texts(list@)[0] == list@[0]@);
    let first = trim(list[0].as_str(), Class::Wrapping);
    if first.is_empty() || is_number(first) {
        None
    } else {
        Some(first.to_string())
    }
}

/// The identity of the window that `line` lists.
pub fn window_identity(line: &str) -> (id: Option<String>)
    ensures
        opt_text(id) == identity(line@),
{
    match extract_app_id(line) {
        Some(app) => {
            let mut id = app;
            id.append("\t");
            id.append(join(&split_words(line), " ").as_str());
            proof {
                reveal_strlit("\t");
                reveal_strlit(" ");
                assert("\t"@ == seq!['\t']);
                assert(" "@ == seq![' ']);
            }
            Some(id)
        },
        None => None,
    }
}

/// The application that an identity belongs to.
pub fn identity_app(identity: &str) -> (app: &str)
    ensures
        app@ == app_of(identity@),
{
    let chars = chars_of(identity);
    let end = run_end(&chars, 0, chars.len(), Class::Except('\t'));
    assert(chars@.subrange(0, chars@.len() as int) == identity@);
    identity.substring_char(0, end)
}

/// An identity belongs to the application that its line names, if the application id is free of
/// tabs.
pub proof fn law_identity_keeps_app(line: Seq<char>)
    requires
        identity(line) is Some,
        !app_id(line)->0.contains('\t'),
    ensures
        app_of(identity(line)->0) == app_id(line)->0,
{
    let app = app_id(line)->0;
    let id = identity(line)->0;
    assert forall|i: int| 0 <= i < app.len() implies Class::Except('\t').has(#[trigger] id[i]) by {
        assert(id[i] == app[i]);
    }
    lemma_run_is(id, Class::Except('\t'), app.len());
    assert(id.take(app.len() as int) == app);
}

} // verus!
