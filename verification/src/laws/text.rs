//! What holds of texts and numbers, whatever is handed to the functions that read and write them.
use vstd::prelude::*;
use vstd::string::*;

use crate::number::{parse_u64, to_decimal, to_signed_decimal};
use crate::text::{join, run_end, run_start, split_at_char, split_words, trim, Class};

verus! {

use crate::number::{is_digit, lemma_decimal, value};
use crate::spacing::{is_solid, lemma_joined_front, lemma_words, lemma_words_of_both, starts_apart};
use crate::text::{
    is_space, joined, lemma_run, lemma_run_is, lemma_tail_run, pieces, run, tail_run, texts,
    trimmed, without_prefix, words,
};

/// Which characters the classes hold.
pub proof fn law_classes(class: Class, c: char, yes: bool)
    requires
        call_ensures(Class::contains, (class, c), yes),
    ensures
        class is Space ==> yes == is_space(c),
        class is Word ==> yes != is_space(c),
        class matches Class::Except(x) ==> yes == (c != x),
        class matches Class::Only(x) ==> yes == (c == x),
        class is Wrapping ==> yes == seq!['"', '\'', '[', ']', '(', ')', ',', ';'].contains(c),
{
    let all = seq!['"', '\'', '[', ']', '(', ')', ',', ';'];
    assert(all[0] == '"' && all[1] == '\'' && all[2] == '[' && all[3] == ']');
    assert(all[4] == '(' && all[5] == ')' && all[6] == ',' && all[7] == ';');
}

/// What trimming leaves is what stands between characters of the class at either end, and is not
/// itself bounded by such characters.
pub proof fn lemma_trimmed(s: Seq<char>, class: Class) -> (ends: (Seq<char>, Seq<char>))
    ensures
        s == ends.0 + trimmed(s, class) + ends.1,
        forall|i: int| 0 <= i < ends.0.len() ==> class.has(#[trigger] ends.0[i]),
        forall|i: int| 0 <= i < ends.1.len() ==> class.has(#[trigger] ends.1[i]),
        trimmed(s, class).len() > 0 ==> !class.has(trimmed(s, class)[0]) && !class.has(
            trimmed(s, class).last(),
        ),
{
    let t = without_prefix(s, class);
    lemma_run(s, class);
    lemma_tail_run(t, class);
    let left = s.take(run(s, class) as int);
    let right = t.skip(t.len() - tail_run(t, class));
    let core = trimmed(s, class);
    assert(s =~= left + core + right);
    assert forall|i: int| 0 <= i < right.len() implies class.has(#[trigger] right[i]) by {
        assert(right[i] == t[t.len() - tail_run(t, class) + i]);
    }
    if core.len() > 0 {
        assert(core[0] == s[run(s, class) as int]);
        assert(core.last() == t[t.len() - tail_run(t, class) - 1]);
    }
    (left, right)
}

/// Only one part of a text stands between characters of a class without being bounded by them.
pub proof fn lemma_trimmed_is(left: Seq<char>, core: Seq<char>, right: Seq<char>, class: Class)
    requires
        forall|i: int| 0 <= i < left.len() ==> class.has(#[trigger] left[i]),
        forall|i: int| 0 <= i < right.len() ==> class.has(#[trigger] right[i]),
        core.len() > 0 ==> !class.has(core[0]) && !class.has(core.last()),
    ensures
        trimmed(left + core + right, class) == core,
{
    let s = left + core + right;
    if core.len() == 0 {
        assert forall|i: int| 0 <= i < s.len() implies class.has(#[trigger] s[i]) by {
            if i < left.len() {
                assert(s[i] == left[i]);
            } else {
                assert(s[i] == right[i - left.len()]);
            }
        }
        lemma_run_is(s, class, s.len());
        assert(trimmed(s, class) =~= core);
    } else {
        assert forall|i: int| 0 <= i < left.len() implies class.has(#[trigger] s[i]) by {
            assert(s[i] == left[i]);
        }
        assert(s[left.len() as int] == core[0]);
        lemma_run_is(s, class, left.len());
        let t = without_prefix(s, class);
        assert(t =~= core + right);
        assert forall|i: int| t.len() - right.len() <= i < t.len() implies class.has(
            #[trigger] t[i],
        ) by {
            assert(t[i] == right[i - core.len()]);
        }
        assert(t[core.len() - 1] == core.last());
        crate::text::lemma_tail_run_is(t, class, right.len());
        assert(trimmed(s, class) =~= core);
    }
}

/// Trimming takes away characters of the class at either end, all of them and nothing else.
pub proof fn law_trim(s: &str, class: Class, t: &str)
    requires
        call_ensures(trim, (s, class), t),
    ensures
        exists|left: Seq<char>, right: Seq<char>|
            {
                &&& s@ == #[trigger] (left + t@ + right)
                &&& forall|i: int| 0 <= i < left.len() ==> class.has(#[trigger] left[i])
                &&& forall|i: int| 0 <= i < right.len() ==> class.has(#[trigger] right[i])
            },
        t@.len() > 0 ==> !class.has(t@[0]) && !class.has(t@.last()),
{
    let (left, right) = lemma_trimmed(s@, class);
    assert(s@ == left + t@ + right);
}

/// A run goes on as long as the class does.
pub proof fn law_run_end(chars: &Vec<char>, from: usize, to: usize, class: Class, end: usize)
    requires
        from <= to <= chars@.len(),
        call_ensures(run_end, (chars, from, to, class), end),
    ensures
        from <= end <= to,
        forall|i: int| from <= i < end ==> class.has(#[trigger] chars@[i]),
        end < to ==> !class.has(chars@[end as int]),
{
    let s = chars@.subrange(from as int, to as int);
    lemma_run(s, class);
    assert forall|i: int| from <= i < end implies class.has(#[trigger] chars@[i]) by {
        assert(chars@[i] == s[i - from]);
    }
}

/// A trailing run starts where the class does.
pub proof fn law_run_start(chars: &Vec<char>, from: usize, to: usize, class: Class, start: usize)
    requires
        from <= to <= chars@.len(),
        call_ensures(run_start, (chars, from, to, class), start),
    ensures
        from <= start <= to,
        forall|i: int| start <= i < to ==> class.has(#[trigger] chars@[i]),
        start > from ==> !class.has(chars@[start - 1]),
{
    let s = chars@.subrange(from as int, to as int);
    lemma_tail_run(s, class);
    assert forall|i: int| start <= i < to implies class.has(#[trigger] chars@[i]) by {
        assert(chars@[i] == s[i - from]);
    }
}

/// White space parts words: two texts with a space between have the words of one and then those of
/// the other.
pub proof fn law_words_are_parted_by_space(
    a: &str,
    c: char,
    b: &str,
    both: &str,
    list_a: Vec<String>,
    list_b: Vec<String>,
    list: Vec<String>,
)
    requires
        is_space(c),
        both@ == a@ + seq![c] + b@,
        call_ensures(split_words, (a,), list_a),
        call_ensures(split_words, (b,), list_b),
        call_ensures(split_words, (both,), list),
    ensures
        texts(list@) == texts(list_a@) + texts(list_b@),
{
    let behind = seq![c] + b@;
    assert(both@ =~= a@ + behind);
    lemma_words_of_both(a@, behind);
    lemma_run(b@, Class::Space);
    assert forall|i: int| 0 <= i < 1 + run(b@, Class::Space) implies Class::Space.has(
        #[trigger] behind[i],
    ) by {
        if i > 0 {
            assert(behind[i] == b@[i - 1]);
        }
    }
    let m = run(b@, Class::Space);
    if m < b@.len() {
        assert(behind[1 + m as int] == b@[m as int]);
    }
    lemma_run_is(behind, Class::Space, 1 + m);
    assert(without_prefix(behind, Class::Space) =~= without_prefix(b@, Class::Space));
    crate::spacing::lemma_words_behind_space(behind);
    crate::spacing::lemma_words_behind_space(b@);
}

/// A text without white space is a word, if there is anything to it, and no word is empty.
pub proof fn law_words_are_solid(s: &str, list: Vec<String>)
    requires
        call_ensures(split_words, (s,), list),
    ensures
        is_solid(s@) ==> texts(list@) == (if s@.len() == 0 {
            seq![]
        } else {
            seq![s@]
        }),
        forall|i: int| 0 <= i < list@.len() ==> (#[trigger] list@[i])@.len() > 0,
        forall|i: int| 0 <= i < list@.len() ==> is_solid((#[trigger] list@[i])@),
{
    lemma_words(s@);
    if is_solid(s@) {
        crate::spacing::lemma_words_in_front(s@, seq![]);
        assert(s@ + seq![] == s@);
        assert(starts_apart(seq![]));
        assert(without_prefix(Seq::<char>::empty(), Class::Space).len() == 0);
        assert(words(Seq::<char>::empty()) =~= seq![]);
        assert(words(s@) =~= crate::spacing::as_words(s@));
    }
    assert forall|i: int| 0 <= i < list@.len() implies (#[trigger] list@[i])@.len() > 0 by {
        assert(texts(list@)[i] == list@[i]@);
    }
    assert forall|i: int| 0 <= i < list@.len() implies is_solid((#[trigger] list@[i])@) by {
        assert(texts(list@)[i] == list@[i]@);
    }
}

/// The pieces of a text joined again are the text, and none holds the separator.
pub proof fn lemma_pieces(s: Seq<char>, sep: char)
    ensures
        pieces(s, sep).len() > 0,
        joined(pieces(s, sep), seq![sep]) == s,
        forall|i: int| 0 <= i < pieces(s, sep).len() ==> !(#[trigger] pieces(s, sep)[i]).contains(sep),
    decreases s.len(),
{
    let class = Class::Except(sep);
    lemma_run(s, class);
    let n = run(s, class);
    let first = s.take(n as int);
    assert(!first.contains(sep)) by {
        if first.contains(sep) {
            let k = choose|k: int| 0 <= k < first.len() && first[k] == sep;
            assert(class.has(s[k]));
        }
    }
    if n >= s.len() {
        assert(first == s);
        assert(pieces(s, sep) == seq![s]);
    } else {
        let rest = s.skip(n as int + 1);
        lemma_pieces(rest, sep);
        let list = pieces(s, sep);
        assert(list == seq![first] + pieces(rest, sep));
        assert(list.drop_first() == pieces(rest, sep));
        lemma_joined_front(list, seq![sep]);
        assert(s =~= first + (seq![sep] + rest));
        assert forall|i: int| 0 <= i < list.len() implies !(#[trigger] list[i]).contains(sep) by {
            if i > 0 {
                assert(list[i] == pieces(rest, sep)[i - 1]);
            }
        }
    }
}

/// Splitting takes a text apart at every separator and loses nothing: the pieces hold no separator,
/// and joined by it they are the text again.
pub proof fn law_pieces_make_the_text(s: &str, sep: char, list: Vec<String>)
    requires
        call_ensures(split_at_char, (s, sep), list),
    ensures
        list@.len() > 0,
        joined(texts(list@), seq![sep]) == s@,
        forall|i: int| 0 <= i < list@.len() ==> !(#[trigger] list@[i])@.contains(sep),
{
    lemma_pieces(s@, sep);
    assert forall|i: int| 0 <= i < list@.len() implies !(#[trigger] list@[i])@.contains(sep) by {
        assert(texts(list@)[i] == list@[i]@);
    }
}

/// Joining two lists joins what each is joined to.
proof fn lemma_joined_both(a: Seq<Seq<char>>, b: Seq<Seq<char>>, sep: Seq<char>)
    requires
        a.len() > 0,
        b.len() > 0,
    ensures
        joined(a + b, sep) == joined(a, sep) + sep + joined(b, sep),
    decreases b.len(),
{
    let all = a + b;
    if b.len() == 1 {
        assert(all.drop_last() == a);
        assert(joined(all, sep) =~= joined(a, sep) + sep + joined(b, sep));
    } else {
        lemma_joined_both(a, b.drop_last(), sep);
        assert(all.drop_last() == a + b.drop_last());
        assert(joined(all, sep) =~= joined(a, sep) + sep + joined(b, sep));
    }
}

/// Joining puts the separator between neighbours and nowhere else.
pub proof fn law_join(
    a: &Vec<String>,
    b: &Vec<String>,
    both: &Vec<String>,
    sep: &str,
    text_a: String,
    text_b: String,
    text: String,
)
    requires
        both@ == a@ + b@,
        call_ensures(join, (a, sep), text_a),
        call_ensures(join, (b, sep), text_b),
        call_ensures(join, (both, sep), text),
    ensures
        a@.len() > 0 && b@.len() > 0 ==> text@ == text_a@ + sep@ + text_b@,
        a@.len() == 0 ==> text_a@ == Seq::<char>::empty(),
        a@.len() == 1 ==> text_a@ == a@[0]@,
{
    assert(texts(both@) =~= texts(a@) + texts(b@));
    if a@.len() > 0 && b@.len() > 0 {
        lemma_joined_both(texts(a@), texts(b@), sep@);
    }
    if a@.len() == 1 {
        assert(texts(a@)[0] == a@[0]@);
    }
}

/// A number is written digit by digit: the number of tens, if there are any, and then the digit of
/// the ones.
pub proof fn law_decimal_digits(n: u128, text: String, tens: String)
    requires
        call_ensures(to_decimal, (n,), text),
        call_ensures(to_decimal, ((n / 10) as u128,), tens),
    ensures
        n < 10 ==> text@ == seq![((('0' as u32) + n) as u32) as char],
        n >= 10 ==> text@ == tens@.push(((('0' as u32) + n % 10) as u32) as char),
        n >= 1 ==> text@[0] != '0',
    decreases n,
{
    lemma_no_leading_zero(n as nat);
}

/// No number but zero is written with a zero in front.
proof fn lemma_no_leading_zero(n: nat)
    ensures
        n >= 1 ==> crate::number::decimal(n)[0] != '0',
        crate::number::decimal(n).len() > 0,
    decreases n,
{
    if n >= 10 {
        lemma_no_leading_zero(n / 10);
        assert(crate::number::decimal(n)[0] == crate::number::decimal(n / 10)[0]);
    }
}

/// A negative number is written as its magnitude behind a minus sign.
pub proof fn law_signed_decimal(n: i32, text: String, magnitude: u128, digits: String)
    requires
        magnitude == (if n < 0 {
            -(n as int)
        } else {
            n as int
        }),
        call_ensures(to_signed_decimal, (n,), text),
        call_ensures(to_decimal, (magnitude,), digits),
    ensures
        n >= 0 ==> text@ == digits@,
        n < 0 ==> text@ == seq!['-'] + digits@,
{
}

/// A number is read digit by digit, as far as 64 bits go.
pub proof fn law_number_read_by_digits(
    s: &str,
    d: char,
    longer: &str,
    n: Option<u64>,
    m: Option<u64>,
)
    requires
        longer@ == s@.push(d),
        call_ensures(parse_u64, (s,), n),
        call_ensures(parse_u64, (longer,), m),
    ensures
        n is Some && '0' <= d <= '9' ==> m == (if 10 * n->0 + (d as u32 - '0' as u32)
            <= u64::MAX {
            Some((10 * n->0 + (d as u32 - '0' as u32)) as u64)
        } else {
            None
        }),
        !('0' <= d <= '9') && s@.len() > 0 ==> m is None,
        s@.len() == 0 ==> n is None,
        s@.len() == 0 && '0' <= d <= '9' ==> m == Some((d as u32 - '0' as u32) as u64),
        s@.len() == 0 && !('0' <= d <= '9') ==> m is None,
{
    if s@.len() == 0 {
        assert(longer@ =~= seq![d]);
        if d == '+' {
            assert(longer@.drop_first().len() == 0);
        } else {
            assert(longer@.drop_last() =~= Seq::<char>::empty());
            assert(longer@.last() == d);
            assert(value(Seq::<char>::empty()) == 0);
            if is_digit(d) {
                assert(value(longer@) == d as u32 - '0' as u32);
                assert forall|i: int| 0 <= i < longer@.len() implies is_digit(
                    #[trigger] longer@[i],
                ) by {
                    assert(longer@[i] == d);
                }
            } else {
                assert(!is_digit(longer@[0]));
            }
        }
    } else {
        let digits = if s@[0] == '+' {
            s@.drop_first()
        } else {
            s@
        };
        let more = if longer@[0] == '+' {
            longer@.drop_first()
        } else {
            longer@
        };
        assert(longer@[0] == s@[0]);
        assert(more =~= digits.push(d));
        assert(more.drop_last() =~= digits);
        assert(more.last() == d);
        if n is Some && is_digit(d) {
            assert forall|i: int| 0 <= i < more.len() implies is_digit(#[trigger] more[i]) by {
                if i < digits.len() {
                    assert(is_digit(digits[i]));
                }
            }
        }
        if !is_digit(d) {
            assert(!is_digit(more[more.len() - 1]));
        }
    }
}

/// Nothing but digits is read as a number, but for one plus sign in front, which changes nothing.
pub proof fn law_numbers_are_digits(s: &str, signed: &str, n: Option<u64>, m: Option<u64>)
    requires
        signed@ == seq!['+'] + s@,
        call_ensures(parse_u64, (s,), n),
        call_ensures(parse_u64, (signed,), m),
    ensures
        s@.len() > 0 && s@[0] == '+' ==> m is None,
        !(s@.len() > 0 && s@[0] == '+') ==> m == n,
        n is Some ==> forall|i: int| 0 < i < s@.len() ==> '0' <= #[trigger] s@[i] <= '9',
        n is Some ==> '0' <= s@[0] <= '9' || s@[0] == '+',
        s@.len() > 0 && value(s@) <= u64::MAX && (forall|i: int|
            0 <= i < s@.len() ==> '0' <= #[trigger] s@[i] <= '9') ==> n == Some(value(s@) as u64),
{
    assert(signed@.drop_first() =~= s@);
    if n is Some {
        let digits = if s@[0] == '+' {
            s@.drop_first()
        } else {
            s@
        };
        assert forall|i: int| 0 < i < s@.len() implies '0' <= #[trigger] s@[i] <= '9' by {
            if s@[0] == '+' {
                assert(is_digit(digits[i - 1]));
            } else {
                assert(is_digit(digits[i]));
            }
        }
        if s@[0] != '+' {
            assert(is_digit(digits[0]));
        }
    }
    if s@.len() > 0 && s@[0] == '+' {
        assert(!is_digit(s@[0]));
    }
}

/// What is written is read back, with or without white space around it.
pub proof fn law_written_is_read(
    n: u64,
    left: Seq<char>,
    text: String,
    right: Seq<char>,
    padded: &str,
    core: &str,
    read: Option<u64>,
)
    requires
        forall|i: int| 0 <= i < left.len() ==> is_space(#[trigger] left[i]),
        forall|i: int| 0 <= i < right.len() ==> is_space(#[trigger] right[i]),
        padded@ == left + text@ + right,
        call_ensures(to_decimal, (n as u128,), text),
        call_ensures(trim, (padded, Class::Space), core),
        call_ensures(parse_u64, (core,), read),
    ensures
        read == Some(n),
{
    lemma_decimal(n as nat);
    let s = text@;
    assert(is_digit(s[0]) && is_digit(s.last()));
    lemma_trimmed_is(left, s, right, Class::Space);
    crate::number::law_decimal_is_read_back(n);
}

} // verus!
