//! Text as sequences of characters: white space, runs of characters, trimming, splitting
//! and joining.
use vstd::prelude::*;
use vstd::string::*;

verus! {

/// The characters with Unicode's `White_Space` property.
pub open spec fn is_space(c: char) -> bool {
    let n = c as u32;
    ||| 0x9 <= n <= 0xd
    ||| n == 0x20
    ||| n == 0x85
    ||| n == 0xa0
    ||| n == 0x1680
    ||| 0x2000 <= n <= 0x200a
    ||| n == 0x2028
    ||| n == 0x2029
    ||| n == 0x202f
    ||| n == 0x205f
    ||| n == 0x3000
}

/// Whether `c` has Unicode's `White_Space` property.
pub fn is_whitespace(c: char) -> (space: bool)
    ensures
        space == is_space(c),
{
    let n: u32 = c as u32;
    (0x9 <= n && n <= 0xd) || n == 0x20 || n == 0x85 || n == 0xa0 || n == 0x1680 || (0x2000 <= n
        && n <= 0x200a) || n == 0x2028 || n == 0x2029 || n == 0x202f || n == 0x205f || n == 0x3000
}

/// A set of characters that a scan stays within.
#[derive(Clone, Copy)]
pub enum Class {
    /// White space.
    Space,
    /// Anything but white space.
    Word,
    /// Anything but this character.
    Except(char),
    /// This character alone.
    Only(char),
    /// Quotes, brackets and separators that may stand around an application id.
    Wrapping,
}

impl Class {
    /// Whether `c` belongs to the class.
    pub open spec fn has(self, c: char) -> bool {
        match self {
            Class::Space => is_space(c),
            Class::Word => !is_space(c),
            Class::Except(x) => c != x,
            Class::Only(x) => c == x,
            Class::Wrapping => c == '"' || c == '\'' || c == '[' || c == ']' || c == '(' || c == ')'
                || c == ',' || c == ';',
        }
    }

    /// Whether `c` belongs to the class.
    pub fn contains(self, c: char) -> (yes: bool)
        ensures
            yes == self.has(c),
    {
        match self {
            Class::Space => is_whitespace(c),
            Class::Word => !is_whitespace(c),
            Class::Except(x) => c != x,
            Class::Only(x) => c == x,
            Class::Wrapping => c == '"' || c == '\'' || c == '[' || c == ']' || c == '(' || c == ')'
                || c == ',' || c == ';',
        }
    }
}

/// The length of the longest prefix of `s` that stays within `class`.
pub open spec fn run(s: Seq<char>, class: Class) -> nat
    decreases s.len(),
{
    if s.len() > 0 && class.has(s[0]) {
        1 + run(s.drop_first(), class)
    } else {
        0
    }
}

/// The length of the longest suffix of `s` that stays within `class`.
pub open spec fn tail_run(s: Seq<char>, class: Class) -> nat
    decreases s.len(),
{
    if s.len() > 0 && class.has(s.last()) {
        1 + tail_run(s.drop_last(), class)
    } else {
        0
    }
}

/// `s` without its longest prefix within `class`.
pub open spec fn without_prefix(s: Seq<char>, class: Class) -> Seq<char> {
    s.skip(run(s, class) as int)
}

/// `s` without its longest suffix within `class`.
pub open spec fn without_suffix(s: Seq<char>, class: Class) -> Seq<char> {
    s.take(s.len() - tail_run(s, class))
}

/// `s` without what stands within `class` at either end.
pub open spec fn trimmed(s: Seq<char>, class: Class) -> Seq<char> {
    without_suffix(without_prefix(s, class), class)
}

/// The pieces of `s` between occurrences of `sep`.
pub open spec fn pieces(s: Seq<char>, sep: char) -> Seq<Seq<char>>
    decreases s.len(),
    via pieces_decreases
{
    let n = run(s, Class::Except(sep));
    if n >= s.len() {
        seq![s]
    } else {
        seq![s.take(n as int)] + pieces(s.skip(n as int + 1), sep)
    }
}

#[via_fn]
proof fn pieces_decreases(s: Seq<char>, sep: char) {
    lemma_run(s, Class::Except(sep));
}

/// The maximal stretches of `s` that are free of white space.
pub open spec fn words(s: Seq<char>) -> Seq<Seq<char>>
    decreases s.len(),
    via words_decreases
{
    let t = without_prefix(s, Class::Space);
    if t.len() == 0 {
        seq![]
    } else {
        let n = run(t, Class::Word);
        seq![t.take(n as int)] + words(t.skip(n as int))
    }
}

#[via_fn]
proof fn words_decreases(s: Seq<char>) {
    let t = without_prefix(s, Class::Space);
    lemma_run(s, Class::Space);
    lemma_run(t, Class::Word);
    if t.len() > 0 {
        assert(t[0] == s[run(s, Class::Space) as int]);
    }
}

/// The texts of `list` one after another with `sep` between neighbours.
pub open spec fn joined(list: Seq<Seq<char>>, sep: Seq<char>) -> Seq<char>
    decreases list.len(),
{
    if list.len() == 0 {
        seq![]
    } else if list.len() == 1 {
        list[0]
    } else {
        joined(list.drop_last(), sep) + sep + list.last()
    }
}

/// What the strings of `list` hold.
pub open spec fn texts(list: Seq<String>) -> Seq<Seq<char>> {
    list.map_values(|s: String| s@)
}

/// A run ends at the end of the text or at the first character outside the class.
pub proof fn lemma_run(s: Seq<char>, class: Class)
    ensures
        0 <= run(s, class) <= s.len(),
        forall|i: int| 0 <= i < run(s, class) ==> class.has(#[trigger] s[i]),
        run(s, class) < s.len() ==> !class.has(s[run(s, class) as int]),
    decreases s.len(),
{
    if s.len() > 0 && class.has(s[0]) {
        let rest = s.drop_first();
        lemma_run(rest, class);
        assert forall|i: int| 0 <= i < run(s, class) implies class.has(#[trigger] s[i]) by {
            if i > 0 {
                assert(s[i] == rest[i - 1]);
            }
        }
    }
}

/// The end of a run is where the class is first left.
pub proof fn lemma_run_is(s: Seq<char>, class: Class, n: nat)
    requires
        n <= s.len(),
        forall|i: int| 0 <= i < n ==> class.has(#[trigger] s[i]),
        n < s.len() ==> !class.has(s[n as int]),
    ensures
        run(s, class) == n,
{
    lemma_run(s, class);
    let m = run(s, class);
    if m < n {
        assert(class.has(s[m as int]));
    }
    if n < m {
        assert(class.has(s[n as int]));
    }
}

/// A trailing run starts at the start of the text or after the last character outside the
/// class.
pub proof fn lemma_tail_run(s: Seq<char>, class: Class)
    ensures
        0 <= tail_run(s, class) <= s.len(),
        forall|i: int| s.len() - tail_run(s, class) <= i < s.len() ==> class.has(#[trigger] s[i]),
        tail_run(s, class) < s.len() ==> !class.has(s[s.len() - tail_run(s, class) - 1]),
    decreases s.len(),
{
    if s.len() > 0 && class.has(s.last()) {
        lemma_tail_run(s.drop_last(), class);
        assert forall|i: int| s.len() - tail_run(s, class) <= i < s.len() implies class.has(
            #[trigger] s[i],
        ) by {
            if i < s.len() - 1 {
                assert(s[i] == s.drop_last()[i]);
            }
        }
    }
}

/// The start of a trailing run is where the class was last left.
pub proof fn lemma_tail_run_is(s: Seq<char>, class: Class, n: nat)
    requires
        n <= s.len(),
        forall|i: int| s.len() - n <= i < s.len() ==> class.has(#[trigger] s[i]),
        n < s.len() ==> !class.has(s[s.len() - n - 1]),
    ensures
        tail_run(s, class) == n,
{
    lemma_tail_run(s, class);
    let m = tail_run(s, class);
    if m < n {
        assert(class.has(s[s.len() - m - 1]));
    }
    if n < m {
        assert(class.has(s[s.len() - n - 1]));
    }
}

/// The characters of `s`, indexable.
pub fn chars_of(s: &str) -> (chars: Vec<char>)
    ensures
        chars@ == s@,
{
    let mut chars: Vec<char> = Vec::new();
    for c in it: s.chars()
        invariant
            chars@ == s@.take(it.index() as int),
            it.seq() == s@,
    {
        chars.push(c);
    }
    assert(s@.take(s@.len() as int) == s@);
    chars
}

/// Where the run of `class` that starts at `from` ends, at `to` at the latest.
pub fn run_end(chars: &Vec<char>, from: usize, to: usize, class: Class) -> (end: usize)
    requires
        from <= to <= chars@.len(),
    ensures
        from <= end <= to,
        end == from + run(chars@.subrange(from as int, to as int), class),
{
    let ghost s = chars@.subrange(from as int, to as int);
    let mut end: usize = from;
    while end < to && class.contains(chars[end])
        invariant
            from <= end <= to <= chars@.len(),
            s == chars@.subrange(from as int, to as int),
            forall|i: int| 0 <= i < end - from ==> class.has(#[trigger] s[i]),
        decreases to - end,
    {
        end = end + 1;
    }
    proof {
        lemma_run_is(s, class, (end - from) as nat);
    }
    end
}

/// Where the run of `class` that ends at `to` starts, at `from` at the earliest.
pub fn run_start(chars: &Vec<char>, from: usize, to: usize, class: Class) -> (start: usize)
    requires
        from <= to <= chars@.len(),
    ensures
        from <= start <= to,
        start == to - tail_run(chars@.subrange(from as int, to as int), class),
{
    let ghost s = chars@.subrange(from as int, to as int);
    let mut start: usize = to;
    while start > from && class.contains(chars[start - 1])
        invariant
            from <= start <= to <= chars@.len(),
            s == chars@.subrange(from as int, to as int),
            forall|i: int| start - from <= i < s.len() ==> class.has(#[trigger] s[i]),
        decreases start,
    {
        start = start - 1;
    }
    proof {
        lemma_tail_run_is(s, class, (to - start) as nat);
    }
    start
}

/// `s` without what stands within `class` at either end.
pub fn trim<'a>(s: &'a str, class: Class) -> (t: &'a str)
    ensures
        t@ == trimmed(s@, class),
{
    let chars = chars_of(s);
    let from = run_end(&chars, 0, chars.len(), class);
    let to = run_start(&chars, from, chars.len(), class);
    proof {
        assert(s@.subrange(0, s@.len() as int) == s@);
        assert(s@.subrange(from as int, s@.len() as int) == s@.skip(from as int));
        assert(s@.subrange(from as int, to as int) == trimmed(s@, class));
    }
    s.substring_char(from, to)
}

/// The maximal stretches of `s` that are free of white space, in order.
pub fn split_words(s: &str) -> (list: Vec<String>)
    ensures
        texts(list@) == words(s@),
{
    let chars = chars_of(s);
    let len = chars.len();
    let mut list: Vec<String> = Vec::new();
    let mut at: usize = 0;
    assert(s@.skip(0) == s@);
    assert(texts(list@) + words(s@) == words(s@));
    loop
        invariant
            chars@ == s@,
            len == chars@.len(),
            at <= len,
            texts(list@) + words(s@.skip(at as int)) == words(s@),
        ensures
            texts(list@) == words(s@),
        decreases len - at,
    {
        let from = run_end(&chars, at, len, Class::Space);
        let ghost rest = s@.skip(at as int);
        let ghost t = without_prefix(rest, Class::Space);
        proof {
            assert(chars@.subrange(at as int, len as int) == rest);
            assert(t == s@.skip(from as int));
        }
        if from >= len {
            assert(texts(list@) + words(rest) == texts(list@));
            break;
        }
        let to = run_end(&chars, from, len, Class::Word);
        let ghost before = list@;
        let word = s.substring_char(from, to).to_string();
        list.push(word);
        proof {
            assert(chars@.subrange(from as int, len as int) == t);
            lemma_run(rest, Class::Space);
            lemma_run(t, Class::Word);
            assert(t[0] == rest[from - at]);
            assert(word@ == t.take(to - from));
            assert(t.skip(to - from) == s@.skip(to as int));
            assert(texts(list@) == texts(before).push(word@));
            assert(texts(before) + (seq![word@] + words(s@.skip(to as int))) == texts(list@)
                + words(s@.skip(to as int)));
        }
        at = to;
    }
    list
}

/// The pieces of `s` between occurrences of `sep`, in order.
pub fn split_at_char(s: &str, sep: char) -> (list: Vec<String>)
    ensures
        texts(list@) == pieces(s@, sep),
{
    let chars = chars_of(s);
    let len = chars.len();
    let mut list: Vec<String> = Vec::new();
    let mut at: usize = 0;
    assert(s@.skip(0) == s@);
    assert(texts(list@) + pieces(s@, sep) == pieces(s@, sep));
    loop
        invariant_except_break
            texts(list@) + pieces(s@.skip(at as int), sep) == pieces(s@, sep),
        invariant
            chars@ == s@,
            len == chars@.len(),
            at <= len,
        ensures
            texts(list@) == pieces(s@, sep),
        decreases len - at,
    {
        let to = run_end(&chars, at, len, Class::Except(sep));
        let ghost rest = s@.skip(at as int);
        let ghost before = list@;
        let piece = s.substring_char(at, to).to_string();
        list.push(piece);
        proof {
            assert(chars@.subrange(at as int, len as int) == rest);
            assert(piece@ == rest.take(to - at));
            assert(texts(list@) == texts(before).push(piece@));
        }
        if to >= len {
            proof {
                assert(rest.take(to - at) == rest);
                assert(texts(before) + seq![rest] == texts(list@));
            }
            break;
        }
        proof {
            assert(rest.skip(to - at + 1) == s@.skip(to + 1));
            assert(texts(before) + (seq![piece@] + pieces(s@.skip(to + 1), sep)) == texts(list@)
                + pieces(s@.skip(to + 1), sep));
        }
        at = to + 1;
    }
    list
}

/// The strings of `list` one after another with `sep` between neighbours.
pub fn join(list: &Vec<String>, sep: &str) -> (all: String)
    ensures
        all@ == joined(texts(list@), sep@),
{
    let mut all = String::new();
    let mut i: usize = 0;
    let ghost parts = texts(list@);
    while i < list.len()
        invariant
            i <= list@.len(),
            parts == texts(list@),
            all@ == joined(parts.take(i as int), sep@),
        decreases list@.len() - i,
    {
        let ghost upto = parts.take(i + 1);
        assert(upto.drop_last() == parts.take(i as int));
        if i > 0 {
            all.append(sep);
        }
        all.append(list[i].as_str());
        assert(all@ == joined(upto, sep@));
        i = i + 1;
    }
    assert(parts.take(parts.len() as int) == parts);
    all
}

} // verus!
