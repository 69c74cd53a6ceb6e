//! Text as sequences of characters.
//!
//! Every algorithm of this crate works on `Vec<char>` and states its contract
//! over `Seq<char>`; offsets into a text count characters. The functions here
//! are the shared vocabulary: whitespace, trimming, words, substring search,
//! case folding and decimal numbers.

use vstd::prelude::*;

verus! {

// ---------------------------------------------------------------------------
// std functions that vstd leaves without a specification
// ---------------------------------------------------------------------------

/// `String::push` appends exactly one character.
pub assume_specification[ String::push ](s: &mut String, c: char)
    ensures
        final(s)@ == old(s)@.push(c),
;

/// `String::push_str` appends the given text.
pub assume_specification[ String::push_str ](s: &mut String, tail: &str)
    ensures
        final(s)@ == old(s)@ + tail@,
;

/// Whether `char::is_alphanumeric` holds of a character: whether Unicode
/// counts it as a letter or a number.
pub uninterp spec fn alphanumeric(c: char) -> bool;

/// `char::is_alphanumeric` is a function of the character alone; its
/// result is named `alphanumeric`.
pub assume_specification[ char::is_alphanumeric ](c: char) -> (r: bool)
    ensures
        r == alphanumeric(c),
;

/// What `str::to_lowercase` returns for a text: its lowercase equivalent under
/// the Unicode rules that std implements.
pub uninterp spec fn lowercase(s: Seq<char>) -> Seq<char>;

/// `str::to_lowercase` is a function of the text alone; its result is named
/// `lowercase`.
pub assume_specification[ str::to_lowercase ](s: &str) -> (r: String)
    ensures
        r@ == lowercase(s@),
;

// ---------------------------------------------------------------------------
// Conversions
// ---------------------------------------------------------------------------

/// The characters of `s`, in order.
pub fn chars_of(s: &str) -> (r: Vec<char>)
    ensures
        r@ == s@,
{
    let mut out: Vec<char> = Vec::new();
    for c in it: s.chars()
        invariant
            out@ == s@.take(it.index() as int),
            it.seq() == s@,
    {
        out.push(c);
    }
    out
}

/// The string made of `chars`, in order.
pub fn string_of(chars: &Vec<char>) -> (r: String)
    ensures
        r@ == chars@,
{
    let mut out = String::new();
    let mut i: usize = 0;
    while i < chars.len()
        invariant
            i <= chars.len(),
            out@ == chars@.take(i as int),
        decreases chars.len() - i,
    {
        out.push(chars[i]);
        i += 1;
    }
    out
}

/// The characters `v[from..to]` as a vector of their own.
pub fn copy_range(v: &Vec<char>, from: usize, to: usize) -> (r: Vec<char>)
    requires
        from <= to <= v.len(),
    ensures
        r@ == v@.subrange(from as int, to as int),
{
    let mut out: Vec<char> = Vec::new();
    let mut i: usize = from;
    while i < to
        invariant
            from <= i <= to <= v.len(),
            out@ == v@.subrange(from as int, i as int),
        decreases to - i,
    {
        out.push(v[i]);
        i += 1;
    }
    out
}

/// Appends `tail` to `out`.
pub fn push_all(out: &mut Vec<char>, tail: &Vec<char>)
    ensures
        final(out)@ == old(out)@ + tail@,
{
    let mut i: usize = 0;
    while i < tail.len()
        invariant
            i <= tail.len(),
            out@ == old(out)@ + tail@.take(i as int),
        decreases tail.len() - i,
    {
        out.push(tail[i]);
        i += 1;
    }
    assert(tail@.take(tail.len() as int) == tail@);
}

/// Lowercases a text through `str::to_lowercase`.
pub fn to_lower(v: &Vec<char>) -> (r: Vec<char>)
    ensures
        r@ == lowercase(v@),
{
    let s = string_of(v);
    let l = s.as_str().to_lowercase();
    chars_of(l.as_str())
}

/// Whether two texts hold the same characters.
pub fn same_chars(a: &Vec<char>, b: &Vec<char>) -> (r: bool)
    ensures
        r == (a@ == b@),
{
    if a.len() != b.len() {
        return false;
    }
    let mut i: usize = 0;
    while i < a.len()
        invariant
            i <= a.len(),
            a.len() == b.len(),
            a@.take(i as int) == b@.take(i as int),
        decreases a.len() - i,
    {
        if a[i] != b[i] {
            return false;
        }
        assert(a@.take(i + 1) == a@.take(i as int).push(a@[i as int]));
        assert(b@.take(i + 1) == b@.take(i as int).push(b@[i as int]));
        i += 1;
    }
    assert(a@.take(a.len() as int) == a@);
    assert(b@.take(b.len() as int) == b@);
    true
}

/// Whether two strings hold the same characters.
pub fn same_text(a: &str, b: &str) -> (r: bool)
    ensures
        r == (a@ == b@),
{
    same_chars(&chars_of(a), &chars_of(b))
}

// ---------------------------------------------------------------------------
// Whitespace
// ---------------------------------------------------------------------------

/// The characters with the Unicode `White_Space` property.
pub open spec fn is_space(c: char) -> bool {
    let n = c as u32;
    ||| (0x09 <= n && n <= 0x0d)
    ||| n == 0x20
    ||| n == 0x85
    ||| n == 0xa0
    ||| n == 0x1680
    ||| (0x2000 <= n && n <= 0x200a)
    ||| n == 0x2028
    ||| n == 0x2029
    ||| n == 0x202f
    ||| n == 0x205f
    ||| n == 0x3000
}

pub fn is_whitespace(c: char) -> (r: bool)
    ensures
        r == is_space(c),
{
    let n: u32 = c as u32;
    (0x09 <= n && n <= 0x0d) || n == 0x20 || n == 0x85 || n == 0xa0 || n == 0x1680 || (0x2000 <= n
        && n <= 0x200a) || n == 0x2028 || n == 0x2029 || n == 0x202f || n == 0x205f || n == 0x3000
}

/// The number of whitespace characters that `s` begins with.
pub open spec fn leading_spaces(s: Seq<char>) -> nat
    decreases s.len(),
{
    if s.len() > 0 && is_space(s[0]) {
        1 + leading_spaces(s.drop_first())
    } else {
        0
    }
}

/// The number of whitespace characters that `s` ends with.
pub open spec fn trailing_spaces(s: Seq<char>) -> nat
    decreases s.len(),
{
    if s.len() > 0 && is_space(s.last()) {
        1 + trailing_spaces(s.drop_last())
    } else {
        0
    }
}

/// `s` without the whitespace at its start.
pub open spec fn trim_start(s: Seq<char>) -> Seq<char> {
    s.skip(leading_spaces(s) as int)
}

/// `s` without the whitespace at its end.
pub open spec fn trim_end(s: Seq<char>) -> Seq<char> {
    s.take(s.len() - trailing_spaces(s))
}

/// `s` without the whitespace at either end.
pub open spec fn trim(s: Seq<char>) -> Seq<char> {
    trim_end(trim_start(s))
}

pub proof fn lemma_leading_spaces(s: Seq<char>)
    ensures
        leading_spaces(s) <= s.len(),
        forall|i: int| 0 <= i < leading_spaces(s) ==> is_space(#[trigger] s[i]),
        leading_spaces(s) < s.len() ==> !is_space(s[leading_spaces(s) as int]),
    decreases s.len(),
{
    if s.len() > 0 && is_space(s[0]) {
        let t = s.drop_first();
        lemma_leading_spaces(t);
        assert forall|i: int| 0 <= i < leading_spaces(s) implies is_space(#[trigger] s[i]) by {
            if i > 0 {
                assert(s[i] == t[i - 1]);
            }
        }
        if leading_spaces(s) < s.len() {
            assert(s[leading_spaces(s) as int] == t[leading_spaces(t) as int]);
        }
    }
}

/// The leading whitespace is the longest run of whitespace from the start.
pub proof fn lemma_leading_spaces_is(s: Seq<char>, n: int)
    requires
        0 <= n <= s.len(),
        forall|i: int| 0 <= i < n ==> is_space(#[trigger] s[i]),
        n < s.len() ==> !is_space(s[n]),
    ensures
        leading_spaces(s) == n,
    decreases s.len(),
{
    if n > 0 {
        assert(is_space(s[0]));
        let t = s.drop_first();
        assert forall|i: int| 0 <= i < n - 1 implies is_space(#[trigger] t[i]) by {
            assert(t[i] == s[i + 1]);
        }
        lemma_leading_spaces_is(t, n - 1);
    }
}

pub proof fn lemma_trailing_spaces(s: Seq<char>)
    ensures
        trailing_spaces(s) <= s.len(),
        forall|i: int| s.len() - trailing_spaces(s) <= i < s.len() ==> is_space(#[trigger] s[i]),
        trailing_spaces(s) < s.len() ==> !is_space(s[s.len() - trailing_spaces(s) - 1]),
    decreases s.len(),
{
    if s.len() > 0 && is_space(s.last()) {
        let t = s.drop_last();
        lemma_trailing_spaces(t);
        assert forall|i: int| s.len() - trailing_spaces(s) <= i < s.len() implies is_space(
            #[trigger] s[i],
        ) by {
            if i < s.len() - 1 {
                assert(s[i] == t[i]);
            }
        }
        if trailing_spaces(s) < s.len() {
            assert(s[s.len() - trailing_spaces(s) - 1] == t[t.len() - trailing_spaces(t) - 1]);
        }
    }
}

/// The trailing whitespace is the longest run of whitespace up to the end.
pub proof fn lemma_trailing_spaces_is(s: Seq<char>, n: int)
    requires
        0 <= n <= s.len(),
        forall|i: int| s.len() - n <= i < s.len() ==> is_space(#[trigger] s[i]),
        n < s.len() ==> !is_space(s[s.len() - n - 1]),
    ensures
        trailing_spaces(s) == n,
    decreases s.len(),
{
    if n > 0 {
        assert(is_space(s[s.len() - 1]));
        let t = s.drop_last();
        assert forall|i: int| t.len() - (n - 1) <= i < t.len() implies is_space(#[trigger] t[i]) by {
            assert(t[i] == s[i]);
        }
        lemma_trailing_spaces_is(t, n - 1);
    }
}

/// The index of the first character of `v` at or after `from` that is not
/// whitespace, or the length of `v`.
pub fn skip_spaces(v: &Vec<char>, from: usize) -> (r: usize)
    requires
        from <= v.len(),
    ensures
        r == from + leading_spaces(v@.skip(from as int)),
        from <= r <= v.len(),
{
    let mut i: usize = from;
    while i < v.len() && is_whitespace(v[i])
        invariant
            from <= i <= v.len(),
            forall|k: int| from <= k < i ==> is_space(#[trigger] v@[k]),
        decreases v.len() - i,
    {
        i += 1;
    }
    proof {
        let t = v@.skip(from as int);
        assert forall|k: int| 0 <= k < i - from implies is_space(#[trigger] t[k]) by {
            assert(t[k] == v@[k + from]);
        }
        lemma_leading_spaces_is(t, i - from);
    }
    i
}

/// The index just after the last character of `v[..to]` that is not
/// whitespace, or zero.
pub fn skip_spaces_back(v: &Vec<char>, to: usize) -> (r: usize)
    requires
        to <= v.len(),
    ensures
        r == to - trailing_spaces(v@.take(to as int)),
        r <= to,
{
    let mut i: usize = to;
    while i > 0 && is_whitespace(v[i - 1])
        invariant
            i <= to <= v.len(),
            forall|k: int| i <= k < to ==> is_space(#[trigger] v@[k]),
        decreases i,
    {
        i -= 1;
    }
    proof {
        let t = v@.take(to as int);
        assert forall|k: int| t.len() - (to - i) <= k < t.len() implies is_space(#[trigger] t[k]) by {
            assert(t[k] == v@[k]);
        }
        lemma_trailing_spaces_is(t, to - i);
    }
    i
}

/// `v` without the whitespace at either end.
pub fn trimmed(v: &Vec<char>) -> (r: Vec<char>)
    ensures
        r@ == trim(v@),
{
    let start = skip_spaces(v, 0);
    let tail = copy_range(v, start, v.len());
    assert(v@.skip(0) == v@);
    assert(tail@ == trim_start(v@));
    let end = skip_spaces_back(&tail, tail.len());
    assert(tail@.take(tail.len() as int) == tail@);
    let r = copy_range(&tail, 0, end);
    assert(tail@.subrange(0, end as int) == tail@.take(end as int));
    r
}

// ---------------------------------------------------------------------------
// Prefixes and substring search
// ---------------------------------------------------------------------------

/// Whether `needle` stands in `hay` at index `at`.
pub open spec fn occurs_at(hay: Seq<char>, needle: Seq<char>, at: int) -> bool {
    &&& 0 <= at
    &&& at + needle.len() <= hay.len()
    &&& hay.subrange(at, at + needle.len()) == needle
}

/// Whether `s` begins with `prefix`.
pub open spec fn starts_with(s: Seq<char>, prefix: Seq<char>) -> bool {
    occurs_at(s, prefix, 0)
}

/// The first index at or after `from` at which `needle` stands in `hay`.
pub open spec fn first_occurrence(hay: Seq<char>, needle: Seq<char>, from: int) -> Option<int>
    decreases hay.len() + 1 - from,
{
    if from < 0 || from + needle.len() > hay.len() {
        None
    } else if occurs_at(hay, needle, from) {
        Some(from)
    } else {
        first_occurrence(hay, needle, from + 1)
    }
}

pub proof fn lemma_first_occurrence(hay: Seq<char>, needle: Seq<char>, from: int)
    requires
        0 <= from,
    ensures
        match first_occurrence(hay, needle, from) {
            Some(at) => from <= at && occurs_at(hay, needle, at) && forall|k: int|
                from <= k < at ==> !occurs_at(hay, needle, k),
            None => forall|k: int| from <= k ==> !occurs_at(hay, needle, k),
        },
    decreases hay.len() + 1 - from,
{
    if from + needle.len() > hay.len() {
    } else if occurs_at(hay, needle, from) {
    } else {
        lemma_first_occurrence(hay, needle, from + 1);
    }
}

/// An occurrence with nothing before it is the first one.
pub proof fn lemma_first_occurrence_is(hay: Seq<char>, needle: Seq<char>, from: int, at: int)
    requires
        0 <= from <= at,
        occurs_at(hay, needle, at),
        forall|k: int| from <= k < at ==> !occurs_at(hay, needle, k),
    ensures
        first_occurrence(hay, needle, from) == Some(at),
    decreases at - from,
{
    if from < at {
        lemma_first_occurrence_is(hay, needle, from + 1, at);
    }
}

/// Without an occurrence at or after `from` there is no first one.
pub proof fn lemma_first_occurrence_none(hay: Seq<char>, needle: Seq<char>, from: int)
    requires
        0 <= from,
        forall|k: int| from <= k ==> !occurs_at(hay, needle, k),
    ensures
        first_occurrence(hay, needle, from) is None,
    decreases hay.len() + 1 - from,
{
    if from + needle.len() <= hay.len() {
        lemma_first_occurrence_none(hay, needle, from + 1);
    }
}

/// Whether `needle` stands in `hay` at index `at`.
pub fn matches_at(hay: &Vec<char>, needle: &Vec<char>, at: usize) -> (r: bool)
    ensures
        r == occurs_at(hay@, needle@, at as int),
{
    if needle.len() > hay.len() || at > hay.len() - needle.len() {
        return false;
    }
    let mut i: usize = 0;
    while i < needle.len()
        invariant
            i <= needle.len(),
            at + needle.len() <= hay.len(),
            forall|k: int| 0 <= k < i ==> hay@[at + k] == needle@[k],
        decreases needle.len() - i,
    {
        if hay[at + i] != needle[i] {
            assert(hay@.subrange(at as int, at + needle.len())[i as int] != needle@[i as int]);
            return false;
        }
        i += 1;
    }
    assert(hay@.subrange(at as int, at + needle.len()) =~= needle@);
    true
}

/// Whether `s` begins with `prefix`.
pub fn has_prefix(s: &Vec<char>, prefix: &Vec<char>) -> (r: bool)
    ensures
        r == starts_with(s@, prefix@),
{
    matches_at(s, prefix, 0)
}

/// The first index at or after `from` at which `needle` stands in `hay`.
pub fn find_from(hay: &Vec<char>, needle: &Vec<char>, from: usize) -> (r: Option<usize>)
    ensures
        match r {
            Some(at) => first_occurrence(hay@, needle@, from as int) == Some(at as int),
            None => first_occurrence(hay@, needle@, from as int) is None,
        },
{
    if needle.len() > hay.len() || from > hay.len() - needle.len() {
        return None;
    }
    let last: usize = hay.len() - needle.len();
    let mut i: usize = from;
    loop
        invariant
            from <= i <= last,
            last == hay.len() - needle.len(),
            forall|k: int| from <= k < i ==> !occurs_at(hay@, needle@, k),
        decreases last - i,
    {
        if matches_at(hay, needle, i) {
            proof {
                lemma_first_occurrence_is(hay@, needle@, from as int, i as int);
            }
            return Some(i);
        }
        if i == last {
            proof {
                lemma_first_occurrence_none(hay@, needle@, from as int);
            }
            return None;
        }
        i += 1;
    }
}

/// Whether `needle` stands anywhere in `hay`.
pub open spec fn contains_text(hay: Seq<char>, needle: Seq<char>) -> bool {
    first_occurrence(hay, needle, 0) is Some
}

/// The index of the first `c` in `s`.
pub open spec fn index_of_char(s: Seq<char>, c: char) -> Option<int> {
    first_occurrence(s, seq![c], 0)
}

/// The index of the first `c` in `v`.
pub fn find_char(v: &Vec<char>, c: char) -> (r: Option<usize>)
    ensures
        match r {
            Some(at) => index_of_char(v@, c) == Some(at as int) && at < v.len() && v@[at as int]
                == c,
            None => index_of_char(v@, c) is None,
        },
{
    let needle: Vec<char> = vec![c];
    assert(needle@ =~= seq![c]);
    let r = find_from(v, &needle, 0);
    proof {
        lemma_first_occurrence(v@, needle@, 0);
        if let Some(at) = r {
            assert(v@.subrange(at as int, at + 1)[0] == c);
        }
    }
    r
}

// ---------------------------------------------------------------------------
// Words
// ---------------------------------------------------------------------------

/// The number of characters before the first whitespace of `s`.
pub open spec fn word_len(s: Seq<char>) -> nat
    decreases s.len(),
{
    if s.len() > 0 && !is_space(s[0]) {
        1 + word_len(s.drop_first())
    } else {
        0
    }
}

pub proof fn lemma_word_len(s: Seq<char>)
    ensures
        word_len(s) <= s.len(),
        forall|i: int| 0 <= i < word_len(s) ==> !is_space(#[trigger] s[i]),
        word_len(s) < s.len() ==> is_space(s[word_len(s) as int]),
        s.len() > 0 && !is_space(s[0]) ==> word_len(s) >= 1,
    decreases s.len(),
{
    if s.len() > 0 && !is_space(s[0]) {
        let t = s.drop_first();
        lemma_word_len(t);
        assert forall|i: int| 0 <= i < word_len(s) implies !is_space(#[trigger] s[i]) by {
            if i > 0 {
                assert(s[i] == t[i - 1]);
            }
        }
        if word_len(s) < s.len() {
            assert(s[word_len(s) as int] == t[word_len(t) as int]);
        }
    }
}

pub proof fn lemma_word_len_is(s: Seq<char>, n: int)
    requires
        0 <= n <= s.len(),
        forall|i: int| 0 <= i < n ==> !is_space(#[trigger] s[i]),
        n < s.len() ==> is_space(s[n]),
    ensures
        word_len(s) == n,
    decreases s.len(),
{
    if n > 0 {
        assert(!is_space(s[0]));
        let t = s.drop_first();
        assert forall|i: int| 0 <= i < n - 1 implies !is_space(#[trigger] t[i]) by {
            assert(t[i] == s[i + 1]);
        }
        lemma_word_len_is(t, n - 1);
    }
}

/// The number of characters after the last whitespace of `s`.
pub open spec fn trailing_word_len(s: Seq<char>) -> nat
    decreases s.len(),
{
    if s.len() > 0 && !is_space(s.last()) {
        1 + trailing_word_len(s.drop_last())
    } else {
        0
    }
}

pub proof fn lemma_trailing_word_len_is(s: Seq<char>, n: int)
    requires
        0 <= n <= s.len(),
        forall|i: int| s.len() - n <= i < s.len() ==> !is_space(#[trigger] s[i]),
        n < s.len() ==> is_space(s[s.len() - n - 1]),
    ensures
        trailing_word_len(s) == n,
    decreases s.len(),
{
    if n > 0 {
        assert(!is_space(s[s.len() - 1]));
        let t = s.drop_last();
        assert forall|i: int| t.len() - (n - 1) <= i < t.len() implies !is_space(#[trigger] t[i]) by {
            assert(t[i] == s[i]);
        }
        lemma_trailing_word_len_is(t, n - 1);
    }
}

/// The index just after the last whitespace character of `v[..to]`, or zero.
pub fn skip_word_back(v: &Vec<char>, to: usize) -> (r: usize)
    requires
        to <= v.len(),
    ensures
        r == to - trailing_word_len(v@.take(to as int)),
        r <= to,
{
    let mut i: usize = to;
    while i > 0 && !is_whitespace(v[i - 1])
        invariant
            i <= to <= v.len(),
            forall|k: int| i <= k < to ==> !is_space(#[trigger] v@[k]),
        decreases i,
    {
        i -= 1;
    }
    proof {
        let t = v@.take(to as int);
        assert forall|k: int| t.len() - (to - i) <= k < t.len() implies !is_space(#[trigger] t[k]) by {
            assert(t[k] == v@[k]);
        }
        lemma_trailing_word_len_is(t, to - i);
    }
    i
}

/// The maximal runs of characters of `s` that are not whitespace, in order.
pub open spec fn words(s: Seq<char>) -> Seq<Seq<char>>
    decreases s.len(),
    via words_decreases
{
    if s.len() == 0 {
        Seq::empty()
    } else if is_space(s[0]) {
        words(s.drop_first())
    } else {
        seq![s.take(word_len(s) as int)] + words(s.skip(word_len(s) as int))
    }
}

#[via_fn]
proof fn words_decreases(s: Seq<char>) {
    lemma_word_len(s);
}

/// Whitespace before the first word does not change the words.
pub proof fn lemma_words_skip_spaces(s: Seq<char>)
    ensures
        words(s) == words(trim_start(s)),
    decreases s.len(),
{
    if s.len() > 0 && is_space(s[0]) {
        let t = s.drop_first();
        lemma_words_skip_spaces(t);
        lemma_leading_spaces(t);
        assert(trim_start(s) == trim_start(t)) by {
            assert(s.skip(leading_spaces(s) as int) =~= t.skip(leading_spaces(t) as int));
        }
    } else {
        assert(trim_start(s) =~= s);
    }
}

/// The index of the first whitespace character of `v` at or after `from`, or
/// the length of `v`.
pub fn skip_word(v: &Vec<char>, from: usize) -> (r: usize)
    requires
        from <= v.len(),
    ensures
        r == from + word_len(v@.skip(from as int)),
        from <= r <= v.len(),
{
    let mut i: usize = from;
    while i < v.len() && !is_whitespace(v[i])
        invariant
            from <= i <= v.len(),
            forall|k: int| from <= k < i ==> !is_space(#[trigger] v@[k]),
        decreases v.len() - i,
    {
        i += 1;
    }
    proof {
        let t = v@.skip(from as int);
        assert forall|k: int| 0 <= k < i - from implies !is_space(#[trigger] t[k]) by {
            assert(t[k] == v@[k + from]);
        }
        lemma_word_len_is(t, i - from);
    }
    i
}

/// The view of a list of texts.
pub open spec fn texts(v: Seq<Vec<char>>) -> Seq<Seq<char>> {
    v.map_values(|w: Vec<char>| w@)
}

/// The words of `v`: what `split_whitespace` yields.
pub fn split_words(v: &Vec<char>) -> (r: Vec<Vec<char>>)
    ensures
        texts(r@) == words(v@),
{
    let mut out: Vec<Vec<char>> = Vec::new();
    let mut i: usize = 0;
    assert(v@.skip(0) == v@);
    assert(texts(out@) =~= Seq::<Seq<char>>::empty());
    loop
        invariant
            i <= v.len(),
            words(v@) == texts(out@) + words(v@.skip(i as int)),
        ensures
            texts(out@) == words(v@),
        decreases v.len() - i,
    {
        let start = skip_spaces(v, i);
        proof {
            let rest = v@.skip(i as int);
            lemma_words_skip_spaces(rest);
            assert(trim_start(rest) =~= v@.skip(start as int));
        }
        if start == v.len() {
            assert(v@.skip(start as int).len() == 0);
            assert(texts(out@) + Seq::<Seq<char>>::empty() =~= texts(out@));
            break;
        }
        let end = skip_word(v, start);
        let word = copy_range(v, start, end);
        proof {
            let rest = v@.skip(start as int);
            lemma_leading_spaces(v@.skip(i as int));
            assert(rest[0] == v@[start as int]);
            assert(!is_space(rest[0])) by {
                assert(v@.skip(i as int)[start - i] == v@[start as int]);
            }
            lemma_word_len(rest);
            assert(rest.take(word_len(rest) as int) =~= word@);
            assert(rest.skip(word_len(rest) as int) =~= v@.skip(end as int));
            assert(texts(out@.push(word)) =~= texts(out@) + seq![word@]);
        }
        out.push(word);
        i = end;
    }
    out
}

/// The texts of `parts` in order, with `sep` between neighbours.
pub open spec fn join(parts: Seq<Seq<char>>, sep: Seq<char>) -> Seq<char>
    decreases parts.len(),
{
    if parts.len() == 0 {
        Seq::empty()
    } else if parts.len() == 1 {
        parts[0]
    } else {
        join(parts.drop_last(), sep) + sep + parts.last()
    }
}

/// The texts `parts[from..to]` in order, with a single space between
/// neighbours.
pub fn join_with_space(parts: &Vec<Vec<char>>, from: usize, to: usize) -> (r: Vec<char>)
    requires
        from <= to <= parts.len(),
    ensures
        r@ == join(texts(parts@).subrange(from as int, to as int), seq![' ']),
{
    let ghost all = texts(parts@);
    let mut out: Vec<char> = Vec::new();
    let mut i: usize = from;
    while i < to
        invariant
            from <= i <= to <= parts.len(),
            all == texts(parts@),
            out@ == join(all.subrange(from as int, i as int), seq![' ']),
        decreases to - i,
    {
        proof {
            let next = all.subrange(from as int, i + 1);
            assert(next.drop_last() =~= all.subrange(from as int, i as int));
            assert(next.last() == parts@[i as int]@);
        }
        if i > from {
            out.push(' ');
            assert(out@ =~= join(all.subrange(from as int, i as int), seq![' ']) + seq![' ']);
        } else {
            assert(all.subrange(from as int, i as int).len() == 0);
        }
        push_all(&mut out, &parts[i]);
        i += 1;
    }
    out
}

// ---------------------------------------------------------------------------
// Decimal numbers
// ---------------------------------------------------------------------------

/// The character of a decimal digit.
pub open spec fn digit_char(d: nat) -> char {
    if d == 0 {
        '0'
    } else if d == 1 {
        '1'
    } else if d == 2 {
        '2'
    } else if d == 3 {
        '3'
    } else if d == 4 {
        '4'
    } else if d == 5 {
        '5'
    } else if d == 6 {
        '6'
    } else if d == 7 {
        '7'
    } else if d == 8 {
        '8'
    } else {
        '9'
    }
}

/// The decimal numeral of `n`, without leading zeros.
pub open spec fn decimal(n: nat) -> Seq<char>
    decreases n,
{
    if n < 10 {
        seq![digit_char(n)]
    } else {
        decimal(n / 10).push(digit_char(n % 10))
    }
}

fn digit(d: usize) -> (c: char)
    requires
        d < 10,
    ensures
        c == digit_char(d as nat),
{
    if d == 0 {
        '0'
    } else if d == 1 {
        '1'
    } else if d == 2 {
        '2'
    } else if d == 3 {
        '3'
    } else if d == 4 {
        '4'
    } else if d == 5 {
        '5'
    } else if d == 6 {
        '6'
    } else if d == 7 {
        '7'
    } else if d == 8 {
        '8'
    } else {
        '9'
    }
}

/// Appends the decimal numeral of `n` to `out`.
pub fn push_decimal(out: &mut Vec<char>, n: usize)
    ensures
        final(out)@ == old(out)@ + decimal(n as nat),
    decreases n,
{
    if n >= 10 {
        push_decimal(out, n / 10);
    }
    out.push(digit(n % 10));
    assert(out@ =~= old(out)@ + decimal(n as nat));
}

/// Appends the characters of a string to `out`.
pub fn push_str_chars(out: &mut Vec<char>, s: &str)
    ensures
        final(out)@ == old(out)@ + s@,
{
    let tail = chars_of(s);
    push_all(out, &tail);
}

// ---------------------------------------------------------------------------
// Lists of strings
// ---------------------------------------------------------------------------

/// A copy of a list of strings.
pub fn clone_strings(v: &Vec<String>) -> (r: Vec<String>)
    ensures
        r@.len() == v@.len(),
        forall|i: int| 0 <= i < v@.len() ==> (#[trigger] r@[i])@ == v@[i]@,
{
    let mut out: Vec<String> = Vec::new();
    let mut i: usize = 0;
    while i < v.len()
        invariant
            i <= v.len(),
            out@.len() == i,
            forall|k: int| 0 <= k < i ==> (#[trigger] out@[k])@ == v@[k]@,
        decreases v.len() - i,
    {
        out.push(v[i].clone());
        i += 1;
    }
    out
}

// ---------------------------------------------------------------------------
// Byte offsets
// ---------------------------------------------------------------------------

/// The number of bytes that a character takes in UTF-8.
pub open spec fn utf8_width(c: char) -> nat {
    let n = c as u32;
    if n < 0x80 {
        1
    } else if n < 0x800 {
        2
    } else if n < 0x10000 {
        3
    } else {
        4
    }
}

/// The number of characters of `s` that begin before the byte offset `byte`
/// of its UTF-8 form: the character offset that the byte offset stands for.
pub open spec fn char_offset(s: Seq<char>, byte: int) -> nat
    decreases s.len(),
{
    if s.len() == 0 || byte <= 0 {
        0
    } else {
        1 + char_offset(s.drop_first(), byte - utf8_width(s[0]))
    }
}

fn width_of(c: char) -> (w: usize)
    ensures
        w == utf8_width(c),
        1 <= w <= 4,
{
    let n: u32 = c as u32;
    if n < 0x80 {
        1
    } else if n < 0x800 {
        2
    } else if n < 0x10000 {
        3
    } else {
        4
    }
}

/// Turns a byte offset into the UTF-8 form of `v` into a character offset.
pub fn char_offset_of(v: &Vec<char>, byte: usize) -> (r: usize)
    ensures
        r == char_offset(v@, byte as int),
        r <= v.len(),
{
    let mut i: usize = 0;
    let mut left: usize = byte;
    assert(v@.skip(0) =~= v@);
    while i < v.len() && left > 0
        invariant
            i <= v.len(),
            char_offset(v@, byte as int) == i + char_offset(v@.skip(i as int), left as int),
        decreases v.len() - i,
    {
        let w = width_of(v[i]);
        proof {
            let rest = v@.skip(i as int);
            assert(rest[0] == v@[i as int]);
            assert(rest.drop_first() =~= v@.skip(i + 1));
            if w >= left {
                // The character straddles or ends at the offset: nothing follows.
                assert(char_offset(rest.drop_first(), left - w) == 0);
            }
        }
        if w >= left {
            left = 0;
        } else {
            left -= w;
        }
        i += 1;
    }
    i
}

// ---------------------------------------------------------------------------
// Replacing and splitting
// ---------------------------------------------------------------------------

/// `text` with every occurrence of `pattern` replaced by `with`, from left
/// to right, occurrences not overlapping. An empty pattern replaces
/// nothing.
pub open spec fn replaced(text: Seq<char>, pattern: Seq<char>, with: Seq<char>) -> Seq<char>
    decreases text.len(),
    via replaced_decreases
{
    if pattern.len() == 0 {
        text
    } else {
        match first_occurrence(text, pattern, 0) {
            Some(at) => text.take(at) + with + replaced(
                text.skip(at + pattern.len()),
                pattern,
                with,
            ),
            None => text,
        }
    }
}

#[via_fn]
proof fn replaced_decreases(text: Seq<char>, pattern: Seq<char>, with: Seq<char>) {
    lemma_first_occurrence(text, pattern, 0);
}

/// Replaces every occurrence of `pattern` in `text` by `with`.
pub fn replace_all(text: &Vec<char>, pattern: &Vec<char>, with: &Vec<char>) -> (r: Vec<char>)
    ensures
        r@ == replaced(text@, pattern@, with@),
{
    if pattern.len() == 0 {
        let r = copy_range(text, 0, text.len());
        assert(r@ =~= text@);
        return r;
    }
    let mut out: Vec<char> = Vec::new();
    let mut from: usize = 0;
    assert(text@.skip(0) =~= text@);
    assert(out@ + replaced(text@, pattern@, with@) =~= replaced(text@, pattern@, with@));
    loop
        invariant_except_break
            from <= text.len(),
            pattern@.len() > 0,
            out@ + replaced(text@.skip(from as int), pattern@, with@) == replaced(
                text@,
                pattern@,
                with@,
            ),
        ensures
            out@ == replaced(text@, pattern@, with@),
        decreases text.len() - from,
    {
        let ghost rest = text@.skip(from as int);
        let ghost done = out@;
        proof {
            lemma_first_occurrence(text@, pattern@, from as int);
            lemma_first_occurrence(rest, pattern@, 0);
        }
        match find_from(text, pattern, from) {
            Some(at) => {
                proof {
                    // The occurrence in the whole text is the one in the rest.
                    assert(occurs_at(rest, pattern@, at - from)) by {
                        assert(rest.subrange(at - from, at - from + pattern@.len())
                            =~= text@.subrange(at as int, at + pattern@.len()));
                    }
                    assert forall|k: int| 0 <= k < at - from implies !occurs_at(
                        rest,
                        pattern@,
                        k,
                    ) by {
                        if occurs_at(rest, pattern@, k) {
                            assert(text@.subrange(k + from, k + from + pattern@.len())
                                =~= rest.subrange(k, k + pattern@.len()));
                            assert(occurs_at(text@, pattern@, k + from));
                        }
                    }
                    lemma_first_occurrence_is(rest, pattern@, 0, at - from);
                }
                let kept = copy_range(text, from, at);
                push_all(&mut out, &kept);
                push_all(&mut out, with);
                proof {
                    assert(kept@ =~= rest.take(at - from));
                    assert(rest.skip(at - from + pattern@.len()) =~= text@.skip(
                        at + pattern@.len(),
                    ));
                    assert(out@ + replaced(text@.skip(at + pattern@.len()), pattern@, with@)
                        =~= done + replaced(rest, pattern@, with@));
                }
                from = at + pattern.len();
            },
            None => {
                proof {
                    assert forall|k: int| 0 <= k implies !occurs_at(rest, pattern@, k) by {
                        if occurs_at(rest, pattern@, k) {
                            assert(text@.subrange(k + from, k + from + pattern@.len())
                                =~= rest.subrange(k, k + pattern@.len()));
                            assert(occurs_at(text@, pattern@, k + from));
                        }
                    }
                    lemma_first_occurrence_none(rest, pattern@, 0);
                }
                let kept = copy_range(text, from, text.len());
                push_all(&mut out, &kept);
                assert(kept@ =~= rest);
                break;
            },
        }
    }
    out
}

/// Replaces every occurrence of `pattern` in `text` by `with`.
pub fn replace_text(text: &str, pattern: &str, with: &str) -> (r: String)
    ensures
        r@ == replaced(text@, pattern@, with@),
{
    string_of(&replace_all(&chars_of(text), &chars_of(pattern), &chars_of(with)))
}

/// The pieces of `s` between the occurrences of `sep`; one piece more than
/// there are separators.
pub open spec fn pieces(s: Seq<char>, sep: char) -> Seq<Seq<char>>
    decreases s.len(),
    via pieces_decreases
{
    match index_of_char(s, sep) {
        Some(at) => seq![s.take(at)] + pieces(s.skip(at + 1), sep),
        None => seq![s],
    }
}

#[via_fn]
proof fn pieces_decreases(s: Seq<char>, sep: char) {
    lemma_first_occurrence(s, seq![sep], 0);
}

/// Splits `s` at every `sep`.
pub fn split_on(s: &Vec<char>, sep: char) -> (r: Vec<Vec<char>>)
    ensures
        texts(r@) == pieces(s@, sep),
        r@.len() > 0,
{
    let mut out: Vec<Vec<char>> = Vec::new();
    let mut rest: Vec<char> = copy_range(s, 0, s.len());
    assert(rest@ =~= s@);
    assert(texts(out@) + pieces(rest@, sep) =~= pieces(s@, sep));
    loop
        invariant_except_break
            texts(out@) + pieces(rest@, sep) == pieces(s@, sep),
        ensures
            texts(out@) == pieces(s@, sep),
            out@.len() > 0,
        decreases rest.len(),
    {
        let ghost before = texts(out@);
        match find_char(&rest, sep) {
            Some(at) => {
                let piece = copy_range(&rest, 0, at);
                let next = copy_range(&rest, at + 1, rest.len());
                out.push(piece);
                proof {
                    assert(piece@ =~= rest@.take(at as int));
                    assert(next@ =~= rest@.skip(at + 1));
                    assert(texts(out@) =~= before.push(piece@));
                    assert(before.push(piece@) + pieces(next@, sep) =~= before + pieces(rest@, sep));
                }
                rest = next;
            },
            None => {
                let ghost last = rest@;
                out.push(rest);
                assert(texts(out@) =~= before.push(last));
                assert(before.push(last) =~= before + pieces(last, sep));
                break;
            },
        }
    }
    out
}

// ---------------------------------------------------------------------------
// ASCII case
// ---------------------------------------------------------------------------

/// The lowercase form of an ASCII letter; any other character as it is.
pub open spec fn ascii_lower_char(c: char) -> char {
    if 'A' <= c && c <= 'Z' {
        ((c as u8) + 32) as char
    } else {
        c
    }
}

/// `s` with its ASCII letters in lowercase.
pub open spec fn ascii_lower(s: Seq<char>) -> Seq<char> {
    s.map_values(|c: char| ascii_lower_char(c))
}

fn lower_ascii_char(c: char) -> (r: char)
    ensures
        r == ascii_lower_char(c),
{
    if 'A' <= c && c <= 'Z' {
        ((c as u8) + 32) as char
    } else {
        c
    }
}

/// Whether two texts are equal up to the case of their ASCII letters.
pub fn eq_ignore_ascii_case(a: &str, b: &str) -> (r: bool)
    ensures
        r == (ascii_lower(a@) == ascii_lower(b@)),
{
    let x = chars_of(a);
    let y = chars_of(b);
    assert(ascii_lower(a@).len() == a@.len());
    assert(ascii_lower(b@).len() == b@.len());
    if x.len() != y.len() {
        return false;
    }
    let mut i: usize = 0;
    while i < x.len()
        invariant
            i <= x.len(),
            x.len() == y.len(),
            x@ == a@,
            y@ == b@,
            forall|k: int| 0 <= k < i ==> ascii_lower(a@)[k] == ascii_lower(b@)[k],
        decreases x.len() - i,
    {
        if lower_ascii_char(x[i]) != lower_ascii_char(y[i]) {
            assert(ascii_lower(a@)[i as int] != ascii_lower(b@)[i as int]);
            return false;
        }
        i += 1;
    }
    assert(ascii_lower(a@) =~= ascii_lower(b@));
    true
}

/// The texts of `parts` in order, with `sep` between neighbours.
pub fn join_with(parts: &Vec<Vec<char>>, sep: char) -> (r: Vec<char>)
    ensures
        r@ == join(texts(parts@), seq![sep]),
{
    let ghost all = texts(parts@);
    let mut out: Vec<char> = Vec::new();
    let mut i: usize = 0;
    assert(all.take(0) =~= Seq::<Seq<char>>::empty());
    while i < parts.len()
        invariant
            i <= parts.len(),
            all == texts(parts@),
            out@ == join(all.take(i as int), seq![sep]),
        decreases parts.len() - i,
    {
        proof {
            let next = all.take(i + 1);
            assert(next.drop_last() =~= all.take(i as int));
            assert(next.last() == parts@[i as int]@);
        }
        if i > 0 {
            out.push(sep);
            assert(out@ =~= join(all.take(i as int), seq![sep]) + seq![sep]);
        }
        push_all(&mut out, &parts[i]);
        i += 1;
    }
    assert(all.take(parts.len() as int) =~= all);
    out
}

/// The texts of `parts` that are not empty, in order.
pub open spec fn non_empty(parts: Seq<Seq<char>>) -> Seq<Seq<char>>
    decreases parts.len(),
{
    if parts.len() == 0 {
        Seq::empty()
    } else {
        let prev = non_empty(parts.drop_last());
        if parts.last().len() > 0 {
            prev.push(parts.last())
        } else {
            prev
        }
    }
}

/// Drops the empty texts.
pub fn drop_empty(parts: Vec<Vec<char>>) -> (r: Vec<Vec<char>>)
    ensures
        texts(r@) == non_empty(texts(parts@)),
{
    let ghost all = texts(parts@);
    let mut out: Vec<Vec<char>> = Vec::new();
    let mut i: usize = 0;
    assert(all.take(0) =~= Seq::<Seq<char>>::empty());
    assert(texts(out@) =~= Seq::<Seq<char>>::empty());
    while i < parts.len()
        invariant
            i <= parts.len(),
            all == texts(parts@),
            texts(out@) == non_empty(all.take(i as int)),
        decreases parts.len() - i,
    {
        proof {
            assert(all.take(i + 1).drop_last() =~= all.take(i as int));
            assert(all.take(i + 1).last() == parts@[i as int]@);
        }
        if parts[i].len() > 0 {
            let ghost before = texts(out@);
            let piece = copy_range(&parts[i], 0, parts[i].len());
            assert(piece@ =~= parts@[i as int]@);
            out.push(piece);
            assert(texts(out@) =~= before.push(parts@[i as int]@));
        }
        i += 1;
    }
    assert(all.take(parts.len() as int) =~= all);
    out
}

/// The decimal numeral of an integer, with `-` before a negative one.
pub open spec fn signed_decimal(n: int) -> Seq<char> {
    if n < 0 {
        seq!['-'] + decimal((-n) as nat)
    } else {
        decimal(n as nat)
    }
}

/// The decimal numeral of `n` in at least two digits.
pub open spec fn two_digits(n: nat) -> Seq<char> {
    if n < 10 {
        seq!['0'] + decimal(n)
    } else {
        decimal(n)
    }
}

/// Appends the decimal numeral of `n` to `out`.
pub fn push_signed(out: &mut Vec<char>, n: i32)
    ensures
        final(out)@ == old(out)@ + signed_decimal(n as int),
{
    let wide: i64 = n as i64;
    if wide < 0 {
        out.push('-');
        let ghost dashed = out@;
        push_decimal(out, (-wide) as usize);
        assert(out@ =~= old(out)@ + (seq!['-'] + decimal((-n) as nat)));
    } else {
        push_decimal(out, wide as usize);
    }
}

/// Appends the decimal numeral of `n`, in at least two digits, to `out`.
pub fn push_two_digits(out: &mut Vec<char>, n: u32)
    ensures
        final(out)@ == old(out)@ + two_digits(n as nat),
{
    if n < 10 {
        out.push('0');
        push_decimal(out, n as usize);
        assert(out@ =~= old(out)@ + (seq!['0'] + decimal(n as nat)));
    } else {
        push_decimal(out, n as usize);
    }
}

// ---------------------------------------------------------------------------
// Reading numbers
// ---------------------------------------------------------------------------

/// The value of a decimal digit.
pub open spec fn digit_value(c: char) -> Option<nat> {
    if '0' <= c && c <= '9' {
        Some(((c as u8) - 48) as nat)
    } else {
        None
    }
}

/// The number that a text of decimal digits denotes; `None` for the
/// empty text and for a text that holds anything but digits.
pub open spec fn digits_value(s: Seq<char>) -> Option<nat>
    decreases s.len(),
{
    if s.len() == 0 {
        None
    } else if s.len() == 1 {
        digit_value(s[0])
    } else {
        match (digits_value(s.drop_last()), digit_value(s.last())) {
            (Some(head), Some(digit)) => Some(head * 10 + digit),
            _ => None,
        }
    }
}

/// The number that a text denotes where no sign but `+` is allowed and
/// the number may not exceed `max`: digits, with or without `+` before
/// them.
pub open spec fn unsigned_value(s: Seq<char>, max: nat) -> Option<nat> {
    let digits = if s.len() > 0 && s[0] == '+' {
        s.skip(1)
    } else {
        s
    };
    match digits_value(digits) {
        Some(v) => if v <= max {
            Some(v)
        } else {
            None
        },
        None => None,
    }
}

/// The number that a text denotes for `u32`.
pub open spec fn u32_of_text(s: Seq<char>) -> Option<u32> {
    match unsigned_value(s, u32::MAX as nat) {
        Some(v) => Some(v as u32),
        None => None,
    }
}

/// The number that a text denotes for `usize`.
pub open spec fn usize_of_text(s: Seq<char>) -> Option<usize> {
    match unsigned_value(s, usize::MAX as nat) {
        Some(v) => Some(v as usize),
        None => None,
    }
}

/// The number that a text denotes for `i32`: digits, with or without a
/// sign before them.
pub open spec fn i32_of_text(s: Seq<char>) -> Option<i32> {
    if s.len() > 0 && s[0] == '-' {
        match digits_value(s.skip(1)) {
            Some(v) => if v <= 0x8000_0000 {
                Some((-(v as int)) as i32)
            } else {
                None
            },
            None => None,
        }
    } else {
        match unsigned_value(s, i32::MAX as nat) {
            Some(v) => Some(v as i32),
            None => None,
        }
    }
}

/// Once the digits read so far exceed a bound, so does the whole number.
proof fn lemma_digits_grow(s: Seq<char>, n: int)
    requires
        0 < n <= s.len(),
        digits_value(s) is Some,
    ensures
        digits_value(s.take(n)) is Some,
        digits_value(s.take(n))->0 <= digits_value(s)->0,
    decreases s.len() - n,
{
    if n < s.len() {
        assert(s.drop_last().take(n) =~= s.take(n));
        lemma_digits_grow(s.drop_last(), n);
    } else {
        assert(s.take(n) =~= s);
    }
}

/// A text with something that is no digit denotes no number.
proof fn lemma_digits_none(s: Seq<char>, at: int)
    requires
        0 <= at < s.len(),
        digit_value(s[at]) is None,
    ensures
        digits_value(s) is None,
    decreases s.len(),
{
    if at < s.len() - 1 {
        assert(s.drop_last()[at] == s[at]);
        lemma_digits_none(s.drop_last(), at);
    }
}

/// Reads a number written in decimal digits that does not exceed `max`.
pub fn parse_digits(s: &Vec<char>, max: u64) -> (r: Option<u64>)
    ensures
        match r {
            Some(v) => digits_value(s@) == Some(v as nat) && v <= max,
            None => match digits_value(s@) {
                Some(v) => v > max,
                None => true,
            },
        },
{
    if s.len() == 0 {
        return None;
    }
    let mut value: u128 = 0;
    let mut i: usize = 0;
    while i < s.len()
        invariant
            i <= s.len(),
            value <= max,
            i > 0 ==> digits_value(s@.take(i as int)) == Some(value as nat),
            i == 0 ==> value == 0,
        decreases s.len() - i,
    {
        let c = s[i];
        if !('0' <= c && c <= '9') {
            proof {
                lemma_digits_none(s@, i as int);
            }
            return None;
        }
        let digit: u128 = ((c as u8) - 48) as u128;
        let next: u128 = value * 10 + digit;
        proof {
            assert(s@.take(i + 1).drop_last() =~= s@.take(i as int));
            assert(s@.take(i + 1).last() == c);
            if i == 0 {
                assert(s@.take(1).len() == 1);
                assert(s@.take(1)[0] == c);
            }
            assert(digits_value(s@.take(i + 1)) == Some(next as nat));
        }
        if next > max as u128 {
            proof {
                if digits_value(s@) is Some {
                    lemma_digits_grow(s@, i + 1);
                }
            }
            return None;
        }
        value = next;
        i += 1;
    }
    assert(s@.take(s.len() as int) =~= s@);
    Some(value as u64)
}

fn without_plus(s: &Vec<char>) -> (r: Vec<char>)
    ensures
        r@ == if s@.len() > 0 && s@[0] == '+' {
            s@.skip(1)
        } else {
            s@
        },
{
    if s.len() > 0 && s[0] == '+' {
        let r = copy_range(s, 1, s.len());
        assert(r@ =~= s@.skip(1));
        r
    } else {
        let r = copy_range(s, 0, s.len());
        assert(r@ =~= s@);
        r
    }
}

/// Reads a number as `str::parse::<u32>` does: decimal digits, with or
/// without `+` before them, that denote a number within the type.
pub fn parse_u32(s: &str) -> (r: Option<u32>)
    ensures
        r == u32_of_text(s@),
{
    match parse_digits(&without_plus(&chars_of(s)), 0xffff_ffff) {
        Some(v) => Some(v as u32),
        None => None,
    }
}

/// Reads a number as `str::parse::<usize>` does.
pub fn parse_usize(s: &str) -> (r: Option<usize>)
    ensures
        r == usize_of_text(s@),
{
    match parse_digits(&without_plus(&chars_of(s)), usize::MAX as u64) {
        Some(v) => Some(v as usize),
        None => None,
    }
}

/// Reads a number as `str::parse::<i32>` does: decimal digits, with or
/// without a sign before them, that denote a number within the type.
pub fn parse_i32(s: &str) -> (r: Option<i32>)
    ensures
        r == i32_of_text(s@),
{
    let chars = chars_of(s);
    if chars.len() > 0 && chars[0] == '-' {
        let digits = copy_range(&chars, 1, chars.len());
        assert(digits@ =~= s@.skip(1));
        match parse_digits(&digits, 0x8000_0000) {
            Some(v) => Some((-(v as i64)) as i32),
            None => None,
        }
    } else {
        match parse_digits(&without_plus(&chars), 0x7fff_ffff) {
            Some(v) => Some(v as i32),
            None => None,
        }
    }
}

} // verus!
