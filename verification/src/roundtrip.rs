//! A task line that is written and read again yields the task it was
//! written from.

use crate::markdown::{markdown_spans, EventModel, SpanModel};
use crate::task::{
    after_priority, after_urgency, annotated_text, dedup, has_checkbox, is_tag_word, item_scan,
    item_task, leading_priority, leading_urgency, lemma_tag_start_is, note_tasks, note_tasks_of,
    tag_of_word, tag_start, tags_suffix, text_before_tags, trailing_tags, urgency_and_priority,
    ItemTask, TaskStatus, TaskView,
};
use crate::text::{
    index_of_char, is_space, join, leading_spaces, lemma_first_occurrence,
    lemma_first_occurrence_is, lemma_leading_spaces, lemma_leading_spaces_is,
    lemma_trailing_spaces, lemma_trailing_spaces_is, lemma_word_len, lemma_word_len_is,
    lemma_words_skip_spaces, lowercase, occurs_at, starts_with, trailing_spaces, trim, trim_end,
    trim_start, word_len, words,
};
use vstd::prelude::*;

verus! {

// ---------------------------------------------------------------------------
// Words of texts put together
// ---------------------------------------------------------------------------

/// A word: not empty, and without whitespace.
pub open spec fn is_plain_word(w: Seq<char>) -> bool {
    w.len() > 0 && forall|i: int| 0 <= i < w.len() ==> !is_space(#[trigger] w[i])
}

/// A text that is all whitespace has no words.
pub proof fn lemma_words_of_spaces(s: Seq<char>)
    requires
        forall|i: int| 0 <= i < s.len() ==> is_space(#[trigger] s[i]),
    ensures
        words(s) == Seq::<Seq<char>>::empty(),
    decreases s.len(),
{
    if s.len() > 0 {
        assert(is_space(s[0]));
        let t = s.drop_first();
        assert forall|i: int| 0 <= i < t.len() implies is_space(#[trigger] t[i]) by {
            assert(t[i] == s[i + 1]);
        }
        lemma_words_of_spaces(t);
    }
}

/// A word followed by whitespace or nothing is the first word of a text.
pub proof fn lemma_words_first(w: Seq<char>, rest: Seq<char>)
    requires
        is_plain_word(w),
        rest.len() == 0 || is_space(rest[0]),
    ensures
        words(w + rest) == seq![w] + words(rest),
{
    let s = w + rest;
    assert forall|i: int| 0 <= i < w.len() implies !is_space(#[trigger] s[i]) by {
        assert(s[i] == w[i]);
    }
    if w.len() < s.len() {
        assert(s[w.len() as int] == rest[0]);
    }
    lemma_word_len_is(s, w.len() as int);
    assert(s.take(w.len() as int) =~= w);
    assert(s.skip(w.len() as int) =~= rest);
    assert(!is_space(s[0]));
}

/// Whitespace in front does not change the words.
pub proof fn lemma_words_after_spaces(spaces: Seq<char>, rest: Seq<char>)
    requires
        forall|i: int| 0 <= i < spaces.len() ==> is_space(#[trigger] spaces[i]),
    ensures
        words(spaces + rest) == words(rest),
    decreases spaces.len(),
{
    if spaces.len() > 0 {
        let s = spaces + rest;
        assert(s[0] == spaces[0]);
        assert(is_space(s[0]));
        let t = spaces.drop_first();
        assert(s.drop_first() =~= t + rest);
        assert forall|i: int| 0 <= i < t.len() implies is_space(#[trigger] t[i]) by {
            assert(t[i] == spaces[i + 1]);
        }
        lemma_words_after_spaces(t, rest);
    } else {
        assert(spaces + rest =~= rest);
    }
}

/// The words of two texts put together are the words of the one and the
/// words of the other, where whitespace parts them.
pub proof fn lemma_words_concat(a: Seq<char>, b: Seq<char>)
    requires
        a.len() == 0 || b.len() == 0 || is_space(a.last()) || is_space(b[0]),
    ensures
        words(a + b) == words(a) + words(b),
    decreases a.len(),
{
    if a.len() == 0 {
        assert(a + b =~= b);
        assert(words(a) + words(b) =~= words(b));
    } else if b.len() == 0 {
        assert(a + b =~= a);
        assert(words(a) + words(b) =~= words(a));
    } else if is_space(a[0]) {
        let t = a.drop_first();
        assert((a + b)[0] == a[0]);
        assert((a + b).drop_first() =~= t + b);
        if t.len() > 0 {
            assert(t.last() == a.last());
        }
        lemma_words_concat(t, b);
    } else {
        // `a` begins with a word.
        lemma_word_len(a);
        let n = word_len(a) as int;
        let w = a.take(n);
        let rest = a.skip(n);
        assert(a =~= w + rest);
        assert(is_plain_word(w)) by {
            assert forall|i: int| 0 <= i < w.len() implies !is_space(#[trigger] w[i]) by {
                assert(w[i] == a[i]);
            }
        }
        if rest.len() > 0 {
            assert(rest[0] == a[n]);
            assert(rest.last() == a.last());
        }
        // The word ends where `a` ends only if `b` begins with whitespace.
        if rest.len() == 0 {
            assert(a.last() == a[n - 1]);
            assert(!is_space(a.last()));
            assert(is_space(b[0]));
        }
        let tail = rest + b;
        assert(tail.len() == 0 || is_space(tail[0])) by {
            if rest.len() > 0 {
                assert(tail[0] == rest[0]);
            } else {
                assert(tail[0] == b[0]);
            }
        }
        assert(a + b =~= w + tail);
        lemma_words_first(w, tail);
        lemma_words_first(w, rest);
        lemma_words_concat(rest, b);
        assert(seq![w] + (words(rest) + words(b)) =~= (seq![w] + words(rest)) + words(b));
    }
}

/// A word alone is the one word of its text.
pub proof fn lemma_words_of_word(w: Seq<char>)
    requires
        is_plain_word(w),
    ensures
        words(w) == seq![w],
{
    lemma_words_first(w, Seq::empty());
    assert(w + Seq::<char>::empty() =~= w);
    assert(seq![w] + words(Seq::<char>::empty()) =~= seq![w]);
}

/// Words joined by single spaces are the words of the text that they make.
pub proof fn lemma_words_of_join(ws: Seq<Seq<char>>)
    requires
        forall|i: int| 0 <= i < ws.len() ==> is_plain_word(#[trigger] ws[i]),
    ensures
        words(join(ws, seq![' '])) == ws,
    decreases ws.len(),
{
    if ws.len() == 0 {
        assert(words(Seq::<char>::empty()) =~= ws);
    } else if ws.len() == 1 {
        lemma_words_of_word(ws[0]);
        assert(seq![ws[0]] =~= ws);
    } else {
        let head = ws.drop_last();
        assert forall|i: int| 0 <= i < head.len() implies is_plain_word(#[trigger] head[i]) by {
            assert(head[i] == ws[i]);
        }
        lemma_words_of_join(head);
        let a = join(head, seq![' ']) + seq![' '];
        assert(a.last() == ' ');
        lemma_words_concat(join(head, seq![' ']), seq![' ']);
        lemma_words_of_spaces(seq![' ']);
        lemma_words_concat(a, ws.last());
        lemma_words_of_word(ws.last());
        assert(head + Seq::<Seq<char>>::empty() + seq![ws.last()] =~= ws);
    }
}

/// The word of a tag: `@` and its name.
pub open spec fn tag_word(tag: Seq<char>) -> Seq<char> {
    seq!['@'] + tag
}

/// The words of a list of tags.
pub open spec fn tag_words(tags: Seq<Seq<char>>) -> Seq<Seq<char>> {
    tags.map_values(|t: Seq<char>| tag_word(t))
}

/// Whether a text holds no whitespace.
pub open spec fn has_no_space(t: Seq<char>) -> bool {
    forall|i: int| 0 <= i < t.len() ==> !is_space(#[trigger] t[i])
}

/// The words of a text with tags behind it are the words of the text and
/// the words of the tags.
pub proof fn lemma_words_with_tags(text: Seq<char>, tags: Seq<Seq<char>>)
    requires
        forall|i: int| 0 <= i < tags.len() ==> has_no_space(#[trigger] tags[i]),
    ensures
        words(text + tags_suffix(tags)) == words(text) + tag_words(tags),
    decreases tags.len(),
{
    if tags.len() == 0 {
        assert(text + tags_suffix(tags) =~= text);
        assert(words(text) + tag_words(tags) =~= words(text));
    } else {
        let head = tags.drop_last();
        let last = tags.last();
        assert forall|i: int| 0 <= i < head.len() implies has_no_space(#[trigger] head[i]) by {
            assert(head[i] == tags[i]);
        }
        lemma_words_with_tags(text, head);
        let before = text + tags_suffix(head);
        let spaced = before + seq![' '];
        let word = tag_word(last);
        assert(is_plain_word(word)) by {
            assert forall|i: int| 0 <= i < word.len() implies !is_space(#[trigger] word[i]) by {
                if i > 0 {
                    assert(word[i] == last[i - 1]);
                }
            }
        }
        assert(text + tags_suffix(tags) =~= spaced + word);
        assert(spaced.last() == ' ');
        lemma_words_concat(spaced, word);
        lemma_words_concat(before, seq![' ']);
        lemma_words_of_spaces(seq![' ']);
        lemma_words_of_word(word);
        assert(words(text) + tag_words(head) + Seq::<Seq<char>>::empty() + seq![word] =~= words(
            text,
        ) + tag_words(tags));
    }
}

/// Whitespace at the end does not change the words.
pub proof fn lemma_words_trim_end(s: Seq<char>)
    ensures
        words(trim_end(s)) == words(s),
{
    lemma_trailing_spaces(s);
    let n = s.len() - trailing_spaces(s);
    let core = s.take(n);
    let tail = s.skip(n);
    assert(s =~= core + tail);
    assert forall|i: int| 0 <= i < tail.len() implies is_space(#[trigger] tail[i]) by {
        assert(tail[i] == s[n + i]);
    }
    lemma_words_of_spaces(tail);
    if tail.len() > 0 && core.len() > 0 {
        assert(is_space(tail[0]));
    }
    lemma_words_concat(core, tail);
    assert(words(core) + Seq::<Seq<char>>::empty() =~= words(core));
}

/// Whitespace at either end does not change the words.
pub proof fn lemma_words_trim(s: Seq<char>)
    ensures
        words(trim(s)) == words(s),
{
    lemma_words_skip_spaces(s);
    lemma_words_trim_end(trim_start(s));
}

/// Cutting whitespace off the end does not change the words.
pub proof fn lemma_words_without_tail(x: Seq<char>, tail: Seq<char>)
    requires
        forall|i: int| 0 <= i < tail.len() ==> is_space(#[trigger] tail[i]),
    ensures
        words(x + tail) == words(x),
{
    lemma_words_of_spaces(tail);
    if tail.len() > 0 {
        assert(is_space(tail[0]));
    }
    lemma_words_concat(x, tail);
    assert(words(x) + Seq::<Seq<char>>::empty() =~= words(x));
}

/// A text that begins with a character that is no whitespace begins with
/// its first word.
pub proof fn lemma_first_word(s: Seq<char>)
    requires
        s.len() > 0,
        !is_space(s[0]),
    ensures
        words(s).len() > 0,
        words(s)[0] == s.take(word_len(s) as int),
        word_len(s) >= 1,
        words(s)[0][0] == s[0],
{
    lemma_word_len(s);
}

/// A text with a character that is no whitespace has a word.
pub proof fn lemma_has_word(s: Seq<char>, k: int)
    requires
        0 <= k < s.len(),
        !is_space(s[k]),
    ensures
        words(s).len() > 0,
    decreases s.len(),
{
    if is_space(s[0]) {
        let t = s.drop_first();
        assert(t[k - 1] == s[k]);
        lemma_has_word(t, k - 1);
    } else {
        lemma_first_word(s);
    }
}

/// The whitespace at the end of a text ends before any character that is
/// no whitespace.
pub proof fn lemma_trailing_spaces_bound(s: Seq<char>, k: int)
    requires
        0 <= k < s.len(),
        !is_space(s[k]),
    ensures
        trailing_spaces(s) <= s.len() - k - 1,
{
    lemma_trailing_spaces(s);
}

/// Where a single character stands.
pub proof fn lemma_char_occurs(s: Seq<char>, c: char, k: int)
    ensures
        occurs_at(s, seq![c], k) <==> (0 <= k < s.len() && s[k] == c),
{
    if 0 <= k < s.len() {
        assert(s.subrange(k, k + 1)[0] == s[k]);
        if s[k] == c {
            assert(s.subrange(k, k + 1) =~= seq![c]);
        }
    }
}

/// A text without a character holds it nowhere.
pub proof fn lemma_char_absent(s: Seq<char>, c: char)
    ensures
        index_of_char(s, c) is None <==> forall|k: int| 0 <= k < s.len() ==> s[k] != c,
{
    lemma_first_occurrence(s, seq![c], 0);
    if index_of_char(s, c) is None {
        assert forall|k: int| 0 <= k < s.len() implies s[k] != c by {
            lemma_char_occurs(s, c, k);
        }
    } else {
        let at = index_of_char(s, c)->0;
        lemma_char_occurs(s, c, at);
    }
}

/// The first occurrence of a character is where it stands with none
/// before it.
pub proof fn lemma_index_of_char_is(s: Seq<char>, c: char, at: int)
    requires
        0 <= at < s.len(),
        s[at] == c,
        forall|k: int| 0 <= k < at ==> s[k] != c,
    ensures
        index_of_char(s, c) == Some(at),
{
    lemma_char_occurs(s, c, at);
    assert forall|k: int| 0 <= k < at implies !occurs_at(s, seq![c], k) by {
        lemma_char_occurs(s, c, k);
    }
    lemma_first_occurrence_is(s, seq![c], 0, at);
}

/// Joined words begin with the first word.
pub proof fn lemma_join_first(ws: Seq<Seq<char>>)
    requires
        ws.len() > 0,
        ws[0].len() > 0,
    ensures
        join(ws, seq![' ']).len() > 0,
        join(ws, seq![' '])[0] == ws[0][0],
    decreases ws.len(),
{
    if ws.len() > 1 {
        let head = ws.drop_last();
        assert(head[0] == ws[0]);
        lemma_join_first(head);
    }
}

/// Tags behind a text begin with a space.
pub proof fn lemma_tags_suffix_first(tags: Seq<Seq<char>>)
    requires
        tags.len() > 0,
    ensures
        tags_suffix(tags).len() >= 2,
        tags_suffix(tags)[0] == ' ',
        tags_suffix(tags)[1] == '@',
    decreases tags.len(),
{
    if tags.len() > 1 {
        lemma_tags_suffix_first(tags.drop_last());
    } else {
        assert(tags.drop_last().len() == 0);
        assert(tags_suffix(tags.drop_last()) =~= Seq::<char>::empty());
    }
}

/// The tags that the words of a text name, where the text ends in the
/// words of given tags and what stands before them is no tag.
pub proof fn lemma_tags_read_back(s: Seq<char>, ws: Seq<Seq<char>>, tags: Seq<Seq<char>>)
    requires
        words(s) == ws + tag_words(tags),
        ws.len() > 0 ==> !is_tag_word(ws.last()),
        dedup(tags.map_values(|t: Seq<char>| lowercase(t))) == tags,
    ensures
        trailing_tags(s) == tags,
        text_before_tags(s) == join(ws, seq![' ']),
{
    lemma_words_trim(s);
    let all = ws + tag_words(tags);
    assert forall|i: int| ws.len() <= i < all.len() implies is_tag_word(#[trigger] all[i]) by {
        assert(all[i] == tag_word(tags[i - ws.len()]));
        assert(all[i][0] == '@');
    }
    if ws.len() > 0 {
        assert(all[ws.len() - 1] == ws.last());
    }
    lemma_tag_start_is(all, ws.len() as int);
    assert(all.take(ws.len() as int) =~= ws);
    assert(all.skip(ws.len() as int).map_values(|w: Seq<char>| tag_of_word(w)) =~= tags.map_values(
        |t: Seq<char>| lowercase(t),
    )) by {
        assert forall|i: int| 0 <= i < tags.len() implies tag_of_word(
            #[trigger] all.skip(ws.len() as int)[i],
        ) == lowercase(tags[i]) by {
            assert(all.skip(ws.len() as int)[i] == tag_word(tags[i]));
            assert(tag_word(tags[i]).skip(1) =~= tags[i]);
        }
    }
}

// ---------------------------------------------------------------------------
// Urgency and priority read back
// ---------------------------------------------------------------------------

/// Whether a text is one of the three urgencies.
pub open spec fn is_urgency(u: Seq<char>) -> bool {
    u == seq!['!', '!', '!'] || u == seq!['!', '!'] || u == seq!['!']
}

/// The text and tags of a task as a task line shows them.
pub open spec fn task_body(ws: Seq<Seq<char>>, tags: Seq<Seq<char>>) -> Seq<char> {
    join(ws, seq![' ']) + tags_suffix(tags)
}

/// What a trimmed text is: it begins and ends with characters that are no
/// whitespace, and it is a part of the text it was made from.
pub proof fn lemma_trim_shape(s: Seq<char>)
    ensures
        trim(s).len() > 0 ==> !is_space(trim(s)[0]) && !is_space(trim(s).last()),
        trim(s) == s.subrange(
            leading_spaces(s) as int,
            s.len() - trailing_spaces(trim_start(s)),
        ),
        leading_spaces(s) <= s.len() - trailing_spaces(trim_start(s)) <= s.len(),
{
    lemma_leading_spaces(s);
    let t = trim_start(s);
    lemma_trailing_spaces(t);
    assert(trim(s) =~= s.subrange(leading_spaces(s) as int, s.len() - trailing_spaces(t)));
    if trim(s).len() > 0 {
        assert(trim(s)[0] == s[leading_spaces(s) as int]);
        assert(trim(s).last() == t[t.len() - trailing_spaces(t) - 1]);
    }
}

/// A text that begins with a character that is no whitespace is trimmed
/// at its end only.
pub proof fn lemma_trim_of_started(s: Seq<char>)
    requires
        s.len() > 0,
        !is_space(s[0]),
    ensures
        trim(s) == s.take(s.len() - trailing_spaces(s)),
{
    lemma_leading_spaces_is(s, 0);
    assert(trim_start(s) =~= s);
}

/// A trimmed text that begins with an urgency and a space has the urgency
/// as its first word, and a second word.
proof fn lemma_urgency_is_first_word(t: Seq<char>, token: Seq<char>)
    requires
        is_urgency(token),
        starts_with(t, token + seq![' ']),
        t.len() > 0 ==> !is_space(t.last()),
    ensures
        words(t).len() >= 2,
        words(t)[0] == token,
{
    let n = token.len() as int;
    let prefix = token + seq![' '];
    assert(t.subrange(0, n + 1) == prefix);
    assert forall|i: int| 0 <= i < n implies !is_space(#[trigger] t[i]) by {
        assert(t[i] == t.subrange(0, n + 1)[i]);
        assert(prefix[i] == token[i]);
        assert(token[i] == '!');
    }
    assert(t[n] == t.subrange(0, n + 1)[n]);
    assert(prefix[n] == ' ');
    lemma_word_len_is(t, n);
    assert(t.take(n) =~= token) by {
        assert forall|i: int| 0 <= i < n implies t.take(n)[i] == token[i] by {
            assert(t[i] == t.subrange(0, n + 1)[i]);
            assert(prefix[i] == token[i]);
        }
    }
    let rest = t.skip(n);
    assert(rest.last() == t.last());
    lemma_has_word(rest, rest.len() - 1);
}

/// The three ways in which a text can begin with an urgency.
proof fn lemma_leading_urgency_some(t: Seq<char>)
    ensures
        leading_urgency(t) is Some ==> is_urgency(leading_urgency(t)->0) && starts_with(
            t,
            leading_urgency(t)->0 + seq![' '],
        ),
{
    assert(seq!['!', '!', '!'] + seq![' '] =~= seq!['!', '!', '!', ' ']);
    assert(seq!['!', '!'] + seq![' '] =~= seq!['!', '!', ' ']);
    assert(seq!['!'] + seq![' '] =~= seq!['!', ' ']);
}

/// A text that begins with an urgency, a space and more has that urgency.
proof fn lemma_leading_urgency_is(t: Seq<char>, token: Seq<char>)
    requires
        is_urgency(token),
        starts_with(t, token + seq![' ']),
    ensures
        leading_urgency(t) == Some(token),
        after_urgency(t) == t.skip(token.len() as int + 1),
{
    let n = token.len() as int;
    let prefix = token + seq![' '];
    assert(t.subrange(0, n + 1) == prefix);
    assert(t[n] == t.subrange(0, n + 1)[n]);
    assert(prefix[n] == ' ');
    assert(seq!['!', '!', '!'] + seq![' '] =~= seq!['!', '!', '!', ' ']);
    assert(seq!['!', '!'] + seq![' '] =~= seq!['!', '!', ' ']);
    assert(seq!['!'] + seq![' '] =~= seq!['!', ' ']);
    if token == seq!['!', '!'] {
        if starts_with(t, seq!['!', '!', '!', ' ']) {
            assert(t.subrange(0, 4)[2] == t[2]);
        }
    }
    if token == seq!['!'] {
        if starts_with(t, seq!['!', '!', '!', ' ']) {
            assert(t.subrange(0, 4)[1] == t[1]);
        }
        if starts_with(t, seq!['!', '!', ' ']) {
            assert(t.subrange(0, 3)[1] == t[1]);
        }
    }
}

/// A text that does not begin with `!` has no urgency.
proof fn lemma_no_urgency(t: Seq<char>)
    requires
        t.len() == 0 || t[0] != '!',
    ensures
        leading_urgency(t) is None,
        after_urgency(t) == t,
{
    if starts_with(t, seq!['!', '!', '!', ' ']) {
        assert(t.subrange(0, 4)[0] == t[0]);
    }
    if starts_with(t, seq!['!', '!', ' ']) {
        assert(t.subrange(0, 3)[0] == t[0]);
    }
    if starts_with(t, seq!['!', ' ']) {
        assert(t.subrange(0, 2)[0] == t[0]);
    }
}

/// A priority in its parentheses, with what follows it.
pub open spec fn priority_line(priority: Seq<char>, body: Seq<char>) -> Seq<char> {
    seq!['('] + priority + seq![')', ' '] + body
}

/// A priority in parentheses is read back, and what follows it keeps its
/// words. `r` is the line from the parenthesis on, cut somewhere behind the
/// parentheses.
proof fn lemma_priority_read_back(r: Seq<char>, priority: Seq<char>, body: Seq<char>, cut: int)
    requires
        index_of_char(priority, ')') is None,
        trim(priority).len() > 0,
        priority.len() + 2 <= cut <= priority_line(priority, body).len(),
        r == priority_line(priority, body).take(cut),
        forall|i: int|
            cut <= i < priority_line(priority, body).len() ==> is_space(
                #[trigger] priority_line(priority, body)[i],
            ),
    ensures
        leading_priority(r) == Some(priority),
        words(after_priority(r)) == words(body),
{
    let whole = priority_line(priority, body);
    let n = priority.len() as int;
    assert(r[0] == whole[0]);
    assert(whole[0] == '(');
    assert(r[n + 1] == whole[n + 1]);
    assert(whole[n + 1] == ')');
    lemma_char_absent(priority, ')');
    assert forall|k: int| 0 <= k < n + 1 implies r[k] != ')' by {
        assert(r[k] == whole[k]);
        if k > 0 {
            assert(whole[k] == priority[k - 1]);
        }
    }
    lemma_index_of_char_is(r, ')', n + 1);
    assert(r.subrange(1, n + 1) =~= priority);
    // What follows the parentheses is a space and the body, less some
    // whitespace at the end.
    let after = r.skip(n + 2);
    let spaced = seq![' '] + body;
    let tail = whole.skip(cut);
    assert(spaced =~= after + tail);
    assert forall|i: int| 0 <= i < tail.len() implies is_space(#[trigger] tail[i]) by {
        assert(tail[i] == whole[cut + i]);
    }
    lemma_words_without_tail(after, tail);
    lemma_words_after_spaces(seq![' '], body);
    lemma_words_trim(after);
}

/// Where a text does not open with a parenthesis that is closed later on,
/// no priority is read.
proof fn lemma_no_priority(r: Seq<char>)
    requires
        r.len() == 0 || r[0] != '(' || index_of_char(r, ')') is None,
    ensures
        leading_priority(r) is None,
        after_priority(r) == r,
{
}

/// A part of a text without a character is without it.
proof fn lemma_char_absent_in_part(s: Seq<char>, c: char, from: int, to: int)
    requires
        index_of_char(s, c) is None,
        0 <= from <= to <= s.len(),
    ensures
        index_of_char(s.subrange(from, to), c) is None,
{
    lemma_char_absent(s, c);
    lemma_char_absent(s.subrange(from, to), c);
    assert forall|k: int| 0 <= k < to - from implies s.subrange(from, to)[k] != c by {
        assert(s.subrange(from, to)[k] == s[from + k]);
    }
}

/// Whether a task that is written as a task line is read back as it was:
/// the conditions under which nothing of the line is taken for something
/// else.
///
/// The text is given by its words. The urgency is one of the three; the
/// priority holds no `)` and is not blank; the last word of the text is no
/// tag; the tags hold no whitespace and are what lowercasing and dropping
/// repetitions leaves of them; an urgency without a priority is followed by
/// text or tags; a text that begins with an urgency is not taken for one
/// (it is that one word, without tags, or a priority stands before it or
/// an urgency); and a text that begins with `(` holds no `)`, nor do its
/// tags, unless a priority stands before it.
pub open spec fn reads_back(
    urgency: Option<Seq<char>>,
    priority: Option<Seq<char>>,
    ws: Seq<Seq<char>>,
    tags: Seq<Seq<char>>,
) -> bool {
    &&& urgency is Some ==> is_urgency(urgency->0)
    &&& priority is Some ==> index_of_char(priority->0, ')') is None && trim(priority->0).len() > 0
    &&& forall|i: int| 0 <= i < ws.len() ==> is_plain_word(#[trigger] ws[i])
    &&& ws.len() > 0 ==> !is_tag_word(ws.last())
    &&& forall|i: int| 0 <= i < tags.len() ==> has_no_space(#[trigger] tags[i])
    &&& dedup(tags.map_values(|t: Seq<char>| lowercase(t))) == tags
    &&& urgency is Some && priority is None ==> ws.len() > 0 || tags.len() > 0
    &&& urgency is None && priority is None && ws.len() > 0 && is_urgency(ws[0]) ==> ws.len() == 1
        && tags.len() == 0
    &&& priority is None && ws.len() > 0 && ws[0][0] == '(' ==> index_of_char(
        task_body(ws, tags),
        ')',
    ) is None
}

/// The body of a task line has the words of the text and the words of the
/// tags; it begins with the first word, or with the space before the first
/// tag.
proof fn lemma_task_body(ws: Seq<Seq<char>>, tags: Seq<Seq<char>>)
    requires
        forall|i: int| 0 <= i < ws.len() ==> is_plain_word(#[trigger] ws[i]),
        forall|i: int| 0 <= i < tags.len() ==> has_no_space(#[trigger] tags[i]),
    ensures
        words(task_body(ws, tags)) == ws + tag_words(tags),
        ws.len() > 0 ==> task_body(ws, tags).len() > 0 && task_body(ws, tags)[0] == ws[0][0],
        ws.len() == 0 && tags.len() > 0 ==> task_body(ws, tags).len() >= 2 && task_body(
            ws,
            tags,
        )[0] == ' ' && task_body(ws, tags)[1] == '@',
        ws.len() == 0 && tags.len() == 0 ==> task_body(ws, tags).len() == 0,
{
    lemma_words_of_join(ws);
    lemma_words_with_tags(join(ws, seq![' ']), tags);
    if ws.len() > 0 {
        lemma_join_first(ws);
        assert(task_body(ws, tags)[0] == join(ws, seq![' '])[0]);
    } else {
        assert(join(ws, seq![' ']) =~= Seq::<char>::empty());
        assert(task_body(ws, tags) =~= tags_suffix(tags));
        if tags.len() > 0 {
            lemma_tags_suffix_first(tags);
        }
    }
}

/// The line of a task without urgency and priority is read back.
proof fn lemma_plain_read_back(ws: Seq<Seq<char>>, tags: Seq<Seq<char>>)
    requires
        reads_back(None, None, ws, tags),
    ensures
        urgency_and_priority(task_body(ws, tags)).0 is None,
        urgency_and_priority(task_body(ws, tags)).1 is None,
        words(urgency_and_priority(task_body(ws, tags)).2) == ws + tag_words(tags),
{
    let body = task_body(ws, tags);
    let all = ws + tag_words(tags);
    lemma_task_body(ws, tags);
    let t = trim(body);
    lemma_words_trim(body);
    lemma_trim_shape(body);
    if t.len() > 0 {
        lemma_first_word(t);
        // No urgency: it would be the first word, with a second one.
        if leading_urgency(t) is Some {
            lemma_leading_urgency_some(t);
            let token = leading_urgency(t)->0;
            lemma_urgency_is_first_word(t, token);
            if ws.len() > 0 {
                assert(all[0] == ws[0]);
                assert(all.len() == 1);
            } else {
                assert(all[0] == tag_word(tags[0]));
                assert(all[0][0] == '@');
                assert(token[0] == '!');
            }
            assert(false);
        }
        // No priority: the parenthesis would open the first word.
        if t[0] == '(' {
            if ws.len() > 0 {
                assert(all[0] == ws[0]);
                let from = leading_spaces(body) as int;
                let to = body.len() - trailing_spaces(trim_start(body));
                lemma_char_absent_in_part(body, ')', from, to);
            } else {
                assert(all[0] == tag_word(tags[0]));
                assert(all[0][0] == '@');
                assert(false);
            }
        }
        lemma_no_priority(t);
    } else {
        lemma_no_urgency(t);
        lemma_no_priority(t);
    }
}

/// The line of a task with a priority and without urgency is read back.
proof fn lemma_priority_line_read_back(
    priority: Seq<char>,
    ws: Seq<Seq<char>>,
    tags: Seq<Seq<char>>,
)
    requires
        reads_back(None, Some(priority), ws, tags),
    ensures
        urgency_and_priority(priority_line(priority, task_body(ws, tags))).0 is None,
        urgency_and_priority(priority_line(priority, task_body(ws, tags))).1 == Some(priority),
        words(urgency_and_priority(priority_line(priority, task_body(ws, tags))).2) == ws
            + tag_words(tags),
{
    let body = task_body(ws, tags);
    let line = priority_line(priority, body);
    lemma_task_body(ws, tags);
    assert(line[0] == '(');
    lemma_trim_of_started(line);
    let cut = line.len() - trailing_spaces(line);
    let t = trim(line);
    assert(line[priority.len() as int + 1] == ')');
    lemma_trailing_spaces_bound(line, priority.len() as int + 1);
    lemma_trailing_spaces(line);
    assert(t[0] == line[0]);
    lemma_no_urgency(t);
    lemma_priority_read_back(t, priority, body, cut);
}

/// A line that begins with an urgency, a space and more is read with that
/// urgency; what follows is the rest of the line, less the whitespace at
/// its end.
proof fn lemma_urgency_read_back(token: Seq<char>, rest: Seq<char>, mark: int)
    requires
        is_urgency(token),
        0 <= mark < rest.len(),
        !is_space(rest[mark]),
    ensures
        leading_urgency(trim(token + seq![' '] + rest)) == Some(token),
        after_urgency(trim(token + seq![' '] + rest)) == rest.take(
            rest.len() - trailing_spaces(token + seq![' '] + rest),
        ),
        mark < rest.len() - trailing_spaces(token + seq![' '] + rest) <= rest.len(),
        forall|i: int|
            rest.len() - trailing_spaces(token + seq![' '] + rest) <= i < rest.len() ==> is_space(
                #[trigger] rest[i],
            ),
{
    let line = token + seq![' '] + rest;
    let k = token.len() as int + 1;
    assert(line[0] == token[0]);
    assert(token[0] == '!');
    lemma_trim_of_started(line);
    lemma_trailing_spaces(line);
    let cut = line.len() - trailing_spaces(line);
    let t = trim(line);
    assert(line[k + mark] == rest[mark]);
    lemma_trailing_spaces_bound(line, k + mark);
    assert(t.subrange(0, k) =~= token + seq![' ']);
    lemma_leading_urgency_is(t, token);
    assert(t.skip(k) =~= rest.take(cut - k));
    assert forall|i: int| cut - k <= i < rest.len() implies is_space(#[trigger] rest[i]) by {
        assert(rest[i] == line[k + i]);
    }
}

/// The line of a task with an urgency and a priority is read back.
proof fn lemma_urgent_priority_read_back(
    token: Seq<char>,
    p: Seq<char>,
    ws: Seq<Seq<char>>,
    tags: Seq<Seq<char>>,
)
    requires
        reads_back(Some(token), Some(p), ws, tags),
    ensures
        urgency_and_priority(token + seq![' '] + priority_line(p, task_body(ws, tags))).0 == Some(
            token,
        ),
        urgency_and_priority(token + seq![' '] + priority_line(p, task_body(ws, tags))).1 == Some(
            p,
        ),
        words(urgency_and_priority(token + seq![' '] + priority_line(p, task_body(ws, tags))).2)
            == ws + tag_words(tags),
{
    let body = task_body(ws, tags);
    let rest = priority_line(p, body);
    lemma_task_body(ws, tags);
    assert(rest[p.len() as int + 1] == ')');
    lemma_urgency_read_back(token, rest, p.len() as int + 1);
    let cut = rest.len() - trailing_spaces(token + seq![' '] + rest);
    lemma_priority_read_back(rest.take(cut), p, body, cut);
}

/// The line of a task with an urgency and without priority is read back.
proof fn lemma_urgent_plain_read_back(token: Seq<char>, ws: Seq<Seq<char>>, tags: Seq<Seq<char>>)
    requires
        reads_back(Some(token), None, ws, tags),
    ensures
        urgency_and_priority(token + seq![' '] + task_body(ws, tags)).0 == Some(token),
        urgency_and_priority(token + seq![' '] + task_body(ws, tags)).1 is None,
        words(urgency_and_priority(token + seq![' '] + task_body(ws, tags)).2) == ws + tag_words(
            tags,
        ),
{
    let body = task_body(ws, tags);
    lemma_task_body(ws, tags);
    let mark: int = if ws.len() > 0 {
        0
    } else {
        1
    };
    if ws.len() > 0 {
        assert(!is_space(ws[0][0]));
    }
    lemma_urgency_read_back(token, body, mark);
    let cut = body.len() - trailing_spaces(token + seq![' '] + body);
    let r = body.take(cut);
    assert(r[0] == body[0]);
    if r[0] == '(' {
        assert(ws.len() > 0);
        lemma_char_absent_in_part(body, ')', 0, cut);
        assert(body.subrange(0, cut) =~= r);
    }
    lemma_no_priority(r);
    let tail = body.skip(cut);
    assert(body =~= r + tail);
    assert forall|i: int| 0 <= i < tail.len() implies is_space(#[trigger] tail[i]) by {
        assert(tail[i] == body[cut + i]);
    }
    lemma_words_without_tail(r, tail);
}

/// A task that is written as a task line and read again is the task that
/// was written: urgency, priority, text and tags come back as they were,
/// for every task that `reads_back` admits.
pub proof fn law_task_line_reads_back(
    urgency: Option<Seq<char>>,
    priority: Option<Seq<char>>,
    ws: Seq<Seq<char>>,
    tags: Seq<Seq<char>>,
)
    requires
        reads_back(urgency, priority, ws, tags),
    ensures
        ({
            let line = annotated_text(urgency, priority, join(ws, seq![' ']), tags);
            let read = urgency_and_priority(line);
            &&& read.0 == urgency
            &&& read.1 == priority
            &&& text_before_tags(read.2) == join(ws, seq![' '])
            &&& trailing_tags(read.2) == tags
        }),
{
    let line = annotated_text(urgency, priority, join(ws, seq![' ']), tags);
    match urgency {
        Some(token) => {
            match priority {
                Some(p) => {
                    assert(line =~= token + seq![' '] + priority_line(p, task_body(ws, tags)));
                    lemma_urgent_priority_read_back(token, p, ws, tags);
                },
                None => {
                    assert(line =~= token + seq![' '] + task_body(ws, tags));
                    lemma_urgent_plain_read_back(token, ws, tags);
                },
            }
        },
        None => {
            match priority {
                Some(p) => {
                    assert(line =~= priority_line(p, task_body(ws, tags)));
                    lemma_priority_line_read_back(p, ws, tags);
                },
                None => {
                    assert(line =~= task_body(ws, tags));
                    lemma_plain_read_back(ws, tags);
                },
            }
        },
    }
    lemma_tags_read_back(urgency_and_priority(line).2, ws, tags);
}

// ---------------------------------------------------------------------------
// The whole item
// ---------------------------------------------------------------------------

/// A trimmed text is the part of the text between its first and its last
/// character that is no whitespace.
pub proof fn lemma_trim_is(s: Seq<char>, from: int, to: int)
    requires
        0 <= from <= to <= s.len(),
        forall|i: int| 0 <= i < from ==> is_space(#[trigger] s[i]),
        forall|i: int| to <= i < s.len() ==> is_space(#[trigger] s[i]),
        from < to ==> !is_space(s[from]) && !is_space(s[to - 1]),
        from == to ==> from == s.len(),
    ensures
        trim(s) == s.subrange(from, to),
{
    lemma_leading_spaces_is(s, from);
    let t = trim_start(s);
    assert(t =~= s.skip(from));
    assert forall|i: int| t.len() - (s.len() - to) <= i < t.len() implies is_space(
        #[trigger] t[i],
    ) by {
        assert(t[i] == s[from + i]);
    }
    if s.len() - to < t.len() {
        assert(t[t.len() - (s.len() - to) - 1] == s[to - 1]);
    }
    lemma_trailing_spaces_is(t, s.len() - to);
    assert(trim(s) =~= s.subrange(from, to));
}

/// Whitespace around a text does not change what is left when it is
/// trimmed.
pub proof fn lemma_trim_of_padded(before: Seq<char>, s: Seq<char>, cut: int)
    requires
        forall|i: int| 0 <= i < before.len() ==> is_space(#[trigger] before[i]),
        0 <= cut <= s.len(),
        forall|i: int| cut <= i < s.len() ==> is_space(#[trigger] s[i]),
    ensures
        trim(before + s.take(cut)) == trim(s),
{
    lemma_trim_shape(s);
    lemma_leading_spaces(s);
    let from = leading_spaces(s) as int;
    let to = s.len() - trailing_spaces(trim_start(s));
    let padded = before + s.take(cut);
    let n = before.len() as int;
    if from < to {
        // The characters that are no whitespace lie before the cut.
        assert(trim(s)[0] == s[from]);
        assert(trim(s).last() == s[to - 1]);
        assert(to <= cut);
        assert forall|i: int| 0 <= i < n + from implies is_space(#[trigger] padded[i]) by {
            if i >= n {
                assert(padded[i] == s[i - n]);
            } else {
                assert(padded[i] == before[i]);
            }
        }
        assert forall|i: int| n + to <= i < padded.len() implies is_space(#[trigger] padded[i]) by {
            assert(padded[i] == s[i - n]);
            lemma_trailing_spaces(trim_start(s));
            assert(trim_start(s)[i - n - from] == s[i - n]);
        }
        assert(padded[n + from] == s[from]);
        assert(padded[n + to - 1] == s[to - 1]);
        lemma_trim_is(padded, n + from, n + to);
        assert(padded.subrange(n + from, n + to) =~= s.subrange(from, to));
    } else {
        // All of `s` is whitespace.
        assert(trim(s).len() == 0);
        assert(from == s.len()) by {
            lemma_trailing_spaces(trim_start(s));
            if from < s.len() {
                assert(trim_start(s)[0] == s[from]);
                assert(trim_start(s).len() - trailing_spaces(trim_start(s)) == 0);
                assert(is_space(trim_start(s)[0]));
            }
        }
        assert forall|i: int| 0 <= i < padded.len() implies is_space(#[trigger] padded[i]) by {
            if i >= n {
                assert(padded[i] == s[i - n]);
            } else {
                assert(padded[i] == before[i]);
            }
        }
        lemma_trim_is(padded, padded.len() as int, padded.len() as int);
        assert(padded.subrange(padded.len() as int, padded.len() as int) =~= trim(s));
    }
}

/// An open checkbox and a space: what a task line shows before the task.
pub open spec fn open_checkbox() -> Seq<char> {
    seq!['[', ' ', ']', ' ']
}

/// A list item that is an open checkbox followed by the line of a task is
/// read as that task, uncompleted: urgency, priority, text and tags come
/// back as they were written, for every task that `reads_back` admits.
pub proof fn law_task_item_reads_back(
    urgency: Option<Seq<char>>,
    priority: Option<Seq<char>>,
    ws: Seq<Seq<char>>,
    tags: Seq<Seq<char>>,
)
    requires
        reads_back(urgency, priority, ws, tags),
    ensures
        item_task(open_checkbox() + annotated_text(urgency, priority, join(ws, seq![' ']), tags))
            == Some(
            ItemTask {
                status: TaskStatus::Uncompleted,
                urgency,
                priority,
                text: join(ws, seq![' ']),
                tags,
            },
        ),
{
    let line = annotated_text(urgency, priority, join(ws, seq![' ']), tags);
    let item = open_checkbox() + line;
    law_task_line_reads_back(urgency, priority, ws, tags);
    assert(item[0] == '[');
    assert(item[1] == ' ');
    assert(item[2] == ']');
    assert(item[3] == ' ');
    lemma_trim_of_started(item);
    lemma_trailing_spaces(item);
    lemma_trailing_spaces_bound(item, 2);
    let cut = item.len() - trailing_spaces(item);
    let t = trim(item);
    assert(t[0] == '[' && t[1] == ' ' && t[2] == ']');
    let inner = t.skip(1);
    assert(inner[0] == ' ' && inner[1] == ']');
    lemma_index_of_char_is(inner, ']', 1);
    assert(has_checkbox(t));
    // What follows the checkbox is the line, with whitespace around it.
    let spaced = seq![' '] + line;
    assert(item.skip(3) =~= spaced);
    assert(t.skip(3) =~= spaced.take(cut - 3));
    if cut == 3 {
        // Nothing but whitespace follows the checkbox.
        assert forall|i: int| 0 <= i < line.len() implies is_space(#[trigger] line[i]) by {
            assert(line[i] == item[4 + i]);
        }
        lemma_trim_of_padded(Seq::empty(), line, 0);
        assert(Seq::<char>::empty() + line.take(0) =~= t.skip(3));
    } else {
        assert(spaced.take(cut - 3) =~= seq![' '] + line.take(cut - 4));
        assert forall|i: int| cut - 4 <= i < line.len() implies is_space(#[trigger] line[i]) by {
            assert(line[i] == item[4 + i]);
        }
        lemma_trim_of_padded(seq![' '], line, cut - 4);
    }
    assert(trim(t.skip(3)) == trim(line));
}

// ---------------------------------------------------------------------------
// A task that was read, written and read again
// ---------------------------------------------------------------------------

/// Every word of a text is a word: not empty, without whitespace.
pub proof fn lemma_words_are_plain(s: Seq<char>)
    ensures
        forall|i: int| 0 <= i < words(s).len() ==> is_plain_word(#[trigger] words(s)[i]),
    decreases s.len(),
{
    if s.len() == 0 {
        assert(words(s).len() == 0);
    } else if is_space(s[0]) {
        lemma_words_are_plain(s.drop_first());
        assert(words(s) == words(s.drop_first()));
    } else {
        lemma_word_len(s);
        let n = word_len(s) as int;
        let first = s.take(n);
        let rest = words(s.skip(n));
        lemma_words_are_plain(s.skip(n));
        assert(is_plain_word(first)) by {
            assert forall|i: int| 0 <= i < first.len() implies !is_space(#[trigger] first[i]) by {
                assert(first[i] == s[i]);
            }
        }
        assert(words(s) =~= seq![first] + rest);
        assert forall|i: int| 0 <= i < words(s).len() implies is_plain_word(
            #[trigger] words(s)[i],
        ) by {
            if i > 0 {
                assert(words(s)[i] == rest[i - 1]);
            } else {
                assert(words(s)[0] == first);
            }
        }
    }
}

/// Where the tags of a list of words begin, the word before is no tag.
pub proof fn lemma_tag_start_bounds(ws: Seq<Seq<char>>)
    ensures
        tag_start(ws) <= ws.len(),
        tag_start(ws) > 0 ==> !is_tag_word(ws[tag_start(ws) - 1]),
    decreases ws.len(),
{
    if ws.len() > 0 && is_tag_word(ws.last()) {
        let head = ws.drop_last();
        lemma_tag_start_bounds(head);
        if tag_start(ws) > 0 {
            assert(ws[tag_start(ws) - 1] == head[tag_start(head) - 1]);
        }
    }
}

/// Whether nothing of a task is taken for something else when its line is
/// read: an urgency without a priority is followed by text or tags; a
/// text that begins with an urgency is that one word, without tags, unless
/// a priority or an urgency stands before it; and a text that begins with
/// `(` holds no `)`, nor do its tags, unless a priority stands before it.
pub open spec fn stays_apart(
    urgency: Option<Seq<char>>,
    priority: Option<Seq<char>>,
    ws: Seq<Seq<char>>,
    tags: Seq<Seq<char>>,
) -> bool {
    &&& urgency is Some && priority is None ==> ws.len() > 0 || tags.len() > 0
    &&& urgency is None && priority is None && ws.len() > 0 && is_urgency(ws[0]) ==> ws.len() == 1
        && tags.len() == 0
    &&& priority is None && ws.len() > 0 && ws[0][0] == '(' ==> index_of_char(
        task_body(ws, tags),
        ')',
    ) is None
}

/// Whether the tags of a task are read back as they are: they hold no
/// whitespace, and lowercasing and dropping repetitions leaves them as
/// they are.
pub open spec fn tags_are_stable(tags: Seq<Seq<char>>) -> bool {
    &&& forall|i: int| 0 <= i < tags.len() ==> has_no_space(#[trigger] tags[i])
    &&& dedup(tags.map_values(|t: Seq<char>| lowercase(t))) == tags
}

/// A task that was read from a list item has the shape of one: its
/// urgency is one of the three, its priority holds no `)` and is not
/// blank, and its text is made of words joined by single spaces, the last
/// of which is no tag.
pub proof fn lemma_read_task_has_shape(item: Seq<char>)
    requires
        item_task(item) is Some,
    ensures
        ({
            let task = item_task(item)->0;
            let ws = words(task.text);
            &&& task.urgency is Some ==> is_urgency(task.urgency->0)
            &&& task.priority is Some ==> index_of_char(task.priority->0, ')') is None && trim(
                task.priority->0,
            ).len() > 0
            &&& task.text == join(ws, seq![' '])
            &&& forall|i: int| 0 <= i < ws.len() ==> is_plain_word(#[trigger] ws[i])
            &&& ws.len() > 0 ==> !is_tag_word(ws.last())
        }),
{
    let task = item_task(item)->0;
    let line = trim(item).skip(3);
    let t = trim(line);
    let rest = after_urgency(t);
    // The priority stands before the first `)`.
    if task.priority is Some {
        let close = index_of_char(rest, ')')->0;
        lemma_first_occurrence(rest, seq![')'], 0);
        lemma_char_occurs(rest, ')', close);
        assert(rest[0] == '(');
        assert(1 <= close < rest.len());
        let inner = rest.subrange(1, close);
        lemma_char_absent(inner, ')');
        assert forall|k: int| 0 <= k < inner.len() implies inner[k] != ')' by {
            assert(inner[k] == rest[k + 1]);
            lemma_char_occurs(rest, ')', k + 1);
        }
    }
    // The text is made of the words before the tags.
    let body = urgency_and_priority(line).2;
    let all = words(trim(body));
    lemma_words_are_plain(trim(body));
    lemma_tag_start_bounds(all);
    let kept = all.take(tag_start(all) as int);
    assert forall|i: int| 0 <= i < kept.len() implies is_plain_word(#[trigger] kept[i]) by {
        assert(kept[i] == all[i]);
    }
    lemma_words_of_join(kept);
    if kept.len() > 0 {
        assert(kept.last() == all[tag_start(all) - 1]);
    }
}

/// A task that was read from a list item, written as a task line and read
/// again is the same task, uncompleted: urgency, priority, text and tags
/// are those that were read. This holds of every task whose tags are
/// stable and of which nothing is taken for something else
/// (`tags_are_stable`, `stays_apart`).
pub proof fn law_read_task_reads_back(item: Seq<char>)
    requires
        item_task(item) is Some,
        tags_are_stable(item_task(item)->0.tags),
        stays_apart(
            item_task(item)->0.urgency,
            item_task(item)->0.priority,
            words(item_task(item)->0.text),
            item_task(item)->0.tags,
        ),
    ensures
        item_task(
            open_checkbox() + annotated_text(
                item_task(item)->0.urgency,
                item_task(item)->0.priority,
                item_task(item)->0.text,
                item_task(item)->0.tags,
            ),
        ) == Some(ItemTask { status: TaskStatus::Uncompleted, ..item_task(item)->0 }),
{
    let task = item_task(item)->0;
    lemma_read_task_has_shape(item);
    law_task_item_reads_back(task.urgency, task.priority, words(task.text), task.tags);
}

// ---------------------------------------------------------------------------
// A note whose task lines were written again
// ---------------------------------------------------------------------------

/// The texts of the list items among the events, in the order in which
/// the items close: what the scan for tasks has gathered for each.
pub open spec fn item_texts(events: Seq<SpanModel>) -> Seq<Seq<char>>
    decreases events.len(),
{
    if events.len() == 0 {
        Seq::empty()
    } else {
        let before = item_texts(events.drop_last());
        let state = item_scan(events.drop_last());
        match events.last().event {
            EventModel::ItemEnd => if state.inside {
                before.push(state.text)
            } else {
                before
            },
            _ => before,
        }
    }
}

/// The tasks that the texts of list items denote, in order.
pub open spec fn tasks_in(items: Seq<Seq<char>>) -> Seq<ItemTask>
    decreases items.len(),
{
    if items.len() == 0 {
        Seq::empty()
    } else {
        let before = tasks_in(items.drop_last());
        match item_task(items.last()) {
            Some(task) => before.push(task),
            None => before,
        }
    }
}

/// The tasks that the scan finds are those that the texts of the list
/// items denote.
pub proof fn lemma_found_tasks(events: Seq<SpanModel>)
    ensures
        item_scan(events).found == tasks_in(item_texts(events)),
    decreases events.len(),
{
    if events.len() > 0 {
        let head = events.drop_last();
        lemma_found_tasks(head);
        let state = item_scan(head);
        match events.last().event {
            EventModel::ItemEnd => {
                if state.inside {
                    let texts = item_texts(head).push(state.text);
                    assert(texts.drop_last() =~= item_texts(head));
                    assert(texts.last() == state.text);
                }
            },
            _ => {},
        }
    }
}

/// The text of a list item with its task written again: an open checkbox
/// and the line of the task. The text of an item that is no task stays
/// as it is.
pub open spec fn rewritten_item(item: Seq<char>) -> Seq<char> {
    match item_task(item) {
        Some(task) => open_checkbox() + annotated_text(
            task.urgency,
            task.priority,
            task.text,
            task.tags,
        ),
        None => item,
    }
}

/// The texts of list items, each with its task written again.
pub open spec fn rewritten_items(items: Seq<Seq<char>>) -> Seq<Seq<char>> {
    items.map_values(|item: Seq<char>| rewritten_item(item))
}

/// Whether the task of a list item, if it is one, is read back as it was
/// written (`tags_are_stable`, `stays_apart`).
pub open spec fn is_read_back(item: Seq<char>) -> bool {
    item_task(item) is Some ==> tags_are_stable(item_task(item)->0.tags) && stays_apart(
        item_task(item)->0.urgency,
        item_task(item)->0.priority,
        words(item_task(item)->0.text),
        item_task(item)->0.tags,
    )
}

/// Tasks, each uncompleted and else as it is.
pub open spec fn opened_items(tasks: Seq<ItemTask>) -> Seq<ItemTask> {
    tasks.map_values(|task: ItemTask| ItemTask { status: TaskStatus::Uncompleted, ..task })
}

/// Tasks of a note, each uncompleted and else as it is.
pub open spec fn opened_tasks(tasks: Seq<TaskView>) -> Seq<TaskView> {
    tasks.map_values(|task: TaskView| TaskView { status: TaskStatus::Uncompleted, ..task })
}

/// List items whose tasks were written again denote the same tasks,
/// uncompleted.
pub proof fn lemma_rewritten_items(items: Seq<Seq<char>>)
    requires
        forall|i: int| 0 <= i < items.len() ==> is_read_back(#[trigger] items[i]),
    ensures
        tasks_in(rewritten_items(items)) == opened_items(tasks_in(items)),
    decreases items.len(),
{
    if items.len() == 0 {
        assert(tasks_in(rewritten_items(items)) =~= opened_items(tasks_in(items)));
    } else {
        let head = items.drop_last();
        assert forall|i: int| 0 <= i < head.len() implies is_read_back(#[trigger] head[i]) by {
            assert(head[i] == items[i]);
        }
        lemma_rewritten_items(head);
        let last = items.last();
        assert(is_read_back(items[items.len() - 1]));
        assert(rewritten_items(items).drop_last() =~= rewritten_items(head));
        assert(rewritten_items(items).last() == rewritten_item(last));
        match item_task(last) {
            Some(task) => {
                law_read_task_reads_back(last);
                assert(opened_items(tasks_in(head).push(task)) =~= opened_items(
                    tasks_in(head),
                ).push(ItemTask { status: TaskStatus::Uncompleted, ..task }));
            },
            None => {},
        }
    }
}

/// A note whose task lines are written again, each as an open checkbox
/// and the line of its task, has the same tasks when it is read again:
/// index, text, priority, urgency and tags are as they were, and every
/// task is uncompleted.
///
/// What the events of the new text are is for the parser to say. The law
/// holds of every new text whose list items are those of the old one,
/// each with its task written again, where every task is one that is
/// read back as it was written.
pub proof fn law_rewritten_note_reads_back(
    path: Seq<char>,
    title: Seq<char>,
    content: Seq<char>,
    written: Seq<char>,
)
    requires
        item_texts(markdown_spans(written)) == rewritten_items(
            item_texts(markdown_spans(content)),
        ),
        forall|i: int|
            0 <= i < item_texts(markdown_spans(content)).len() ==> is_read_back(
                #[trigger] item_texts(markdown_spans(content))[i],
            ),
    ensures
        note_tasks(path, title, written) == opened_tasks(note_tasks(path, title, content)),
{
    let items = item_texts(markdown_spans(content));
    lemma_found_tasks(markdown_spans(content));
    lemma_found_tasks(markdown_spans(written));
    lemma_rewritten_items(items);
    assert(note_tasks_of(path, title, opened_items(tasks_in(items))) =~= opened_tasks(
        note_tasks_of(path, title, tasks_in(items)),
    ));
}

} // verus!
