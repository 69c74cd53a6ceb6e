//! The order of texts, and sorting by it.

use vstd::prelude::*;

verus! {

/// Whether `a` comes before `b` or equals it, character by character; a
/// text comes after its own beginnings.
pub open spec fn text_le(a: Seq<char>, b: Seq<char>) -> bool
    decreases a.len(),
{
    if a.len() == 0 {
        true
    } else if b.len() == 0 {
        false
    } else if a[0] != b[0] {
        (a[0] as u32) < (b[0] as u32)
    } else {
        text_le(a.drop_first(), b.drop_first())
    }
}

/// Of two texts one comes first.
pub proof fn lemma_text_le_total(a: Seq<char>, b: Seq<char>)
    ensures
        text_le(a, b) || text_le(b, a),
    decreases a.len(),
{
    if a.len() > 0 && b.len() > 0 {
        if a[0] == b[0] {
            lemma_text_le_total(a.drop_first(), b.drop_first());
        } else {
            lemma_char_code(a[0], b[0]);
        }
    }
}

/// Different characters have different codes.
pub proof fn lemma_char_code(a: char, b: char)
    ensures
        (a as u32) == (b as u32) ==> a == b,
{
    vstd::utf8::char_u32_cast(a, a as u32);
    vstd::utf8::char_u32_cast(b, b as u32);
}

/// The order of texts is transitive.
pub proof fn lemma_text_le_trans(a: Seq<char>, b: Seq<char>, c: Seq<char>)
    requires
        text_le(a, b),
        text_le(b, c),
    ensures
        text_le(a, c),
    decreases a.len(),
{
    if a.len() > 0 && b.len() > 0 && c.len() > 0 {
        if a[0] == b[0] && b[0] == c[0] {
            lemma_text_le_trans(a.drop_first(), b.drop_first(), c.drop_first());
        }
    }
}

/// Two texts each of which comes before the other are equal.
pub proof fn lemma_text_le_antisym(a: Seq<char>, b: Seq<char>)
    requires
        text_le(a, b),
        text_le(b, a),
    ensures
        a == b,
    decreases a.len(),
{
    if a.len() > 0 && b.len() > 0 {
        lemma_char_code(a[0], b[0]);
        lemma_text_le_antisym(a.drop_first(), b.drop_first());
        assert(a =~= seq![a[0]] + a.drop_first());
        assert(b =~= seq![b[0]] + b.drop_first());
    } else {
        assert(a =~= b);
    }
}

/// Whether `a` comes before `b` or equals it.
pub fn text_before_or_equal(a: &Vec<char>, b: &Vec<char>) -> (r: bool)
    ensures
        r == text_le(a@, b@),
{
    let mut i: usize = 0;
    assert(a@.skip(0) =~= a@);
    assert(b@.skip(0) =~= b@);
    while i < a.len() && i < b.len()
        invariant
            i <= a.len(),
            i <= b.len(),
            text_le(a@, b@) == text_le(a@.skip(i as int), b@.skip(i as int)),
        decreases a.len() - i,
    {
        proof {
            assert(a@.skip(i as int)[0] == a@[i as int]);
            assert(b@.skip(i as int)[0] == b@[i as int]);
            assert(a@.skip(i as int).drop_first() =~= a@.skip(i + 1));
            assert(b@.skip(i as int).drop_first() =~= b@.skip(i + 1));
        }
        if a[i] != b[i] {
            return (a[i] as u32) < (b[i] as u32);
        }
        i += 1;
    }
    i == a.len()
}

/// Whether each text of `s` comes before or equals all that follow it.
pub open spec fn is_sorted(s: Seq<Seq<char>>) -> bool {
    forall|i: int, j: int| 0 <= i < j < s.len() ==> text_le(#[trigger] s[i], #[trigger] s[j])
}

/// Sorts texts.
pub fn sort_texts(v: Vec<Vec<char>>) -> (r: Vec<Vec<char>>)
    ensures
        is_sorted(crate::text::texts(r@)),
        crate::text::texts(r@).to_multiset() == crate::text::texts(v@).to_multiset(),
{
    let ghost input = crate::text::texts(v@);
    let mut out: Vec<Vec<char>> = Vec::new();
    let mut i: usize = 0;
    assert(crate::text::texts(out@) =~= Seq::<Seq<char>>::empty());
    assert(input.take(0) =~= Seq::<Seq<char>>::empty());
    while i < v.len()
        invariant
            i <= v.len(),
            input == crate::text::texts(v@),
            is_sorted(crate::text::texts(out@)),
            crate::text::texts(out@).to_multiset() == input.take(i as int).to_multiset(),
        decreases v.len() - i,
    {
        let item = crate::text::copy_range(&v[i], 0, v[i].len());
        assert(item@ =~= v@[i as int]@);
        let ghost before = crate::text::texts(out@);
        // Find the place of the item: after every text that does not come
        // after it.
        let mut at: usize = out.len();
        while at > 0 && !text_before_or_equal(&out[at - 1], &item)
            invariant
                at <= out.len(),
                before == crate::text::texts(out@),
                forall|k: int| at <= k < out.len() ==> !text_le(#[trigger] before[k], item@),
            decreases at,
        {
            at -= 1;
        }
        out.insert(at, item);
        proof {
            let after = crate::text::texts(out@);
            assert(after =~= before.insert(at as int, item@));
            assert forall|p: int, q: int| 0 <= p < q < after.len() implies text_le(
                #[trigger] after[p],
                #[trigger] after[q],
            ) by {
                if q == at {
                    // after[p] is before[p] with p < at.
                    if at > 0 {
                        assert(text_le(before[at - 1], item@));
                        if p < at - 1 {
                            lemma_text_le_trans(before[p], before[at - 1], item@);
                        }
                    }
                } else if p == at {
                    assert(!text_le(before[q - 1], item@));
                    lemma_text_le_total(before[q - 1], item@);
                } else if p < at && q > at {
                    assert(text_le(before[p], before[q - 1]));
                } else if p < at {
                    assert(text_le(before[p], before[q]));
                } else {
                    assert(text_le(before[p - 1], before[q - 1]));
                }
            }
            vstd::seq_lib::to_multiset_insert(before, at as int, item@);
            assert(input.take(i + 1) =~= input.take(i as int).push(input[i as int]));
            vstd::seq_lib::to_multiset_build(input.take(i as int), input[i as int]);
        }
        i += 1;
    }
    assert(input.take(v.len() as int) =~= input);
    out
}

} // verus!
