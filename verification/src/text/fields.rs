//! Fields of a text that a separator character delimits.

use vstd::prelude::*;
use vstd::slice::slice_subrange;

verus! {

/// Whether `c` occurs nowhere in `s`.
pub open spec fn is_free_of(s: Seq<char>, c: char) -> bool {
    forall|i: int| 0 <= i < s.len() ==> #[trigger] s[i] != c
}

/// The position of the first `c` in `s`, or the length of `s` where there is
/// none.
pub open spec fn first_index_of(s: Seq<char>, c: char) -> int
    decreases s.len(),
{
    if s.len() == 0 || s[0] == c {
        0
    } else {
        1 + first_index_of(s.drop_first(), c)
    }
}

/// The fields of `s` between occurrences of `sep`, in order. There is one
/// field more than there are separators, so the result is never empty, and a
/// field is empty where two separators meet or one stands at an end.
pub open spec fn split(s: Seq<char>, sep: char) -> Seq<Seq<char>>
    decreases s.len(),
{
    let i = first_index_of(s, sep);
    if 0 <= i < s.len() {
        seq![s.take(i)] + split(s.skip(i + 1), sep)
    } else {
        seq![s]
    }
}

/// The fields of `fields` with `sep` between each two neighbours.
pub open spec fn join(fields: Seq<Seq<char>>, sep: char) -> Seq<char>
    decreases fields.len(),
{
    if fields.len() == 0 {
        Seq::empty()
    } else if fields.len() == 1 {
        fields[0]
    } else {
        fields[0] + seq![sep] + join(fields.drop_first(), sep)
    }
}

/// `first_index_of` is the least position that holds `c`.
pub proof fn lemma_first_index_of(s: Seq<char>, c: char)
    ensures
        0 <= first_index_of(s, c) <= s.len(),
        is_free_of(s.take(first_index_of(s, c)), c),
        first_index_of(s, c) < s.len() ==> s[first_index_of(s, c)] == c,
    decreases s.len(),
{
    if s.len() == 0 || s[0] == c {
    } else {
        lemma_first_index_of(s.drop_first(), c);
        let i = first_index_of(s, c);
        assert forall|j: int| 0 <= j < i implies #[trigger] s.take(i)[j] != c by {
            if j > 0 {
                assert(s.drop_first().take(i - 1)[j - 1] == s[j]);
            }
        }
    }
}

/// A position that holds `c`, with no `c` before it, is the first.
pub proof fn lemma_first_index_of_is(s: Seq<char>, c: char, i: int)
    requires
        0 <= i <= s.len(),
        is_free_of(s.take(i), c),
        i < s.len() ==> s[i] == c,
    ensures
        first_index_of(s, c) == i,
    decreases s.len(),
{
    if s.len() == 0 {
    } else if s[0] == c {
        if i > 0 {
            assert(s.take(i)[0] == c);
        }
    } else {
        let t = s.drop_first();
        assert forall|j: int| 0 <= j < i - 1 implies #[trigger] t.take(i - 1)[j] != c by {
            assert(s.take(i)[j + 1] == t.take(i - 1)[j]);
        }
        lemma_first_index_of_is(t, c, i - 1);
    }
}

/// A text without separator is one field.
pub proof fn lemma_split_free(s: Seq<char>, sep: char)
    requires
        is_free_of(s, sep),
    ensures
        split(s, sep) == seq![s],
{
    assert(s.take(s.len() as int) =~= s);
    lemma_first_index_of_is(s, sep, s.len() as int);
}

/// A field without separator, a separator and a rest split into that field
/// and the fields of the rest.
pub proof fn lemma_split_cons(head: Seq<char>, rest: Seq<char>, sep: char)
    requires
        is_free_of(head, sep),
    ensures
        split(head + seq![sep] + rest, sep) == seq![head] + split(rest, sep),
{
    let s = head + seq![sep] + rest;
    let i = head.len() as int;
    assert(s.take(i) =~= head);
    assert(s[i] == sep);
    lemma_first_index_of_is(s, sep, i);
    assert(s.skip(i + 1) =~= rest);
}

/// Splitting undoes joining, where there is at least one field and no field
/// holds the separator.
pub proof fn lemma_split_join(fields: Seq<Seq<char>>, sep: char)
    requires
        fields.len() >= 1,
        forall|i: int| 0 <= i < fields.len() ==> is_free_of(#[trigger] fields[i], sep),
    ensures
        split(join(fields, sep), sep) == fields,
    decreases fields.len(),
{
    if fields.len() == 1 {
        lemma_split_free(fields[0], sep);
        assert(seq![fields[0]] =~= fields);
    } else {
        let rest = fields.drop_first();
        assert forall|i: int| 0 <= i < rest.len() implies is_free_of(#[trigger] rest[i], sep) by {
            assert(rest[i] == fields[i + 1]);
        }
        lemma_split_join(rest, sep);
        lemma_split_cons(fields[0], join(rest, sep), sep);
        assert(seq![fields[0]] + rest =~= fields);
    }
}

/// Joining undoes splitting.
pub proof fn lemma_join_split(s: Seq<char>, sep: char)
    ensures
        join(split(s, sep), sep) == s,
    decreases s.len(),
{
    lemma_first_index_of(s, sep);
    let i = first_index_of(s, sep);
    if i < s.len() {
        let rest = split(s.skip(i + 1), sep);
        lemma_join_split(s.skip(i + 1), sep);
        lemma_split_len(s.skip(i + 1), sep);
        let fields = seq![s.take(i)] + rest;
        assert(fields.drop_first() =~= rest);
        assert(join(fields, sep) =~= s.take(i) + seq![sep] + s.skip(i + 1));
        assert(s.take(i) + seq![sep] + s.skip(i + 1) =~= s);
    }
}

/// Joining one more field appends it, behind a separator where a field
/// came before.
pub proof fn lemma_join_push(fields: Seq<Seq<char>>, field: Seq<char>, sep: char)
    ensures
        join(fields.push(field), sep) == if fields.len() == 0 {
            field
        } else {
            join(fields, sep) + seq![sep] + field
        },
    decreases fields.len(),
{
    let all = fields.push(field);
    if fields.len() == 0 {
    } else if fields.len() == 1 {
        assert(all.drop_first() =~= seq![field]);
        assert(join(all.drop_first(), sep) == field);
    } else {
        let rest = fields.drop_first();
        lemma_join_push(rest, field, sep);
        assert(all.drop_first() =~= rest.push(field));
        assert(join(all, sep) =~= join(fields, sep) + seq![sep] + field);
    }
}

/// A character other than the separator that no field holds is not in the
/// joined text.
pub proof fn lemma_join_free(fields: Seq<Seq<char>>, sep: char, c: char)
    requires
        c != sep,
        forall|i: int| 0 <= i < fields.len() ==> is_free_of(#[trigger] fields[i], c),
    ensures
        is_free_of(join(fields, sep), c),
    decreases fields.len(),
{
    if fields.len() >= 2 {
        let rest = fields.drop_first();
        assert forall|i: int| 0 <= i < rest.len() implies is_free_of(#[trigger] rest[i], c) by {
            assert(rest[i] == fields[i + 1]);
        }
        lemma_join_free(rest, sep, c);
    }
}

/// The first field is the text before the first separator, and there is one
/// field only exactly where the text holds no separator.
pub proof fn lemma_split_len(s: Seq<char>, sep: char)
    ensures
        split(s, sep).len() >= 1,
        split(s, sep)[0] == s.take(first_index_of(s, sep)),
        split(s, sep).len() == 1 <==> is_free_of(s, sep),
    decreases s.len(),
{
    lemma_first_index_of(s, sep);
    let i = first_index_of(s, sep);
    if i < s.len() {
        lemma_split_len(s.skip(i + 1), sep);
    } else {
        assert(s.take(i) =~= s);
    }
}

/// The character sequences that the slices of `fields` hold.
pub open spec fn views(fields: Seq<&[char]>) -> Seq<Seq<char>> {
    Seq::new(fields.len(), |i: int| fields[i]@)
}

/// The fields of `s` between occurrences of `sep`, as parts of `s`.
pub fn split_fields<'a>(s: &'a [char], sep: char) -> (fields: Vec<&'a [char]>)
    ensures
        views(fields@) == split(s@, sep),
        fields@.len() == split(s@, sep).len(),
        forall|i: int| 0 <= i < fields@.len() ==> (#[trigger] fields@[i])@ == split(s@, sep)[i],
{
    let mut fields: Vec<&'a [char]> = Vec::new();
    let ghost mut done: Seq<Seq<char>> = Seq::empty();
    let mut start: usize = 0;
    let mut i: usize = 0;
    proof {
        assert(s@.skip(0) =~= s@);
        assert(done + split(s@, sep) =~= split(s@, sep));
    }
    while i < s.len()
        invariant
            0 <= start <= i <= s.len(),
            is_free_of(s@.subrange(start as int, i as int), sep),
            done.len() == fields@.len(),
            forall|k: int| 0 <= k < fields@.len() ==> (#[trigger] fields@[k])@ == done[k],
            split(s@, sep) == done + split(s@.skip(start as int), sep),
        decreases s.len() - i,
    {
        if s[i] == sep {
            let field = slice_subrange(s, start, i);
            proof {
                let rest = s@.skip(start as int);
                let n = i - start;
                assert(rest.take(n) =~= s@.subrange(start as int, i as int));
                assert(rest[n] == sep);
                lemma_first_index_of_is(rest, sep, n);
                assert(rest.skip(n + 1) =~= s@.skip(i + 1));
                let tail = split(s@.skip(i + 1), sep);
                assert(split(rest, sep) == seq![rest.take(n)] + tail);
                assert(done + (seq![field@] + tail) =~= done.push(field@) + tail);
                assert(s@.subrange(i + 1, i + 1) =~= Seq::<char>::empty());
                done = done.push(field@);
            }
            fields.push(field);
            start = i + 1;
        } else {
            proof {
                assert forall|k: int| 0 <= k < i + 1 - start implies #[trigger] s@.subrange(
                    start as int,
                    i + 1,
                )[k] != sep by {
                    if k < i - start {
                        assert(s@.subrange(start as int, i as int)[k] == s@[start + k]);
                    }
                }
            }
        }
        i += 1;
    }
    let field = slice_subrange(s, start, s.len());
    proof {
        let rest = s@.skip(start as int);
        assert(rest =~= s@.subrange(start as int, s@.len() as int));
        lemma_split_free(rest, sep);
        assert(split(s@, sep) =~= done.push(field@));
    }
    fields.push(field);
    assert(views(fields@) =~= split(s@, sep));
    fields
}

} // verus!
