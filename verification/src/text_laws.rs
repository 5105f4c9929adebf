//! What the text functions do, said over positions and over texts that are put together.

use vstd::prelude::*;

use crate::text::{
    find_spec, is_whitespace_spec, join_spec, lemma_find_bound, lemma_trim_start_len,
    lemma_word_len_bound, split_spec, starts_with_spec, strip_prefixes_spec, texts, trim_end,
    trim_spec, trim_start, word_len, words_spec,
};
use crate::text_lemmas::{
    lemma_join_split, lemma_not_found, lemma_split_behind, lemma_split_join, lemma_split_pieces,
    occurs_at, starts_once,
};

verus! {

/// The texts of pieces are their characters, piece by piece.
pub proof fn lemma_texts(pieces: Seq<&str>, i: int)
    requires
        0 <= i < pieces.len(),
    ensures
        texts(pieces).len() == pieces.len(),
        texts(pieces)[i] == pieces[i]@,
{
}

/// What starts with a prefix is the prefix and something behind it, and nothing else starts with
/// it.
pub proof fn lemma_starts_with(prefix: Seq<char>, s: Seq<char>)
    ensures
        starts_with_spec(prefix + s, prefix),
        forall|t: Seq<char>|
            #![trigger starts_with_spec(t, prefix)]
            starts_with_spec(t, prefix) ==> prefix.len() <= t.len() && t == prefix + t.skip(
                prefix.len() as int,
            ),
{
    assert((prefix + s).take(prefix.len() as int) =~= prefix);
    assert forall|t: Seq<char>| #![trigger starts_with_spec(t, prefix)]
        starts_with_spec(t, prefix) implies prefix.len() <= t.len() && t == prefix + t.skip(
        prefix.len() as int,
    ) by {
        assert(t =~= t.take(prefix.len() as int) + t.skip(prefix.len() as int));
    }
}

/// What is found stands where it is found and nowhere before; what is not found stands nowhere.
pub proof fn lemma_find_is_first(s: Seq<char>, pattern: Seq<char>)
    ensures
        match find_spec(s, pattern) {
            Some(i) => occurs_at(s, pattern, i) && forall|k: int|
                k < i ==> !(#[trigger] occurs_at(s, pattern, k)),
            None => forall|k: int| !(#[trigger] occurs_at(s, pattern, k)),
        },
    decreases s.len(),
{
    lemma_find_bound(s, pattern);
    lemma_not_found(s, pattern);
    if let Some(i) = find_spec(s, pattern) {
        let part = s.subrange(i, i + pattern.len());
        assert forall|k: int| 0 <= k < pattern.len() implies s[i + k] == pattern[k] by {
            assert(part[k] == s[i + k]);
        }
        if i > 0 {
            let rest = s.drop_first();
            lemma_find_is_first(rest, pattern);
            assert forall|k: int| k < i implies !(#[trigger] occurs_at(s, pattern, k)) by {
                if occurs_at(s, pattern, k) {
                    if k == 0 {
                        assert forall|j: int| 0 <= j < pattern.len() implies s.take(
                            pattern.len() as int,
                        )[j] == pattern[j] by {
                            assert(s[0 + j] == pattern[j]);
                        }
                        assert(s.take(pattern.len() as int) =~= pattern);
                    } else {
                        assert forall|j: int| 0 <= j < pattern.len() implies rest[k - 1 + j]
                            == pattern[j] by {
                            assert(s[k + j] == pattern[j]);
                        }
                        assert(occurs_at(rest, pattern, k - 1));
                    }
                }
            }
        }
    }
}

/// The pieces of a text are the texts without the separator that give the text when they are
/// joined: they are so, and no other texts are.
pub proof fn lemma_split_is_unique(s: Seq<char>, separator: Seq<char>, pieces: Seq<Seq<char>>)
    requires
        starts_once(separator),
    ensures
        (pieces == split_spec(s, separator)) == (pieces.len() > 0 && join_spec(pieces, separator)
            == s && forall|i: int|
            0 <= i < pieces.len() ==> find_spec(#[trigger] pieces[i], separator) is None),
{
    lemma_join_split(s, separator);
    lemma_split_pieces(s, separator);
    if pieces.len() > 0 && join_spec(pieces, separator) == s && forall|i: int|
        0 <= i < pieces.len() ==> find_spec(#[trigger] pieces[i], separator) is None {
        lemma_split_join(pieces, separator);
    }
}

/// Texts are joined by writing them one behind the other, with the separator between any two.
pub proof fn lemma_join(pieces: Seq<Seq<char>>, last: Seq<char>, separator: Seq<char>)
    ensures
        join_spec(seq![last], separator) == last,
        pieces.len() > 0 ==> join_spec(pieces.push(last), separator) == join_spec(pieces, separator)
            + separator + last,
    decreases pieces.len(),
{
    if pieces.len() > 0 {
        let longer = pieces.push(last);
        let rest = longer.drop_first();
        assert(longer[0] == pieces[0]);
        assert(join_spec(longer, separator) == pieces[0] + separator + join_spec(rest, separator));
        if pieces.len() == 1 {
            assert(rest =~= seq![last]);
            assert(join_spec(rest, separator) == last);
        } else {
            let behind = pieces.drop_first();
            assert(rest =~= behind.push(last));
            lemma_join(behind, last, separator);
            let joined = join_spec(behind, separator);
            assert(join_spec(pieces, separator) == pieces[0] + separator + joined);
            assert(pieces[0] + separator + (joined + separator + last) =~= pieces[0] + separator
                + joined + separator + last);
        }
    }
}

/// Pieces without the separator are split off again from what is joined behind them.
pub proof fn lemma_split_front(front: Seq<Seq<char>>, rest: Seq<char>, separator: Seq<char>)
    requires
        starts_once(separator),
        forall|i: int| 0 <= i < front.len() ==> find_spec(#[trigger] front[i], separator) is None,
    ensures
        split_spec(join_spec(front.push(rest), separator), separator) == front + split_spec(
            rest,
            separator,
        ),
    decreases front.len(),
{
    let all = front.push(rest);
    if front.len() == 0 {
        assert(join_spec(all, separator) == rest);
        assert(front + split_spec(rest, separator) =~= split_spec(rest, separator));
    } else {
        let behind = front.drop_first();
        assert(all.drop_first() =~= behind.push(rest));
        assert forall|i: int| 0 <= i < behind.len() implies find_spec(
            #[trigger] behind[i],
            separator,
        ) is None by {
            assert(behind[i] == front[i + 1]);
        }
        lemma_split_front(behind, rest, separator);
        assert(find_spec(front[0], separator) is None);
        lemma_split_behind(front[0], separator, join_spec(behind.push(rest), separator));
        assert(seq![front[0]] + (behind + split_spec(rest, separator)) =~= front + split_spec(
            rest,
            separator,
        ));
    }
}

proof fn lemma_trim_start_positions(s: Seq<char>)
    ensures
        trim_start(s).len() <= s.len(),
        trim_start(s) == s.skip(s.len() - trim_start(s).len()),
        forall|i: int|
            0 <= i < s.len() - trim_start(s).len() ==> is_whitespace_spec(#[trigger] s[i]),
    decreases s.len(),
{
    if s.len() > 0 && is_whitespace_spec(s[0]) {
        let rest = s.drop_first();
        lemma_trim_start_positions(rest);
        assert(trim_start(s) =~= s.skip(s.len() - trim_start(s).len()));
        assert forall|i: int| 0 <= i < s.len() - trim_start(s).len() implies is_whitespace_spec(
            #[trigger] s[i],
        ) by {
            if i > 0 {
                assert(s[i] == rest[i - 1]);
            }
        }
    } else {
        assert(s.skip(0) =~= s);
    }
}

proof fn lemma_trim_end_positions(s: Seq<char>)
    ensures
        trim_end(s).len() <= s.len(),
        trim_end(s) == s.take(trim_end(s).len() as int),
        forall|i: int| trim_end(s).len() <= i < s.len() ==> is_whitespace_spec(#[trigger] s[i]),
        trim_end(s).len() > 0 ==> !is_whitespace_spec(trim_end(s).last()),
    decreases s.len(),
{
    if s.len() > 0 && is_whitespace_spec(s.last()) {
        let front = s.drop_last();
        lemma_trim_end_positions(front);
        assert(trim_end(s) =~= s.take(trim_end(s).len() as int));
        assert forall|i: int| trim_end(s).len() <= i < s.len() implies is_whitespace_spec(
            #[trigger] s[i],
        ) by {
            if i < front.len() {
                assert(s[i] == front[i]);
            }
        }
    } else {
        assert(s.take(s.len() as int) =~= s);
    }
}

/// Trimming takes off the white space on both sides and nothing else: white space put around a
/// text that neither starts nor ends with it is taken off again.
pub proof fn lemma_trim(before: Seq<char>, s: Seq<char>, after: Seq<char>)
    requires
        forall|i: int| 0 <= i < before.len() ==> is_whitespace_spec(#[trigger] before[i]),
        forall|i: int| 0 <= i < after.len() ==> is_whitespace_spec(#[trigger] after[i]),
        s.len() > 0 ==> !is_whitespace_spec(s[0]) && !is_whitespace_spec(s.last()),
    ensures
        trim_spec(before + s + after) == s,
{
    let all = before + s + after;
    let t = trim_start(all);
    lemma_trim_start_len(all);
    lemma_trim_start_positions(all);
    lemma_trim_end_positions(t);
    let from = all.len() - t.len();
    let r = trim_end(t);
    if s.len() > 0 {
        assert(all[before.len() as int] == s[0]);
        assert(from <= before.len());
        if from < before.len() {
            assert(t[0] == all[from]);
            assert(all[from] == before[from]);
        }
        assert(t =~= s + after);
        assert(t[s.len() - 1] == s.last());
        if r.len() < s.len() {
            assert(is_whitespace_spec(t[s.len() - 1]));
        }
        if r.len() > s.len() {
            assert(r.last() == t[r.len() - 1]);
            assert(t[r.len() - 1] == after[r.len() - 1 - s.len()]);
        }
        assert(r =~= s);
    } else {
        if t.len() > 0 {
            assert(t[0] == all[from]);
            if from < before.len() {
                assert(all[from] == before[from]);
            } else {
                assert(all[from] == after[from - before.len()]);
            }
        }
        assert(r =~= s);
    }
}

/// A prefix is taken off as often as it stands there: once more where it is put in front, and not
/// at all where the text does not start with it.
pub proof fn lemma_strip_prefixes(prefix: Seq<char>, s: Seq<char>)
    requires
        prefix.len() > 0,
    ensures
        strip_prefixes_spec(prefix + s, prefix) == strip_prefixes_spec(s, prefix),
        !starts_with_spec(s, prefix) ==> strip_prefixes_spec(s, prefix) == s,
{
    assert((prefix + s).take(prefix.len() as int) =~= prefix);
    assert((prefix + s).skip(prefix.len() as int) =~= s);
}

proof fn lemma_trim_start_of_whitespace(a: Seq<char>, b: Seq<char>)
    ensures
        trim_start(a).len() > 0 ==> trim_start(a + b) == trim_start(a) + b,
        trim_start(a).len() == 0 ==> trim_start(a + b) == trim_start(b),
    decreases a.len(),
{
    if a.len() == 0 {
        assert(a + b =~= b);
    } else if is_whitespace_spec(a[0]) {
        assert((a + b).drop_first() =~= a.drop_first() + b);
        lemma_trim_start_of_whitespace(a.drop_first(), b);
    }
}

proof fn lemma_word_ends_at_whitespace(a: Seq<char>, b: Seq<char>)
    requires
        b.len() > 0 ==> is_whitespace_spec(b[0]),
    ensures
        word_len(a + b) == word_len(a),
    decreases a.len(),
{
    if a.len() == 0 {
        assert(a + b =~= b);
    } else if !is_whitespace_spec(a[0]) {
        assert((a + b).drop_first() =~= a.drop_first() + b);
        lemma_word_ends_at_whitespace(a.drop_first(), b);
    }
}

/// White space of any kind parts words: what stands on its two sides has its own words. An empty
/// text has none.
pub proof fn lemma_words_across_whitespace(a: Seq<char>, c: char, b: Seq<char>)
    requires
        is_whitespace_spec(c),
    ensures
        words_spec(a + seq![c] + b) == words_spec(a) + words_spec(b),
        words_spec(seq![]) == Seq::<Seq<char>>::empty(),
    decreases a.len(),
{
    let tail = seq![c] + b;
    let s = a + seq![c] + b;
    assert(s =~= a + tail);
    lemma_trim_start_of_whitespace(a, tail);
    let t = trim_start(a);
    assert(words_spec(seq![]) =~= Seq::<Seq<char>>::empty());
    if t.len() == 0 {
        assert(tail.drop_first() =~= b);
        assert(trim_start(tail) == trim_start(b));
        assert(words_spec(s) =~= words_spec(a) + words_spec(b));
    } else {
        lemma_trim_start_len(a);
        lemma_word_len_bound(t);
        lemma_word_ends_at_whitespace(t, tail);
        let n = word_len(t) as int;
        assert((t + tail).take(n) =~= t.take(n));
        assert((t + tail).skip(n) =~= t.skip(n) + seq![c] + b);
        lemma_words_across_whitespace(t.skip(n), c, b);
        assert(seq![t.take(n)] + (words_spec(t.skip(n)) + words_spec(b)) =~= (seq![t.take(n)]
            + words_spec(t.skip(n))) + words_spec(b));
    }
}

} // verus!
