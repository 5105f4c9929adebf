//! Facts about text: searching, splitting and joining, words, and trimming.

use vstd::prelude::*;

use crate::text::{
    find_spec, is_whitespace_spec, join_spec, lemma_find_bound, lemma_trim_start_len,
    lemma_word_len_bound, split_spec, starts_with_spec, trim_end, trim_spec, trim_start, word_len,
    words_spec,
};

verus! {

/// The first character of `pattern` does not occur in it again.
pub open spec fn starts_once(pattern: Seq<char>) -> bool {
    &&& pattern.len() > 0
    &&& forall|k: int| 1 <= k < pattern.len() ==> #[trigger] pattern[k] != pattern[0]
}

/// Whether `pattern` stands at index `i` of `s`.
pub open spec fn occurs_at(s: Seq<char>, pattern: Seq<char>, i: int) -> bool {
    &&& 0 <= i
    &&& i + pattern.len() <= s.len()
    &&& forall|k: int| 0 <= k < pattern.len() ==> s[i + k] == pattern[k]
}

/// A text in which `pattern` stands nowhere is one in which it is not found.
pub proof fn lemma_not_found(s: Seq<char>, pattern: Seq<char>)
    ensures
        (find_spec(s, pattern) is None) == (forall|i: int| !(#[trigger] occurs_at(s, pattern, i))),
    decreases s.len(),
{
    if starts_with_spec(s, pattern) {
        assert forall|k: int| 0 <= k < pattern.len() implies s[0 + k] == pattern[k] by {
            assert(s.take(pattern.len() as int)[k] == pattern[k]);
        }
        assert(occurs_at(s, pattern, 0));
    } else {
        if occurs_at(s, pattern, 0) {
            assert forall|k: int| 0 <= k < pattern.len() implies s.take(pattern.len() as int)[k]
                == pattern[k] by {
                assert(s[0 + k] == pattern[k]);
            }
            assert(s.take(pattern.len() as int) =~= pattern);
        }
        if s.len() > 0 {
            let t = s.drop_first();
            lemma_not_found(t, pattern);
            assert forall|i: int| occurs_at(t, pattern, i) implies #[trigger] occurs_at(
                s,
                pattern,
                i + 1,
            ) by {
                assert forall|k: int| 0 <= k < pattern.len() implies s[i + 1 + k] == pattern[k] by {
                    assert(t[i + k] == pattern[k]);
                }
            }
            assert forall|i: int| #[trigger] occurs_at(s, pattern, i) implies occurs_at(
                t,
                pattern,
                i - 1,
            ) by {
                assert forall|k: int| 0 <= k < pattern.len() implies t[i - 1 + k] == pattern[k] by {
                    assert(s[i + k] == pattern[k]);
                }
            }
            if find_spec(t, pattern) is Some {
                let i = choose|i: int| occurs_at(t, pattern, i);
                assert(occurs_at(s, pattern, i + 1));
            }
        } else {
            assert forall|i: int| !(#[trigger] occurs_at(s, pattern, i)) by {}
        }
    }
}

/// Behind a text that does not hold it, the pattern is found where it stands.
pub proof fn lemma_find_behind(a: Seq<char>, pattern: Seq<char>, b: Seq<char>)
    requires
        starts_once(pattern),
        find_spec(a, pattern) is None,
    ensures
        find_spec(a + pattern + b, pattern) == Some(a.len() as int),
    decreases a.len(),
{
    let s = a + pattern + b;
    if a.len() == 0 {
        assert(s.take(pattern.len() as int) =~= pattern);
    } else {
        if starts_with_spec(s, pattern) {
            let head = s.take(pattern.len() as int);
            if a.len() >= pattern.len() {
                assert(a.take(pattern.len() as int) =~= pattern);
            } else {
                assert(head[a.len() as int] == pattern[0]);
            }
        }
        assert(s.drop_first() =~= a.drop_first() + pattern + b);
        lemma_find_behind(a.drop_first(), pattern, b);
    }
}

/// Splitting goes piece by piece.
pub proof fn lemma_split_behind(a: Seq<char>, separator: Seq<char>, b: Seq<char>)
    requires
        starts_once(separator),
        find_spec(a, separator) is None,
    ensures
        split_spec(a + separator + b, separator) == seq![a] + split_spec(b, separator),
{
    let s = a + separator + b;
    lemma_find_behind(a, separator, b);
    assert(s.take(a.len() as int) =~= a);
    assert(s.skip(a.len() as int + separator.len()) =~= b);
}

/// There is always a first piece, and joining the pieces gives the text back.
pub proof fn lemma_join_split(s: Seq<char>, separator: Seq<char>)
    ensures
        split_spec(s, separator).len() > 0,
        join_spec(split_spec(s, separator), separator) == s,
    decreases s.len(),
{
    if let Some(i) = find_spec(s, separator) {
        if separator.len() > 0 {
            lemma_find_bound(s, separator);
            let rest = s.skip(i + separator.len());
            lemma_join_split(rest, separator);
            let pieces = split_spec(s, separator);
            assert(pieces.drop_first() =~= split_spec(rest, separator));
            assert(s =~= s.take(i) + s.subrange(i, i + separator.len()) + rest);
        }
    }
}

/// Splitting what was joined gives the pieces back, where none of them holds the separator.
pub proof fn lemma_split_join(pieces: Seq<Seq<char>>, separator: Seq<char>)
    requires
        starts_once(separator),
        pieces.len() > 0,
        forall|i: int|
            0 <= i < pieces.len() ==> find_spec(#[trigger] pieces[i], separator) is None,
    ensures
        split_spec(join_spec(pieces, separator), separator) == pieces,
    decreases pieces.len(),
{
    assert(find_spec(pieces[0], separator) is None);
    if pieces.len() == 1 {
        assert(pieces =~= seq![pieces[0]]);
    } else {
        let rest = pieces.drop_first();
        assert forall|i: int| 0 <= i < rest.len() implies find_spec(
            #[trigger] rest[i],
            separator,
        ) is None by {
            assert(rest[i] == pieces[i + 1]);
        }
        lemma_split_join(rest, separator);
        lemma_split_behind(pieces[0], separator, join_spec(rest, separator));
        assert(pieces =~= seq![pieces[0]] + rest);
    }
}

/// A character that a text does not hold is not found in it.
pub proof fn lemma_char_not_found(s: Seq<char>, c: char)
    requires
        forall|i: int| 0 <= i < s.len() ==> #[trigger] s[i] != c,
    ensures
        find_spec(s, seq![c]) is None,
{
    lemma_not_found(s, seq![c]);
    assert forall|i: int| !(#[trigger] occurs_at(s, seq![c], i)) by {
        if occurs_at(s, seq![c], i) {
            assert(s[i + 0] == seq![c][0]);
        }
    }
}

proof fn lemma_trim_start_concat(a: Seq<char>, b: Seq<char>)
    ensures
        trim_start(a).len() > 0 ==> trim_start(a + b) == trim_start(a) + b,
        trim_start(a).len() == 0 ==> trim_start(a + b) == trim_start(b),
    decreases a.len(),
{
    if a.len() == 0 {
        assert(a + b =~= b);
    } else if is_whitespace_spec(a[0]) {
        assert((a + b).drop_first() =~= a.drop_first() + b);
        lemma_trim_start_concat(a.drop_first(), b);
    }
}

proof fn lemma_word_len_concat(a: Seq<char>, b: Seq<char>)
    requires
        b.len() > 0 ==> is_whitespace_spec(b[0]),
    ensures
        word_len(a + b) == word_len(a),
    decreases a.len(),
{
    if a.len() == 0 {
        assert(a + b =~= b);
    } else if !is_whitespace_spec(a[0]) {
        assert((a + b).drop_first() =~= a.drop_first() + b);
        lemma_word_len_concat(a.drop_first(), b);
    }
}

/// A space ends a word.
pub proof fn lemma_words_across_space(a: Seq<char>, b: Seq<char>)
    ensures
        words_spec(a + seq![' '] + b) == words_spec(a) + words_spec(b),
    decreases a.len(),
{
    let tail = seq![' '] + b;
    let s = a + seq![' '] + b;
    assert(s =~= a + tail);
    lemma_trim_start_concat(a, tail);
    let t = trim_start(a);
    if t.len() == 0 {
        assert(tail.drop_first() =~= b);
        assert(trim_start(tail) == trim_start(b));
        assert(words_spec(s) =~= words_spec(a) + words_spec(b));
    } else {
        lemma_trim_start_len(a);
        lemma_word_len_bound(t);
        lemma_word_len_concat(t, tail);
        let n = word_len(t) as int;
        assert((t + tail).take(n) =~= t.take(n));
        assert((t + tail).skip(n) =~= t.skip(n) + seq![' '] + b);
        lemma_words_across_space(t.skip(n), b);
        assert(seq![t.take(n)] + (words_spec(t.skip(n)) + words_spec(b)) =~= (seq![t.take(n)]
            + words_spec(t.skip(n))) + words_spec(b));
    }
}

/// A text without white space is one word.
pub proof fn lemma_single_word(s: Seq<char>)
    requires
        s.len() > 0,
        forall|i: int| 0 <= i < s.len() ==> !is_whitespace_spec(#[trigger] s[i]),
    ensures
        words_spec(s) == seq![s],
{
    assert(trim_start(s) == s);
    lemma_word_len_all(s);
    assert(s.take(s.len() as int) =~= s);
    assert(s.skip(s.len() as int) =~= seq![]);
    assert(words_spec(seq![]) =~= Seq::<Seq<char>>::empty());
    assert(words_spec(s) =~= seq![s]);
}

proof fn lemma_word_len_all(s: Seq<char>)
    requires
        forall|i: int| 0 <= i < s.len() ==> !is_whitespace_spec(#[trigger] s[i]),
    ensures
        word_len(s) == s.len(),
    decreases s.len(),
{
    if s.len() > 0 {
        assert(!is_whitespace_spec(s[0]));
        assert forall|i: int| 0 <= i < s.drop_first().len() implies !is_whitespace_spec(
            #[trigger] s.drop_first()[i],
        ) by {
            assert(s.drop_first()[i] == s[i + 1]);
        }
        lemma_word_len_all(s.drop_first());
    }
}

proof fn lemma_word_has_no_space(s: Seq<char>)
    ensures
        forall|i: int| 0 <= i < word_len(s) ==> !is_whitespace_spec(#[trigger] s[i]),
        word_len(s) <= s.len(),
    decreases s.len(),
{
    if s.len() > 0 && !is_whitespace_spec(s[0]) {
        lemma_word_has_no_space(s.drop_first());
        assert forall|i: int| 0 <= i < word_len(s) implies !is_whitespace_spec(#[trigger] s[i]) by {
            if i > 0 {
                assert(s.drop_first()[i - 1] == s[i]);
            }
        }
    }
}

/// The words of a text in a row, one space apart, hold no white space but spaces.
pub proof fn lemma_joined_words_hold_spaces_only(s: Seq<char>, i: int)
    requires
        0 <= i < join_spec(words_spec(s), seq![' ']).len(),
    ensures
        ({
            let c = join_spec(words_spec(s), seq![' '])[i];
            is_whitespace_spec(c) ==> c == ' '
        }),
    decreases s.len(),
{
    let t = trim_start(s);
    if t.len() > 0 {
        lemma_trim_start_len(s);
        lemma_word_len_bound(t);
        lemma_word_has_no_space(t);
        let n = word_len(t) as int;
        let word = t.take(n);
        let rest = words_spec(t.skip(n));
        let all = words_spec(s);
        assert(all.drop_first() =~= rest);
        if i < n {
            assert(word[i] == t[i]);
            if rest.len() > 0 {
                assert(join_spec(all, seq![' '])[i] == word[i]);
            }
        } else if i > n {
            lemma_joined_words_hold_spaces_only(t.skip(n), i - n - 1);
        }
    }
}

/// White space in front of a text is trimmed off.
pub proof fn lemma_trim_behind_space(s: Seq<char>)
    ensures
        trim_spec(seq![' '] + s) == trim_spec(s),
{
    assert((seq![' '] + s).drop_first() =~= s);
}

/// What is joined can be joined in two parts.
pub proof fn lemma_join_in_parts(pieces: Seq<Seq<char>>, n: int, separator: Seq<char>)
    requires
        0 < n < pieces.len(),
    ensures
        join_spec(pieces, separator) == join_spec(pieces.take(n), separator) + separator
            + join_spec(pieces.skip(n), separator),
    decreases n,
{
    let rest = pieces.drop_first();
    if n == 1 {
        assert(pieces.take(1)[0] == pieces[0]);
        assert(pieces.skip(1) =~= rest);
    } else {
        lemma_join_in_parts(rest, n - 1, separator);
        assert(pieces.take(n).drop_first() =~= rest.take(n - 1));
        assert(pieces.skip(n) =~= rest.skip(n - 1));
        assert(join_spec(pieces, separator) =~= join_spec(pieces.take(n), separator) + separator
            + join_spec(pieces.skip(n), separator));
    }
}

/// What does not occur in a text does not occur in a part of it.
pub proof fn lemma_part_not_found(s: Seq<char>, from: int, to: int, pattern: Seq<char>)
    requires
        0 <= from <= to <= s.len(),
        find_spec(s, pattern) is None,
    ensures
        find_spec(s.subrange(from, to), pattern) is None,
{
    let part = s.subrange(from, to);
    lemma_not_found(s, pattern);
    lemma_not_found(part, pattern);
    assert forall|i: int| !(#[trigger] occurs_at(part, pattern, i)) by {
        if occurs_at(part, pattern, i) {
            assert forall|k: int| 0 <= k < pattern.len() implies s[from + i + k] == pattern[k] by {
                assert(part[i + k] == pattern[k]);
            }
            assert(occurs_at(s, pattern, from + i));
        }
    }
}

/// What is found in a text does not occur before the place where it is found.
pub proof fn lemma_not_found_before(s: Seq<char>, pattern: Seq<char>)
    requires
        pattern.len() > 0,
    ensures
        find_spec(s, pattern) matches Some(i) ==> find_spec(s.take(i), pattern) is None,
    decreases s.len(),
{
    if let Some(i) = find_spec(s, pattern) {
        lemma_find_bound(s, pattern);
        let before = s.take(i);
        if i > 0 {
            lemma_not_found_before(s.drop_first(), pattern);
            assert(before.drop_first() =~= s.drop_first().take(i - 1));
            if starts_with_spec(before, pattern) {
                assert(before.take(pattern.len() as int) =~= s.take(pattern.len() as int));
            }
        }
    }
}

/// No piece between separators holds the separator.
pub proof fn lemma_split_pieces(s: Seq<char>, separator: Seq<char>)
    requires
        separator.len() > 0,
    ensures
        forall|i: int|
            0 <= i < split_spec(s, separator).len() ==> find_spec(
                #[trigger] split_spec(s, separator)[i],
                separator,
            ) is None,
    decreases s.len(),
{
    if let Some(at) = find_spec(s, separator) {
        lemma_find_bound(s, separator);
        lemma_not_found_before(s, separator);
        let rest = s.skip(at + separator.len());
        lemma_split_pieces(rest, separator);
        let pieces = split_spec(s, separator);
        assert forall|i: int| 0 <= i < pieces.len() implies find_spec(
            #[trigger] pieces[i],
            separator,
        ) is None by {
            if i > 0 {
                assert(pieces[i] == split_spec(rest, separator)[i - 1]);
            }
        }
    }
}

proof fn lemma_trim_start_is_suffix(s: Seq<char>)
    ensures
        trim_start(s).len() <= s.len(),
        trim_start(s) == s.skip(s.len() - trim_start(s).len()),
    decreases s.len(),
{
    if s.len() > 0 && is_whitespace_spec(s[0]) {
        lemma_trim_start_is_suffix(s.drop_first());
        assert(trim_start(s) =~= s.skip(s.len() - trim_start(s).len()));
    } else {
        assert(s.skip(0) =~= s);
    }
}

proof fn lemma_trim_end_is_prefix(s: Seq<char>)
    ensures
        trim_end(s).len() <= s.len(),
        trim_end(s) == s.take(trim_end(s).len() as int),
        trim_end(s).len() > 0 ==> !is_whitespace_spec(trim_end(s).last()),
    decreases s.len(),
{
    if s.len() > 0 && is_whitespace_spec(s.last()) {
        lemma_trim_end_is_prefix(s.drop_last());
        assert(trim_end(s) =~= s.take(trim_end(s).len() as int));
    } else {
        assert(s.take(s.len() as int) =~= s);
    }
}

/// A trimmed text is a part of the text.
pub proof fn lemma_trim_is_part(s: Seq<char>) -> (r: (int, int))
    ensures
        0 <= r.0 <= r.1 <= s.len(),
        trim_spec(s) == s.subrange(r.0, r.1),
{
    let t = trim_start(s);
    lemma_trim_start_is_suffix(s);
    lemma_trim_end_is_prefix(t);
    let from = s.len() - t.len();
    let to = from + trim_spec(s).len();
    assert(trim_spec(s) =~= s.subrange(from, to));
    (from, to)
}

/// Trimming what is trimmed changes nothing.
pub proof fn lemma_trim_trimmed(s: Seq<char>)
    ensures
        trim_spec(trim_spec(s)) == trim_spec(s),
{
    let t = trim_start(s);
    lemma_trim_start_len(s);
    lemma_trim_end_is_prefix(t);
    let trimmed = trim_spec(s);
    if trimmed.len() > 0 {
        assert(trimmed[0] == t[0]);
    }
    assert(trim_start(trimmed) == trimmed);
    assert(trim_end(trimmed) == trimmed);
}

/// Whether `s` is a word: not empty, and without white space.
pub open spec fn is_word(s: Seq<char>) -> bool {
    s.len() > 0 && forall|i: int| 0 <= i < s.len() ==> !is_whitespace_spec(#[trigger] s[i])
}

/// The words of a text are words.
pub proof fn lemma_words_are_words(s: Seq<char>)
    ensures
        forall|i: int| 0 <= i < words_spec(s).len() ==> is_word(#[trigger] words_spec(s)[i]),
    decreases s.len(),
{
    let t = trim_start(s);
    if t.len() > 0 {
        lemma_trim_start_len(s);
        lemma_word_len_bound(t);
        lemma_word_has_no_space(t);
        let n = word_len(t) as int;
        let word = t.take(n);
        lemma_words_are_words(t.skip(n));
        let all = words_spec(s);
        assert forall|i: int| 0 <= i < all.len() implies is_word(#[trigger] all[i]) by {
            if i == 0 {
                assert(all[0] == word);
                assert forall|k: int| 0 <= k < word.len() implies !is_whitespace_spec(
                    #[trigger] word[k],
                ) by {
                    assert(word[k] == t[k]);
                }
            } else {
                assert(all[i] == words_spec(t.skip(n))[i - 1]);
            }
        }
    }
}

/// Words that are joined with spaces are the words of what is joined.
pub proof fn lemma_words_of_joined(words: Seq<Seq<char>>)
    requires
        forall|i: int| 0 <= i < words.len() ==> is_word(#[trigger] words[i]),
    ensures
        words_spec(join_spec(words, seq![' '])) == words,
    decreases words.len(),
{
    let joined = join_spec(words, seq![' ']);
    if words.len() == 0 {
        assert(trim_start(joined).len() == 0);
        assert(words_spec(joined) =~= words);
    } else {
        assert(is_word(words[0]));
        lemma_single_word(words[0]);
        if words.len() == 1 {
            assert(words =~= seq![words[0]]);
        } else {
            let rest = words.drop_first();
            assert forall|i: int| 0 <= i < rest.len() implies is_word(#[trigger] rest[i]) by {
                assert(rest[i] == words[i + 1]);
            }
            lemma_words_of_joined(rest);
            lemma_words_across_space(words[0], join_spec(rest, seq![' ']));
            assert(seq![words[0]] + rest =~= words);
        }
    }
}

} // verus!
