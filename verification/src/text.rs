//! Text, as sequences of characters: the string functions that the RTSP grammar is made of.

use vstd::prelude::*;

verus! {

/// Unicode's `White_Space` property.
pub open spec fn is_whitespace_spec(c: char) -> bool {
    ||| '\u{9}' <= c <= '\u{d}'
    ||| c == '\u{20}'
    ||| c == '\u{85}'
    ||| c == '\u{a0}'
    ||| c == '\u{1680}'
    ||| '\u{2000}' <= c <= '\u{200a}'
    ||| c == '\u{2028}'
    ||| c == '\u{2029}'
    ||| c == '\u{202f}'
    ||| c == '\u{205f}'
    ||| c == '\u{3000}'
}

/// Whether a character is white space.
#[verifier::when_used_as_spec(is_whitespace_spec)]
pub fn is_whitespace(c: char) -> (r: bool)
    ensures
        r == is_whitespace_spec(c),
{
    ('\u{9}' <= c && c <= '\u{d}') || c == '\u{20}' || c == '\u{85}' || c == '\u{a0}' || c
        == '\u{1680}' || ('\u{2000}' <= c && c <= '\u{200a}') || c == '\u{2028}' || c == '\u{2029}'
        || c == '\u{202f}' || c == '\u{205f}' || c == '\u{3000}'
}

/// The end of a line: carriage return, line feed.
pub open spec fn crlf() -> Seq<char> {
    seq!['\r', '\n']
}

/// `s` without the white space that it starts with.
pub open spec fn trim_start(s: Seq<char>) -> Seq<char>
    decreases s.len(),
{
    if s.len() > 0 && is_whitespace(s[0]) {
        trim_start(s.drop_first())
    } else {
        s
    }
}

/// `s` without the white space that it ends with.
pub open spec fn trim_end(s: Seq<char>) -> Seq<char>
    decreases s.len(),
{
    if s.len() > 0 && is_whitespace(s.last()) {
        trim_end(s.drop_last())
    } else {
        s
    }
}

/// `s` without the white space around it.
pub open spec fn trim_spec(s: Seq<char>) -> Seq<char> {
    trim_end(trim_start(s))
}

/// Whether `s` starts with `prefix`.
pub open spec fn starts_with_spec(s: Seq<char>, prefix: Seq<char>) -> bool {
    prefix.len() <= s.len() && s.take(prefix.len() as int) == prefix
}

/// Where `pattern` occurs first in `s`.
pub open spec fn find_spec(s: Seq<char>, pattern: Seq<char>) -> Option<int>
    decreases s.len(),
{
    if starts_with_spec(s, pattern) {
        Some(0)
    } else if s.len() == 0 {
        None
    } else {
        match find_spec(s.drop_first(), pattern) {
            Some(i) => Some(i + 1),
            None => None,
        }
    }
}

/// The pieces of `s` between the occurrences of `separator`: always at least one.
pub open spec fn split_spec(s: Seq<char>, separator: Seq<char>) -> Seq<Seq<char>>
    decreases s.len(),
{
    match find_spec(s, separator) {
        Some(i) => if separator.len() == 0 {
            seq![s]
        } else {
            proof {
                lemma_find_bound(s, separator);
            }
            seq![s.take(i)] + split_spec(s.skip(i + separator.len()), separator)
        },
        None => seq![s],
    }
}

/// `words` in a row, with `separator` between any two of them.
pub open spec fn join_spec(words: Seq<Seq<char>>, separator: Seq<char>) -> Seq<char>
    decreases words.len(),
{
    if words.len() == 0 {
        seq![]
    } else if words.len() == 1 {
        words[0]
    } else {
        words[0] + separator + join_spec(words.drop_first(), separator)
    }
}

/// How many characters of `s` come before the first white space.
pub open spec fn word_len(s: Seq<char>) -> nat
    decreases s.len(),
{
    if s.len() > 0 && !is_whitespace(s[0]) {
        1 + word_len(s.drop_first())
    } else {
        0
    }
}

/// The longest runs of characters of `s` that are no white space, in order.
pub open spec fn words_spec(s: Seq<char>) -> Seq<Seq<char>>
    decreases s.len(),
{
    let t = trim_start(s);
    if t.len() == 0 {
        seq![]
    } else {
        proof {
            lemma_trim_start_len(s);
            lemma_word_len_bound(t);
        }
        seq![t.take(word_len(t) as int)] + words_spec(t.skip(word_len(t) as int))
    }
}

/// `s` without the copies of `prefix` that it starts with.
pub open spec fn strip_prefixes_spec(s: Seq<char>, prefix: Seq<char>) -> Seq<char>
    decreases s.len(),
{
    if prefix.len() > 0 && starts_with_spec(s, prefix) {
        strip_prefixes_spec(s.skip(prefix.len() as int), prefix)
    } else {
        s
    }
}

/// The characters of each piece.
pub open spec fn texts(pieces: Seq<&str>) -> Seq<Seq<char>> {
    pieces.map_values(|piece: &str| piece@)
}

pub proof fn lemma_find_bound(s: Seq<char>, pattern: Seq<char>)
    ensures
        find_spec(s, pattern) matches Some(i) ==> 0 <= i && i + pattern.len() <= s.len()
            && s.subrange(i, i + pattern.len()) == pattern,
    decreases s.len(),
{
    if starts_with_spec(s, pattern) {
        assert(s.subrange(0, pattern.len() as int) =~= pattern);
    } else if s.len() > 0 {
        lemma_find_bound(s.drop_first(), pattern);
        if let Some(i) = find_spec(s.drop_first(), pattern) {
            assert(s.subrange(i + 1, i + 1 + pattern.len()) =~= s.drop_first().subrange(
                i,
                i + pattern.len(),
            ));
        }
    }
}

pub proof fn lemma_trim_start_len(s: Seq<char>)
    ensures
        trim_start(s).len() <= s.len(),
        trim_start(s).len() > 0 ==> !is_whitespace(trim_start(s)[0]),
    decreases s.len(),
{
    if s.len() > 0 && is_whitespace(s[0]) {
        lemma_trim_start_len(s.drop_first());
    }
}

pub proof fn lemma_word_len_bound(s: Seq<char>)
    ensures
        word_len(s) <= s.len(),
        s.len() > 0 && !is_whitespace(s[0]) ==> word_len(s) > 0,
    decreases s.len(),
{
    if s.len() > 0 && !is_whitespace(s[0]) {
        lemma_word_len_bound(s.drop_first());
    }
}

/// The characters of `s`.
pub(crate) fn chars(s: &str) -> (r: Vec<char>)
    ensures
        r@ == s@,
{
    let mut r: Vec<char> = Vec::new();
    for c in it: s.chars()
        invariant
            r@ == it.seq().take(it.index() as int),
            it.seq() == s@,
    {
        r.push(c);
        assert(it.seq().take(it.index() + 1) =~= it.seq().take(it.index() as int).push(c));
    }
    assert(s@.take(s@.len() as int) =~= s@);
    r
}

/// Whether two texts are the same.
pub fn same_text(a: &str, b: &str) -> (r: bool)
    ensures
        r == (a@ == b@),
{
    let x = chars(a);
    let y = chars(b);
    assert(x@.skip(0) =~= x@);
    assert(x@.take(x@.len() as int) =~= x@);
    x.len() == y.len() && matches_at(&x, 0, &y)
}

/// Whether `pattern` stands at index `at` of `s`.
fn matches_at(s: &Vec<char>, at: usize, pattern: &Vec<char>) -> (r: bool)
    requires
        at <= s@.len(),
    ensures
        r == starts_with_spec(s@.skip(at as int), pattern@),
{
    if s.len() - at < pattern.len() {
        return false;
    }
    let mut i: usize = 0;
    while i < pattern.len()
        invariant
            i <= pattern.len(),
            at + pattern.len() <= s.len(),
            forall|k: int| 0 <= k < i ==> s@[at + k] == pattern@[k],
        decreases pattern.len() - i,
    {
        if s[at + i] != pattern[i] {
            assert(s@.skip(at as int).take(pattern@.len() as int)[i as int] == s@[at + i]);
            return false;
        }
        i += 1;
    }
    assert(s@.skip(at as int).take(pattern@.len() as int) =~= pattern@);
    true
}

/// Where `pattern` occurs first in `s` from index `start` on.
fn find_from(s: &Vec<char>, start: usize, pattern: &Vec<char>) -> (r: Option<usize>)
    requires
        start <= s@.len(),
    ensures
        match find_spec(s@.skip(start as int), pattern@) {
            Some(i) => r matches Some(at) && at == start + i && 0 <= i && at + pattern.len()
                <= s.len(),
            None => r is None,
        },
{
    let mut i: usize = start;
    loop
        invariant
            start <= i <= s@.len(),
            match find_spec(s@.skip(i as int), pattern@) {
                Some(k) => find_spec(s@.skip(start as int), pattern@) == Some(i - start + k),
                None => find_spec(s@.skip(start as int), pattern@) is None,
            },
        decreases s@.len() - i,
    {
        proof {
            lemma_find_bound(s@.skip(start as int), pattern@);
        }
        if matches_at(s, i, pattern) {
            return Some(i);
        }
        if i == s.len() {
            return None;
        }
        assert(s@.skip(i as int).drop_first() =~= s@.skip(i + 1));
        i += 1;
    }
}

/// Where `pattern` occurs first in `s`, in characters.
pub fn find(s: &str, pattern: &str) -> (r: Option<usize>)
    ensures
        match find_spec(s@, pattern@) {
            Some(i) => r matches Some(at) && at == i && at + pattern@.len() <= s@.len()
                <= usize::MAX,
            None => r is None,
        },
{
    let text = chars(s);
    assert(text@.skip(0) =~= s@);
    find_from(&text, 0, &chars(pattern))
}

/// Whether `s` starts with `prefix`.
pub fn starts_with(s: &str, prefix: &str) -> (r: bool)
    ensures
        r == starts_with_spec(s@, prefix@),
{
    let text = chars(s);
    assert(text@.skip(0) =~= s@);
    matches_at(&text, 0, &chars(prefix))
}

/// `s` without the white space around it.
pub fn trim(s: &str) -> (r: &str)
    ensures
        r@ == trim_spec(s@),
{
    let text = chars(s);
    let n: usize = text.len();
    let mut lo: usize = 0;
    assert(s@.skip(0) =~= s@);
    while lo < n && is_whitespace(text[lo])
        invariant
            lo <= n == s@.len(),
            text@ == s@,
            trim_start(s@) == trim_start(s@.skip(lo as int)),
        decreases n - lo,
    {
        assert(s@.skip(lo as int).drop_first() =~= s@.skip(lo + 1));
        lo += 1;
    }
    let ghost t = s@.skip(lo as int);
    assert(trim_start(s@) == t);
    let mut hi: usize = n;
    assert(s@.subrange(lo as int, hi as int) =~= t);
    while hi > lo && is_whitespace(text[hi - 1])
        invariant
            lo <= hi <= n == s@.len(),
            text@ == s@,
            trim_end(t) == trim_end(s@.subrange(lo as int, hi as int)),
        decreases hi,
    {
        assert(s@.subrange(lo as int, hi as int).drop_last() =~= s@.subrange(lo as int, hi - 1));
        hi -= 1;
    }
    s.substring_char(lo, hi)
}

/// The pieces of `s` between the occurrences of `separator`.
pub fn split<'a>(s: &'a str, separator: &str) -> (r: Vec<&'a str>)
    requires
        separator@.len() > 0,
    ensures
        texts(r@) == split_spec(s@, separator@),
        r@.len() > 0,
{
    let text = chars(s);
    let pattern = chars(separator);
    let mut pieces: Vec<&'a str> = Vec::new();
    let mut start: usize = 0;
    assert(s@.skip(0) =~= s@);
    assert(texts(pieces@) + split_spec(s@, separator@) =~= split_spec(s@, separator@));
    loop
        invariant
            start <= text.len(),
            text@ == s@,
            pattern@ == separator@,
            pattern.len() > 0,
            split_spec(s@, separator@) == texts(pieces@) + split_spec(
                s@.skip(start as int),
                separator@,
            ),
        decreases s@.len() - start,
    {
        let ghost before = texts(pieces@);
        let ghost rest = s@.skip(start as int);
        match find_from(&text, start, &pattern) {
            Some(at) => {
                let piece = s.substring_char(start, at);
                pieces.push(piece);
                start = at + pattern.len();
                proof {
                    let i = find_spec(rest, separator@)->0;
                    assert(piece@ =~= rest.take(i));
                    assert(rest.skip(i + separator@.len()) =~= s@.skip(start as int));
                    assert(texts(pieces@) =~= before.push(piece@));
                    assert(before + (seq![piece@] + split_spec(s@.skip(start as int), separator@))
                        =~= before.push(piece@) + split_spec(s@.skip(start as int), separator@));
                }
            },
            None => {
                let piece = s.substring_char(start, text.len());
                pieces.push(piece);
                assert(piece@ =~= rest);
                assert(texts(pieces@) =~= before + seq![rest]);
                return pieces;
            },
        }
    }
}

/// The longest runs of characters of `s` that are no white space, in order.
pub fn words<'a>(s: &'a str) -> (r: Vec<&'a str>)
    ensures
        texts(r@) == words_spec(s@),
{
    let text = chars(s);
    let n: usize = text.len();
    let mut found: Vec<&'a str> = Vec::new();
    let mut at: usize = 0;
    assert(s@.skip(0) =~= s@);
    assert(texts(found@) + words_spec(s@) =~= words_spec(s@));
    loop
        invariant
            at <= n == s@.len(),
            text@ == s@,
            words_spec(s@) == texts(found@) + words_spec(s@.skip(at as int)),
        decreases n - at,
    {
        let ghost before = texts(found@);
        let ghost rest = s@.skip(at as int);
        let ghost t = trim_start(rest);
        let mut start: usize = at;
        while start < n && is_whitespace(text[start])
            invariant
                at <= start <= n == s@.len(),
                text@ == s@,
                t == trim_start(s@.skip(start as int)),
            decreases n - start,
        {
            assert(s@.skip(start as int).drop_first() =~= s@.skip(start + 1));
            start += 1;
        }
        assert(t == s@.skip(start as int));
        if start == n {
            assert(words_spec(rest) =~= seq![]);
            assert(before + words_spec(rest) =~= before);
            return found;
        }
        let mut end: usize = start;
        while end < n && !is_whitespace(text[end])
            invariant
                start <= end <= n == s@.len(),
                text@ == s@,
                t == s@.skip(start as int),
                word_len(t) == end - start + word_len(s@.skip(end as int)),
            decreases n - end,
        {
            assert(s@.skip(end as int).drop_first() =~= s@.skip(end + 1));
            end += 1;
        }
        let word = s.substring_char(start, end);
        found.push(word);
        proof {
            lemma_word_len_bound(t);
            assert(word@ =~= t.take(word_len(t) as int));
            assert(t.skip(word_len(t) as int) =~= s@.skip(end as int));
            assert(texts(found@) =~= before.push(word@));
            assert(before + (seq![word@] + words_spec(s@.skip(end as int))) =~= before.push(word@)
                + words_spec(s@.skip(end as int)));
        }
        at = end;
    }
}

/// The words from index `from` on in a row, with `separator` between any two of them.
pub fn join_from(words: &Vec<&str>, from: usize, separator: &str) -> (r: String)
    requires
        from <= words@.len(),
    ensures
        r@ == join_spec(texts(words@).skip(from as int), separator@),
{
    let ghost all = texts(words@);
    let mut r = String::new();
    if from == words.len() {
        return r;
    }
    r.append(words[from]);
    let mut i: usize = from + 1;
    assert(all.skip(from as int).drop_first() =~= all.skip(from + 1));
    while i < words.len()
        invariant
            from < i <= words@.len(),
            all == texts(words@),
            join_spec(all.skip(from as int), separator@) == r@ + (if i == words@.len() {
                seq![]
            } else {
                separator@ + join_spec(all.skip(i as int), separator@)
            }),
        decreases words@.len() - i,
    {
        let ghost before = r@;
        r.append(separator);
        r.append(words[i]);
        proof {
            assert(all.skip(i as int).drop_first() =~= all.skip(i + 1));
            let rest: Seq<char> = if i + 1 == words@.len() {
                seq![]
            } else {
                separator@ + join_spec(all.skip(i + 1), separator@)
            };
            assert(join_spec(all.skip(i as int), separator@) =~= words@[i as int]@ + rest);
            assert(before + (separator@ + (words@[i as int]@ + rest)) =~= before + separator@
                + words@[i as int]@ + rest);
        }
        i += 1;
    }
    assert(r@ + Seq::<char>::empty() =~= r@);
    r
}

/// `s` without the copies of `prefix` that it starts with.
pub fn strip_prefixes<'a>(s: &'a str, prefix: &str) -> (r: &'a str)
    requires
        prefix@.len() > 0,
    ensures
        r@ == strip_prefixes_spec(s@, prefix@),
{
    let text = chars(s);
    let pattern = chars(prefix);
    let mut at: usize = 0;
    assert(s@.skip(0) =~= s@);
    while matches_at(&text, at, &pattern)
        invariant
            at <= text.len(),
            text@ == s@,
            pattern@ == prefix@,
            pattern.len() > 0,
            strip_prefixes_spec(s@, prefix@) == strip_prefixes_spec(s@.skip(at as int), prefix@),
        decreases s@.len() - at,
    {
        assert(s@.skip(at as int).skip(prefix@.len() as int) =~= s@.skip(at + prefix@.len()));
        at += pattern.len();
    }
    s.substring_char(at, text.len())
}

} // verus!
