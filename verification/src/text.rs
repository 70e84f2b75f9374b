//! Characters and words: the whitespace rule that separates the words of a
//! command line, and the splitting of a line into its words.

use vstd::prelude::*;

verus! {

/// Whether `c` separates words: the code points with the Unicode property
/// `White_Space`.
pub open spec fn is_space(c: char) -> bool {
    let n = c as u32;
    ||| 0x09 <= n <= 0x0d
    ||| n == 0x20
    ||| n == 0x85
    ||| n == 0xa0
    ||| n == 0x1680
    ||| 0x2000 <= n <= 0x200a
    ||| n == 0x2028
    ||| n == 0x2029
    ||| n == 0x202f
    ||| n == 0x205f
    ||| n == 0x3000
}

/// The length of the longest prefix of `s` that holds no separator.
pub open spec fn word_len(s: Seq<char>) -> nat
    decreases s.len(),
{
    if s.len() == 0 || is_space(s[0]) {
        0
    } else {
        1 + word_len(s.skip(1))
    }
}

/// The words of `s`: its maximal runs of characters that are no separators,
/// from left to right.
pub open spec fn words(s: Seq<char>) -> Seq<Seq<char>>
    decreases s.len(),
{
    if s.len() == 0 {
        Seq::empty()
    } else if is_space(s[0]) {
        words(s.skip(1))
    } else {
        proof {
            lemma_word_len_bounds(s);
        }
        seq![s.take(word_len(s) as int)] + words(s.skip(word_len(s) as int))
    }
}

/// A word never runs past the end of the text, and is not empty where the
/// text starts with a character that is no separator.
pub proof fn lemma_word_len_bounds(s: Seq<char>)
    ensures
        word_len(s) <= s.len(),
        s.len() > 0 && !is_space(s[0]) ==> word_len(s) >= 1,
    decreases s.len(),
{
    if s.len() > 0 && !is_space(s[0]) {
        lemma_word_len_bounds(s.skip(1));
    }
}

/// A run of `k` characters without a separator that ends the text, or is
/// followed by a separator, is the first word.
pub proof fn lemma_word_len_is(s: Seq<char>, k: int)
    requires
        0 <= k <= s.len(),
        forall|i: int| 0 <= i < k ==> !is_space(#[trigger] s[i]),
        k < s.len() ==> is_space(s[k]),
    ensures
        word_len(s) == k,
    decreases k,
{
    if k > 0 {
        let t = s.skip(1);
        assert forall|i: int| 0 <= i < k - 1 implies !is_space(#[trigger] t[i]) by {
            assert(t[i] == s[i + 1]);
        }
        lemma_word_len_is(t, k - 1);
    }
}

/// Whether `w` can be a word: it is not empty and holds no separator.
pub open spec fn is_word(w: Seq<char>) -> bool {
    w.len() > 0 && forall|j: int| 0 <= j < w.len() ==> !is_space(#[trigger] w[j])
}

/// No character of the first word is a separator.
pub proof fn lemma_prefix_holds_no_space(s: Seq<char>)
    ensures
        forall|j: int| 0 <= j < word_len(s) ==> !is_space(#[trigger] s[j]),
    decreases s.len(),
{
    lemma_word_len_bounds(s);
    if s.len() > 0 && !is_space(s[0]) {
        let t = s.skip(1);
        lemma_prefix_holds_no_space(t);
        lemma_word_len_bounds(t);
        assert forall|j: int| 0 <= j < word_len(s) implies !is_space(#[trigger] s[j]) by {
            if j > 0 {
                assert(s[j] == t[j - 1]);
            }
        }
    }
}

/// Every word of a text is non-empty and holds no separator.
pub proof fn lemma_words_are_words(s: Seq<char>)
    ensures
        forall|i: int| 0 <= i < words(s).len() ==> is_word(#[trigger] words(s)[i]),
    decreases s.len(),
{
    if s.len() == 0 {
        assert(words(s).len() == 0);
    } else if is_space(s[0]) {
        lemma_words_are_words(s.skip(1));
        assert(words(s) == words(s.skip(1)));
    } else {
        lemma_word_len_bounds(s);
        let n = word_len(s) as int;
        lemma_words_are_words(s.skip(n));
        lemma_prefix_holds_no_space(s);
        let first = s.take(n);
        let rest = words(s.skip(n));
        assert(is_word(first)) by {
            assert forall|j: int| 0 <= j < first.len() implies !is_space(#[trigger] first[j]) by {
                assert(first[j] == s[j]);
            }
        }
        assert(words(s) == seq![first] + rest);
        assert forall|i: int| 0 <= i < words(s).len() implies is_word(#[trigger] words(s)[i]) by {
            if i > 0 {
                assert(words(s)[i] == rest[i - 1]);
            } else {
                assert(words(s)[0] == first);
            }
        }
    }
}

/// A word by itself is the one word of its text.
pub proof fn lemma_words_of_word(w: Seq<char>)
    requires
        is_word(w),
    ensures
        words(w) == seq![w],
{
    lemma_word_len_is(w, w.len() as int);
    assert(w.take(w.len() as int) =~= w);
    assert(w.skip(w.len() as int) =~= Seq::<char>::empty());
    assert(words(w.skip(w.len() as int)) =~= Seq::<Seq<char>>::empty());
    assert(seq![w] + Seq::<Seq<char>>::empty() =~= seq![w]);
}

/// A word, a separator and more text: the word is the first word, and the
/// words of the rest follow it.
pub proof fn lemma_words_after_word(w: Seq<char>, separator: char, rest: Seq<char>)
    requires
        is_word(w),
        is_space(separator),
    ensures
        words(w + seq![separator] + rest) == seq![w] + words(rest),
{
    let s = w + seq![separator] + rest;
    let k = w.len() as int;
    assert forall|i: int| 0 <= i < k implies !is_space(#[trigger] s[i]) by {
        assert(s[i] == w[i]);
    }
    assert(s[k] == separator);
    lemma_word_len_is(s, k);
    assert(s.take(k) =~= w);
    let tail = s.skip(k);
    assert(tail =~= seq![separator] + rest);
    assert(tail[0] == separator);
    assert(tail.skip(1) =~= rest);
    assert(words(tail) == words(rest));
}

/// The line that holds `items` with one space between them.
pub open spec fn line_of(items: Seq<Seq<char>>) -> Seq<char>
    decreases items.len(),
{
    if items.len() == 0 {
        Seq::empty()
    } else if items.len() == 1 {
        items[0]
    } else {
        items[0] + seq![' '] + line_of(items.drop_first())
    }
}

/// Splitting undoes joining: the words of a line made of words with one
/// space between them are those words.
pub proof fn lemma_words_of_line(items: Seq<Seq<char>>)
    requires
        forall|i: int| 0 <= i < items.len() ==> is_word(#[trigger] items[i]),
    ensures
        words(line_of(items)) == items,
    decreases items.len(),
{
    if items.len() == 0 {
        assert(words(line_of(items)) =~= items);
    } else if items.len() == 1 {
        lemma_words_of_word(items[0]);
        assert(seq![items[0]] =~= items);
    } else {
        let rest = items.drop_first();
        assert forall|i: int| 0 <= i < rest.len() implies is_word(#[trigger] rest[i]) by {
            assert(rest[i] == items[i + 1]);
        }
        lemma_words_of_line(rest);
        lemma_words_after_word(items[0], ' ', line_of(rest));
        assert(seq![items[0]] + rest =~= items);
    }
}

/// Decides `is_space`.
pub fn is_whitespace(c: char) -> (b: bool)
    ensures
        b == is_space(c),
{
    let n: u32 = c as u32;
    (0x09 <= n && n <= 0x0d) || n == 0x20 || n == 0x85 || n == 0xa0 || n == 0x1680 || (0x2000 <= n
        && n <= 0x200a) || n == 0x2028 || n == 0x2029 || n == 0x202f || n == 0x205f || n == 0x3000
}

/// The characters of `s`, in order.
pub fn chars_of(s: &str) -> (v: Vec<char>)
    ensures
        v@ == s@,
{
    let mut v: Vec<char> = Vec::new();
    let mut it = s.chars();
    for c in iter: it
        invariant
            v@ == iter.seq().take(iter.index() as int),
    {
        v.push(c);
    }
    v
}

/// Splits `line` into its words, as `words` defines them.
pub fn split_whitespace(line: &str) -> (out: Vec<String>)
    ensures
        out.deep_view() == words(line@),
{
    let chars = chars_of(line);
    let n = chars.len();
    let mut out: Vec<String> = Vec::new();
    let mut i: usize = 0;
    assert(line@.skip(0) =~= line@);
    assert(out.deep_view() =~= Seq::<Seq<char>>::empty());
    while i < n
        invariant
            chars@ == line@,
            n == chars.len(),
            i <= n,
            words(line@) == out.deep_view() + words(line@.skip(i as int)),
        decreases n - i,
    {
        let ghost rest = line@.skip(i as int);
        if is_whitespace(chars[i]) {
            assert(rest.skip(1) =~= line@.skip(i + 1));
            i += 1;
        } else {
            let start = i;
            let mut j: usize = i + 1;
            while j < n && !is_whitespace(chars[j])
                invariant
                    chars@ == line@,
                    n == chars.len(),
                    start < j <= n,
                    forall|k: int| start <= k < j ==> !is_space(#[trigger] line@[k]),
                decreases n - j,
            {
                j += 1;
            }
            let word = String::from_str(line.substring_char(start, j));
            proof {
                let k = j - start;
                assert forall|m: int| 0 <= m < k implies !is_space(#[trigger] rest[m]) by {
                    assert(rest[m] == line@[start + m]);
                }
                lemma_word_len_is(rest, k);
                assert(rest.take(k) =~= line@.subrange(start as int, j as int));
                assert(rest.skip(k) =~= line@.skip(j as int));
                assert(out.deep_view().push(word@) + words(line@.skip(j as int)) =~= out.deep_view()
                    + words(rest));
            }
            let ghost before = out.deep_view();
            out.push(word);
            assert(out.deep_view() =~= before.push(word@));
            i = j;
        }
    }
    assert(line@.skip(n as int) =~= Seq::<char>::empty());
    out
}

} // verus!
