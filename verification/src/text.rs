//! Characters, words and the splitting of a line at whitespace.
use vstd::prelude::*;

verus! {

/// Whether `c` carries the Unicode `White_Space` property.
pub open spec fn is_whitespace(c: char) -> bool {
    let n = c as u32;
    ||| 0x09 <= n <= 0x0D
    ||| n == 0x20
    ||| n == 0x85
    ||| n == 0xA0
    ||| n == 0x1680
    ||| 0x2000 <= n <= 0x200A
    ||| n == 0x2028
    ||| n == 0x2029
    ||| n == 0x202F
    ||| n == 0x205F
    ||| n == 0x3000
}

/// How many characters stand at the front of `s` before its first whitespace.
pub open spec fn word_len(s: Seq<char>) -> nat
    decreases s.len(),
{
    if s.len() == 0 || is_whitespace(s[0]) {
        0
    } else {
        1 + word_len(s.drop_first())
    }
}

/// The words of `s`: its maximal runs of characters that are not whitespace,
/// from left to right. No word is empty.
pub open spec fn tokens(s: Seq<char>) -> Seq<Seq<char>>
    decreases s.len(),
{
    if s.len() == 0 {
        Seq::empty()
    } else if is_whitespace(s[0]) {
        tokens(s.drop_first())
    } else {
        let n = word_len(s) as int;
        proof {
            lemma_word_len(s);
        }
        seq![s.take(n)] + tokens(s.skip(n))
    }
}

/// A word: at least one character, none of them whitespace.
pub open spec fn is_word(w: Seq<char>) -> bool {
    w.len() > 0 && forall|i: int| 0 <= i < w.len() ==> !is_whitespace(#[trigger] w[i])
}

/// The character sequences held by a vector of words.
pub open spec fn words_view(words: Seq<Vec<char>>) -> Seq<Seq<char>> {
    words.map_values(|w: Vec<char>| w@)
}

/// `word_len` stops at the first whitespace and not before.
pub proof fn lemma_word_len(s: Seq<char>)
    ensures
        word_len(s) <= s.len(),
        forall|i: int| 0 <= i < word_len(s) ==> !is_whitespace(#[trigger] s[i]),
        word_len(s) < s.len() ==> is_whitespace(s[word_len(s) as int]),
        s.len() > 0 && !is_whitespace(s[0]) ==> word_len(s) > 0,
    decreases s.len(),
{
    if s.len() > 0 && !is_whitespace(s[0]) {
        let rest = s.drop_first();
        lemma_word_len(rest);
        assert forall|i: int| 0 <= i < word_len(s) implies !is_whitespace(#[trigger] s[i]) by {
            if i > 0 {
                assert(s[i] == rest[i - 1]);
            }
        }
        if word_len(s) < s.len() {
            assert(s[word_len(s) as int] == rest[word_len(rest) as int]);
        }
    }
}

/// A run of `n` characters without whitespace that ends at whitespace, or
/// at the end of `s`, is the first word of `s`.
pub proof fn lemma_word_len_unique(s: Seq<char>, n: int)
    requires
        0 <= n <= s.len(),
        forall|i: int| 0 <= i < n ==> !is_whitespace(#[trigger] s[i]),
        n < s.len() ==> is_whitespace(s[n]),
    ensures
        word_len(s) == n,
    decreases n,
{
    if n > 0 {
        let rest = s.drop_first();
        assert forall|i: int| 0 <= i < n - 1 implies !is_whitespace(#[trigger] rest[i]) by {
            assert(rest[i] == s[i + 1]);
        }
        lemma_word_len_unique(rest, n - 1);
    }
}

/// Every word is non-empty and free of whitespace.
pub proof fn lemma_tokens_are_words(s: Seq<char>)
    ensures
        forall|k: int| 0 <= k < tokens(s).len() ==> is_word(#[trigger] tokens(s)[k]),
    decreases s.len(),
{
    if s.len() == 0 {
        assert(tokens(s).len() == 0);
    } else if is_whitespace(s[0]) {
        lemma_tokens_are_words(s.drop_first());
        assert(tokens(s) == tokens(s.drop_first()));
    } else {
        let n = word_len(s) as int;
        lemma_word_len(s);
        lemma_tokens_are_words(s.skip(n));
        let rest = tokens(s.skip(n));
        assert(tokens(s) == seq![s.take(n)] + rest);
        assert(is_word(s.take(n)));
        assert forall|k: int| 0 <= k < tokens(s).len() implies is_word(#[trigger] tokens(s)[k]) by {
            if k > 0 {
                assert(tokens(s)[k] == rest[k - 1]);
            }
        }
    }
}

/// The words written as one line: a single space between neighbours and a
/// newline at the end.
pub open spec fn joined(words: Seq<Seq<char>>) -> Seq<char>
    decreases words.len(),
{
    if words.len() == 0 {
        seq!['\n']
    } else if words.len() == 1 {
        words[0] + seq!['\n']
    } else {
        words[0] + seq![' '] + joined(words.drop_first())
    }
}

/// A word in front of whitespace is the first word of the whole.
pub proof fn lemma_tokens_after_word(w: Seq<char>, rest: Seq<char>)
    requires
        is_word(w),
        rest.len() > 0,
        is_whitespace(rest[0]),
    ensures
        tokens(w + rest) == seq![w] + tokens(rest),
{
    let s = w + rest;
    let n = w.len() as int;
    assert forall|i: int| 0 <= i < n implies !is_whitespace(#[trigger] s[i]) by {
        assert(s[i] == w[i]);
    }
    assert(s[n] == rest[0]);
    assert(s[0] == w[0]);
    lemma_word_len_unique(s, n);
    assert(s.take(n) == w);
    assert(s.skip(n) == rest);
}

/// Splitting undoes joining: a line written from words splits into those
/// words again.
pub proof fn lemma_tokens_of_joined(words: Seq<Seq<char>>)
    requires
        forall|k: int| 0 <= k < words.len() ==> is_word(#[trigger] words[k]),
    ensures
        tokens(joined(words)) == words,
    decreases words.len(),
{
    let newline = seq!['\n'];
    assert(tokens(newline) == Seq::<Seq<char>>::empty()) by {
        assert(is_whitespace(newline[0]));
        assert(newline.drop_first() == Seq::<char>::empty());
        assert(tokens(newline) == tokens(newline.drop_first()));
    }
    if words.len() == 0 {
    } else if words.len() == 1 {
        assert(is_word(words[0]));
        lemma_tokens_after_word(words[0], newline);
        assert(seq![words[0]] + Seq::<Seq<char>>::empty() == words);
    } else {
        let rest = words.drop_first();
        assert forall|k: int| 0 <= k < rest.len() implies is_word(#[trigger] rest[k]) by {
            assert(rest[k] == words[k + 1]);
        }
        lemma_tokens_of_joined(rest);
        let tail = seq![' '] + joined(rest);
        assert(is_whitespace(tail[0]));
        assert(tail.drop_first() == joined(rest));
        assert(tokens(tail) == tokens(tail.drop_first()));
        assert(is_word(words[0]));
        lemma_tokens_after_word(words[0], tail);
        assert(joined(words) == words[0] + tail);
        assert(seq![words[0]] + rest == words);
    }
}

/// Decides `is_whitespace` for one character.
pub fn is_space(c: char) -> (b: bool)
    ensures
        b == is_whitespace(c),
{
    let n: u32 = c as u32;
    (0x09 <= n && n <= 0x0D) || n == 0x20 || n == 0x85 || n == 0xA0 || n == 0x1680 || (0x2000 <= n
        && n <= 0x200A) || n == 0x2028 || n == 0x2029 || n == 0x202F || n == 0x205F || n == 0x3000
}

/// The characters of `s`, in order.
pub fn chars_of(s: &str) -> (v: Vec<char>)
    ensures
        v@ == s@,
{
    let mut v: Vec<char> = Vec::new();
    for c in it: s.chars()
        invariant
            v@ == it.seq().take(it.index()),
            it.seq() == s@,
    {
        v.push(c);
    }
    v
}

/// `String::push` appends the character to the end of the string. Trusted:
/// this is what the standard library documents of it; its body is not
/// verified here.
pub assume_specification[ String::push ](s: &mut String, ch: char)
    ensures
        final(s)@ == old(s)@.push(ch),
;

/// The string made of the characters of `chars`, in order.
pub fn string_of(chars: &Vec<char>) -> (s: String)
    ensures
        s@ == chars@,
{
    let mut s = String::new();
    let mut i: usize = 0;
    while i < chars.len()
        invariant
            i <= chars.len(),
            s@ == chars@.take(i as int),
        decreases chars.len() - i,
    {
        s.push(chars[i]);
        i += 1;
    }
    s
}

/// Splits `chars` into its words.
pub fn split_whitespace(chars: &Vec<char>) -> (words: Vec<Vec<char>>)
    ensures
        words_view(words@) == tokens(chars@),
{
    let mut words: Vec<Vec<char>> = Vec::new();
    let mut i: usize = 0;
    assert(chars@.skip(0) == chars@);
    assert(words_view(words@) + tokens(chars@) == tokens(chars@));
    while i < chars.len()
        invariant
            i <= chars.len(),
            tokens(chars@) == words_view(words@) + tokens(chars@.skip(i as int)),
        decreases chars.len() - i,
    {
        let ghost rest = chars@.skip(i as int);
        if is_space(chars[i]) {
            assert(rest.drop_first() == chars@.skip(i + 1));
            i += 1;
        } else {
            let start: usize = i;
            let mut word: Vec<char> = Vec::new();
            while i < chars.len() && !is_space(chars[i])
                invariant
                    start <= i <= chars.len(),
                    word@ == chars@.subrange(start as int, i as int),
                    forall|k: int| start <= k < i ==> !is_whitespace(#[trigger] chars@[k]),
                decreases chars.len() - i,
            {
                word.push(chars[i]);
                i += 1;
            }
            proof {
                let n = i - start;
                assert forall|k: int| 0 <= k < n implies !is_whitespace(#[trigger] rest[k]) by {
                    assert(rest[k] == chars@[start + k]);
                }
                lemma_word_len_unique(rest, n);
                assert(rest.take(n) == word@);
                assert(rest.skip(n) == chars@.skip(i as int));
                assert(words_view(words@.push(word)) == words_view(words@) + seq![word@]);
            }
            words.push(word);
        }
    }
    assert(chars@.skip(i as int) == Seq::<char>::empty());
    words
}

} // verus!
