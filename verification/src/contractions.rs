use vstd::prelude::*;

use crate::text::{all_space, chars_of, copy_range, is_space_char, push_chars, string_of};

verus! {

broadcast use vstd::string::group_string_axioms;

// English contractions are expanded word by word before normalization, so
// that the English transducers see "do not" where the text says "don't".
// A word is a maximal run of ASCII letters and apostrophes. A word that
// matches an entry of the table, ignoring the case of its letters, is
// replaced by the entry's expansion; the expansion starts with a capital
// letter when the word does. Every other character stays as it is.

/// The contractions that are expanded: the contraction in lower case, its
/// expansion, and its expansion with a capital first letter.
pub open spec fn contraction_table() -> Seq<(Seq<char>, Seq<char>, Seq<char>)> {
    seq![
        ("aren't"@, "are not"@, "Are not"@),
        ("can't"@, "cannot"@, "Cannot"@),
        ("couldn't"@, "could not"@, "Could not"@),
        ("didn't"@, "did not"@, "Did not"@),
        ("doesn't"@, "does not"@, "Does not"@),
        ("don't"@, "do not"@, "Do not"@),
        ("hadn't"@, "had not"@, "Had not"@),
        ("hasn't"@, "has not"@, "Has not"@),
        ("haven't"@, "have not"@, "Have not"@),
        ("isn't"@, "is not"@, "Is not"@),
        ("mightn't"@, "might not"@, "Might not"@),
        ("mustn't"@, "must not"@, "Must not"@),
        ("needn't"@, "need not"@, "Need not"@),
        ("shan't"@, "shall not"@, "Shall not"@),
        ("shouldn't"@, "should not"@, "Should not"@),
        ("wasn't"@, "was not"@, "Was not"@),
        ("weren't"@, "were not"@, "Were not"@),
        ("won't"@, "will not"@, "Will not"@),
        ("wouldn't"@, "would not"@, "Would not"@),
        ("i'm"@, "i am"@, "I am"@),
        ("i've"@, "i have"@, "I have"@),
        ("i'll"@, "i will"@, "I will"@),
        ("i'd"@, "i would"@, "I would"@),
        ("you're"@, "you are"@, "You are"@),
        ("you've"@, "you have"@, "You have"@),
        ("you'll"@, "you will"@, "You will"@),
        ("you'd"@, "you would"@, "You would"@),
        ("he's"@, "he is"@, "He is"@),
        ("he'll"@, "he will"@, "He will"@),
        ("he'd"@, "he would"@, "He would"@),
        ("she's"@, "she is"@, "She is"@),
        ("she'll"@, "she will"@, "She will"@),
        ("she'd"@, "she would"@, "She would"@),
        ("it's"@, "it is"@, "It is"@),
        ("it'll"@, "it will"@, "It will"@),
        ("we're"@, "we are"@, "We are"@),
        ("we've"@, "we have"@, "We have"@),
        ("we'll"@, "we will"@, "We will"@),
        ("we'd"@, "we would"@, "We would"@),
        ("they're"@, "they are"@, "They are"@),
        ("they've"@, "they have"@, "They have"@),
        ("they'll"@, "they will"@, "They will"@),
        ("they'd"@, "they would"@, "They would"@),
        ("that's"@, "that is"@, "That is"@),
        ("there's"@, "there is"@, "There is"@),
        ("what's"@, "what is"@, "What is"@),
        ("who's"@, "who is"@, "Who is"@),
        ("let's"@, "let us"@, "Let us"@)
    ]
}

/// A character of a word.
pub open spec fn is_word_char(c: char) -> bool {
    ('a' <= c <= 'z') || ('A' <= c <= 'Z') || c == '\''
}

/// `c` is `k`, or the capital form of the lower-case letter `k`.
pub open spec fn letter_matches(c: char, k: char) -> bool {
    c == k || ('a' <= k <= 'z' && 'A' <= c <= 'Z' && (c as u32) + 32 == (k as u32))
}

/// `w` spells `key` when the case of its letters is ignored (`key` being in
/// lower case).
pub open spec fn word_matches(w: Seq<char>, key: Seq<char>) -> bool {
    w.len() == key.len() && forall|i: int| 0 <= i < w.len() ==> letter_matches(#[trigger] w[i], key[i])
}

/// The index of the first entry of the table from `i` on that `w` matches.
pub open spec fn entry_from(w: Seq<char>, i: int) -> Option<int>
    decreases contraction_table().len() - i,
{
    if i < 0 || i >= contraction_table().len() {
        None
    } else if word_matches(w, contraction_table()[i].0) {
        Some(i)
    } else {
        entry_from(w, i + 1)
    }
}

/// What the word `w` becomes.
pub open spec fn expand_word(w: Seq<char>) -> Seq<char> {
    match entry_from(w, 0) {
        Some(i) => if w.len() > 0 && 'A' <= w[0] <= 'Z' {
            contraction_table()[i].2
        } else {
            contraction_table()[i].1
        },
        None => w,
    }
}

/// The first position at or after `i` that holds no word character.
pub open spec fn word_end(s: Seq<char>, i: int) -> int
    decreases s.len() - i,
{
    if 0 <= i < s.len() && is_word_char(s[i]) {
        word_end(s, i + 1)
    } else {
        i
    }
}

pub proof fn lemma_word_end(s: Seq<char>, i: int)
    requires
        0 <= i <= s.len(),
    ensures
        i <= word_end(s, i) <= s.len(),
        i < s.len() && is_word_char(s[i]) ==> word_end(s, i) > i,
    decreases s.len() - i,
{
    if i < s.len() && is_word_char(s[i]) {
        lemma_word_end(s, i + 1);
    }
}

/// The text from position `i` on, with its contractions expanded.
pub open spec fn expanded_from(s: Seq<char>, i: int) -> Seq<char>
    decreases s.len() - i,
{
    if i < 0 || i >= s.len() {
        Seq::empty()
    } else if is_word_char(s[i]) {
        let j = word_end(s, i);
        proof {
            lemma_word_end(s, i);
        }
        expand_word(s.subrange(i, j)) + expanded_from(s, j)
    } else {
        seq![s[i]] + expanded_from(s, i + 1)
    }
}

/// `s` with its contractions expanded.
pub open spec fn expand_contractions(s: Seq<char>) -> Seq<char> {
    expanded_from(s, 0)
}

/// Every contraction of the table holds an apostrophe.
proof fn lemma_table_keys_have_apostrophe(i: int)
    requires
        0 <= i < contraction_table().len(),
    ensures
        contraction_table()[i].0.contains('\''),
{
    if i == 0 {
        reveal_strlit("aren't");
        assert(contraction_table()[i].0[4] == '\'');
    } else if i == 1 {
        reveal_strlit("can't");
        assert(contraction_table()[i].0[3] == '\'');
    } else if i == 2 {
        reveal_strlit("couldn't");
        assert(contraction_table()[i].0[6] == '\'');
    } else if i == 3 {
        reveal_strlit("didn't");
        assert(contraction_table()[i].0[4] == '\'');
    } else if i == 4 {
        reveal_strlit("doesn't");
        assert(contraction_table()[i].0[5] == '\'');
    } else if i == 5 {
        reveal_strlit("don't");
        assert(contraction_table()[i].0[3] == '\'');
    } else if i == 6 {
        reveal_strlit("hadn't");
        assert(contraction_table()[i].0[4] == '\'');
    } else if i == 7 {
        reveal_strlit("hasn't");
        assert(contraction_table()[i].0[4] == '\'');
    } else if i == 8 {
        reveal_strlit("haven't");
        assert(contraction_table()[i].0[5] == '\'');
    } else if i == 9 {
        reveal_strlit("isn't");
        assert(contraction_table()[i].0[3] == '\'');
    } else if i == 10 {
        reveal_strlit("mightn't");
        assert(contraction_table()[i].0[6] == '\'');
    } else if i == 11 {
        reveal_strlit("mustn't");
        assert(contraction_table()[i].0[5] == '\'');
    } else if i == 12 {
        reveal_strlit("needn't");
        assert(contraction_table()[i].0[5] == '\'');
    } else if i == 13 {
        reveal_strlit("shan't");
        assert(contraction_table()[i].0[4] == '\'');
    } else if i == 14 {
        reveal_strlit("shouldn't");
        assert(contraction_table()[i].0[7] == '\'');
    } else if i == 15 {
        reveal_strlit("wasn't");
        assert(contraction_table()[i].0[4] == '\'');
    } else if i == 16 {
        reveal_strlit("weren't");
        assert(contraction_table()[i].0[5] == '\'');
    } else if i == 17 {
        reveal_strlit("won't");
        assert(contraction_table()[i].0[3] == '\'');
    } else if i == 18 {
        reveal_strlit("wouldn't");
        assert(contraction_table()[i].0[6] == '\'');
    } else if i == 19 {
        reveal_strlit("i'm");
        assert(contraction_table()[i].0[1] == '\'');
    } else if i == 20 {
        reveal_strlit("i've");
        assert(contraction_table()[i].0[1] == '\'');
    } else if i == 21 {
        reveal_strlit("i'll");
        assert(contraction_table()[i].0[1] == '\'');
    } else if i == 22 {
        reveal_strlit("i'd");
        assert(contraction_table()[i].0[1] == '\'');
    } else if i == 23 {
        reveal_strlit("you're");
        assert(contraction_table()[i].0[3] == '\'');
    } else if i == 24 {
        reveal_strlit("you've");
        assert(contraction_table()[i].0[3] == '\'');
    } else if i == 25 {
        reveal_strlit("you'll");
        assert(contraction_table()[i].0[3] == '\'');
    } else if i == 26 {
        reveal_strlit("you'd");
        assert(contraction_table()[i].0[3] == '\'');
    } else if i == 27 {
        reveal_strlit("he's");
        assert(contraction_table()[i].0[2] == '\'');
    } else if i == 28 {
        reveal_strlit("he'll");
        assert(contraction_table()[i].0[2] == '\'');
    } else if i == 29 {
        reveal_strlit("he'd");
        assert(contraction_table()[i].0[2] == '\'');
    } else if i == 30 {
        reveal_strlit("she's");
        assert(contraction_table()[i].0[3] == '\'');
    } else if i == 31 {
        reveal_strlit("she'll");
        assert(contraction_table()[i].0[3] == '\'');
    } else if i == 32 {
        reveal_strlit("she'd");
        assert(contraction_table()[i].0[3] == '\'');
    } else if i == 33 {
        reveal_strlit("it's");
        assert(contraction_table()[i].0[2] == '\'');
    } else if i == 34 {
        reveal_strlit("it'll");
        assert(contraction_table()[i].0[2] == '\'');
    } else if i == 35 {
        reveal_strlit("we're");
        assert(contraction_table()[i].0[2] == '\'');
    } else if i == 36 {
        reveal_strlit("we've");
        assert(contraction_table()[i].0[2] == '\'');
    } else if i == 37 {
        reveal_strlit("we'll");
        assert(contraction_table()[i].0[2] == '\'');
    } else if i == 38 {
        reveal_strlit("we'd");
        assert(contraction_table()[i].0[2] == '\'');
    } else if i == 39 {
        reveal_strlit("they're");
        assert(contraction_table()[i].0[4] == '\'');
    } else if i == 40 {
        reveal_strlit("they've");
        assert(contraction_table()[i].0[4] == '\'');
    } else if i == 41 {
        reveal_strlit("they'll");
        assert(contraction_table()[i].0[4] == '\'');
    } else if i == 42 {
        reveal_strlit("they'd");
        assert(contraction_table()[i].0[4] == '\'');
    } else if i == 43 {
        reveal_strlit("that's");
        assert(contraction_table()[i].0[4] == '\'');
    } else if i == 44 {
        reveal_strlit("there's");
        assert(contraction_table()[i].0[5] == '\'');
    } else if i == 45 {
        reveal_strlit("what's");
        assert(contraction_table()[i].0[4] == '\'');
    } else if i == 46 {
        reveal_strlit("who's");
        assert(contraction_table()[i].0[3] == '\'');
    } else if i == 47 {
        reveal_strlit("let's");
        assert(contraction_table()[i].0[3] == '\'');
    }
}

/// A word without an apostrophe matches no entry of the table.
proof fn lemma_no_entry_without_apostrophe(w: Seq<char>, i: int)
    requires
        !w.contains('\''),
    ensures
        entry_from(w, i) is None,
    decreases contraction_table().len() - i,
{
    if 0 <= i < contraction_table().len() {
        lemma_table_keys_have_apostrophe(i);
        let key = contraction_table()[i].0;
        if word_matches(w, key) {
            let m = choose|m: int| 0 <= m < key.len() && key[m] == '\'';
            assert(letter_matches(w[m], key[m]));
            assert(w[m] == '\'');
        }
        lemma_no_entry_without_apostrophe(w, i + 1);
    }
}

/// Expanding contractions leaves a text without apostrophes as it is.
pub proof fn lemma_no_apostrophe_unchanged(s: Seq<char>)
    requires
        !s.contains('\''),
    ensures
        expand_contractions(s) == s,
{
    lemma_expanded_from_unchanged(s, 0);
    assert(s.subrange(0, s.len() as int) =~= s);
}

proof fn lemma_expanded_from_unchanged(s: Seq<char>, i: int)
    requires
        !s.contains('\''),
        0 <= i <= s.len(),
    ensures
        expanded_from(s, i) == s.subrange(i, s.len() as int),
    decreases s.len() - i,
{
    if i < s.len() {
        if is_word_char(s[i]) {
            let j = word_end(s, i);
            lemma_word_end(s, i);
            let w = s.subrange(i, j);
            assert(!w.contains('\'')) by {
                if w.contains('\'') {
                    let m = choose|m: int| 0 <= m < w.len() && w[m] == '\'';
                    assert(s[i + m] == '\'');
                }
            }
            lemma_no_entry_without_apostrophe(w, 0);
            lemma_expanded_from_unchanged(s, j);
            assert(w + s.subrange(j, s.len() as int) =~= s.subrange(i, s.len() as int));
        } else {
            lemma_expanded_from_unchanged(s, i + 1);
            assert(seq![s[i]] + s.subrange(i + 1, s.len() as int) =~= s.subrange(i, s.len() as int));
        }
    } else {
        assert(s.subrange(i, s.len() as int) =~= Seq::<char>::empty());
    }
}

/// White space is not part of words.
proof fn lemma_space_not_word(c: char)
    requires
        is_space_char(c),
    ensures
        !is_word_char(c),
        c != '\'',
{
}

proof fn lemma_word_end_shift(p: Seq<char>, x: Seq<char>, i: int)
    requires
        0 <= i <= x.len(),
    ensures
        word_end(p + x, p.len() + i) == p.len() + word_end(x, i),
    decreases x.len() - i,
{
    if i < x.len() {
        assert((p + x)[p.len() + i] == x[i]);
        if is_word_char(x[i]) {
            lemma_word_end_shift(p, x, i + 1);
        }
    }
}

proof fn lemma_word_end_before_space(x: Seq<char>, q: Seq<char>, i: int)
    requires
        0 <= i <= x.len(),
        all_space(q),
    ensures
        word_end(x + q, i) == word_end(x, i),
    decreases x.len() - i,
{
    if i < x.len() {
        assert((x + q)[i] == x[i]);
        if is_word_char(x[i]) {
            lemma_word_end_before_space(x, q, i + 1);
        }
    } else if q.len() > 0 {
        assert((x + q)[i] == q[0]);
        lemma_space_not_word(q[0]);
    }
}

proof fn lemma_expanded_shift(p: Seq<char>, x: Seq<char>, i: int)
    requires
        0 <= i <= x.len(),
    ensures
        expanded_from(p + x, p.len() + i) == expanded_from(x, i),
    decreases x.len() - i,
{
    if i < x.len() {
        assert((p + x)[p.len() + i] == x[i]);
        if is_word_char(x[i]) {
            lemma_word_end_shift(p, x, i);
            lemma_word_end(x, i);
            let j = word_end(x, i);
            assert((p + x).subrange(p.len() + i, p.len() + j) =~= x.subrange(i, j));
            lemma_expanded_shift(p, x, j);
        } else {
            lemma_expanded_shift(p, x, i + 1);
        }
    }
}

proof fn lemma_expanded_before_space(x: Seq<char>, q: Seq<char>, i: int)
    requires
        0 <= i <= x.len(),
        all_space(q),
    ensures
        expanded_from(x + q, i) == expanded_from(x, i) + q,
    decreases x.len() + q.len() - i,
{
    let s = x + q;
    if i < x.len() {
        assert(s[i] == x[i]);
        if is_word_char(x[i]) {
            lemma_word_end_before_space(x, q, i);
            lemma_word_end(x, i);
            let j = word_end(x, i);
            assert(s.subrange(i, j) =~= x.subrange(i, j));
            lemma_expanded_before_space(x, q, j);
            assert(expand_word(x.subrange(i, j)) + (expanded_from(x, j) + q) =~= (expand_word(
                x.subrange(i, j),
            ) + expanded_from(x, j)) + q);
        } else {
            lemma_expanded_before_space(x, q, i + 1);
            assert(seq![x[i]] + (expanded_from(x, i + 1) + q) =~= (seq![x[i]] + expanded_from(x, i + 1)) + q);
        }
    } else {
        assert(expanded_from(x, i) =~= Seq::<char>::empty());
        assert(!q.contains('\'')) by {
            if q.contains('\'') {
                let m = choose|m: int| 0 <= m < q.len() && q[m] == '\'';
                lemma_space_not_word(q[m]);
            }
        }
        lemma_no_apostrophe_unchanged(q);
        lemma_expanded_shift(x, q, 0);
        assert(s.subrange(i, s.len() as int) =~= q);
        assert(Seq::<char>::empty() + q =~= q);
    }
}

/// Expanding contractions leaves white space around a text alone.
pub proof fn lemma_expand_padded(p: Seq<char>, m: Seq<char>, q: Seq<char>)
    requires
        all_space(p),
        all_space(q),
    ensures
        expand_contractions(p + m + q) == p + expand_contractions(m) + q,
{
    lemma_expanded_before_space(p + m, q, 0);
    lemma_expanded_front(p, m, 0);
    lemma_expanded_shift(p, m, 0);
    assert(p.subrange(0, p.len() as int) =~= p);
}

proof fn lemma_expanded_front(p: Seq<char>, m: Seq<char>, k: int)
    requires
        all_space(p),
        0 <= k <= p.len(),
    ensures
        expanded_from(p + m, k) == p.subrange(k, p.len() as int) + expanded_from(p + m, p.len() as int),
    decreases p.len() - k,
{
    if k < p.len() {
        assert((p + m)[k] == p[k]);
        lemma_space_not_word(p[k]);
        lemma_expanded_front(p, m, k + 1);
        assert(seq![p[k]] + (p.subrange(k + 1, p.len() as int) + expanded_from(p + m, p.len() as int))
            =~= p.subrange(k, p.len() as int) + expanded_from(p + m, p.len() as int));
    } else {
        assert(p.subrange(k, p.len() as int) + expanded_from(p + m, p.len() as int) =~= expanded_from(
            p + m,
            p.len() as int,
        ));
    }
}

/// The contraction table, as executable data.
fn table() -> (t: &'static [(&'static str, &'static str, &'static str)])
    ensures
        t@.len() == contraction_table().len(),
        forall|i: int|
            0 <= i < t@.len() ==> (#[trigger] t@[i]).0@ == contraction_table()[i].0 && t@[i].1@
                == contraction_table()[i].1 && t@[i].2@ == contraction_table()[i].2,
{
    &[
        ("aren't", "are not", "Are not"),
        ("can't", "cannot", "Cannot"),
        ("couldn't", "could not", "Could not"),
        ("didn't", "did not", "Did not"),
        ("doesn't", "does not", "Does not"),
        ("don't", "do not", "Do not"),
        ("hadn't", "had not", "Had not"),
        ("hasn't", "has not", "Has not"),
        ("haven't", "have not", "Have not"),
        ("isn't", "is not", "Is not"),
        ("mightn't", "might not", "Might not"),
        ("mustn't", "must not", "Must not"),
        ("needn't", "need not", "Need not"),
        ("shan't", "shall not", "Shall not"),
        ("shouldn't", "should not", "Should not"),
        ("wasn't", "was not", "Was not"),
        ("weren't", "were not", "Were not"),
        ("won't", "will not", "Will not"),
        ("wouldn't", "would not", "Would not"),
        ("i'm", "i am", "I am"),
        ("i've", "i have", "I have"),
        ("i'll", "i will", "I will"),
        ("i'd", "i would", "I would"),
        ("you're", "you are", "You are"),
        ("you've", "you have", "You have"),
        ("you'll", "you will", "You will"),
        ("you'd", "you would", "You would"),
        ("he's", "he is", "He is"),
        ("he'll", "he will", "He will"),
        ("he'd", "he would", "He would"),
        ("she's", "she is", "She is"),
        ("she'll", "she will", "She will"),
        ("she'd", "she would", "She would"),
        ("it's", "it is", "It is"),
        ("it'll", "it will", "It will"),
        ("we're", "we are", "We are"),
        ("we've", "we have", "We have"),
        ("we'll", "we will", "We will"),
        ("we'd", "we would", "We would"),
        ("they're", "they are", "They are"),
        ("they've", "they have", "They have"),
        ("they'll", "they will", "They will"),
        ("they'd", "they would", "They would"),
        ("that's", "that is", "That is"),
        ("there's", "there is", "There is"),
        ("what's", "what is", "What is"),
        ("who's", "who is", "Who is"),
        ("let's", "let us", "Let us")
    ]
}

/// Whether `w` matches the table key `key` (see [`word_matches`]).
fn matches_key(w: &[char], key: &str) -> (r: bool)
    ensures
        r == word_matches(w@, key@),
{
    let k = chars_of(key);
    if w.len() != k.len() {
        return false;
    }
    let n = w.len();
    for i in 0..n
        invariant
            n == w@.len() == k@.len(),
            k@ == key@,
            forall|m: int| 0 <= m < i ==> letter_matches(#[trigger] w@[m], k@[m]),
    {
        let c = w[i];
        let d = k[i];
        if !(c == d || ('a' <= d && d <= 'z' && 'A' <= c && c <= 'Z' && (c as u32) + 32 == (d as u32))) {
            assert(!letter_matches(w@[i as int], k@[i as int]));
            return false;
        }
    }
    true
}

/// The index of the table entry that `w` matches first, if any.
fn find_entry(w: &[char]) -> (r: Option<usize>)
    ensures
        match r {
            Some(i) => entry_from(w@, 0) == Some(i as int) && (i as int) < contraction_table().len(),
            None => entry_from(w@, 0) is None,
        },
{
    let t = table();
    let n = t.len();
    for i in 0..n
        invariant
            n == t@.len() == contraction_table().len(),
            forall|m: int|
                0 <= m < t@.len() ==> (#[trigger] t@[m]).0@ == contraction_table()[m].0 && t@[m].1@
                    == contraction_table()[m].1 && t@[m].2@ == contraction_table()[m].2,
            entry_from(w@, 0) == entry_from(w@, i as int),
    {
        if matches_key(w, t[i].0) {
            return Some(i);
        }
    }
    None
}

/// Appends what the word `w` becomes (see [`expand_word`]).
fn push_expanded_word(out: &mut Vec<char>, w: &[char])
    ensures
        final(out)@ == old(out)@ + expand_word(w@),
{
    match find_entry(w) {
        Some(i) => {
            let t = table();
            let e = if w.len() > 0 && 'A' <= w[0] && w[0] <= 'Z' {
                t[i].2
            } else {
                t[i].1
            };
            let ev = chars_of(e);
            push_chars(out, ev.as_slice());
        },
        None => {
            push_chars(out, w);
        },
    }
}

/// Expands the English contractions of `text` (see [`expand_contractions`]).
pub fn fix_contractions(text: &str) -> (r: String)
    ensures
        r@ == expand_contractions(text@),
{
    let v = chars_of(text);
    let n = v.len();
    let mut out: Vec<char> = Vec::new();
    let mut i: usize = 0;
    while i < n
        invariant
            n == v@.len(),
            v@ == text@,
            i <= n,
            expand_contractions(text@) == out@ + expanded_from(v@, i as int),
        decreases n - i,
    {
        if ('a' <= v[i] && v[i] <= 'z') || ('A' <= v[i] && v[i] <= 'Z') || v[i] == '\'' {
            let mut j = i;
            while j < n && (('a' <= v[j] && v[j] <= 'z') || ('A' <= v[j] && v[j] <= 'Z') || v[j]
                == '\'')
                invariant
                    i <= j <= n == v@.len(),
                    word_end(v@, i as int) == word_end(v@, j as int),
                decreases n - j,
            {
                j = j + 1;
            }
            proof {
                lemma_word_end(v@, i as int);
            }
            let w = copy_range(v.as_slice(), i, j);
            let ghost before = out@;
            push_expanded_word(&mut out, w.as_slice());
            assert(before + (expand_word(w@) + expanded_from(v@, j as int)) =~= out@
                + expanded_from(v@, j as int));
            i = j;
        } else {
            let ghost before = out@;
            out.push(v[i]);
            assert(before + (seq![v@[i as int]] + expanded_from(v@, i + 1)) =~= out@
                + expanded_from(v@, i + 1));
            i = i + 1;
        }
    }
    assert(out@ + Seq::<char>::empty() =~= out@);
    string_of(out.as_slice())
}

} // verus!
