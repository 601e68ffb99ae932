//! Helpers on strings, stated over their views as sequences of characters.

use vstd::prelude::*;
use vstd::string::StringExecFns;

verus! {

/// Equality of two string slices.
///
/// Trusted: calls `str::eq`; the contract says that two strings are equal
/// exactly when they hold the same characters.
#[verifier::external_body]
pub(crate) fn str_eq(a: &str, b: &str) -> (same: bool)
    ensures
        same == (a@ == b@),
{
    a == b
}

/// Whether `s` begins with `prefix`.
///
/// Trusted: calls `str::starts_with` with a string pattern; the contract says
/// that the pattern matches exactly when its characters are the first
/// characters of `s`.
#[verifier::external_body]
pub(crate) fn starts_with(s: &str, prefix: &str) -> (found: bool)
    ensures
        found == prefix@.is_prefix_of(s@),
{
    s.starts_with(prefix)
}

/// The upper-case form of a string, as `str::to_uppercase` gives it.
pub uninterp spec fn uppercase(s: Seq<char>) -> Seq<char>;

/// The upper-case form of `s`.
///
/// Trusted: calls `str::to_uppercase`; the contract only gives the result
/// its name, since the mapping is Unicode's and depends on `s` alone.
#[verifier::external_body]
pub(crate) fn to_uppercase(s: &str) -> (upper: String)
    ensures
        upper@ == uppercase(s@),
{
    s.to_uppercase()
}

/// Characters with the Unicode property `White_Space`.
pub open spec fn white_space(c: char) -> bool {
    let u = c as u32;
    ||| 0x09 <= u <= 0x0D
    ||| u == 0x20
    ||| u == 0x85
    ||| u == 0xA0
    ||| u == 0x1680
    ||| 0x2000 <= u <= 0x200A
    ||| u == 0x2028
    ||| u == 0x2029
    ||| u == 0x202F
    ||| u == 0x205F
    ||| u == 0x3000
}

/// Whether `c` separates words.
pub fn is_whitespace(c: char) -> (ws: bool)
    ensures
        ws == white_space(c),
{
    let u: u32 = c as u32;
    (0x09 <= u && u <= 0x0D) || u == 0x20 || u == 0x85 || u == 0xA0 || u == 0x1680 || (0x2000 <= u
        && u <= 0x200A) || u == 0x2028 || u == 0x2029 || u == 0x202F || u == 0x205F || u == 0x3000
}

/// Length of the run of non-whitespace characters that `s` begins with.
pub open spec fn word_len(s: Seq<char>) -> nat
    decreases s.len(),
{
    if s.len() == 0 || white_space(s[0]) {
        0
    } else {
        1 + word_len(s.drop_first())
    }
}

/// The words of `s`: its maximal runs of non-whitespace characters, in order.
pub open spec fn words(s: Seq<char>) -> Seq<Seq<char>>
    decreases s.len(),
{
    if s.len() == 0 {
        Seq::empty()
    } else if white_space(s[0]) {
        words(s.drop_first())
    } else {
        let n = word_len(s);
        proof {
            lemma_word_len_bounds(s);
        }
        seq![s.take(n as int)] + words(s.skip(n as int))
    }
}

/// A word's length is within the string, and positive where the string
/// begins with a character that is no whitespace.
pub proof fn lemma_word_len_bounds(s: Seq<char>)
    ensures
        word_len(s) <= s.len(),
        s.len() > 0 && !white_space(s[0]) ==> word_len(s) > 0,
    decreases s.len(),
{
    if s.len() > 0 && !white_space(s[0]) {
        lemma_word_len_bounds(s.drop_first());
    }
}

/// A word is a run of characters that are no whitespace, and it ends where
/// the string ends or whitespace begins.
pub proof fn lemma_word_is_maximal(s: Seq<char>)
    ensures
        forall|i: int| 0 <= i < word_len(s) ==> !white_space(#[trigger] s[i]),
        word_len(s) < s.len() ==> white_space(s[word_len(s) as int]),
    decreases s.len(),
{
    lemma_word_len_bounds(s);
    if s.len() > 0 && !white_space(s[0]) {
        let rest = s.drop_first();
        lemma_word_is_maximal(rest);
        lemma_word_len_bounds(rest);
        assert forall|i: int| 0 <= i < word_len(s) implies !white_space(#[trigger] s[i]) by {
            if i > 0 {
                assert(s[i] == rest[i - 1]);
            }
        }
        if word_len(s) < s.len() {
            assert(s[word_len(s) as int] == rest[word_len(rest) as int]);
        }
    }
}

/// A word: at least one character, and none that is whitespace.
pub open spec fn is_word(w: Seq<char>) -> bool {
    w.len() > 0 && forall|i: int| 0 <= i < w.len() ==> !white_space(#[trigger] w[i])
}

/// What `words` gives are words: none is empty, and none holds whitespace.
pub proof fn lemma_words_are_words(s: Seq<char>)
    ensures
        forall|k: int| 0 <= k < words(s).len() ==> is_word(#[trigger] words(s)[k]),
    decreases s.len(),
{
    if s.len() == 0 {
        assert(words(s).len() == 0);
    } else if white_space(s[0]) {
        lemma_words_are_words(s.drop_first());
        assert(words(s) == words(s.drop_first()));
    } else {
        let n = word_len(s);
        lemma_word_len_bounds(s);
        lemma_word_is_maximal(s);
        lemma_words_are_words(s.skip(n as int));
        let first = s.take(n as int);
        let rest = words(s.skip(n as int));
        assert(words(s) == seq![first] + rest);
        assert(is_word(first)) by {
            assert forall|i: int| 0 <= i < first.len() implies !white_space(#[trigger] first[i]) by {
                assert(first[i] == s[i]);
            }
        }
        assert forall|k: int| 0 <= k < words(s).len() implies is_word(#[trigger] words(s)[k]) by {
            if k > 0 {
                assert(words(s)[k] == rest[k - 1]);
            }
        }
    }
}

/// Splits `s` at whitespace into its words.
///
/// Each character is reached from the start of `s`, so the time taken grows
/// with the square of the length: `s` is meant to be one short line.
pub fn split_whitespace(s: &str) -> (out: Vec<String>)
    ensures
        out.deep_view() == words(s@),
{
    let n = s.unicode_len();
    let mut out: Vec<String> = Vec::new();
    let mut i: usize = 0;
    proof {
        assert(s@.skip(0) =~= s@);
        assert(out.deep_view() =~= Seq::<Seq<char>>::empty());
    }
    while i < n
        invariant
            n == s@.len(),
            i <= n,
            words(s@) == out.deep_view() + words(s@.skip(i as int)),
        decreases n - i,
    {
        let ghost rest = s@.skip(i as int);
        if is_whitespace(s.get_char(i)) {
            proof {
                assert(rest.drop_first() =~= s@.skip(i + 1));
            }
            i += 1;
        } else {
            let mut j: usize = i + 1;
            proof {
                assert(rest.drop_first() =~= s@.skip(i + 1));
            }
            while j < n && !is_whitespace(s.get_char(j))
                invariant
                    n == s@.len(),
                    i < j <= n,
                    word_len(s@.skip(i as int)) == (j - i) + word_len(s@.skip(j as int)),
                decreases n - j,
            {
                proof {
                    assert(s@.skip(j as int).drop_first() =~= s@.skip(j + 1));
                }
                j += 1;
            }
            let word = s.substring_char(i, j);
            proof {
                assert(word_len(s@.skip(j as int)) == 0);
                assert(word@ =~= rest.take(j - i));
                assert(rest.skip(j - i) =~= s@.skip(j as int));
                assert(words(rest) == seq![word@] + words(s@.skip(j as int)));
            }
            let ghost before = out.deep_view();
            out.push(word.to_owned());
            proof {
                assert(out.deep_view() =~= before.push(word@));
                assert(before + (seq![word@] + words(s@.skip(j as int))) =~= before.push(word@)
                    + words(s@.skip(j as int)));
            }
            i = j;
        }
    }
    proof {
        assert(s@.skip(n as int) =~= Seq::<char>::empty());
        assert(out.deep_view() + Seq::<Seq<char>>::empty() =~= out.deep_view());
    }
    out
}

/// The strings of `parts` with `sep` between each two of them.
pub open spec fn joined(parts: Seq<Seq<char>>, sep: Seq<char>) -> Seq<char>
    decreases parts.len(),
{
    if parts.len() == 0 {
        Seq::empty()
    } else if parts.len() == 1 {
        parts[0]
    } else {
        joined(parts.drop_last(), sep) + sep + parts.last()
    }
}

/// Joins `parts` with `sep` between each two of them.
pub fn join(parts: &Vec<String>, sep: &str) -> (text: String)
    ensures
        text@ == joined(parts.deep_view(), sep@),
{
    let mut text = String::new();
    let mut i: usize = 0;
    proof {
        assert(parts.deep_view().take(0) =~= Seq::<Seq<char>>::empty());
    }
    while i < parts.len()
        invariant
            i <= parts.len(),
            text@ == joined(parts.deep_view().take(i as int), sep@),
        decreases parts.len() - i,
    {
        proof {
            let upto = parts.deep_view().take(i + 1);
            assert(upto.drop_last() =~= parts.deep_view().take(i as int));
            assert(upto.last() == parts@[i as int]@);
        }
        if i > 0 {
            text.append(sep);
        }
        text.append(parts[i].as_str());
        proof {
            assert(Seq::<char>::empty() + parts@[i as int]@ =~= parts@[i as int]@);
        }
        i += 1;
    }
    proof {
        assert(parts.deep_view().take(parts.len() as int) =~= parts.deep_view());
    }
    text
}

/// A copy of `parts`.
pub fn copy_strings(parts: &Vec<String>) -> (copy: Vec<String>)
    ensures
        copy.deep_view() == parts.deep_view(),
{
    let mut copy: Vec<String> = Vec::new();
    let mut i: usize = 0;
    while i < parts.len()
        invariant
            i <= parts.len(),
            copy@.len() == i,
            forall|j: int| 0 <= j < i ==> (#[trigger] copy@[j])@ == parts@[j]@,
        decreases parts.len() - i,
    {
        copy.push(parts[i].clone());
        i += 1;
    }
    proof {
        assert(copy.deep_view() =~= parts.deep_view());
    }
    copy
}

} // verus!
