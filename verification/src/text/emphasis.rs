//! Emphasis: the single markers around a word or a phrase.
use crate::text::chars::{chars_of, is_white_space, white_space};
use vstd::prelude::*;

verus! {

/// Whether `c` is part of a word: neither white space nor punctuation.
pub open spec fn word_char(c: char) -> bool {
    &&& !white_space(c)
    &&& !('!' <= c <= '/')
    &&& !(':' <= c <= '@')
    &&& !('[' <= c <= '`')
    &&& !('{' <= c <= '~')
    &&& !('\u{2010}' <= c <= '\u{205e}')
}

/// Decides [`word_char`].
pub fn is_word_char(c: char) -> (b: bool)
    ensures
        b == word_char(c),
{
    !is_white_space(c) && !('!' <= c && c <= '/') && !(':' <= c && c <= '@') && !('[' <= c && c
        <= '`') && !('{' <= c && c <= '~') && !('\u{2010}' <= c && c <= '\u{205e}')
}

/// Whether a marker at `i` can open an emphasis: no word is before it, and something is behind it.
pub open spec fn opens(s: Seq<char>, marker: char, i: int) -> bool {
    &&& s[i] == marker
    &&& i == 0 || !word_char(s[i - 1])
    &&& i + 1 < s.len()
    &&& !white_space(s[i + 1])
    &&& s[i + 1] != marker
}

/// Whether a marker at `i` can close an emphasis: something is before it, and no word is behind it.
pub open spec fn closes(s: Seq<char>, marker: char, i: int) -> bool {
    &&& s[i] == marker
    &&& i > 0
    &&& !white_space(s[i - 1])
    &&& s[i - 1] != marker
    &&& i + 1 >= s.len() || !word_char(s[i + 1])
}

/// Whether a paragraph ends at `i`.
pub open spec fn breaks(s: Seq<char>, i: int) -> bool {
    s[i] == '\n' && i + 1 < s.len() && s[i + 1] == '\n'
}

/// The first marker, from `i` on, that closes an emphasis before the paragraph ends.
pub open spec fn closing(s: Seq<char>, marker: char, i: int) -> Option<int>
    decreases s.len() - i,
{
    if i < 0 || i >= s.len() || breaks(s, i) {
        None
    } else if closes(s, marker, i) {
        Some(i)
    } else {
        closing(s, marker, i + 1)
    }
}

/// The text from `i` on without the markers on either side of a word or a phrase. Those inside a
/// word, between spaces or without a partner are kept.
pub open spec fn unmarked(s: Seq<char>, marker: char, i: int) -> Seq<char>
    decreases s.len() - i,
{
    if i < 0 || i >= s.len() {
        Seq::empty()
    } else {
        match closing(s, marker, i + 1) {
            Some(j) if opens(s, marker, i) && i < j < s.len() => s.subrange(i + 1, j) + unmarked(
                s,
                marker,
                j + 1,
            ),
            _ => seq![s[i]] + unmarked(s, marker, i + 1),
        }
    }
}

proof fn lemma_closing(s: Seq<char>, marker: char, i: int)
    ensures
        closing(s, marker, i) matches Some(j) ==> i <= j < s.len() && closes(s, marker, j),
    decreases s.len() - i,
{
    if 0 <= i < s.len() && !breaks(s, i) && !closes(s, marker, i) {
        lemma_closing(s, marker, i + 1);
    }
}

fn find_closing(v: &Vec<char>, marker: char, from: usize) -> (r: Option<usize>)
    ensures
        match r {
            Some(j) => closing(v@, marker, from as int) == Some(j as int),
            None => closing(v@, marker, from as int) is None,
        },
{
    let mut i: usize = from;
    while i < v.len()
        invariant
            closing(v@, marker, from as int) == closing(v@, marker, i as int),
        decreases v.len() - i,
    {
        if v[i] == '\n' && v.len() - i > 1 && v[i + 1] == '\n' {
            return None;
        }
        if v[i] == marker && i > 0 && !is_white_space(v[i - 1]) && v[i - 1] != marker && (v.len()
            - i <= 1 || !is_word_char(v[i + 1])) {
            return Some(i);
        }
        i += 1;
    }
    None
}

/// Removes the markers on either side of a word or a phrase.
pub fn remove_emphasis(text: &str, marker: char) -> (r: String)
    ensures
        r@ == unmarked(text@, marker, 0),
{
    let v = chars_of(text);
    let ghost s = v@;
    let mut r = String::new();
    let mut i: usize = 0;
    while i < v.len()
        invariant
            v@ == s,
            i <= v@.len(),
            unmarked(s, marker, 0) == r@ + unmarked(s, marker, i as int),
        decreases v.len() - i,
    {
        proof {
            lemma_closing(s, marker, i + 1);
        }
        let opening = v[i] == marker && (i == 0 || !is_word_char(v[i - 1])) && v.len() - i > 1
            && !is_white_space(v[i + 1]) && v[i + 1] != marker;
        let end: Option<usize> = if opening {
            find_closing(&v, marker, i + 1)
        } else {
            None
        };
        let ghost before = r@;
        match end {
            Some(j) => {
                let mut k: usize = i + 1;
                while k < j
                    invariant
                        v@ == s,
                        i + 1 <= k <= j < v@.len(),
                        r@ == before + s.subrange(i + 1, k as int),
                    decreases j - k,
                {
                    r.push(v[k]);
                    assert(s.subrange(i + 1, k + 1) =~= s.subrange(i + 1, k as int).push(
                        s[k as int],
                    ));
                    k += 1;
                }
                assert(before + (s.subrange(i + 1, j as int) + unmarked(s, marker, j + 1)) =~= r@
                    + unmarked(s, marker, j + 1));
                i = j + 1;
            },
            None => {
                r.push(v[i]);
                assert(before + (seq![s[i as int]] + unmarked(s, marker, i + 1)) =~= r@ + unmarked(
                    s,
                    marker,
                    i + 1,
                ));
                i += 1;
            },
        }
    }
    assert(r@ + unmarked(s, marker, i as int) =~= r@);
    r
}

/// Removing emphasis brings no character into the text.
pub proof fn law_emphasis_brings_nothing_in(s: Seq<char>, marker: char, i: int, c: char)
    requires
        0 <= i,
        unmarked(s, marker, i).contains(c),
    ensures
        s.contains(c),
    decreases s.len() - i,
{
    lemma_closing(s, marker, i + 1);
    let u = unmarked(s, marker, i);
    let k = choose|k: int| 0 <= k < u.len() && u[k] == c;
    if i < s.len() {
        if opens(s, marker, i) && closing(s, marker, i + 1) is Some {
            let j = closing(s, marker, i + 1)->0;
            let phrase = s.subrange(i + 1, j);
            if k < phrase.len() {
                assert(s[i + 1 + k] == c);
            } else {
                assert(unmarked(s, marker, j + 1)[k - phrase.len()] == c);
                law_emphasis_brings_nothing_in(s, marker, j + 1, c);
            }
        } else if k == 0 {
            assert(s[i] == c);
        } else {
            assert(unmarked(s, marker, i + 1)[k - 1] == c);
            law_emphasis_brings_nothing_in(s, marker, i + 1, c);
        }
    }
}

/// A text of which no marker stands at the edge of a word is kept as it is: markers inside words
/// and between spaces are no emphasis.
pub proof fn law_other_markers_are_kept(s: Seq<char>, marker: char, i: int)
    requires
        0 <= i <= s.len(),
        forall|k: int|
            i <= k < s.len() && #[trigger] s[k] == marker ==> (k > 0 && word_char(s[k - 1])) || k + 1
                >= s.len() || white_space(s[k + 1]),
    ensures
        unmarked(s, marker, i) == s.skip(i),
    decreases s.len() - i,
{
    if i < s.len() {
        law_other_markers_are_kept(s, marker, i + 1);
        assert(seq![s[i]] + s.skip(i + 1) =~= s.skip(i));
    } else {
        assert(s.skip(i) =~= Seq::<char>::empty());
    }
}

/// A phrase between two markers, with no other in it and no word next to them, loses both.
pub proof fn law_an_emphasized_phrase_is_kept(
    before: Seq<char>,
    phrase: Seq<char>,
    after: Seq<char>,
    marker: char,
)
    requires
        !before.contains(marker),
        !phrase.contains(marker),
        !after.contains(marker),
        !phrase.contains('\n'),
        marker != '\n',
        phrase.len() > 0,
        !white_space(phrase[0]),
        !white_space(phrase.last()),
        before.len() > 0 ==> !word_char(before.last()),
        after.len() > 0 ==> !word_char(after[0]),
    ensures
        unmarked(before + seq![marker] + phrase + seq![marker] + after, marker, 0) == before
            + phrase + after,
{
    let s = before + seq![marker] + phrase + seq![marker] + after;
    let i = before.len() as int;
    let j = i + 1 + phrase.len();
    assert(s[i] == marker && s[j] == marker);
    assert(s[i + 1] == phrase[0] && s[j - 1] == phrase.last());
    assert forall|k: int| 0 <= k < s.len() && k != i && k != j implies #[trigger] s[k] != marker by {
        if k < i {
            assert(before.contains(before[k]));
        } else if k < j {
            assert(phrase.contains(phrase[k - i - 1]));
        } else {
            assert(after.contains(after[k - j - 1]));
        }
    }
    assert forall|k: int| i < k < j implies !breaks(s, k) by {
        assert(phrase.contains(phrase[k - i - 1]));
        assert(s[k] == phrase[k - i - 1]);
    }
    if i > 0 {
        assert(s[i - 1] == before.last());
    }
    if j + 1 < s.len() {
        assert(s[j + 1] == after[0]);
    }
    assert(closes(s, marker, j));
    lemma_closing_found(s, marker, i + 1, j);
    law_other_markers_are_kept(s, marker, j + 1);
    lemma_kept_up_to(s, marker, 0, i);
    assert(s.subrange(0, i) =~= before);
    assert(s.subrange(i + 1, j) =~= phrase);
    assert(s.skip(j + 1) =~= after);
    assert(before + (phrase + after) =~= before + phrase + after);
}

proof fn lemma_closing_found(s: Seq<char>, marker: char, i: int, j: int)
    requires
        0 <= i <= j < s.len(),
        marker != '\n',
        closes(s, marker, j),
        forall|k: int| i <= k < j ==> !#[trigger] closes(s, marker, k),
        forall|k: int| i <= k < j ==> !#[trigger] breaks(s, k),
    ensures
        closing(s, marker, i) == Some(j),
    decreases j - i,
{
    if i < j {
        assert(!breaks(s, i));
        lemma_closing_found(s, marker, i + 1, j);
    }
}

proof fn lemma_kept_up_to(s: Seq<char>, marker: char, i: int, j: int)
    requires
        0 <= i <= j <= s.len(),
        forall|k: int| i <= k < j ==> #[trigger] s[k] != marker,
    ensures
        unmarked(s, marker, i) == s.subrange(i, j) + unmarked(s, marker, j),
    decreases j - i,
{
    if i < j {
        lemma_kept_up_to(s, marker, i + 1, j);
        assert(seq![s[i]] + (s.subrange(i + 1, j) + unmarked(s, marker, j)) =~= s.subrange(i, j)
            + unmarked(s, marker, j));
    } else {
        assert(s.subrange(i, j) + unmarked(s, marker, j) =~= unmarked(s, marker, j));
    }
}

/// Letters and digits make up words, and so do characters beyond ASCII that are neither spaces nor
/// punctuation; white space, punctuation and the markers themselves do not.
pub proof fn law_letters_and_digits_make_up_words(c: char)
    ensures
        'a' <= c <= 'z' || 'A' <= c <= 'Z' || '0' <= c <= '9' ==> word_char(c),
        c == 'é' || c == 'ß' || c == 'Ω' || c == '字' ==> word_char(c),
        c == ' ' || c == '\n' || c == '\t' || c == '\u{a0}' ==> !word_char(c),
        c == '.' || c == ',' || c == ';' || c == ':' || c == '!' || c == '?' || c == '(' || c == ')'
            || c == '[' || c == ']' || c == '{' || c == '}' || c == '"' || c == '\'' || c == '-' || c
            == '*' || c == '_' || c == '`' || c == '~' || c == '/' || c == '—' || c == '…' || c == '“'
            ==> !word_char(c),
{
}

/// Emphasis stays within its paragraph: a marker that only a marker of another paragraph follows is
/// kept, and so is that one.
pub proof fn law_emphasis_stays_in_its_paragraph(
    before: Seq<char>,
    first: Seq<char>,
    second: Seq<char>,
    marker: char,
)
    requires
        !before.contains(marker),
        !first.contains(marker),
        !second.contains(marker),
        marker != '\n',
    ensures
        ({
            let s = before + seq![marker] + first + seq!['\n', '\n'] + second + seq![marker];
            unmarked(s, marker, 0) == s
        }),
{
    let s = before + seq![marker] + first + seq!['\n', '\n'] + second + seq![marker];
    let i = before.len() as int;
    let b = i + 1 + first.len();
    let j = s.len() - 1;
    assert(s[i] == marker && s[b] == '\n' && s[b + 1] == '\n' && s[j] == marker);
    assert forall|k: int| 0 <= k < s.len() && k != i && k != j implies #[trigger] s[k] != marker by {
        if k < i {
            assert(before.contains(before[k]));
        } else if k < b {
            assert(first.contains(first[k - i - 1]));
        } else if k >= b + 2 {
            assert(second.contains(second[k - b - 2]));
        }
    }
    lemma_no_closing(s, marker, i + 1, b);
    lemma_kept_up_to(s, marker, 0, i);
    lemma_kept_up_to(s, marker, i + 1, j);
    assert(closing(s, marker, j + 1) is None);
    assert(unmarked(s, marker, j + 1) =~= Seq::<char>::empty());
    assert(unmarked(s, marker, j) =~= seq![marker]);
    assert(unmarked(s, marker, i) =~= seq![s[i]] + unmarked(s, marker, i + 1));
    assert(s.subrange(0, i) + (seq![s[i]] + (s.subrange(i + 1, j) + seq![marker])) =~= s);
}

proof fn lemma_no_closing(s: Seq<char>, marker: char, i: int, b: int)
    requires
        0 <= i <= b < s.len(),
        breaks(s, b),
        forall|k: int| i <= k < b ==> #[trigger] s[k] != marker,
    ensures
        closing(s, marker, i) is None,
    decreases b - i,
{
    if i < b && !breaks(s, i) {
        assert(s[i] != marker);
        lemma_no_closing(s, marker, i + 1, b);
    }
}

}
