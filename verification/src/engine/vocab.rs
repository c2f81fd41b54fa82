//! The tokens of phonemes.
use crate::engine::kokoro::enclosed;
use vstd::prelude::*;

verus! {

/// A phoneme character and its token.
#[derive(Debug, Clone, Copy)]
pub struct VocabularyEntry {
    pub symbol: char,
    pub token: i64,
}

/// The token of a character: that of the first entry, from `i` on, which holds it.
pub open spec fn token_from(vocabulary: Seq<VocabularyEntry>, c: char, i: int) -> Option<i64>
    decreases vocabulary.len() - i,
{
    if i < 0 || i >= vocabulary.len() {
        None
    } else if vocabulary[i].symbol == c {
        Some(vocabulary[i].token)
    } else {
        token_from(vocabulary, c, i + 1)
    }
}

/// The tokens of the characters that the vocabulary knows, in order.
pub open spec fn known_tokens(ipa: Seq<char>, vocabulary: Seq<VocabularyEntry>) -> Seq<i64>
    decreases ipa.len(),
{
    if ipa.len() == 0 {
        Seq::empty()
    } else {
        let before = known_tokens(ipa.drop_last(), vocabulary);
        match token_from(vocabulary, ipa.last(), 0) {
            Some(token) => before.push(token),
            None => before,
        }
    }
}

fn token_of(c: char, vocabulary: &Vec<VocabularyEntry>) -> (r: Option<i64>)
    ensures
        r == token_from(vocabulary@, c, 0),
{
    let mut i: usize = 0;
    while i < vocabulary.len()
        invariant
            i <= vocabulary@.len(),
            token_from(vocabulary@, c, 0) == token_from(vocabulary@, c, i as int),
        decreases vocabulary.len() - i,
    {
        if vocabulary[i].symbol == c {
            return Some(vocabulary[i].token);
        }
        i += 1;
    }
    None
}

/// The tokens of phonemes between a start and an end token. A character that the vocabulary does
/// not know is passed over.
pub fn tokenize_phonemes(ipa: &str, vocabulary: &Vec<VocabularyEntry>) -> (r: Vec<i64>)
    ensures
        r@ == enclosed(known_tokens(ipa@, vocabulary@)),
{
    let mut r: Vec<i64> = Vec::new();
    r.push(0);
    assert(ipa@.take(0) =~= Seq::<char>::empty());
    assert(r@ =~= seq![0i64] + known_tokens(ipa@.take(0), vocabulary@));
    for c in it: ipa.chars()
        invariant
            it.seq() == ipa@,
            r@ == seq![0i64] + known_tokens(ipa@.take(it.index() as int), vocabulary@),
    {
        let ghost before = r@;
        let ghost k = it.index() as int;
        assert(ipa@.take(k + 1).drop_last() =~= ipa@.take(k));
        match token_of(c, vocabulary) {
            Some(token) => r.push(token),
            None => {},
        }
        assert(r@ =~= seq![0i64] + known_tokens(ipa@.take(k + 1), vocabulary@));
    }
    assert(ipa@.take(ipa@.len() as int) =~= ipa@);
    r.push(0);
    assert(r@ =~= enclosed(known_tokens(ipa@, vocabulary@)));
    r
}

/// Phonemes of which the vocabulary knows none have no tokens but those around them.
pub proof fn law_unknown_phonemes_are_silent(ipa: Seq<char>, vocabulary: Seq<VocabularyEntry>)
    requires
        forall|i: int| 0 <= i < ipa.len() ==> token_from(vocabulary, #[trigger] ipa[i], 0) is None,
    ensures
        enclosed(known_tokens(ipa, vocabulary)).len() == 2,
    decreases ipa.len(),
{
    if ipa.len() > 0 {
        assert forall|i: int| 0 <= i < ipa.drop_last().len() implies token_from(
            vocabulary,
            #[trigger] ipa.drop_last()[i],
            0,
        ) is None by {
            assert(ipa.drop_last()[i] == ipa[i]);
        }
        law_unknown_phonemes_are_silent(ipa.drop_last(), vocabulary);
        assert(ipa.last() == ipa[ipa.len() - 1]);
    }
}

/// Phonemes have their tokens one after the other: the tokens of a text in two parts are those of
/// the first and then those of the second.
pub proof fn law_tokens_follow_the_phonemes(
    a: Seq<char>,
    b: Seq<char>,
    vocabulary: Seq<VocabularyEntry>,
)
    ensures
        known_tokens(a + b, vocabulary) == known_tokens(a, vocabulary) + known_tokens(
            b,
            vocabulary,
        ),
    decreases b.len(),
{
    let s = a + b;
    if b.len() == 0 {
        assert(s =~= a);
        assert(known_tokens(a, vocabulary) + known_tokens(b, vocabulary) =~= known_tokens(
            a,
            vocabulary,
        ));
    } else {
        law_tokens_follow_the_phonemes(a, b.drop_last(), vocabulary);
        assert(s.drop_last() =~= a + b.drop_last());
        assert(s.last() == b.last());
        assert(known_tokens(s, vocabulary) =~= known_tokens(a, vocabulary) + known_tokens(
            b,
            vocabulary,
        ));
    }
}

/// A phoneme of the vocabulary has the token of its entry, the first where there are several, and
/// one that is in none has no token. An utterance begins and ends with the token zero.
pub proof fn law_a_phoneme_has_the_token_of_its_entry(
    vocabulary: Seq<VocabularyEntry>,
    c: char,
    k: int,
)
    requires
        0 <= k <= vocabulary.len(),
        forall|j: int| 0 <= j < k ==> (#[trigger] vocabulary[j]).symbol != c,
    ensures
        k < vocabulary.len() && vocabulary[k].symbol == c ==> known_tokens(seq![c], vocabulary)
            == seq![vocabulary[k].token] && enclosed(known_tokens(seq![c], vocabulary)) == seq![
            0i64,
            vocabulary[k].token,
            0i64,
        ],
        k == vocabulary.len() ==> known_tokens(seq![c], vocabulary).len() == 0,
{
    lemma_token_from(vocabulary, c, 0, k);
    assert(seq![c].drop_last() =~= Seq::<char>::empty());
    assert(known_tokens(seq![c].drop_last(), vocabulary) =~= Seq::<i64>::empty());
    if k < vocabulary.len() && vocabulary[k].symbol == c {
        assert(known_tokens(seq![c], vocabulary) =~= seq![vocabulary[k].token]);
        assert(enclosed(known_tokens(seq![c], vocabulary)) =~= seq![
            0i64,
            vocabulary[k].token,
            0i64,
        ]);
    }
}

proof fn lemma_token_from(vocabulary: Seq<VocabularyEntry>, c: char, i: int, k: int)
    requires
        0 <= i <= k <= vocabulary.len(),
        forall|j: int| i <= j < k ==> (#[trigger] vocabulary[j]).symbol != c,
    ensures
        token_from(vocabulary, c, i) == token_from(vocabulary, c, k),
    decreases k - i,
{
    if i < k {
        lemma_token_from(vocabulary, c, i + 1, k);
    }
}

}
