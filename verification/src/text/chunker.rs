//! Cutting a stream of text into chunks that end where a sentence or a paragraph does.
use crate::text::chars::{
    ascii_space, chars_of, count_words, is_ascii_space, is_blank, is_letter, is_trimmed,
    is_white_space, last_run, last_word, last_word_before, letter, same_text, unicode_lowercase,
    white_space, word_count,
};
use crate::text::filter::{cleaned, diagram_symbol, TextSanitizer};
use crate::text::utf8::{
    byte_len, byte_width, lemma_byte_len_next, lemma_split, split_text, text_before,
};
use vstd::prelude::*;
use vstd::string::*;
use vstd::utf8::*;

verus! {

/// Whether `c` can end a sentence.
pub open spec fn terminal(c: char) -> bool {
    c == '.' || c == '!' || c == '?'
}

/// Whether the word, which a period follows, is a known abbreviation.
pub open spec fn abbreviation(word: Seq<char>) -> bool {
    let w = unicode_lowercase(word);
    ||| w == "e.g"@
    ||| w == "i.e"@
    ||| w == "etc"@
    ||| w == "vs"@
    ||| w == "dr"@
    ||| w == "mr"@
    ||| w == "ms"@
    ||| w == "prof"@
    ||| w == "v1"@
    ||| w == "v2"@
    ||| w == "rs"@
}

/// How many words among the first `n` characters ASCII white space has ended.
pub open spec fn words_ended(s: Seq<char>, n: int) -> nat
    decreases n,
{
    if n <= 0 {
        0
    } else {
        words_ended(s, n - 1) + (if ascii_space(s[n - 1]) && n >= 2 && !ascii_space(s[n - 2]) {
            1nat
        } else {
            0
        })
    }
}

/// Whether the run of characters in front of a punctuation mark is a word of a sentence: it holds a
/// letter and is longer than the number or the single letter that marks an item of a list.
pub open spec fn spoken_word(run: Seq<char>) -> bool {
    &&& run.len() >= 2
    &&& exists|k: int| 0 <= k < run.len() && letter(#[trigger] run[k])
}

/// How many words stand before character `i`, with the one that it ends itself.
pub open spec fn words_before(s: Seq<char>, i: int) -> nat {
    words_ended(s, i + 1) + (if spoken_word(last_run(s.take(i))) {
        1nat
    } else {
        0
    })
}

/// How many backticks in a row end with the first `n` characters.
pub open spec fn backticks(s: Seq<char>, n: int) -> nat
    decreases n,
{
    if n <= 0 || s[n - 1] != '`' {
        0
    } else {
        backticks(s, n - 1) + 1
    }
}

/// How many fences of code blocks stand in the first `n` characters: each third backtick in a row
/// completes one.
pub open spec fn fences(s: Seq<char>, n: int) -> nat
    decreases n,
{
    if n <= 0 {
        0
    } else {
        fences(s, n - 1) + (if backticks(s, n) > 0 && backticks(s, n) % 3 == 0 {
            1nat
        } else {
            0
        })
    }
}

/// Whether no code block is open behind the first `n` characters.
pub open spec fn outside_code(s: Seq<char>, n: int) -> bool {
    fences(s, n) % 2 == 0
}

/// Whether a sentence of at least `min_words` words ends with character `i` of the text, outside of
/// code blocks.
pub open spec fn sentence_ends(s: Seq<char>, min_words: nat, i: int) -> bool {
    &&& terminal(s[i])
    &&& words_before(s, i) >= min_words
    &&& !abbreviation(last_word(s.take(i)))
    &&& i + 1 == s.len() || ascii_space(s[i + 1])
    &&& outside_code(s, i + 1)
}

/// Whether two line feeds stand at `i`, outside of code blocks, with `min_words` words before the
/// second.
pub open spec fn paragraph_ends(s: Seq<char>, min_words: nat, i: int) -> bool {
    &&& s[i] == '\n'
    &&& i + 1 < s.len()
    &&& s[i + 1] == '\n'
    &&& words_ended(s, i + 1) >= min_words
    &&& outside_code(s, i + 1)
}

/// The number of characters up to the end of the first sentence or paragraph that ends at `i` or
/// later.
pub open spec fn first_stop(s: Seq<char>, min_words: nat, i: int) -> Option<int>
    decreases s.len() - i,
{
    if i < 0 || i >= s.len() {
        None
    } else if sentence_ends(s, min_words, i) {
        Some(i + 1)
    } else if paragraph_ends(s, min_words, i) {
        Some(i + 2)
    } else {
        first_stop(s, min_words, i + 1)
    }
}

/// The number of characters up to the end of the first paragraph that ends at `i` or later.
pub open spec fn first_paragraph(s: Seq<char>, i: int) -> Option<int>
    decreases s.len() - i,
{
    if i < 0 || i >= s.len() {
        None
    } else if paragraph_ends(s, 0, i) {
        Some(i + 2)
    } else {
        first_paragraph(s, i + 1)
    }
}

/// How many characters of the text make up its next chunk. A text of fewer than `min_words` words
/// has one only where a paragraph ends in it.
pub open spec fn boundary(s: Seq<char>, min_words: nat) -> Option<int> {
    if word_count(s) >= min_words {
        first_stop(s, min_words, 0)
    } else if word_count(s) >= 1 {
        first_paragraph(s, 0)
    } else {
        None
    }
}

/// Whether the run of characters that ends at `end` is a word of a sentence.
fn is_spoken_word(v: &Vec<char>, end: usize) -> (b: bool)
    requires
        end <= v@.len(),
    ensures
        b == spoken_word(last_run(v@.take(end as int))),
{
    let ghost s = v@;
    let ghost run = last_run(s.take(end as int));
    let mut i: usize = end;
    let mut found = false;
    assert(s.subrange(end as int, end as int) =~= Seq::<char>::empty());
    assert(run =~= run + s.subrange(end as int, end as int));
    while i > 0 && !is_white_space(v[i - 1])
        invariant
            v@ == s,
            i <= end <= s.len(),
            run == last_run(s.take(i as int)) + s.subrange(i as int, end as int),
            found == exists|k: int| i <= k < end && letter(#[trigger] s[k]),
        decreases i,
    {
        let ghost t = s.take(i as int);
        let was = found;
        i -= 1;
        proof {
            assert(t.drop_last() =~= s.take(i as int));
            assert(seq![s[i as int]] + s.subrange(i + 1, end as int) =~= s.subrange(
                i as int,
                end as int,
            ));
            assert(run =~= last_run(s.take(i as int)) + s.subrange(i as int, end as int));
        }
        if is_letter(v[i]) {
            found = true;
        }
        assert(found == exists|k: int| i <= k < end && letter(#[trigger] s[k])) by {
            if was {
                let k = choose|k: int| i < k < end && letter(#[trigger] s[k]);
                assert(letter(s[k]));
            }
            if found && !was {
                assert(letter(s[i as int]));
            }
        }
    }
    assert(last_run(s.take(i as int)) =~= Seq::<char>::empty()) by {
        if i > 0 {
            assert(s.take(i as int).last() == s[i - 1]);
        }
    }
    assert(run =~= s.subrange(i as int, end as int));
    proof {
        if found {
            let k = choose|k: int| i <= k < end && letter(#[trigger] s[k]);
            assert(run[k - i] == s[k]);
        }
        if spoken_word(run) {
            let k = choose|k: int| 0 <= k < run.len() && letter(#[trigger] run[k]);
            assert(letter(s[i + k]));
        }
    }
    found && end - i >= 2
}

/// Finds the byte index of a valid sentence boundary after meeting a minimum word threshold.
pub fn find_sentence_boundary(text: &str, min_words: usize) -> (r: Option<usize>)
    ensures
        match r {
            Some(index) => {
                &&& boundary(text@, min_words as nat) matches Some(k)
                &&& index == byte_len(text@.take(k))
            },
            None => boundary(text@, min_words as nat) is None,
        },
{
    let v = chars_of(text);
    let ghost s = v@;
    let ghost m = min_words as nat;
    let bytes = text.as_bytes();
    let total: usize = bytes.len();
    assert(total == byte_len(s));
    let words: usize = count_words(&v);
    if words < 1 && words < min_words {
        return None;
    }
    let short = words < min_words;
    let mut ended: usize = 0;
    let mut ticks: usize = 0;
    let mut open = false;
    let mut offset: usize = 0;
    let mut i: usize = 0;
    assert(s.take(0) =~= Seq::<char>::empty());
    while i < v.len()
        invariant
            v@ == s,
            text@ == s,
            m == min_words,
            total == byte_len(s),
            i <= s.len(),
            ended <= i,
            i > 0 && !ascii_space(s[i - 1]) ==> ended < i,
            ended == words_ended(s, i as int),
            ticks < 3,
            ticks == backticks(s, i as int) % 3,
            open == !outside_code(s, i as int),
            offset == byte_len(s.take(i as int)),
            short == (word_count(s) < m),
            short ==> word_count(s) >= 1 && boundary(s, m) == first_paragraph(s, i as int),
            !short ==> boundary(s, m) == first_stop(s, m, i as int),
        decreases v.len() - i,
    {
        let c = v[i];
        if is_ascii_space(c) && i > 0 && !is_ascii_space(v[i - 1]) {
            ended += 1;
        }
        if c == '`' {
            if ticks == 2 {
                ticks = 0;
                open = !open;
            } else {
                ticks += 1;
            }
        } else {
            ticks = 0;
        }
        proof {
            lemma_split(s, i as int);
            lemma_byte_len_next(s, i as int);
        }
        let next: usize = offset + byte_width(c);
        if !short && (c == '.' || c == '!' || c == '?') && !open && (i + 1 == v.len()
            || is_ascii_space(v[i + 1])) {
            proof {
                if spoken_word(last_run(s.take(i as int))) {
                    assert(i > 0 && !white_space(s[i - 1])) by {
                        if i > 0 {
                            assert(s.take(i as int).last() == s[i - 1]);
                        }
                    }
                }
            }
            let before: usize = if is_spoken_word(&v, i) {
                ended + 1
            } else {
                ended
            };
            if before >= min_words && !is_abbreviation(text, offset) {
                return Some(next);
            }
        }
        if c == '\n' && i + 1 < v.len() && v[i + 1] == '\n' && !open && (short || ended
            >= min_words) {
            proof {
                lemma_byte_len_next(s, i + 1);
            }
            return Some(next + byte_width(v[i + 1]));
        }
        offset = next;
        i += 1;
    }
    None
}

/// Checks if the period at byte `index` is part of a known abbreviation.
pub fn is_abbreviation(text: &str, index: usize) -> (b: bool)
    requires
        is_char_boundary(text.spec_bytes(), index as int),
    ensures
        b == abbreviation(last_word(text_before(text@, index as int))),
{
    let (prefix, _) = split_text(text, index);
    let v = chars_of(prefix);
    let token = last_word_before(&v, v.len());
    assert(v@.take(v@.len() as int) == v@);
    let lower = token.as_str().to_lowercase();
    let w = lower.as_str();
    same_text(w, "e.g") || same_text(w, "i.e") || same_text(w, "etc") || same_text(w, "vs")
        || same_text(w, "dr") || same_text(w, "mr") || same_text(w, "ms") || same_text(w, "prof")
        || same_text(w, "v1") || same_text(w, "v2") || same_text(w, "rs")
}

/// A chunk takes at least one character of the text, and no more than there are.
pub proof fn law_boundary_in_range(s: Seq<char>, min_words: nat)
    ensures
        boundary(s, min_words) matches Some(k) ==> 0 < k <= s.len(),
{
    lemma_first_paragraph(s, 0);
    lemma_first_stop(s, min_words, 0);
}

/// No chunk ends inside a code block: one that has begun is taken as a whole.
pub proof fn law_code_blocks_are_not_cut(s: Seq<char>, min_words: nat)
    ensures
        boundary(s, min_words) matches Some(k) ==> outside_code(s, k),
{
    lemma_first_paragraph(s, 0);
    lemma_first_stop(s, min_words, 0);
    if let Some(k) = boundary(s, min_words) {
        if k >= 2 && s[k - 1] == '\n' {
            assert(fences(s, k) == fences(s, k - 1));
        }
    }
}

/// A chunk of a text with enough words ends with a sentence, the first that at least `min_words`
/// words make up and no abbreviation ends, or with a paragraph, and no earlier place would do.
pub proof fn law_boundary_is_the_first(s: Seq<char>, min_words: nat)
    requires
        word_count(s) >= min_words,
    ensures
        match boundary(s, min_words) {
            Some(k) => {
                ||| sentence_ends(s, min_words, k - 1) && forall|j: int|
                    0 <= j < k - 1 ==> !sentence_ends(s, min_words, j) && !paragraph_ends(
                        s,
                        min_words,
                        j,
                    )
                ||| 2 <= k && paragraph_ends(s, min_words, k - 2) && forall|j: int|
                    0 <= j < k - 2 ==> !sentence_ends(s, min_words, j) && !paragraph_ends(
                        s,
                        min_words,
                        j,
                    )
            },
            None => forall|j: int|
                0 <= j < s.len() ==> !sentence_ends(s, min_words, j) && !paragraph_ends(
                    s,
                    min_words,
                    j,
                ),
        },
{
    lemma_first_stop(s, min_words, 0);
}

/// The very first chunk waits for no more than a sentence: a text in which one ends outside of code
/// blocks, be it a single word, has a chunk. A number or a single letter that marks an item of a
/// list, or a run of punctuation, is no such word.
pub proof fn law_the_first_sentence_is_spoken(s: Seq<char>, i: int, target: nat)
    requires
        0 < i < s.len(),
        terminal(s[i]),
        spoken_word(last_run(s.take(i))),
        !abbreviation(last_word(s.take(i))),
        i + 1 == s.len() || ascii_space(s[i + 1]),
        outside_code(s, i + 1),
    ensures
        boundary(s, threshold(true, target)) is Some,
{
    lemma_words(s, i);
    assert(sentence_ends(s, 1, i));
    lemma_first_stop(s, 1, 0);
}

/// What marks an item of a list at the start of a text is not taken for its first sentence.
pub proof fn law_a_list_marker_is_no_sentence(s: Seq<char>, i: int)
    requires
        0 <= i < s.len(),
        words_ended(s, i + 1) == 0,
        i < 2 || forall|k: int| 0 <= k < i ==> !letter(#[trigger] s[k]),
    ensures
        !sentence_ends(s, 1, i),
{
    let run = last_run(s.take(i));
    lemma_last_run(s.take(i));
    if spoken_word(run) {
        let k = choose|k: int| 0 <= k < run.len() && letter(#[trigger] run[k]);
        assert(run[k] == s[i - run.len() + k]);
    }
}

proof fn lemma_last_run(s: Seq<char>)
    ensures
        last_run(s).len() <= s.len(),
        last_run(s) == s.skip(s.len() - last_run(s).len()),
    decreases s.len(),
{
    if s.len() > 0 && !white_space(s.last()) {
        lemma_last_run(s.drop_last());
        assert(last_run(s) =~= s.skip(s.len() - last_run(s).len()));
    } else {
        assert(s.skip(s.len() as int) =~= Seq::<char>::empty());
    }
}

proof fn lemma_words(s: Seq<char>, i: int)
    requires
        0 <= i < s.len(),
        !white_space(s[i]),
    ensures
        word_count(s) >= 1,
    decreases s.len(),
{
    if i < s.len() - 1 {
        assert(s.drop_last()[i] == s[i]);
        lemma_words(s.drop_last(), i);
    } else if s.len() > 1 && !white_space(s[s.len() - 2]) {
        assert(s.drop_last()[i - 1] == s[i - 1]);
        lemma_words(s.drop_last(), i - 1);
    }
}

/// A text that is short of words is cut only where a paragraph ends in it, and there at once.
pub proof fn law_short_text_waits_for_a_paragraph(s: Seq<char>, min_words: nat)
    requires
        word_count(s) < min_words,
    ensures
        boundary(s, min_words) matches Some(k) ==> 2 <= k && paragraph_ends(s, 0, k - 2)
            && forall|j: int| 0 <= j < k - 2 ==> !#[trigger] paragraph_ends(s, 0, j),
        word_count(s) >= 1 && boundary(s, min_words) is None ==> forall|j: int|
            0 <= j < s.len() ==> !#[trigger] paragraph_ends(s, 0, j),
{
    lemma_first_paragraph(s, 0);
}

proof fn lemma_first_paragraph(s: Seq<char>, i: int)
    requires
        0 <= i,
    ensures
        match first_paragraph(s, i) {
            Some(k) => i + 1 < k <= s.len() && paragraph_ends(s, 0, k - 2) && forall|j: int|
                i <= j < k - 2 ==> !#[trigger] paragraph_ends(s, 0, j),
            None => forall|j: int| i <= j < s.len() ==> !#[trigger] paragraph_ends(s, 0, j),
        },
    decreases s.len() - i,
{
    if i < s.len() && !paragraph_ends(s, 0, i) {
        lemma_first_paragraph(s, i + 1);
    }
}

proof fn lemma_first_stop(s: Seq<char>, m: nat, i: int)
    requires
        0 <= i,
    ensures
        match first_stop(s, m, i) {
            Some(k) => {
                ||| i < k <= s.len() && sentence_ends(s, m, k - 1) && forall|j: int|
                    i <= j < k - 1 ==> !sentence_ends(s, m, j) && !paragraph_ends(s, m, j)
                ||| i + 1 < k <= s.len() && paragraph_ends(s, m, k - 2) && forall|j: int|
                    i <= j < k - 2 ==> !sentence_ends(s, m, j) && !paragraph_ends(s, m, j)
            },
            None => forall|j: int|
                i <= j < s.len() ==> !sentence_ends(s, m, j) && !paragraph_ends(s, m, j),
        },
    decreases s.len() - i,
{
    if i < s.len() && !sentence_ends(s, m, i) && !paragraph_ends(s, m, i) {
        lemma_first_stop(s, m, i + 1);
    }
}

/// What a chunker remembers of the stream: the text not cut yet, and whether a chunk has been cut
/// from the stream before.
pub struct ChunkerState {
    pub buffer: Seq<char>,
    pub first: bool,
}

/// What cutting a buffer gives: the raw pieces, what is spoken of them, and what is left.
pub struct Cut {
    pub pieces: Seq<Seq<char>>,
    pub chunks: Seq<Seq<char>>,
    pub end: ChunkerState,
}

/// The number of words that a chunk waits for: the first one for a single word.
pub open spec fn threshold(first: bool, target: nat) -> nat {
    if first {
        1
    } else {
        target
    }
}

/// Cuts pieces off the buffer as long as it has a boundary. A piece of which nothing is spoken
/// gives no chunk, and the chunk after it is still the first.
pub open spec fn cut(state: ChunkerState, target: nat, summarize: bool) -> Cut
    decreases state.buffer.len(),
{
    match boundary(state.buffer, threshold(state.first, target)) {
        Some(k) if 0 < k <= state.buffer.len() => {
            let piece = state.buffer.take(k);
            let spoken = cleaned(summarize, piece);
            let rest = ChunkerState {
                buffer: state.buffer.skip(k),
                first: state.first && spoken.len() == 0,
            };
            let more = cut(rest, target, summarize);
            Cut {
                pieces: seq![piece] + more.pieces,
                chunks: if spoken.len() > 0 {
                    seq![spoken] + more.chunks
                } else {
                    more.chunks
                },
                end: more.end,
            }
        },
        _ => Cut { pieces: Seq::empty(), chunks: Seq::empty(), end: state },
    }
}

/// The texts in a row, as one.
pub open spec fn joined(pieces: Seq<Seq<char>>) -> Seq<char>
    decreases pieces.len(),
{
    if pieces.len() == 0 {
        Seq::empty()
    } else {
        pieces[0] + joined(pieces.skip(1))
    }
}

/// The characters of each string.
pub open spec fn texts(v: Seq<String>) -> Seq<Seq<char>> {
    v.map_values(|s: String| s@)
}

/// Adaptive streaming sentence chunker designed for double-buffered TTS playback.
///
/// Fast-start mode: The very first chunk emits as soon as one complete sentence is ready.
/// Sustained mode: Subsequent chunks accumulate a target number of words for full prosodic warmth.
#[derive(Debug)]
pub struct SentenceChunker {
    sanitizer: TextSanitizer,
    buffer: String,
    is_first_chunk: bool,
    target_words_sustained: usize,
}

impl Default for SentenceChunker {
    fn default() -> (r: Self)
        ensures
            r.state() == (ChunkerState { buffer: Seq::empty(), first: true }),
            r.target() == 30,
            r.summarizes(),
    {
        Self::new(true, 30)
    }
}

impl SentenceChunker {
    /// What the chunker remembers of the stream.
    pub closed spec fn state(&self) -> ChunkerState {
        ChunkerState { buffer: self.buffer@, first: self.is_first_chunk }
    }

    /// The number of words that every chunk but the first waits for.
    pub closed spec fn target(&self) -> nat {
        self.target_words_sustained as nat
    }

    /// Whether code blocks are mentioned.
    pub closed spec fn summarizes(&self) -> bool {
        self.sanitizer.summarize_code_blocks
    }

    #[must_use]
    pub fn new(summarize_code_blocks: bool, target_words_sustained: usize) -> (r: Self)
        ensures
            r.state() == (ChunkerState { buffer: Seq::empty(), first: true }),
            r.target() == target_words_sustained,
            r.summarizes() == summarize_code_blocks,
    {
        Self {
            sanitizer: TextSanitizer::new(summarize_code_blocks),
            buffer: String::new(),
            is_first_chunk: true,
            target_words_sustained,
        }
    }

    /// Feeds a new streaming text delta from the LLM.
    /// Returns any chunks that are ready for immediate synthesis.
    pub fn feed(&mut self, delta: &str) -> (r: Vec<String>)
        ensures
            ({
                let start = ChunkerState {
                    buffer: old(self).state().buffer + delta@,
                    first: old(self).state().first,
                };
                let c = cut(start, old(self).target(), old(self).summarizes());
                texts(r@) == c.chunks && final(self).state() == c.end
            }),
            final(self).target() == old(self).target(),
            final(self).summarizes() == old(self).summarizes(),
            forall|i: int|
                0 <= i < r@.len() ==> (#[trigger] r@[i])@.len() > 0 && is_trimmed(r@[i]@),
            forall|i: int, j: int|
                0 <= i < r@.len() && 0 <= j < r@[i]@.len() ==> !diagram_symbol(
                    #[trigger] r@[i]@[j],
                ),
    {
        self.buffer.append(delta);
        let mut ready: Vec<String> = Vec::new();
        let ghost start = self.state();
        let ghost target = self.target();
        let ghost summarize = self.summarizes();
        let ghost whole = cut(start, target, summarize);
        assert(texts(ready@) + whole.chunks == whole.chunks);
        loop
            invariant
                self.target() == target,
                self.summarizes() == summarize,
                whole.chunks == texts(ready@) + cut(self.state(), target, summarize).chunks,
                whole.end == cut(self.state(), target, summarize).end,
                forall|i: int|
                    0 <= i < ready@.len() ==> (#[trigger] ready@[i])@.len() > 0 && is_trimmed(
                        ready@[i]@,
                    ),
                forall|i: int, j: int|
                    0 <= i < ready@.len() && 0 <= j < ready@[i]@.len() ==> !diagram_symbol(
                        #[trigger] ready@[i]@[j],
                    ),
            ensures
                self.target() == target,
                self.summarizes() == summarize,
                texts(ready@) == whole.chunks,
                self.state() == whole.end,
                forall|i: int|
                    0 <= i < ready@.len() ==> (#[trigger] ready@[i])@.len() > 0 && is_trimmed(
                        ready@[i]@,
                    ),
                forall|i: int, j: int|
                    0 <= i < ready@.len() && 0 <= j < ready@[i]@.len() ==> !diagram_symbol(
                        #[trigger] ready@[i]@[j],
                    ),
            decreases self.state().buffer.len(),
        {
            let ghost here = self.state();
            let min_words: usize = if self.is_first_chunk {
                1
            } else {
                self.target_words_sustained
            };
            proof {
                law_boundary_in_range(here.buffer, min_words as nat);
            }
            match find_sentence_boundary(self.buffer.as_str(), min_words) {
                Some(index) => {
                    let ghost k = boundary(here.buffer, min_words as nat)->0;
                    proof {
                        lemma_split(here.buffer, k);
                    }
                    let (head, tail) = split_text(self.buffer.as_str(), index);
                    assert(byte_len(here.buffer.take(k)) == index);
                    let piece = head.to_owned();
                    let rest = tail.to_owned();
                    self.buffer = rest;
                    let spoken = self.sanitizer.clean(piece.as_str());
                    let ghost before = ready@;
                    if !spoken.as_str().is_empty() {
                        self.is_first_chunk = false;
                        ready.push(spoken);
                        proof {
                            let more = cut(self.state(), target, summarize).chunks;
                            assert(texts(ready@) == texts(before).push(spoken@));
                            assert(texts(before) + (seq![spoken@] + more) == texts(before).push(
                                spoken@,
                            ) + more);
                        }
                    }
                },
                None => {
                    assert(texts(ready@) + Seq::<Seq<char>>::empty() == texts(ready@));
                    break ;
                },
            }
        }
        ready
    }

    /// Flushes any remaining text when the LLM stream completes.
    pub fn flush(&mut self) -> (r: Option<String>)
        ensures
            match r {
                Some(t) => t@ == cleaned(old(self).summarizes(), old(self).state().buffer)
                    && t@.len() > 0,
                None => cleaned(old(self).summarizes(), old(self).state().buffer).len() == 0,
            },
            final(self).state() == (ChunkerState { buffer: Seq::empty(), first: true }),
            final(self).target() == old(self).target(),
            final(self).summarizes() == old(self).summarizes(),
            r matches Some(t) ==> is_trimmed(t@) && forall|j: int|
                0 <= j < t@.len() ==> !diagram_symbol(#[trigger] t@[j]),
    {
        if is_blank(self.buffer.as_str()) {
            self.buffer.clear();
            self.is_first_chunk = true;
            return None;
        }
        let spoken = self.sanitizer.clean(self.buffer.as_str());
        self.buffer.clear();
        self.is_first_chunk = true;
        if spoken.as_str().is_empty() {
            None
        } else {
            Some(spoken)
        }
    }

    /// Resets the chunker buffer (used on interruption / barge-in).
    pub fn reset(&mut self)
        ensures
            final(self).state() == (ChunkerState { buffer: Seq::empty(), first: true }),
            final(self).target() == old(self).target(),
            final(self).summarizes() == old(self).summarizes(),
    {
        self.buffer.clear();
        self.is_first_chunk = true;
    }
}

/// The run of characters that ends in front of `i` is the one that begins at `p`, where white space
/// or nothing stands before it and none in it.
proof fn lemma_run(s: Seq<char>, p: int, i: int)
    requires
        0 <= p <= i <= s.len(),
        p == 0 || white_space(s[p - 1]),
        forall|k: int| p <= k < i ==> !white_space(#[trigger] s[k]),
    ensures
        last_run(s.take(i)) == s.subrange(p, i),
        p < i ==> last_word(s.take(i)) == s.subrange(p, i),
    decreases i,
{
    let t = s.take(i);
    if p < i {
        lemma_run(s, p, i - 1);
        assert(t.drop_last() =~= s.take(i - 1));
        assert(t.last() == s[i - 1]);
        assert(s.subrange(p, i - 1).push(s[i - 1]) =~= s.subrange(p, i));
    } else {
        assert(i > 0 ==> t.last() == s[i - 1]);
        assert(s.subrange(p, i) =~= Seq::<char>::empty());
    }
}

/// A period, an exclamation mark or a question mark ends the first chunk of a stream, at the
/// latest: outside of code blocks, behind a word of two or more characters that holds a letter and
/// is none of the known abbreviations, and with white space or nothing behind it.
pub proof fn law_each_sentence_mark_ends_the_first_chunk(
    s: Seq<char>,
    p: int,
    i: int,
    target: nat,
    summarize: bool,
)
    requires
        0 <= p,
        p + 2 <= i < s.len(),
        s[i] == '.' || s[i] == '!' || s[i] == '?',
        p == 0 || white_space(s[p - 1]),
        forall|k: int| p <= k < i ==> !white_space(#[trigger] s[k]),
        exists|k: int|
            p <= k < i && ('a' <= #[trigger] s[k] <= 'z' || 'A' <= s[k] <= 'Z' || letter(s[k])),
        ({
            let w = unicode_lowercase(s.subrange(p, i));
            &&& w != "e.g"@ && w != "i.e"@ && w != "etc"@ && w != "vs"@ && w != "dr"@ && w != "mr"@
            &&& w != "ms"@ && w != "prof"@ && w != "v1"@ && w != "v2"@ && w != "rs"@
        }),
        i + 1 == s.len() || s[i + 1] == ' ' || s[i + 1] == '\t' || s[i + 1] == '\n' || s[i + 1]
            == '\r' || s[i + 1] == '\u{c}',
        outside_code(s, i + 1) || forall|k: int| 0 <= k <= i ==> #[trigger] s[k] != '`',
    ensures
        boundary(s, 1) matches Some(k) && 0 < k <= i + 1,
        ({
            let c = cut(ChunkerState { buffer: s, first: true }, target, summarize);
            c.pieces.len() > 0 && 0 < c.pieces[0].len() <= i + 1
        }),
{
    lemma_run(s, p, i);
    lemma_words(s, p);
    let run = s.subrange(p, i);
    let k = choose|k: int|
        p <= k < i && ('a' <= #[trigger] s[k] <= 'z' || 'A' <= s[k] <= 'Z' || letter(s[k]));
    assert(letter(run[k - p]));
    if forall|k: int| 0 <= k <= i ==> #[trigger] s[k] != '`' {
        law_text_without_backticks_is_no_code(s, i + 1);
    }
    assert(sentence_ends(s, 1, i));
    lemma_first_stop(s, 1, 0);
    law_boundary_in_range(s, 1);
    assert(threshold(true, target) == 1);
}

/// A period behind one of the known abbreviations ends no chunk.
pub proof fn law_no_chunk_ends_with_an_abbreviation(s: Seq<char>, p: int, i: int, min_words: nat)
    requires
        0 <= p < i < s.len(),
        s[i] == '.' || s[i] == '!' || s[i] == '?',
        p == 0 || white_space(s[p - 1]),
        forall|k: int| p <= k < i ==> !white_space(#[trigger] s[k]),
        ({
            let w = unicode_lowercase(s.subrange(p, i));
            ||| w == "e.g"@ || w == "i.e"@ || w == "etc"@ || w == "vs"@ || w == "dr"@ || w == "mr"@
            ||| w == "ms"@ || w == "prof"@ || w == "v1"@ || w == "v2"@ || w == "rs"@
        }),
    ensures
        boundary(s, min_words) != Some(i + 1),
{
    lemma_run(s, p, i);
    assert(!sentence_ends(s, min_words, i));
    lemma_first_stop(s, min_words, 0);
    lemma_first_paragraph(s, 0);
}

/// A chunk ends with a period, an exclamation mark or a question mark that white space or nothing
/// follows, or with two line feeds.
pub proof fn law_a_chunk_ends_with_a_mark_or_a_paragraph(s: Seq<char>, min_words: nat)
    ensures
        boundary(s, min_words) matches Some(k) ==> {
            ||| (s[k - 1] == '.' || s[k - 1] == '!' || s[k - 1] == '?') && (k == s.len() || s[k]
                == ' ' || s[k] == '\t' || s[k] == '\n' || s[k] == '\r' || s[k] == '\u{c}')
            ||| k >= 2 && s[k - 1] == '\n' && s[k - 2] == '\n'
        },
{
    lemma_first_stop(s, min_words, 0);
    lemma_first_paragraph(s, 0);
}

/// Three backticks in a row open a code block where none is open, and close it where one is; a
/// text begins outside of code blocks, and no other character opens or closes one.
pub proof fn law_three_backticks_open_and_close_a_code_block(s: Seq<char>, i: int)
    requires
        0 <= i < s.len(),
    ensures
        outside_code(s, 0),
        s[i] != '`' ==> outside_code(s, i + 1) == outside_code(s, i),
        i + 3 <= s.len() && (i == 0 || s[i - 1] != '`') && s[i] == '`' && s[i + 1] == '`' && s[i
            + 2] == '`' ==> outside_code(s, i + 3) == !outside_code(s, i),
        (i == 0 || s[i - 1] != '`') && s[i] == '`' ==> outside_code(s, i + 1) == outside_code(s, i),
        i + 2 <= s.len() && (i == 0 || s[i - 1] != '`') && s[i] == '`' && s[i + 1] == '`'
            ==> outside_code(s, i + 2) == outside_code(s, i),
{
    reveal_with_fuel(backticks, 4);
    reveal_with_fuel(fences, 4);
}

/// A text without backticks holds no code block.
pub proof fn law_text_without_backticks_is_no_code(s: Seq<char>, n: int)
    requires
        0 <= n <= s.len(),
        forall|k: int| 0 <= k < n ==> #[trigger] s[k] != '`',
    ensures
        outside_code(s, n),
    decreases n,
{
    if n > 0 {
        law_text_without_backticks_is_no_code(s, n - 1);
        assert(s[n - 1] != '`');
    }
}

/// Where no white space stands but that of ASCII, the words that have ended are those that there
/// are, but for one that goes on.
proof fn lemma_words_ended(s: Seq<char>, n: int)
    requires
        0 <= n <= s.len(),
        forall|k: int| 0 <= k < n && white_space(#[trigger] s[k]) ==> ascii_space(s[k]),
    ensures
        word_count(s.take(n)) == words_ended(s, n) + (if n > 0 && !ascii_space(s[n - 1]) {
            1int
        } else {
            0
        }),
    decreases n,
{
    let t = s.take(n);
    if n > 0 {
        lemma_words_ended(s, n - 1);
        assert(t.drop_last() =~= s.take(n - 1));
        assert(t.last() == s[n - 1]);
        assert(white_space(s[n - 1]) == ascii_space(s[n - 1]));
        if n > 1 {
            assert(t[n - 2] == s[n - 2]);
            assert(white_space(s[n - 2]) == ascii_space(s[n - 2]));
        }
    }
}

/// A chunk of a text that has enough words holds at least as many as it was to wait for.
pub proof fn law_a_chunk_has_its_words(s: Seq<char>, min_words: nat)
    requires
        word_count(s) >= min_words,
        forall|k: int|
            0 <= k < s.len() && white_space(#[trigger] s[k]) ==> s[k] == ' ' || s[k] == '\t' || s[k]
                == '\n' || s[k] == '\r' || s[k] == '\u{c}',
    ensures
        boundary(s, min_words) matches Some(k) ==> word_count(s.take(k)) >= min_words,
{
    lemma_first_stop(s, min_words, 0);
    if let Some(k) = boundary(s, min_words) {
        lemma_words_ended(s, k);
        lemma_words_ended(s, k - 1);
    }
}

/// A sentence ends a chunk as soon as the words up to it are enough, or another end comes before.
pub proof fn law_enough_words_end_a_chunk(s: Seq<char>, p: int, i: int, min_words: nat)
    requires
        0 <= p,
        p + 2 <= i < s.len(),
        forall|k: int|
            0 <= k < s.len() && white_space(#[trigger] s[k]) ==> s[k] == ' ' || s[k] == '\t' || s[k]
                == '\n' || s[k] == '\r' || s[k] == '\u{c}',
        s[i] == '.' || s[i] == '!' || s[i] == '?',
        p == 0 || white_space(s[p - 1]),
        forall|k: int| p <= k < i ==> !white_space(#[trigger] s[k]),
        exists|k: int| p <= k < i && ('a' <= #[trigger] s[k] <= 'z' || 'A' <= s[k] <= 'Z'),
        ({
            let w = unicode_lowercase(s.subrange(p, i));
            &&& w != "e.g"@ && w != "i.e"@ && w != "etc"@ && w != "vs"@ && w != "dr"@ && w != "mr"@
            &&& w != "ms"@ && w != "prof"@ && w != "v1"@ && w != "v2"@ && w != "rs"@
        }),
        i + 1 == s.len() || white_space(s[i + 1]),
        outside_code(s, i + 1),
        word_count(s.take(i + 1)) >= min_words,
    ensures
        boundary(s, min_words) matches Some(k) && 0 < k <= i + 1,
{
    lemma_run(s, p, i);
    lemma_words_ended(s, i + 1);
    let run = s.subrange(p, i);
    let k = choose|k: int| p <= k < i && ('a' <= #[trigger] s[k] <= 'z' || 'A' <= s[k] <= 'Z');
    assert(letter(run[k - p]));
    lemma_word_count_grows(s, i + 1);
    assert(sentence_ends(s, min_words, i));
    lemma_first_stop(s, min_words, 0);
    law_boundary_in_range(s, min_words);
}

/// Two line feeds end a chunk where the words before them are enough, and where the whole text is
/// short of words, or another end comes before.
pub proof fn law_a_blank_line_ends_a_chunk(s: Seq<char>, i: int, min_words: nat)
    requires
        0 <= i,
        i + 1 < s.len(),
        s[i] == '\n',
        s[i + 1] == '\n',
        outside_code(s, i + 1),
        forall|k: int|
            0 <= k < s.len() && white_space(#[trigger] s[k]) ==> s[k] == ' ' || s[k] == '\t' || s[k]
                == '\n' || s[k] == '\r' || s[k] == '\u{c}',
        word_count(s.take(i)) >= min_words || 1 <= word_count(s) < min_words,
    ensures
        boundary(s, min_words) matches Some(k) && 0 < k <= i + 2,
{
    lemma_words_ended(s, i + 1);
    assert(s.take(i + 1).drop_last() =~= s.take(i));
    lemma_word_count_grows(s, i);
    lemma_first_stop(s, min_words, 0);
    lemma_first_paragraph(s, 0);
    law_boundary_in_range(s, min_words);
    if word_count(s.take(i)) >= min_words {
        assert(paragraph_ends(s, min_words, i));
    } else {
        assert(paragraph_ends(s, 0, i));
    }
}

proof fn lemma_word_count_grows(s: Seq<char>, n: int)
    requires
        0 <= n <= s.len(),
    ensures
        word_count(s.take(n)) <= word_count(s),
    decreases s.len() - n,
{
    if n < s.len() {
        lemma_word_count_grows(s, n + 1);
        assert(s.take(n + 1).drop_last() =~= s.take(n));
    } else {
        assert(s.take(n) =~= s);
    }
}

/// A chunk other than the first waits for its words: nothing is cut off a buffer that is short of
/// them and in which no blank line stands.
pub proof fn law_a_later_chunk_waits(s: Seq<char>, target: nat, summarize: bool)
    requires
        word_count(s) < target,
        forall|k: int| 0 <= k && k + 1 < s.len() ==> !(#[trigger] s[k] == '\n' && s[k + 1] == '\n'),
    ensures
        ({
            let c = cut(ChunkerState { buffer: s, first: false }, target, summarize);
            c.pieces.len() == 0 && c.chunks.len() == 0 && c.end.buffer == s && !c.end.first
        }),
{
    lemma_first_paragraph(s, 0);
    assert(threshold(false, target) == target);
    assert(boundary(s, target) is None);
}

/// Cutting loses no character and adds none: the pieces and what is left make up the buffer.
pub proof fn law_cut_keeps_every_character(state: ChunkerState, target: nat, summarize: bool)
    ensures
        joined(cut(state, target, summarize).pieces) + cut(state, target, summarize).end.buffer
            == state.buffer,
    decreases state.buffer.len(),
{
    let c = cut(state, target, summarize);
    law_boundary_in_range(state.buffer, threshold(state.first, target));
    if let Some(k) = boundary(state.buffer, threshold(state.first, target)) {
        let piece = state.buffer.take(k);
        let rest = ChunkerState {
            buffer: state.buffer.skip(k),
            first: state.first && cleaned(summarize, piece).len() == 0,
        };
        law_cut_keeps_every_character(rest, target, summarize);
        assert(c.pieces.skip(1) == cut(rest, target, summarize).pieces);
        assert(state.buffer == piece + state.buffer.skip(k));
        assert(joined(c.pieces) + c.end.buffer == piece + (joined(c.pieces.skip(1))
            + c.end.buffer));
    } else {
        assert(joined(c.pieces) =~= Seq::<char>::empty());
    }
}

/// Nothing that could be spoken is held back: what is left has no boundary.
pub proof fn law_cut_leaves_no_boundary(state: ChunkerState, target: nat, summarize: bool)
    ensures
        ({
            let end = cut(state, target, summarize).end;
            boundary(end.buffer, threshold(end.first, target)) is None
        }),
    decreases state.buffer.len(),
{
    law_boundary_in_range(state.buffer, threshold(state.first, target));
    if let Some(k) = boundary(state.buffer, threshold(state.first, target)) {
        let piece = state.buffer.take(k);
        let rest = ChunkerState {
            buffer: state.buffer.skip(k),
            first: state.first && cleaned(summarize, piece).len() == 0,
        };
        law_cut_leaves_no_boundary(rest, target, summarize);
    }
}

/// The chunks are what is spoken of the pieces, in order, without those of which nothing is
/// spoken; and the stream is past its first chunk as soon as there is one.
pub proof fn law_chunks_are_the_spoken_pieces(state: ChunkerState, target: nat, summarize: bool)
    ensures
        ({
            let c = cut(state, target, summarize);
            &&& c.chunks == c.pieces.map_values(|p: Seq<char>| cleaned(summarize, p)).filter(
                |t: Seq<char>| t.len() > 0,
            )
            &&& c.end.first == (state.first && c.chunks.len() == 0)
        }),
    decreases state.buffer.len(),
{
    let c = cut(state, target, summarize);
    let speak = |p: Seq<char>| cleaned(summarize, p);
    let audible = |t: Seq<char>| t.len() > 0;
    law_boundary_in_range(state.buffer, threshold(state.first, target));
    if let Some(k) = boundary(state.buffer, threshold(state.first, target)) {
        let piece = state.buffer.take(k);
        let spoken = cleaned(summarize, piece);
        let rest = ChunkerState {
            buffer: state.buffer.skip(k),
            first: state.first && spoken.len() == 0,
        };
        let more = cut(rest, target, summarize);
        law_chunks_are_the_spoken_pieces(rest, target, summarize);
        assert(c.pieces.map_values(speak) == seq![spoken] + more.pieces.map_values(speak));
        lemma_filter_first(spoken, more.pieces.map_values(speak), audible);
    } else {
        assert(c.pieces.map_values(speak) =~= Seq::<Seq<char>>::empty());
        reveal(Seq::filter);
    }
}

/// What a stream of texts gives that are fed one after the other.
pub open spec fn streamed(
    state: ChunkerState,
    deltas: Seq<Seq<char>>,
    target: nat,
    summarize: bool,
) -> Cut
    decreases deltas.len(),
{
    if deltas.len() == 0 {
        Cut { pieces: Seq::empty(), chunks: Seq::empty(), end: state }
    } else {
        let before = streamed(state, deltas.drop_last(), target, summarize);
        let c = cut(
            ChunkerState {
                buffer: before.end.buffer + deltas.last(),
                first: before.end.first,
            },
            target,
            summarize,
        );
        Cut {
            pieces: before.pieces + c.pieces,
            chunks: before.chunks + c.chunks,
            end: c.end,
        }
    }
}

/// However a text is cut up on its way in, streaming loses no character, adds none and reorders
/// none; what is told to the speaker is what is spoken of the pieces, in order.
pub proof fn law_streaming_loses_nothing(
    state: ChunkerState,
    deltas: Seq<Seq<char>>,
    target: nat,
    summarize: bool,
)
    ensures
        ({
            let c = streamed(state, deltas, target, summarize);
            &&& joined(c.pieces) + c.end.buffer == state.buffer + joined(deltas)
            &&& c.chunks == c.pieces.map_values(|p: Seq<char>| cleaned(summarize, p)).filter(
                |t: Seq<char>| t.len() > 0,
            )
        }),
    decreases deltas.len(),
{
    let c = streamed(state, deltas, target, summarize);
    let speak = |p: Seq<char>| cleaned(summarize, p);
    let audible = |t: Seq<char>| t.len() > 0;
    if deltas.len() == 0 {
        assert(c.pieces.map_values(speak) =~= Seq::<Seq<char>>::empty());
        reveal(Seq::filter);
        assert(state.buffer + joined(deltas) =~= joined(c.pieces) + c.end.buffer);
    } else {
        let init = deltas.drop_last();
        let before = streamed(state, init, target, summarize);
        law_streaming_loses_nothing(state, init, target, summarize);
        let here = ChunkerState {
            buffer: before.end.buffer + deltas.last(),
            first: before.end.first,
        };
        let now = cut(here, target, summarize);
        law_cut_keeps_every_character(here, target, summarize);
        law_chunks_are_the_spoken_pieces(here, target, summarize);
        lemma_joined(before.pieces, now.pieces);
        lemma_joined(init, seq![deltas.last()]);
        assert(init + seq![deltas.last()] =~= deltas);
        assert(seq![deltas.last()].skip(1) =~= Seq::<Seq<char>>::empty());
        assert(joined(seq![deltas.last()].skip(1)) =~= Seq::<char>::empty());
        assert(joined(seq![deltas.last()]) =~= deltas.last());
        assert(joined(c.pieces) + c.end.buffer =~= joined(before.pieces) + here.buffer);
        assert(joined(before.pieces) + here.buffer =~= (joined(before.pieces) + before.end.buffer)
            + deltas.last());
        assert((state.buffer + joined(init)) + deltas.last() =~= state.buffer + joined(deltas));
        assert(c.pieces.map_values(speak) =~= before.pieces.map_values(speak)
            + now.pieces.map_values(speak));
        Seq::filter_distributes_over_add(
            before.pieces.map_values(speak),
            now.pieces.map_values(speak),
            audible,
        );
    }
}

proof fn lemma_joined(a: Seq<Seq<char>>, b: Seq<Seq<char>>)
    ensures
        joined(a + b) == joined(a) + joined(b),
    decreases a.len(),
{
    if a.len() == 0 {
        assert(a + b =~= b);
        assert(joined(a) + joined(b) =~= joined(b));
    } else {
        lemma_joined(a.skip(1), b);
        assert((a + b).skip(1) =~= a.skip(1) + b);
        assert(a[0] + (joined(a.skip(1)) + joined(b)) =~= joined(a) + joined(b));
    }
}

proof fn lemma_filter_first(
    head: Seq<char>,
    tail: Seq<Seq<char>>,
    keep: spec_fn(Seq<char>) -> bool,
)
    ensures
        (seq![head] + tail).filter(keep) == (if keep(head) {
            seq![head] + tail.filter(keep)
        } else {
            tail.filter(keep)
        }),
    decreases tail.len(),
{
    reveal(Seq::filter);
    let all = seq![head] + tail;
    if tail.len() == 0 {
        assert(all.drop_last() =~= Seq::<Seq<char>>::empty());
        assert(all.last() == head);
        assert(all.drop_last().filter(keep) =~= Seq::<Seq<char>>::empty());
        assert(tail.filter(keep) =~= Seq::<Seq<char>>::empty());
    } else {
        assert(all.drop_last() == seq![head] + tail.drop_last());
        assert(all.last() == tail.last());
        lemma_filter_first(head, tail.drop_last(), keep);
        assert(seq![head] + tail.drop_last().filter(keep).push(tail.last()) == (seq![head]
            + tail.drop_last().filter(keep)).push(tail.last()));
    }
}

}
