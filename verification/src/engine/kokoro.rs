//! What the Kokoro-82M engine speaks and how: the text it is given, the pace, the parts a long
//! utterance is split into, and the style vector of each. A float is held as the 32 bits that
//! encode it.
use crate::engine::phonemizer::{
    espeak_arguments, remembered, utf8_lossy, Phonemization, PhonemizeError, Phonemizer,
    ProgramOutput,
};
use crate::engine::voice_loader::{
    law_each_number_of_phonemes_has_its_row, style_row, VoiceDatabase, STYLE_DIM,
};
use crate::text::chars::{
    begins_with, contains_text, ends_in, has_text, is_trimmed,
    law_the_first_occurrence_is_replaced, law_what_does_not_occur_is_not_replaced, lemma_trim,
    occurs_at, replace, replaced, same_text, trim, trimmed, unicode_lowercase,
};
use crate::text::pattern::{rewritten, Rule};
use vstd::prelude::*;
use vstd::slice::slice_to_vec;
use vstd::utf8::*;

verus! {

/// The sample rate of the model.
pub const NATIVE_SAMPLE_RATE: u32 = 24000;

/// The bits of 0.2, the slowest pace.
pub const MIN_SPEED_BITS: u32 = 0x3e4c_cccd;

/// The bits of 4.0, the fastest pace. Of floats that are not negative, the greater has the greater
/// bits.
pub const MAX_SPEED_BITS: u32 = 0x4080_0000;

/// How many tokens the model takes at once.
pub const MAX_TOKENS: usize = 510;

/// How many tokens a part of a long utterance takes at most, without those around it.
pub const MAX_PART: usize = 450;

/// The number of phonemes for which the blended voice is computed.
pub const BLEND_PHONEMES: usize = 50;

/// The text with dashes set off by spaces and ellipses as one character.
pub open spec fn paused(text: Seq<char>) -> Seq<char> {
    let t1 = replaced(text, "—"@, " — "@);
    let t2 = replaced(t1, "–"@, " — "@);
    replaced(t2, "..."@, "…"@)
}

/// The text with dashes set off by spaces, ellipses as one character and initialisms spelled out.
pub open spec fn cadence(text: Seq<char>) -> Seq<char> {
    let t4 = rewritten(r"\bAI\b"@, "A.I."@, paused(text));
    let t5 = rewritten(r"\bAPI\b"@, "A.P.I."@, t4);
    let t6 = rewritten(r"\bUI\b"@, "U.I."@, t5);
    let t7 = rewritten(r"\bCLI\b"@, "C.L.I."@, t6);
    trimmed(rewritten(r"\bJARVIS\b"@, "Jarvis"@, t7))
}

/// Whether the text sounds urgent.
pub open spec fn urgent(text: Seq<char>) -> bool {
    let lower = unicode_lowercase(text);
    ||| contains_text(lower, "warning"@)
    ||| contains_text(lower, "alert"@)
    ||| contains_text(lower, "critical"@)
    ||| contains_text(lower, "error"@)
    ||| contains_text(lower, "emergency"@)
    ||| text.len() > 0 && text.last() == '!'
}

/// Whether the text sounds like a question.
pub open spec fn inquiring(text: Seq<char>) -> bool {
    let lower = unicode_lowercase(text);
    ||| text.len() > 0 && text.last() == '?'
    ||| occurs_at(lower, "shall i"@, 0)
    ||| occurs_at(lower, "would you like"@, 0)
}

/// Whether the text sounds like an aside.
pub open spec fn measured(text: Seq<char>) -> bool {
    let lower = unicode_lowercase(text);
    ||| contains_text(text, "…"@)
    ||| occurs_at(lower, "as always"@, 0)
    ||| occurs_at(lower, "per your"@, 0)
}

/// The pace of the text in percent of the usual one.
pub open spec fn speed_modifier(text: Seq<char>) -> u32 {
    if urgent(text) {
        106
    } else if inquiring(text) {
        98
    } else if measured(text) {
        95
    } else {
        100
    }
}

/// Whether an utterance may be split behind the token: it stands for `;`, `,`, `.`, `!`, `?` or a
/// space.
pub open spec fn break_token(token: i64) -> bool {
    token == 1 || token == 3 || token == 4 || token == 5 || token == 6 || token == 16
}

/// The position behind the last break token from `start` up to `end`, or `none` where there is no
/// such token.
pub open spec fn last_break(tokens: Seq<i64>, start: int, end: int, none: int) -> int
    decreases end - start,
{
    if end <= start {
        none
    } else if break_token(tokens[end - 1]) {
        end
    } else {
        last_break(tokens, start, end - 1, none)
    }
}

/// Where the part that begins at `start` ends. The last part takes all that is left.
pub open spec fn part_end(tokens: Seq<i64>, start: int, end: int) -> int {
    if end - start <= MAX_PART {
        end
    } else {
        last_break(tokens, start, start + MAX_PART, start + MAX_PART)
    }
}

/// Tokens between the tokens that begin and end an utterance.
pub open spec fn enclosed(inner: Seq<i64>) -> Seq<i64> {
    seq![0i64] + inner + seq![0i64]
}

/// The inner tokens of the parts of an utterance, whose own inner tokens reach from `start` up to
/// `end`.
pub open spec fn inner_parts(tokens: Seq<i64>, start: int, end: int) -> Seq<Seq<i64>>
    decreases end - start,
{
    if start >= end {
        Seq::empty()
    } else {
        let split = part_end(tokens, start, end);
        if start < split <= end {
            seq![tokens.subrange(start, split)] + inner_parts(tokens, split, end)
        } else {
            Seq::empty()
        }
    }
}

/// The parts of an utterance that is too long for the model.
pub open spec fn long_parts(tokens: Seq<i64>) -> Seq<Seq<i64>> {
    inner_parts(tokens, 1, tokens.len() - 1).map_values(|p: Seq<i64>| enclosed(p))
}

/// What is given to the model, one part after the other: nothing where the tokens only begin and
/// end an utterance.
pub open spec fn token_plan(tokens: Seq<i64>) -> Seq<Seq<i64>> {
    if tokens.len() <= 2 {
        Seq::empty()
    } else if tokens.len() <= MAX_TOKENS {
        seq![tokens]
    } else {
        long_parts(tokens)
    }
}

/// The vectors of each list.
pub open spec fn lists(v: Seq<Vec<i64>>) -> Seq<Seq<i64>> {
    v.map_values(|t: Vec<i64>| t@)
}

/// Decides [`break_token`].
pub fn is_break_token(token: i64) -> (b: bool)
    ensures
        b == break_token(token),
{
    token == 4 || token == 5 || token == 6 || token == 1 || token == 3 || token == 16
}

proof fn lemma_last_break(tokens: Seq<i64>, start: int, end: int, none: int)
    ensures
        ({
            let b = last_break(tokens, start, end, none);
            ||| b == none && forall|i: int| start <= i < end ==> !break_token(#[trigger] tokens[i])
            ||| start < b <= end && break_token(tokens[b - 1]) && forall|i: int|
                b <= i < end ==> !break_token(#[trigger] tokens[i])
        }),
    decreases end - start,
{
    if start < end && !break_token(tokens[end - 1]) {
        lemma_last_break(tokens, start, end - 1, none);
    }
}

proof fn lemma_part_end(tokens: Seq<i64>, start: int, end: int)
    requires
        start < end,
    ensures
        start < part_end(tokens, start, end) <= end,
        part_end(tokens, start, end) - start <= MAX_PART,
{
    lemma_last_break(tokens, start, start + MAX_PART, start + MAX_PART);
}

/// Splits a long utterance at punctuation and spaces.
pub fn split_long_tokens(tokens: &Vec<i64>) -> (r: Vec<Vec<i64>>)
    requires
        tokens@.len() >= 1,
    ensures
        lists(r@) == long_parts(tokens@),
{
    let mut parts: Vec<Vec<i64>> = Vec::new();
    let end: usize = tokens.len() - 1;
    let mut start: usize = 1;
    let ghost wrap = |p: Seq<i64>| enclosed(p);
    let ghost all = inner_parts(tokens@, 1, end as int).map_values(wrap);
    assert(lists(parts@) + all == all);
    while start < end
        invariant
            end == tokens@.len() - 1,
            1 <= start,
            start <= end || start == 1,
            wrap == (|p: Seq<i64>| enclosed(p)),
            all == lists(parts@) + inner_parts(tokens@, start as int, end as int).map_values(wrap),
        decreases end - start,
    {
        let mut split: usize = end;
        if end - start > MAX_PART {
            let limit: usize = start + MAX_PART;
            split = limit;
            let mut i: usize = limit;
            while i > start
                invariant_except_break
                    split == limit,
                    start <= i <= limit,
                    last_break(tokens@, start as int, limit as int, limit as int) == last_break(
                        tokens@,
                        start as int,
                        i as int,
                        limit as int,
                    ),
                invariant
                    limit < tokens@.len(),
                ensures
                    split == last_break(tokens@, start as int, limit as int, limit as int),
                decreases i,
            {
                if is_break_token(tokens[i - 1]) {
                    split = i;
                    break ;
                }
                i -= 1;
            }
        }
        proof {
            lemma_part_end(tokens@, start as int, end as int);
        }
        let mut part: Vec<i64> = Vec::new();
        part.push(0);
        let mut j: usize = start;
        assert(part@ =~= seq![0i64] + tokens@.subrange(start as int, start as int));
        while j < split
            invariant
                start <= j <= split < tokens@.len(),
                part@ == seq![0i64] + tokens@.subrange(start as int, j as int),
            decreases split - j,
        {
            part.push(tokens[j]);
            assert(part@ =~= seq![0i64] + tokens@.subrange(start as int, j + 1));
            j += 1;
        }
        part.push(0);
        assert(part@ =~= enclosed(tokens@.subrange(start as int, split as int)));
        let ghost before = lists(parts@);
        parts.push(part);
        proof {
            let more = inner_parts(tokens@, split as int, end as int);
            let one = tokens@.subrange(start as int, split as int);
            assert(inner_parts(tokens@, start as int, end as int) == seq![one] + more);
            assert((seq![one] + more).map_values(wrap) =~= seq![enclosed(one)] + more.map_values(
                wrap,
            ));
            assert(lists(parts@) =~= before.push(part@));
            assert(before + (seq![part@] + more.map_values(wrap)) =~= before.push(part@)
                + more.map_values(wrap));
        }
        start = split;
    }
    assert(inner_parts(tokens@, start as int, end as int).map_values(wrap) =~= Seq::<
        Seq<i64>,
    >::empty());
    assert(lists(parts@) + Seq::<Seq<i64>>::empty() =~= lists(parts@));
    parts
}

/// What is given to the model for the tokens of an utterance, one part after the other.
pub fn plan_tokens(tokens: Vec<i64>) -> (r: Vec<Vec<i64>>)
    ensures
        lists(r@) == token_plan(tokens@),
{
    if tokens.len() <= 2 {
        let none: Vec<Vec<i64>> = Vec::new();
        assert(lists(none@) =~= Seq::<Seq<i64>>::empty());
        return none;
    }
    if tokens.len() <= MAX_TOKENS {
        let mut one: Vec<Vec<i64>> = Vec::new();
        one.push(tokens);
        assert(lists(one@) =~= seq![tokens@]);
        return one;
    }
    split_long_tokens(&tokens)
}

/// The texts in a row, as one.
pub open spec fn joined_tokens(parts: Seq<Seq<i64>>) -> Seq<i64>
    decreases parts.len(),
{
    if parts.len() == 0 {
        Seq::empty()
    } else {
        parts[0] + joined_tokens(parts.skip(1))
    }
}

/// Splitting loses no token and reorders none: the inner tokens of the parts, in a row, are the
/// inner tokens of the utterance.
pub proof fn law_split_keeps_every_token(tokens: Seq<i64>)
    requires
        tokens.len() >= 2,
    ensures
        joined_tokens(inner_parts(tokens, 1, tokens.len() - 1)) == tokens.subrange(
            1,
            tokens.len() - 1,
        ),
{
    lemma_inner_parts(tokens, 1, tokens.len() - 1);
}

/// Every part that the model is given is short enough for it, says something, and begins and ends
/// as an utterance does.
pub proof fn law_parts_fit_the_model(tokens: Seq<i64>, i: int)
    requires
        0 <= i < token_plan(tokens).len(),
    ensures
        2 < token_plan(tokens)[i].len() <= MAX_TOKENS,
        tokens.len() > MAX_TOKENS ==> token_plan(tokens)[i][0] == 0 && token_plan(tokens)[i].last()
            == 0,
{
    if tokens.len() > MAX_TOKENS {
        lemma_inner_parts(tokens, 1, tokens.len() - 1);
    }
}

/// A part that is not the last ends behind a break token, unless it holds none and is as long as a
/// part may be.
pub proof fn law_parts_end_at_breaks(tokens: Seq<i64>, start: int, end: int)
    requires
        start < part_end(tokens, start, end) < end,
    ensures
        ({
            let split = part_end(tokens, start, end);
            ||| break_token(tokens[split - 1])
            ||| split == start + MAX_PART && forall|i: int|
                start <= i < split ==> !break_token(#[trigger] tokens[i])
        }),
{
    lemma_last_break(tokens, start, start + MAX_PART, start + MAX_PART);
}

proof fn lemma_inner_parts(tokens: Seq<i64>, start: int, end: int)
    requires
        0 <= start <= end <= tokens.len(),
    ensures
        joined_tokens(inner_parts(tokens, start, end)) == tokens.subrange(start, end),
        forall|i: int|
            0 <= i < inner_parts(tokens, start, end).len() ==> 0 < (#[trigger] inner_parts(
                tokens,
                start,
                end,
            )[i]).len() <= MAX_PART,
    decreases end - start,
{
    let parts = inner_parts(tokens, start, end);
    if start < end {
        lemma_part_end(tokens, start, end);
        let split = part_end(tokens, start, end);
        lemma_inner_parts(tokens, split, end);
        let more = inner_parts(tokens, split, end);
        assert(parts.skip(1) =~= more);
        assert(tokens.subrange(start, end) =~= tokens.subrange(start, split) + tokens.subrange(
            split,
            end,
        ));
        assert forall|i: int| 0 <= i < parts.len() implies 0 < (#[trigger] parts[i]).len()
            <= MAX_PART by {
            if i > 0 {
                assert(parts[i] == more[i - 1]);
            }
        }
    } else {
        assert(tokens.subrange(start, end) =~= Seq::<i64>::empty());
    }
}

/// A style vector that goes into a blend, with its weight in percent.
#[derive(Debug)]
pub struct StylePart {
    pub style: Vec<u32>,
    pub percent: u32,
}

/// The row of a voice for this many phonemes.
pub open spec fn style_of(
    voices: Map<Seq<char>, Seq<u32>>,
    voice: Seq<char>,
    phoneme_count: int,
) -> Seq<u32> {
    voices[voice].subrange(
        style_row(phoneme_count) * STYLE_DIM,
        style_row(phoneme_count) * STYLE_DIM + STYLE_DIM,
    )
}

/// The style vector that is spoken with.
#[derive(Debug)]
pub enum Style {
    /// The blended voice.
    Jarvis(Vec<u32>),
    /// A row of a voice of the database.
    Voice(Vec<u32>),
}

/// Why there is no style vector.
#[derive(Debug)]
pub enum StyleError {
    /// Neither the blended voice nor the voice that stands in for it is there.
    NoJarvis,
    /// The voice is not in the database, and there is no blended voice to stand in for it.
    UnknownVoice(String),
}

impl StyleError {
    /// The message for the user.
    pub fn message(&self) -> (r: String)
        ensures
            r@ == match *self {
                StyleError::NoJarvis => "Voice style not available for JARVIS"@,
                StyleError::UnknownVoice(voice) => "Voice '"@ + voice@
                    + "' not found in voice database"@,
            },
    {
        match self {
            StyleError::NoJarvis => "Voice style not available for JARVIS".to_owned(),
            StyleError::UnknownVoice(voice) => {
                let mut m = "Voice '".to_owned();
                m.append(voice.as_str());
                m.append("' not found in voice database");
                m
            },
        }
    }
}

/// A text made ready for phonemization, and its pace in percent of the usual one.
#[derive(Debug)]
pub struct Utterance {
    pub text: String,
    pub speed_percent: u32,
}

/// The part of the Kokoro-82M neural TTS synthesis engine that is not inference.
pub struct KokoroEngine {
    voices_db: VoiceDatabase,
    phonemizer: Phonemizer,
    voice: String,
    speed: u32,
    sample_rate: u32,
    jarvis_style: Option<Vec<u32>>,
}

impl KokoroEngine {
    /// The floats of each voice.
    pub closed spec fn voices(&self) -> Map<Seq<char>, Seq<u32>> {
        self.voices_db.voices()
    }

    /// The phonemes of each phrase remembered.
    pub closed spec fn cache(&self) -> Map<Seq<char>, Seq<char>> {
        self.phonemizer.cache()
    }

    /// The language that is spoken.
    pub closed spec fn language(&self) -> Seq<char> {
        self.phonemizer.language()
    }

    /// The name of the voice that is spoken with.
    pub closed spec fn voice_name(&self) -> Seq<char> {
        self.voice@
    }

    /// The pace, as bits.
    pub closed spec fn speed_bits(&self) -> u32 {
        self.speed
    }

    /// The sample rate of what is spoken.
    pub closed spec fn rate(&self) -> u32 {
        self.sample_rate
    }

    /// The blended voice.
    pub closed spec fn jarvis(&self) -> Option<Seq<u32>> {
        match self.jarvis_style {
            Some(v) => Some(v@),
            None => None,
        }
    }

    /// The engine with a voice database and, where it could be computed, the blended voice.
    pub fn new(
        voices_db: VoiceDatabase,
        jarvis_style: Option<Vec<u32>>,
        voice: &str,
        speed: u32,
    ) -> (r: Self)
        ensures
            r.voices() == voices_db.voices(),
            r.jarvis() == (match jarvis_style {
                Some(v) => Some(v@),
                None => None,
            }),
            r.voice_name() == voice@,
            r.speed_bits() == speed,
            r.rate() == NATIVE_SAMPLE_RATE,
            r.language() == "en-gb"@,
            r.cache() == Map::<Seq<char>, Seq<char>>::empty(),
    {
        KokoroEngine {
            voices_db,
            phonemizer: Phonemizer::new("en-gb"),
            voice: voice.to_owned(),
            speed,
            sample_rate: NATIVE_SAMPLE_RATE,
            jarvis_style,
        }
    }

    /// The parts of the J.A.R.V.I.S. 4-way British RP blend:
    /// 60% George, 30% Daniel, 5% Fable, 5% Lewis. None where one of the voices is missing.
    pub fn compute_jarvis_blend(db: &VoiceDatabase) -> (r: Option<Vec<StylePart>>)
        ensures
            ({
                let v = db.voices();
                match r {
                    Some(parts) => {
                        &&& v.contains_key("bm_george"@) && v.contains_key("bm_daniel"@)
                            && v.contains_key("bm_fable"@) && v.contains_key("bm_lewis"@)
                        &&& parts@.len() == 4
                        &&& parts@[0].percent == 60 && parts@[0].style@ == style_of(
                            v,
                            "bm_george"@,
                            BLEND_PHONEMES as int,
                        )
                        &&& parts@[1].percent == 30 && parts@[1].style@ == style_of(
                            v,
                            "bm_daniel"@,
                            BLEND_PHONEMES as int,
                        )
                        &&& parts@[2].percent == 5 && parts@[2].style@ == style_of(
                            v,
                            "bm_fable"@,
                            BLEND_PHONEMES as int,
                        )
                        &&& parts@[3].percent == 5 && parts@[3].style@ == style_of(
                            v,
                            "bm_lewis"@,
                            BLEND_PHONEMES as int,
                        )
                        &&& parts@[0].style@ == v["bm_george"@].subrange(49int * 256, 50int * 256)
                        &&& parts@[1].style@ == v["bm_daniel"@].subrange(49int * 256, 50int * 256)
                        &&& parts@[2].style@ == v["bm_fable"@].subrange(49int * 256, 50int * 256)
                        &&& parts@[3].style@ == v["bm_lewis"@].subrange(49int * 256, 50int * 256)
                    },
                    None => !(v.contains_key("bm_george"@) && v.contains_key("bm_daniel"@)
                        && v.contains_key("bm_fable"@) && v.contains_key("bm_lewis"@)),
                }
            }),
    {
        let george = db.get_style("bm_george", BLEND_PHONEMES)?;
        let daniel = db.get_style("bm_daniel", BLEND_PHONEMES)?;
        let fable = db.get_style("bm_fable", BLEND_PHONEMES)?;
        let lewis = db.get_style("bm_lewis", BLEND_PHONEMES)?;
        let mut parts: Vec<StylePart> = Vec::new();
        parts.push(StylePart { style: slice_to_vec(george), percent: 60 });
        parts.push(StylePart { style: slice_to_vec(daniel), percent: 30 });
        parts.push(StylePart { style: slice_to_vec(fable), percent: 5 });
        parts.push(StylePart { style: slice_to_vec(lewis), percent: 5 });
        Some(parts)
    }

    #[must_use]
    pub fn sample_rate(&self) -> (r: u32)
        ensures
            r == self.rate(),
    {
        self.sample_rate
    }

    #[must_use]
    pub fn voice(&self) -> (r: &str)
        ensures
            r@ == self.voice_name(),
    {
        self.voice.as_str()
    }

    pub fn set_voice(&mut self, voice: &str)
        ensures
            final(self).voice_name() == voice@,
            final(self).voices() == old(self).voices(),
            final(self).cache() == old(self).cache(),
            final(self).language() == old(self).language(),
            final(self).speed_bits() == old(self).speed_bits(),
            final(self).rate() == old(self).rate(),
            final(self).jarvis() == old(self).jarvis(),
    {
        self.voice = voice.to_owned();
    }

    #[must_use]
    pub fn speed(&self) -> (r: u32)
        ensures
            r == self.speed_bits(),
    {
        self.speed
    }

    /// Sets the pace, where it is from 0.2 to 4.0; any other is passed over.
    pub fn set_speed(&mut self, speed: u32)
        ensures
            final(self).speed_bits() == (if MIN_SPEED_BITS <= speed <= MAX_SPEED_BITS {
                speed
            } else {
                old(self).speed_bits()
            }),
            final(self).voice_name() == old(self).voice_name(),
            final(self).voices() == old(self).voices(),
            final(self).cache() == old(self).cache(),
            final(self).language() == old(self).language(),
            final(self).rate() == old(self).rate(),
            final(self).jarvis() == old(self).jarvis(),
    {
        if MIN_SPEED_BITS <= speed && speed <= MAX_SPEED_BITS {
            self.speed = speed;
        }
    }

    /// Preconditions text for British cadence, expanding initialisms cleanly.
    pub fn enhance_cadence(text: &str) -> (r: String)
        ensures
            r@ == cadence(text@),
    {
        proof {
            reveal_strlit("—");
            reveal_strlit("–");
            reveal_strlit("...");
        }
        let t1 = replace(text, "—", " — ");
        let t2 = replace(t1.as_str(), "–", " — ");
        let t3 = replace(t2.as_str(), "...", "…");
        let t4 = Rule::new(r"\bAI\b").apply(t3.as_str(), "A.I.");
        let t5 = Rule::new(r"\bAPI\b").apply(t4.as_str(), "A.P.I.");
        let t6 = Rule::new(r"\bUI\b").apply(t5.as_str(), "U.I.");
        let t7 = Rule::new(r"\bCLI\b").apply(t6.as_str(), "C.L.I.");
        let t8 = Rule::new(r"\bJARVIS\b").apply(t7.as_str(), "Jarvis");
        trim(t8.as_str())
    }

    /// Detects situational tone (alert, inquiry, witty, standard) for dynamic speed modulation, in
    /// percent.
    pub fn detect_speed_modifier(text: &str) -> (r: u32)
        ensures
            r == speed_modifier(text@),
    {
        let lower = text.to_lowercase();
        let l = lower.as_str();
        if has_text(l, "warning") || has_text(l, "alert") || has_text(l, "critical") || has_text(
            l,
            "error",
        ) || has_text(l, "emergency") || ends_in(text, '!') {
            106
        } else if ends_in(text, '?') || begins_with(l, "shall i") || begins_with(
            l,
            "would you like",
        ) {
            98
        } else if has_text(text, "…") || begins_with(l, "as always") || begins_with(
            l,
            "per your",
        ) {
            95
        } else {
            100
        }
    }

    /// Makes a text ready for phonemization. None where it holds nothing but white space.
    pub fn prepare(&self, text: &str) -> (r: Option<Utterance>)
        ensures
            match r {
                Some(u) => {
                    &&& trimmed(text@).len() > 0
                    &&& u.text@ == cadence(trimmed(text@))
                    &&& u.speed_percent == speed_modifier(cadence(trimmed(text@)))
                },
                None => trimmed(text@).len() == 0,
            },
    {
        let t = trim(text);
        if t.as_str().is_empty() {
            return None;
        }
        let formatted = Self::enhance_cadence(t.as_str());
        let speed_percent: u32 = Self::detect_speed_modifier(formatted.as_str());
        Some(Utterance { text: formatted, speed_percent })
    }

    /// The phonemes of a prepared text, or the program that gives them.
    pub fn phonemize(&self, text: &str) -> (r: Phonemization)
        ensures
            match r {
                Phonemization::Done(ipa) => if trimmed(text@).len() == 0 {
                    ipa@ == Seq::<char>::empty()
                } else {
                    self.cache().contains_key(trimmed(text@)) && ipa@ == self.cache()[trimmed(
                        text@,
                    )]
                },
                Phonemization::Run(arguments) => {
                    &&& trimmed(text@).len() > 0
                    &&& !self.cache().contains_key(trimmed(text@))
                    &&& arguments@.map_values(|s: String| s@)
                        == espeak_arguments(
                        self.language(),
                        trimmed(text@),
                    )
                },
            },
    {
        self.phonemizer.phonemize(text)
    }

    /// Takes the phonemes from what the program printed, and remembers them for the text.
    pub fn finish_phonemes(&mut self, text: &str, output: &ProgramOutput) -> (r: Result<
        String,
        PhonemizeError,
    >)
        ensures
            r is Ok <==> output.success,
            match r {
                Ok(ipa) => {
                    &&& ipa@ == trimmed(utf8_lossy(output.stdout@))
                    &&& valid_utf8(output.stdout@) ==> ipa@ == trimmed(decode_utf8(output.stdout@))
                    &&& final(self).cache() == remembered(
                        old(self).cache(),
                        trimmed(text@),
                        ipa@,
                    )
                },
                Err(e) => {
                    &&& e.stderr@ == utf8_lossy(output.stderr@)
                    &&& valid_utf8(output.stderr@) ==> e.stderr@ == decode_utf8(output.stderr@)
                    &&& final(self).cache() == old(self).cache()
                },
            },
            final(self).voice_name() == old(self).voice_name(),
            final(self).voices() == old(self).voices(),
            final(self).language() == old(self).language(),
            final(self).speed_bits() == old(self).speed_bits(),
            final(self).rate() == old(self).rate(),
            final(self).jarvis() == old(self).jarvis(),
    {
        self.phonemizer.finish(text, output)
    }

    /// The style vector for a part of this many tokens. The blended voice stands in for a voice
    /// that is not in the database, and George for the blended voice.
    pub fn choose_style(&self, token_count: usize) -> (r: Result<Style, StyleError>)
        ensures
            ({
                let phonemes = if token_count >= 2 {
                    token_count - 2
                } else {
                    0
                };
                let is_jarvis = self.voice_name() == "jarvis"@;
                let named = if is_jarvis {
                    "bm_george"@
                } else {
                    self.voice_name()
                };
                let in_database = self.voices().contains_key(named);
                match r {
                    Ok(Style::Jarvis(s)) => self.jarvis() == Some(s@) && (is_jarvis
                        || !in_database),
                    Ok(Style::Voice(s)) => in_database && (is_jarvis ==> self.jarvis() is None)
                        && s@ == style_of(self.voices(), named, phonemes),
                    Err(StyleError::NoJarvis) => is_jarvis && self.jarvis() is None && !in_database,
                    Err(StyleError::UnknownVoice(voice)) => !is_jarvis && self.jarvis() is None
                        && !in_database && voice@ == self.voice_name(),
                }
            }),
    {
        let phoneme_count: usize = if token_count >= 2 {
            token_count - 2
        } else {
            0
        };
        if same_text(self.voice.as_str(), "jarvis") {
            match &self.jarvis_style {
                Some(j) => return Ok(Style::Jarvis(slice_to_vec(j.as_slice()))),
                None => {},
            }
            match self.voices_db.get_style("bm_george", phoneme_count) {
                Some(style) => Ok(Style::Voice(slice_to_vec(style))),
                None => Err(StyleError::NoJarvis),
            }
        } else {
            match self.voices_db.get_style(self.voice.as_str(), phoneme_count) {
                Some(style) => return Ok(Style::Voice(slice_to_vec(style))),
                None => {},
            }
            match &self.jarvis_style {
                Some(j) => Ok(Style::Jarvis(slice_to_vec(j.as_slice()))),
                None => Err(StyleError::UnknownVoice(self.voice.clone())),
            }
        }
    }
}

/// A word of warning in any part of a text, or an exclamation mark at its end, makes it urgent: it
/// is spoken at 106 percent of the usual pace.
pub proof fn law_a_warning_is_spoken_faster(text: Seq<char>)
    requires
        contains_text(unicode_lowercase(text), "warning"@) || contains_text(
            unicode_lowercase(text),
            "alert"@,
        ) || contains_text(unicode_lowercase(text), "critical"@) || contains_text(
            unicode_lowercase(text),
            "error"@,
        ) || contains_text(unicode_lowercase(text), "emergency"@) || (text.len() > 0 && text.last()
            == '!'),
    ensures
        speed_modifier(text) == 106,
{
}

/// The pace of a text is one of four. Without a word of warning, one that ends with a question mark
/// or begins as an offer is spoken at 98 percent of the usual pace; of the rest, one with an
/// ellipsis or that begins as an aside at 95 percent, and every other at the usual pace.
pub proof fn law_tone_sets_the_pace(text: Seq<char>)
    ensures
        ({
            let lower = unicode_lowercase(text);
            let warns = contains_text(lower, "warning"@) || contains_text(lower, "alert"@)
                || contains_text(lower, "critical"@) || contains_text(lower, "error"@)
                || contains_text(lower, "emergency"@);
            let ending = if text.len() > 0 {
                text.last()
            } else {
                ' '
            };
            let offers = lower.len() >= 7 && lower.take(7) == "shall i"@ || lower.len() >= 14
                && lower.take(14) == "would you like"@;
            let aside = text.contains('…') || lower.len() >= 9 && lower.take(9) == "as always"@
                || lower.len() >= 8 && lower.take(8) == "per your"@;
            &&& speed_modifier(text) == 106 <==> warns || ending == '!'
            &&& speed_modifier(text) == 98 <==> !warns && ending != '!' && (ending == '?' || offers)
            &&& speed_modifier(text) == 95 <==> !warns && ending != '!' && ending != '?' && !offers
                && aside
            &&& speed_modifier(text) == 100 <==> !warns && ending != '!' && ending != '?' && !offers
                && !aside
        }),
{
    let lower = unicode_lowercase(text);
    reveal_strlit("shall i");
    reveal_strlit("would you like");
    reveal_strlit("as always");
    reveal_strlit("per your");
    reveal_strlit("…");
    assert(lower.len() >= 7 ==> lower.take(7) == lower.subrange(0, 7));
    assert(lower.len() >= 14 ==> lower.take(14) == lower.subrange(0, 14));
    assert(lower.len() >= 9 ==> lower.take(9) == lower.subrange(0, 9));
    assert(lower.len() >= 8 ==> lower.take(8) == lower.subrange(0, 8));
    assert(contains_text(text, "…"@) == text.contains('…')) by {
        if contains_text(text, "…"@) {
            let i = choose|i: int| occurs_at(text, "…"@, i);
            assert(text.subrange(i, i + 1)[0] == '…');
            assert(text[i] == '…');
        }
        if text.contains('…') {
            let i = choose|i: int| 0 <= i < text.len() && text[i] == '…';
            assert(text.subrange(i, i + 1) =~= "…"@);
            assert(occurs_at(text, "…"@, i));
        }
    }
}

/// A dash, long or short, is set off by spaces, and three periods become one character, whatever
/// other text stands around them; that text is kept.
pub proof fn law_dashes_and_ellipses_are_pauses(before: Seq<char>, after: Seq<char>)
    requires
        forall|i: int|
            0 <= i < before.len() ==> {
                let c = #[trigger] before[i];
                c != '—' && c != '–' && c != '.'
            },
        forall|i: int|
            0 <= i < after.len() ==> {
                let c = #[trigger] after[i];
                c != '—' && c != '–' && c != '.'
            },
    ensures
        paused(before + "—"@ + after) == before + " — "@ + after,
        paused(before + "–"@ + after) == before + " — "@ + after,
        paused(before + "..."@ + after) == before + "…"@ + after,
        paused(before + after) == before + after,
{
    reveal_strlit("—");
    reveal_strlit("–");
    reveal_strlit("...");
    reveal_strlit(" — ");
    reveal_strlit("…");
    let long = before + "—"@ + after;
    let short = before + "–"@ + after;
    let dots = before + "..."@ + after;
    let set_off = before + " — "@ + after;
    let ellipsis = before + "…"@ + after;
    assert(after =~= Seq::<char>::empty() + after);
    lemma_no_pause(after, '—', "—"@, " — "@);
    lemma_no_pause(after, '–', "–"@, " — "@);
    lemma_no_pause(after, '.', "..."@, "…"@);
    lemma_no_pause(short, '—', "—"@, " — "@);
    lemma_no_pause(dots, '—', "—"@, " — "@);
    lemma_no_pause(dots, '–', "–"@, " — "@);
    lemma_no_pause(set_off, '–', "–"@, " — "@);
    lemma_no_pause(set_off, '.', "..."@, "…"@);
    lemma_no_pause(before + after, '—', "—"@, " — "@);
    lemma_no_pause(before + after, '–', "–"@, " — "@);
    lemma_no_pause(before + after, '.', "..."@, "…"@);
    lemma_first_pause(before, after, '—', "—"@, " — "@);
    lemma_first_pause(before, after, '–', "–"@, " — "@);
    lemma_first_pause(before, after, '.', "..."@, "…"@);
}

proof fn lemma_no_pause(s: Seq<char>, c: char, from: Seq<char>, to: Seq<char>)
    requires
        from.len() > 0,
        from[0] == c,
        forall|i: int| 0 <= i < s.len() ==> #[trigger] s[i] != c,
    ensures
        replaced(s, from, to) == s,
{
    assert forall|i: int| !occurs_at(s, from, i) by {
        if occurs_at(s, from, i) {
            assert(s.subrange(i, i + from.len())[0] == c);
            assert(s[i] == c);
        }
    }
    law_what_does_not_occur_is_not_replaced(s, from, to);
}

proof fn lemma_first_pause(
    before: Seq<char>,
    after: Seq<char>,
    c: char,
    from: Seq<char>,
    to: Seq<char>,
)
    requires
        from.len() > 0,
        from[0] == c,
        forall|i: int| 0 <= i < before.len() ==> #[trigger] before[i] != c,
        forall|i: int| 0 <= i < after.len() ==> #[trigger] after[i] != c,
    ensures
        replaced(before + from + after, from, to) == before + to + after,
{
    let s = before + from + after;
    assert forall|i: int| 0 <= i < before.len() implies !#[trigger] occurs_at(s, from, i) by {
        if occurs_at(s, from, i) {
            assert(s.subrange(i, i + from.len())[0] == c);
            assert(s[i] == before[i]);
        }
    }
    law_the_first_occurrence_is_replaced(before, from, to, after);
    lemma_no_pause(after, c, from, to);
}

/// What is spoken begins and ends with no white space.
pub proof fn law_cadence_is_trimmed(text: Seq<char>)
    ensures
        is_trimmed(cadence(text)),
{
    lemma_trim(
        rewritten(
            r"\bJARVIS\b"@,
            "Jarvis"@,
            rewritten(
                r"\bCLI\b"@,
                "C.L.I."@,
                rewritten(
                    r"\bUI\b"@,
                    "U.I."@,
                    rewritten(
                        r"\bAPI\b"@,
                        "A.P.I."@,
                        rewritten(r"\bAI\b"@, "A.I."@, paused(text)),
                    ),
                ),
            ),
        ),
    );
}

/// An utterance of at most 510 tokens is spoken as it is, in one piece; one that is only begun and
/// ended is not spoken at all.
pub proof fn law_a_short_utterance_is_spoken_in_one_piece(tokens: Seq<i64>)
    ensures
        tokens.len() <= 2 ==> token_plan(tokens).len() == 0,
        2 < tokens.len() <= 510 ==> token_plan(tokens) == seq![tokens],
        tokens.len() > 510 ==> token_plan(tokens).len() >= 2,
{
    if tokens.len() > 510 {
        lemma_part_end(tokens, 1, tokens.len() - 1);
        let split = part_end(tokens, 1, tokens.len() - 1);
        lemma_part_end(tokens, split, tokens.len() - 1);
        let more = inner_parts(tokens, split, tokens.len() - 1);
        assert(more.len() > 0);
    }
}

/// A long utterance is spoken whole: what its parts say between the tokens around them makes up
/// what the utterance says, in order. No part has more than 452 tokens.
pub proof fn law_a_long_utterance_is_spoken_whole(tokens: Seq<i64>)
    requires
        tokens.len() > 510,
    ensures
        joined_tokens(
            token_plan(tokens).map_values(|p: Seq<i64>| p.subrange(1, p.len() - 1)),
        ) == tokens.subrange(1, tokens.len() - 1),
        forall|i: int|
            0 <= i < token_plan(tokens).len() ==> 2 < (#[trigger] token_plan(tokens)[i]).len()
                <= 452,
{
    let inner = inner_parts(tokens, 1, tokens.len() - 1);
    let strip = |p: Seq<i64>| p.subrange(1, p.len() - 1);
    let plan = token_plan(tokens);
    lemma_inner_parts(tokens, 1, tokens.len() - 1);
    assert forall|i: int| 0 <= i < inner.len() implies plan.map_values(strip)[i] == #[trigger] inner[i] by {
        assert(plan[i] == enclosed(inner[i]));
        assert(enclosed(inner[i]).subrange(1, enclosed(inner[i]).len() - 1) =~= inner[i]);
    }
    assert(plan.map_values(strip) =~= inner);
    assert forall|i: int| 0 <= i < plan.len() implies 2 < (#[trigger] plan[i]).len() <= 452 by {
        assert(plan[i] == enclosed(inner[i]));
        assert(0 < inner[i].len() <= MAX_PART);
    }
}

/// A part of a long utterance ends at punctuation or a space wherever there is one: a part that
/// others follow ends with one of the tokens 1, 3, 4, 5, 6 and 16, and none of these is passed over
/// between it and the most that a part may hold, which is 450 tokens.
pub proof fn law_parts_end_at_punctuation(tokens: Seq<i64>, start: int, end: int, i: int)
    requires
        end - start > 450,
        part_end(tokens, start, end) <= i < start + 450,
    ensures
        ({
            let split = part_end(tokens, start, end);
            let t = tokens[split - 1];
            &&& start < split
            &&& t == 1 || t == 3 || t == 4 || t == 5 || t == 6 || t == 16
            &&& tokens[i] != 1 && tokens[i] != 3 && tokens[i] != 4 && tokens[i] != 5 && tokens[i]
                != 6 && tokens[i] != 16
        }),
{
    lemma_last_break(tokens, start, start + MAX_PART, start + MAX_PART);
}

/// A part that can be as long as a part may be is that long, and one that ends what is left takes
/// all of it.
pub proof fn law_parts_are_as_long_as_they_can_be(tokens: Seq<i64>, start: int, end: int)
    ensures
        start <= end <= start + 450 ==> part_end(tokens, start, end) == end,
        end - start > 450 && ({
            let t = tokens[start + 449];
            t == 1 || t == 3 || t == 4 || t == 5 || t == 6 || t == 16
        }) ==> part_end(tokens, start, end) == start + 450,
        end - start > 450 && (forall|i: int|
            start <= i < start + 450 ==> {
                let t = #[trigger] tokens[i];
                t != 1 && t != 3 && t != 4 && t != 5 && t != 6 && t != 16
            }) ==> part_end(tokens, start, end) == start + 450,
{
    lemma_last_break(tokens, start, start + MAX_PART, start + MAX_PART);
}

/// The style of a voice for `n` phonemes is its row of 256 floats from `(n - 1) * 256` on, where `n`
/// is from 1 to 510; so different numbers of phonemes have rows that do not overlap.
pub proof fn law_the_style_is_that_row(
    voices: Map<Seq<char>, Seq<u32>>,
    voice: Seq<char>,
    n: int,
)
    ensures
        1 <= n <= 510 ==> style_of(voices, voice, n) == voices[voice].subrange(
            (n - 1) * 256,
            n * 256,
        ),
        n < 1 ==> style_of(voices, voice, n) == voices[voice].subrange(0, 256),
        n > 510 ==> style_of(voices, voice, n) == voices[voice].subrange(130304, 130560),
{
    law_each_number_of_phonemes_has_its_row(voices[voice], n);
}

/// Every initialism is spelled out: where no other rule has anything to do, what is spoken is what
/// that rule alone makes of the text with its pauses.
pub proof fn law_every_initialism_has_its_say(text: Seq<char>, after: Seq<char>)
    ensures
        ({
            let t = paused(text);
            let ai = r"\bAI\b"@;
            let api = r"\bAPI\b"@;
            let ui = r"\bUI\b"@;
            let cli = r"\bCLI\b"@;
            let jarvis = r"\bJARVIS\b"@;
            &&& after == rewritten(ai, "A.I."@, t) && rewritten(api, "A.P.I."@, after) == after
                && rewritten(ui, "U.I."@, after) == after && rewritten(cli, "C.L.I."@, after)
                == after && rewritten(jarvis, "Jarvis"@, after) == after ==> cadence(text)
                == trimmed(after)
            &&& rewritten(ai, "A.I."@, t) == t && after == rewritten(api, "A.P.I."@, t)
                && rewritten(ui, "U.I."@, after) == after && rewritten(cli, "C.L.I."@, after)
                == after && rewritten(jarvis, "Jarvis"@, after) == after ==> cadence(text)
                == trimmed(after)
            &&& rewritten(ai, "A.I."@, t) == t && rewritten(api, "A.P.I."@, t) == t && after
                == rewritten(ui, "U.I."@, t) && rewritten(cli, "C.L.I."@, after) == after
                && rewritten(jarvis, "Jarvis"@, after) == after ==> cadence(text) == trimmed(after)
            &&& rewritten(ai, "A.I."@, t) == t && rewritten(api, "A.P.I."@, t) == t && rewritten(
                ui,
                "U.I."@,
                t,
            ) == t && after == rewritten(cli, "C.L.I."@, t) && rewritten(jarvis, "Jarvis"@, after)
                == after ==> cadence(text) == trimmed(after)
            &&& rewritten(ai, "A.I."@, t) == t && rewritten(api, "A.P.I."@, t) == t && rewritten(
                ui,
                "U.I."@,
                t,
            ) == t && rewritten(cli, "C.L.I."@, t) == t && after == rewritten(
                jarvis,
                "Jarvis"@,
                t,
            ) ==> cadence(text) == trimmed(after)
        }),
{
}

}
