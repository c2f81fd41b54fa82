//! Phonemization by the program `espeak-ng`: what to run, and what to remember of it.
use crate::text::chars::{trim, trimmed};
use vstd::hash_map::StringHashMap;
use vstd::prelude::*;
use vstd::utf8::*;

verus! {

/// How many phrases are remembered at most.
pub const MAX_CACHE_SIZE: usize = 2000;

/// The program that phonemizes.
pub const ESPEAK: &'static str = "espeak-ng";

/// What `String::from_utf8_lossy` makes of bytes.
pub uninterp spec fn utf8_lossy(bytes: Seq<u8>) -> Seq<char>;

/// `String::from_utf8_lossy`: the result depends on the bytes alone, and of valid UTF-8 it is the
/// text that they encode. How invalid bytes are replaced is not stated.
#[verifier::external_body]
fn decode_lossy(bytes: &[u8]) -> (r: String)
    ensures
        r@ == utf8_lossy(bytes@),
        valid_utf8(bytes@) ==> r@ == decode_utf8(bytes@),
{
    String::from_utf8_lossy(bytes).into_owned()
}

/// What there is to do to phonemize a text.
#[derive(Debug)]
pub enum Phonemization {
    /// Nothing: these are the phonemes.
    Done(String),
    /// Run `espeak-ng` with these arguments.
    Run(Vec<String>),
}

/// What a run of the program left behind.
#[derive(Debug)]
pub struct ProgramOutput {
    pub success: bool,
    pub stdout: Vec<u8>,
    pub stderr: Vec<u8>,
}

/// The program failed; this is what it said.
#[derive(Debug)]
pub struct PhonemizeError {
    pub stderr: String,
}

impl PhonemizeError {
    /// The message for the user.
    pub fn message(&self) -> (r: String)
        ensures
            r@ == "espeak-ng phonemization failed: "@ + self.stderr@,
    {
        let mut m = "espeak-ng phonemization failed: ".to_owned();
        m.append(self.stderr.as_str());
        m
    }
}

/// The arguments for a text: IPA in the voice of the language, and no sound.
pub open spec fn espeak_arguments(language: Seq<char>, text: Seq<char>) -> Seq<Seq<char>> {
    seq!["-v"@, language, "-q"@, "--ipa=3"@, text]
}

/// The phrases remembered, with one more. When there is no room, all others are forgotten.
pub open spec fn remembered(
    cache: Map<Seq<char>, Seq<char>>,
    text: Seq<char>,
    ipa: Seq<char>,
) -> Map<Seq<char>, Seq<char>> {
    if cache.dom().len() >= MAX_CACHE_SIZE {
        Map::empty().insert(text, ipa)
    } else {
        cache.insert(text, ipa)
    }
}

/// Phonemizes English text into IPA phonemes using espeak-ng with an in-memory cache.
pub struct Phonemizer {
    language: String,
    cache: StringHashMap<String>,
}

impl Phonemizer {
    /// The language of the texts.
    pub closed spec fn language(&self) -> Seq<char> {
        self.language@
    }

    /// The phonemes of each phrase remembered.
    pub closed spec fn cache(&self) -> Map<Seq<char>, Seq<char>> {
        self.cache@.map_values(|s: String| s@)
    }

    #[verifier::type_invariant]
    spec fn is_bounded(&self) -> bool {
        self.cache@.dom().finite() && self.cache@.dom().len() <= MAX_CACHE_SIZE
    }

    #[must_use]
    pub fn new(language: &str) -> (r: Self)
        ensures
            r.language() == language@,
            r.cache() == Map::<Seq<char>, Seq<char>>::empty(),
    {
        let r = Phonemizer {
            language: language.to_owned(),
            cache: StringHashMap::with_capacity(128),
        };
        assert(r.cache() =~= Map::<Seq<char>, Seq<char>>::empty());
        r
    }

    /// The number of phrases remembered, which is bounded.
    pub fn cached_phrases(&self) -> (n: usize)
        ensures
            n == self.cache().dom().len(),
            n <= MAX_CACHE_SIZE,
    {
        proof {
            use_type_invariant(self);
        }
        let n: usize = self.cache.len();
        assert(self.cache().dom() =~= self.cache@.dom());
        n
    }

    /// Converts text into IPA phoneme characters with stress marks and punctuation preserved, or
    /// says which program does. Checks the in-memory cache first.
    pub fn phonemize(&self, text: &str) -> (r: Phonemization)
        ensures
            match r {
                Phonemization::Done(ipa) => if trimmed(text@).len() == 0 {
                    ipa@ == Seq::<char>::empty()
                } else {
                    self.cache().contains_key(trimmed(text@)) && ipa@ == self.cache()[trimmed(
                        text@,
                    )]
                },
                Phonemization::Run(arguments) => {
                    &&& trimmed(text@).len() > 0
                    &&& !self.cache().contains_key(trimmed(text@))
                    &&& arguments@.map_values(|s: String| s@) == espeak_arguments(
                        self.language(),
                        trimmed(text@),
                    )
                },
            },
    {
        let t = trim(text);
        if t.as_str().is_empty() {
            return Phonemization::Done(String::new());
        }
        match self.cache.get(t.as_str()) {
            Some(ipa) => Phonemization::Done(ipa.clone()),
            None => {
                let mut arguments: Vec<String> = Vec::new();
                arguments.push("-v".to_owned());
                arguments.push(self.language.clone());
                arguments.push("-q".to_owned());
                arguments.push("--ipa=3".to_owned());
                arguments.push(t);
                assert(arguments@.map_values(|s: String| s@) =~= espeak_arguments(
                    self.language(),
                    trimmed(text@),
                ));
                Phonemization::Run(arguments)
            },
        }
    }

    /// Takes the phonemes from what the program printed, and remembers them for the text.
    pub fn finish(&mut self, text: &str, output: &ProgramOutput) -> (r: Result<
        String,
        PhonemizeError,
    >)
        ensures
            r is Ok <==> output.success,
            match r {
                Ok(ipa) => {
                    &&& ipa@ == trimmed(utf8_lossy(output.stdout@))
                    &&& valid_utf8(output.stdout@) ==> ipa@ == trimmed(decode_utf8(output.stdout@))
                    &&& final(self).cache() == remembered(old(self).cache(), trimmed(text@), ipa@)
                },
                Err(e) => {
                    &&& e.stderr@ == utf8_lossy(output.stderr@)
                    &&& valid_utf8(output.stderr@) ==> e.stderr@ == decode_utf8(output.stderr@)
                    &&& final(self).cache() == old(self).cache()
                },
            },
            final(self).language() == old(self).language(),
    {
        if !output.success {
            return Err(PhonemizeError { stderr: decode_lossy(output.stderr.as_slice()) });
        }
        let printed = decode_lossy(output.stdout.as_slice());
        let ipa = trim(printed.as_str());
        let t = trim(text);
        proof {
            use_type_invariant(&*self);
        }
        let ghost before = self.cache();
        let mut cache = StringHashMap::new();
        std::mem::swap(&mut cache, &mut self.cache);
        assert(before.dom() =~= cache@.dom());
        if cache.len() >= MAX_CACHE_SIZE {
            cache.clear();
        }
        cache.insert(t, ipa.clone());
        self.cache = cache;
        assert(self.cache() =~= remembered(before, trimmed(text@), ipa@));
        Ok(ipa)
    }
}

/// A phrase that was just phonemized is remembered: what was kept of it is what is given back.
pub proof fn law_a_phrase_is_given_back(
    cache: Map<Seq<char>, Seq<char>>,
    text: Seq<char>,
    ipa: Seq<char>,
)
    ensures
        remembered(cache, text, ipa).contains_key(text),
        remembered(cache, text, ipa)[text] == ipa,
{
}

/// Remembering a phrase changes what is kept of no other, unless all others are forgotten.
pub proof fn law_other_phrases_are_kept(
    cache: Map<Seq<char>, Seq<char>>,
    text: Seq<char>,
    ipa: Seq<char>,
    other: Seq<char>,
)
    requires
        other != text,
        cache.dom().len() < MAX_CACHE_SIZE,
    ensures
        remembered(cache, text, ipa).contains_key(other) == cache.contains_key(other),
        cache.contains_key(other) ==> remembered(cache, text, ipa)[other] == cache[other],
{
}

/// No more phrases are remembered than there is room for.
pub proof fn law_cache_stays_bounded(
    cache: Map<Seq<char>, Seq<char>>,
    text: Seq<char>,
    ipa: Seq<char>,
)
    requires
        cache.dom().finite(),
        cache.dom().len() <= MAX_CACHE_SIZE,
    ensures
        remembered(cache, text, ipa).dom().finite(),
        remembered(cache, text, ipa).dom().len() <= MAX_CACHE_SIZE,
{
}

/// A phrase is phonemized by name of its language, quietly, as IPA, and comes last.
pub proof fn law_the_program_is_told_language_and_phrase(language: Seq<char>, text: Seq<char>)
    ensures
        ({
            let a = espeak_arguments(language, text);
            &&& a.len() == 5
            &&& a[0] == "-v"@ && a[1] == language
            &&& a[2] == "-q"@
            &&& a[3] == "--ipa=3"@
            &&& a.last() == text
        }),
{
}

/// There is room for 2000 phrases: with fewer, one more is kept beside the others; with as many,
/// the others are forgotten for its sake.
pub proof fn law_there_is_room_for_two_thousand_phrases(
    cache: Map<Seq<char>, Seq<char>>,
    text: Seq<char>,
    ipa: Seq<char>,
    other: Seq<char>,
)
    requires
        other != text,
    ensures
        cache.dom().len() < 2000 && cache.contains_key(other) ==> remembered(
            cache,
            text,
            ipa,
        ).contains_key(other) && remembered(cache, text, ipa)[other] == cache[other],
        cache.dom().len() >= 2000 ==> !remembered(cache, text, ipa).contains_key(other),
{
}

}
