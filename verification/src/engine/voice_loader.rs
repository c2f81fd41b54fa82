//! The voice style database: NumPy arrays, one to a voice, in a ZIP archive. A float is held as
//! the 32 bits that encode it.
use crate::engine::archive::{
    archive_entries, entry_content, entry_count, entry_name, open_archive, zip_entries,
};
use crate::text::chars::{chars_of, stands_at, string_of};
use vstd::hash_map::StringHashMap;
use vstd::prelude::*;
use vstd::slice::slice_subrange;

verus! {

/// The number of rows of a voice: one for each number of phonemes.
pub const STYLE_ROWS: usize = 510;

/// The number of floats in a row.
pub const STYLE_DIM: usize = 256;

/// The number of floats of a voice.
pub const STYLE_LEN: usize = 130560;

/// Why bytes are not a NumPy array.
#[derive(Debug, Clone, Copy, PartialEq, Eq, Structural)]
pub enum NpyError {
    /// The magic bytes are missing.
    InvalidMagic,
    /// The header is longer than the file.
    UnexpectedEof,
}

impl NpyError {
    /// The message for the user.
    pub fn message(self) -> (r: String)
        ensures
            r@ == match self {
                NpyError::InvalidMagic => "invalid .npy magic header"@,
                NpyError::UnexpectedEof => "unexpected EOF in .npy header"@,
            },
    {
        match self {
            NpyError::InvalidMagic => "invalid .npy magic header".to_owned(),
            NpyError::UnexpectedEof => "unexpected EOF in .npy header".to_owned(),
        }
    }
}

/// Whether the bytes begin as a NumPy array does: with the magic bytes, a version and the length
/// of the header.
pub open spec fn npy_magic(bytes: Seq<u8>) -> bool {
    &&& bytes.len() >= 10
    &&& bytes.take(6) == seq![0x93u8, 0x4e, 0x55, 0x4d, 0x50, 0x59]
}

/// Where the data of the array begins.
pub open spec fn npy_offset(bytes: Seq<u8>) -> int {
    10 + bytes[8] + 256 * bytes[9]
}

/// The number that the four bytes from position `i` on encode, the lowest byte first.
pub open spec fn le_u32(bytes: Seq<u8>, i: int) -> int {
    bytes[i] + 0x100 * bytes[i + 1] + 0x1_0000 * bytes[i + 2] + 0x100_0000 * bytes[i + 3]
}

/// The floats of a NumPy array, as bits. Bytes at the end that do not make up a float are left
/// out.
pub open spec fn npy_floats(bytes: Seq<u8>) -> Result<Seq<u32>, NpyError> {
    if !npy_magic(bytes) {
        Err(NpyError::InvalidMagic)
    } else if bytes.len() < npy_offset(bytes) {
        Err(NpyError::UnexpectedEof)
    } else {
        Ok(
            Seq::new(
                ((bytes.len() - npy_offset(bytes)) / 4) as nat,
                |i: int| le_u32(bytes, npy_offset(bytes) + 4 * i) as u32,
            ),
        )
    }
}

/// Parses raw bytes of a NumPy `.npy` file containing little-endian float32 values.
pub fn parse_npy_float32(bytes: &[u8]) -> (r: Result<Vec<u32>, NpyError>)
    ensures
        match r {
            Ok(floats) => npy_floats(bytes@) == Ok::<Seq<u32>, NpyError>(floats@),
            Err(e) => npy_floats(bytes@) == Err::<Seq<u32>, NpyError>(e),
        },
{
    if bytes.len() < 10 || bytes[0] != 0x93 || bytes[1] != 0x4e || bytes[2] != 0x55 || bytes[3]
        != 0x4d || bytes[4] != 0x50 || bytes[5] != 0x59 {
        proof {
            if bytes@.len() >= 10 {
                let m = seq![0x93u8, 0x4e, 0x55, 0x4d, 0x50, 0x59];
                let t = bytes@.take(6);
                assert(t[0] == bytes@[0] && t[1] == bytes@[1] && t[2] == bytes@[2] && t[3]
                    == bytes@[3] && t[4] == bytes@[4] && t[5] == bytes@[5]);
                assert(m[0] == 0x93 && m[1] == 0x4e && m[2] == 0x55 && m[3] == 0x4d && m[4] == 0x50
                    && m[5] == 0x59);
            }
        }
        return Err(NpyError::InvalidMagic);
    }
    assert(bytes@.take(6) =~= seq![0x93u8, 0x4e, 0x55, 0x4d, 0x50, 0x59]);
    let offset: usize = 10 + bytes[8] as usize + 256 * (bytes[9] as usize);
    if bytes.len() < offset {
        return Err(NpyError::UnexpectedEof);
    }
    let count: usize = (bytes.len() - offset) / 4;
    let mut floats: Vec<u32> = Vec::with_capacity(count);
    let mut i: usize = 0;
    while i < count
        invariant
            i <= count,
            offset == npy_offset(bytes@),
            count == (bytes@.len() - offset) / 4,
            offset <= bytes@.len(),
            bytes@.len() == bytes.len(),
            floats@.len() == i,
            forall|j: int|
                0 <= j < i ==> #[trigger] floats@[j] == le_u32(bytes@, offset + 4 * j) as u32,
        decreases count - i,
    {
        let at: usize = offset + 4 * i;
        let f: u32 = bytes[at] as u32 + 0x100 * (bytes[at + 1] as u32) + 0x1_0000 * (bytes[at
            + 2] as u32) + 0x100_0000 * (bytes[at + 3] as u32);
        floats.push(f);
        i += 1;
    }
    assert(floats@ =~= npy_floats(bytes@)->Ok_0);
    Ok(floats)
}

/// `name` without the `.npy` endings it has.
pub open spec fn without_npy(name: Seq<char>) -> Seq<char>
    decreases name.len(),
{
    if has_npy_ending(name) {
        without_npy(name.take(name.len() - 4))
    } else {
        name
    }
}

/// Whether `name` ends in `.npy`.
pub open spec fn has_npy_ending(name: Seq<char>) -> bool {
    name.len() >= 4 && name.skip(name.len() - 4) == ".npy"@
}

/// The voice that an entry of the archive is for: none where it is no NumPy array.
pub fn voice_of_entry(name: &str) -> (r: Option<String>)
    ensures
        match r {
            Some(voice) => has_npy_ending(name@) && voice@ == without_npy(name@),
            None => !has_npy_ending(name@),
        },
{
    let v = chars_of(name);
    let ending = chars_of(".npy");
    proof {
        reveal_strlit(".npy");
    }
    let mut n: usize = v.len();
    assert(v@.take(n as int) == v@);
    while n >= 4 && stands_at(&v, &ending, n - 4)
        invariant
            ending@ == ".npy"@,
            ending@.len() == 4,
            n <= v@.len(),
            without_npy(v@) == without_npy(v@.take(n as int)),
            n < v@.len() ==> has_npy_ending(v@),
        decreases n,
    {
        let ghost t = v@.take(n as int);
        assert(t.skip(n - 4) == v@.subrange(n - 4, n as int));
        assert(t.take(n - 4) == v@.take(n - 4));
        proof {
            if n == v@.len() {
                assert(t == v@);
            }
        }
        n -= 4;
    }
    let ghost t = v@.take(n as int);
    assert(!has_npy_ending(t)) by {
        if n >= 4 {
            assert(t.skip(n - 4) == v@.subrange(n - 4, n as int));
        }
    }
    if n == v.len() {
        assert(t == v@);
        return None;
    }
    Some(string_of(&v, 0, n))
}

/// Why a voice database cannot be loaded.
#[derive(Debug)]
pub enum VoiceError {
    /// The file is no ZIP archive.
    Archive { cause: zip::result::ZipError },
    /// An entry cannot be read.
    Entry { index: usize, cause: zip::result::ZipError },
    /// An entry is named as a voice and is no NumPy array.
    Voice { voice: String, error: NpyError },
}

/// Why loading fails, without what the `zip` crate says of it.
pub enum Failure {
    Archive,
    Entry(int),
    Voice(Seq<char>, NpyError),
}

impl VoiceError {
    /// The failure that the error reports.
    pub open spec fn failure(&self) -> Failure {
        match *self {
            VoiceError::Archive { .. } => Failure::Archive,
            VoiceError::Entry { index, .. } => Failure::Entry(index as int),
            VoiceError::Voice { voice, error } => Failure::Voice(voice@, error),
        }
    }

    /// The message for the user: what was being done when the cause came up. An entry that cannot
    /// be read has no message beyond its cause.
    pub fn message(&self) -> (r: Option<String>)
        ensures
            match self.failure() {
                Failure::Archive => r matches Some(m) && m@
                    == "failed to parse voices ZIP archive"@,
                Failure::Entry(_) => r is None,
                Failure::Voice(voice, _) => r matches Some(m) && m@
                    == "failed to parse .npy data for voice: "@ + voice,
            },
    {
        match self {
            VoiceError::Archive { .. } => Some("failed to parse voices ZIP archive".to_owned()),
            VoiceError::Entry { .. } => None,
            VoiceError::Voice { voice, .. } => {
                let mut m = "failed to parse .npy data for voice: ".to_owned();
                m.append(voice.as_str());
                Some(m)
            },
        }
    }
}

/// The voices, with what the content of an entry adds to them. Content of another length than that
/// of a voice is passed over.
pub open spec fn with_voice(
    voices: Map<Seq<char>, Seq<u32>>,
    voice: Seq<char>,
    content: Seq<u8>,
) -> Result<Map<Seq<char>, Seq<u32>>, Failure> {
    match npy_floats(content) {
        Ok(floats) => if floats.len() == STYLE_LEN {
            Ok(voices.insert(voice, floats))
        } else {
            Ok(voices)
        },
        Err(e) => Err(Failure::Voice(voice, e)),
    }
}

/// The voices, with those of the entries from `i` on.
pub open spec fn with_entries(
    voices: Map<Seq<char>, Seq<u32>>,
    entries: Seq<(Option<Seq<char>>, Option<Seq<u8>>)>,
    i: int,
) -> Result<Map<Seq<char>, Seq<u32>>, Failure>
    decreases entries.len() - i,
{
    if i < 0 || i >= entries.len() {
        Ok(voices)
    } else {
        match entries[i] {
            (None, _) => Err(Failure::Entry(i)),
            (Some(name), content) => if !has_npy_ending(name) {
                with_entries(voices, entries, i + 1)
            } else {
                match content {
                    None => Err(Failure::Entry(i)),
                    Some(bytes) => match with_voice(voices, without_npy(name), bytes) {
                        Ok(more) => with_entries(more, entries, i + 1),
                        Err(f) => Err(f),
                    },
                }
            },
        }
    }
}

/// The voices of an archive.
pub open spec fn archive_voices(bytes: Seq<u8>) -> Result<Map<Seq<char>, Seq<u32>>, Failure> {
    match zip_entries(bytes) {
        Some(entries) => with_entries(Map::empty(), entries, 0),
        None => Err(Failure::Archive),
    }
}

/// The row of a voice that is used for this many phonemes.
pub open spec fn style_row(phoneme_count: int) -> int {
    if phoneme_count < 1 {
        0
    } else if phoneme_count > STYLE_ROWS {
        STYLE_ROWS - 1
    } else {
        phoneme_count - 1
    }
}

/// Loaded voice style database for Kokoro-82M.
/// Each voice is an array of 510 rows x 256 dimensions (130,560 float32 values).
pub struct VoiceDatabase {
    voices: StringHashMap<Vec<u32>>,
}

impl VoiceDatabase {
    /// The floats of each voice.
    pub closed spec fn voices(&self) -> Map<Seq<char>, Seq<u32>> {
        self.voices@.map_values(|v: Vec<u32>| v@)
    }

    #[verifier::type_invariant]
    spec fn every_voice_is_whole(&self) -> bool {
        forall|name: Seq<char>|
            self.voices@.contains_key(name) ==> (#[trigger] self.voices@[name])@.len() == STYLE_LEN
    }

    /// A database without voices.
    pub fn new() -> (r: Self)
        ensures
            r.voices() == Map::<Seq<char>, Seq<u32>>::empty(),
    {
        let r = VoiceDatabase { voices: StringHashMap::new() };
        assert(r.voices() =~= Map::<Seq<char>, Seq<u32>>::empty());
        r
    }

    /// Adds the voice that the content of an entry holds.
    pub fn add_voice(&mut self, voice: String, content: &[u8]) -> (r: Result<(), VoiceError>)
        ensures
            match r {
                Ok(_) => with_voice(old(self).voices(), voice@, content@) == Ok::<
                    Map<Seq<char>, Seq<u32>>,
                    Failure,
                >(final(self).voices()),
                Err(e) => with_voice(old(self).voices(), voice@, content@) == Err::<
                    Map<Seq<char>, Seq<u32>>,
                    Failure,
                >(e.failure()) && final(self).voices() == old(self).voices(),
            },
    {
        match parse_npy_float32(content) {
            Ok(floats) => {
                if floats.len() == STYLE_LEN {
                    proof {
                        use_type_invariant(&*self);
                    }
                    let ghost before = self.voices@;
                    let mut voices = StringHashMap::new();
                    std::mem::swap(&mut voices, &mut self.voices);
                    voices.insert(voice, floats);
                    self.voices = voices;
                    assert(self.voices() =~= old(self).voices().insert(voice@, floats@));
                }
                Ok(())
            },
            Err(error) => Err(VoiceError::Voice { voice, error }),
        }
    }

    /// Loads all voice style vectors from the bytes of the `voices-v1.0.bin` ZIP archive.
    pub fn load_from_zip(bytes: Vec<u8>) -> (r: Result<Self, VoiceError>)
        ensures
            match r {
                Ok(db) => archive_voices(bytes@) == Ok::<Map<Seq<char>, Seq<u32>>, Failure>(
                    db.voices(),
                ),
                Err(e) => archive_voices(bytes@) == Err::<Map<Seq<char>, Seq<u32>>, Failure>(
                    e.failure(),
                ),
            },
    {
        let mut archive = match open_archive(bytes) {
            Ok(archive) => archive,
            Err(cause) => return Err(VoiceError::Archive { cause }),
        };
        let ghost entries = archive_entries(archive);
        let count: usize = entry_count(&archive);
        let mut db = VoiceDatabase::new();
        let mut i: usize = 0;
        while i < count
            invariant
                i <= count,
                count == entries.len(),
                entries == archive_entries(archive),
                archive_voices(bytes@) == with_entries(Map::empty(), entries, 0),
                with_entries(Map::empty(), entries, 0) == with_entries(
                    db.voices(),
                    entries,
                    i as int,
                ),
            decreases count - i,
        {
            let name = match entry_name(&mut archive, i) {
                Ok(name) => name,
                Err(cause) => return Err(VoiceError::Entry { index: i, cause }),
            };
            if let Some(voice) = voice_of_entry(name.as_str()) {
                let content = match entry_content(&mut archive, i) {
                    Ok(content) => content,
                    Err(cause) => return Err(VoiceError::Entry { index: i, cause }),
                };
                match db.add_voice(voice, content.as_slice()) {
                    Ok(_) => {},
                    Err(e) => return Err(e),
                }
            }
            i += 1;
        }
        Ok(db)
    }

    /// Retrieves the 256-dimensional style vector for a given voice and phoneme count.
    #[must_use]
    pub fn get_style(&self, voice_name: &str, phoneme_count: usize) -> (r: Option<&[u32]>)
        ensures
            match r {
                Some(style) => {
                    &&& self.voices().contains_key(voice_name@)
                    &&& style@.len() == STYLE_DIM
                    &&& style@ == self.voices()[voice_name@].subrange(
                        style_row(phoneme_count as int) * STYLE_DIM,
                        style_row(phoneme_count as int) * STYLE_DIM + STYLE_DIM,
                    )
                    &&& 1 <= phoneme_count <= STYLE_ROWS ==> style@
                        == self.voices()[voice_name@].subrange(
                        (phoneme_count - 1) * STYLE_DIM,
                        phoneme_count * STYLE_DIM,
                    )
                    &&& phoneme_count == 0 ==> style@ == self.voices()[voice_name@].subrange(
                        0,
                        STYLE_DIM as int,
                    )
                    &&& phoneme_count > STYLE_ROWS ==> style@
                        == self.voices()[voice_name@].subrange(
                        STYLE_LEN - STYLE_DIM,
                        STYLE_LEN as int,
                    )
                },
                None => !self.voices().contains_key(voice_name@),
            },
    {
        proof {
            use_type_invariant(self);
        }
        match self.voices.get(voice_name) {
            Some(data) => {
                let row: usize = if phoneme_count < 1 {
                    0
                } else if phoneme_count > STYLE_ROWS {
                    STYLE_ROWS - 1
                } else {
                    phoneme_count - 1
                };
                let start: usize = row * STYLE_DIM;
                Some(slice_subrange(data.as_slice(), start, start + STYLE_DIM))
            },
            None => None,
        }
    }

    /// Checks if a voice exists in the database.
    #[must_use]
    pub fn contains_voice(&self, voice_name: &str) -> (b: bool)
        ensures
            b == self.voices().contains_key(voice_name@),
    {
        self.voices.contains_key(voice_name)
    }

    /// The number of voices.
    pub fn len(&self) -> (n: usize)
        ensures
            n == self.voices().dom().len(),
    {
        let n: usize = self.voices.len();
        assert(self.voices().dom() =~= self.voices@.dom());
        n
    }
}

/// Every voice that an archive gives is whole: it has a float for each row and dimension.
pub proof fn law_loaded_voices_are_whole(bytes: Seq<u8>, voice: Seq<char>)
    requires
        archive_voices(bytes) is Ok,
        archive_voices(bytes)->Ok_0.contains_key(voice),
    ensures
        archive_voices(bytes)->Ok_0[voice].len() == STYLE_ROWS * STYLE_DIM,
{
    lemma_entries_keep_voices_whole(Map::empty(), zip_entries(bytes)->0, 0);
}

proof fn lemma_entries_keep_voices_whole(
    voices: Map<Seq<char>, Seq<u32>>,
    entries: Seq<(Option<Seq<char>>, Option<Seq<u8>>)>,
    i: int,
)
    requires
        forall|v: Seq<char>| voices.contains_key(v) ==> (#[trigger] voices[v]).len() == STYLE_LEN,
    ensures
        with_entries(voices, entries, i) matches Ok(all) ==> forall|v: Seq<char>|
            all.contains_key(v) ==> (#[trigger] all[v]).len() == STYLE_LEN,
    decreases entries.len() - i,
{
    if 0 <= i < entries.len() {
        if let (Some(name), content) = entries[i] {
            if !has_npy_ending(name) {
                lemma_entries_keep_voices_whole(voices, entries, i + 1);
            } else if let Some(bytes) = content {
                if let Ok(more) = with_voice(voices, without_npy(name), bytes) {
                    lemma_entries_keep_voices_whole(more, entries, i + 1);
                }
            }
        }
    }
}

/// An entry whose name does not end in `.npy` changes nothing, whatever it holds.
pub proof fn law_other_files_are_passed_over(
    voices: Map<Seq<char>, Seq<u32>>,
    name: Seq<char>,
    content: Option<Seq<u8>>,
)
    requires
        !has_npy_ending(name),
    ensures
        with_entries(voices, seq![(Some(name), content)], 0) == Ok::<
            Map<Seq<char>, Seq<u32>>,
            Failure,
        >(voices),
{
    let one = seq![(Some(name), content)];
    assert(with_entries(voices, one, 1) == Ok::<Map<Seq<char>, Seq<u32>>, Failure>(voices));
}

/// Each number of phonemes has a row of its own: a voice has 510 rows of 256 floats, and the row for
/// `n` phonemes is the one from `(n - 1) * 256` up to `n * 256`. Without phonemes the first row is
/// taken, and the last where there are more phonemes than rows.
pub proof fn law_each_number_of_phonemes_has_its_row(voice: Seq<u32>, n: int)
    ensures
        ({
            let row = voice.subrange(
                style_row(n) * STYLE_DIM,
                style_row(n) * STYLE_DIM + STYLE_DIM,
            );
            &&& 1 <= n <= 510 ==> row == voice.subrange((n - 1) * 256, n * 256)
            &&& n < 1 ==> row == voice.subrange(0, 256)
            &&& n > 510 ==> row == voice.subrange(130304, 130560)
        }),
        STYLE_LEN == 510 * 256,
{
}

/// The byte of a float that stands at place `k`, where the lowest comes first.
pub open spec fn float_byte(f: u32, k: int) -> u8 {
    if k == 0 {
        (f % 0x100) as u8
    } else if k == 1 {
        (f / 0x100 % 0x100) as u8
    } else if k == 2 {
        (f / 0x1_0000 % 0x100) as u8
    } else {
        (f / 0x100_0000) as u8
    }
}

/// A NumPy array: the magic bytes, a version, the length of the header in two bytes, the header and
/// the floats.
pub open spec fn npy_array(version: (u8, u8), header: Seq<u8>, floats: Seq<u32>) -> Seq<u8> {
    seq![
        0x93u8,
        0x4e,
        0x55,
        0x4d,
        0x50,
        0x59,
        version.0,
        version.1,
        (header.len() % 256) as u8,
        (header.len() / 256) as u8,
    ] + header + Seq::new(4 * floats.len(), |i: int| float_byte(floats[i / 4], i % 4))
}

/// The floats of a NumPy array are read back, whatever its version and its header are, and bytes
/// behind them that make up no float are passed over.
pub proof fn law_floats_are_read_back(
    version: (u8, u8),
    header: Seq<u8>,
    floats: Seq<u32>,
    rest: Seq<u8>,
)
    requires
        header.len() < 0x1_0000,
        rest.len() < 4,
    ensures
        npy_floats(npy_array(version, header, floats) + rest) == Ok::<Seq<u32>, NpyError>(floats),
{
    let bytes = npy_array(version, header, floats) + rest;
    let data = Seq::new(4 * floats.len(), |i: int| float_byte(floats[i / 4], i % 4));
    let offset = 10 + header.len() as int;
    assert(bytes.take(6) =~= seq![0x93u8, 0x4e, 0x55, 0x4d, 0x50, 0x59]);
    assert(bytes[8] == (header.len() % 256) as u8);
    assert(bytes[9] == (header.len() / 256) as u8);
    assert(npy_offset(bytes) == offset);
    assert(bytes.len() == offset + 4 * floats.len() + rest.len());
    let read = npy_floats(bytes)->Ok_0;
    assert(read.len() == floats.len());
    assert forall|i: int| 0 <= i < floats.len() implies read[i] == floats[i] by {
        let f = floats[i];
        let at = offset + 4 * i;
        assert forall|k: int| 0 <= k < 4 implies #[trigger] bytes[at + k] == float_byte(f, k) by {
            assert(bytes[at + k] == data[4 * i + k]);
            assert((4 * i + k) / 4 == i);
            assert((4 * i + k) % 4 == k);
        }
        assert(bytes[at] == bytes[at + 0]);
        assert(bytes[at + 1] == float_byte(f, 1));
        assert(bytes[at + 2] == float_byte(f, 2));
        assert(bytes[at + 3] == float_byte(f, 3));
        assert(f == f % 0x100 + 0x100 * (f / 0x100 % 0x100) + 0x1_0000 * (f / 0x1_0000 % 0x100)
            + 0x100_0000 * (f / 0x100_0000));
    }
    assert(read =~= floats);
}

/// Bytes that are too few or do not begin with the magic bytes are refused as such, and bytes that
/// end within the header as cut off.
pub proof fn law_other_bytes_are_refused(bytes: Seq<u8>)
    ensures
        bytes.len() < 10 ==> npy_floats(bytes) == Err::<Seq<u32>, NpyError>(NpyError::InvalidMagic),
        bytes.len() >= 10 && (bytes[0] != 0x93 || bytes[1] != 0x4e || bytes[2] != 0x55 || bytes[3]
            != 0x4d || bytes[4] != 0x50 || bytes[5] != 0x59) ==> npy_floats(bytes) == Err::<
            Seq<u32>,
            NpyError,
        >(NpyError::InvalidMagic),
        bytes.len() >= 10 && bytes[0] == 0x93 && bytes[1] == 0x4e && bytes[2] == 0x55 && bytes[3]
            == 0x4d && bytes[4] == 0x50 && bytes[5] == 0x59 && bytes.len() < 10 + bytes[8] + 256
            * bytes[9] ==> npy_floats(bytes) == Err::<Seq<u32>, NpyError>(NpyError::UnexpectedEof),
{
    if bytes.len() >= 10 {
        let m = seq![0x93u8, 0x4e, 0x55, 0x4d, 0x50, 0x59];
        let t = bytes.take(6);
        assert(t[0] == bytes[0] && t[1] == bytes[1] && t[2] == bytes[2] && t[3] == bytes[3] && t[4]
            == bytes[4] && t[5] == bytes[5]);
        assert(m[0] == 0x93 && m[1] == 0x4e && m[2] == 0x55 && m[3] == 0x4d && m[4] == 0x50 && m[5]
            == 0x59);
        if bytes[0] == 0x93 && bytes[1] == 0x4e && bytes[2] == 0x55 && bytes[3] == 0x4d && bytes[4]
            == 0x50 && bytes[5] == 0x59 {
            assert(t =~= m);
        }
    }
}

/// A voice is named after its entry, without the ending.
pub proof fn law_a_voice_is_named_after_its_entry(name: Seq<char>)
    ensures
        has_npy_ending(name + ".npy"@),
        !has_npy_ending(name) ==> without_npy(name + ".npy"@) == name,
        name.len() >= 1 && name.last() != 'y' ==> !has_npy_ending(name),
{
    reveal_strlit(".npy");
    let full = name + ".npy"@;
    assert(full.skip(full.len() - 4) =~= ".npy"@);
    assert(full.take(full.len() - 4) =~= name);
    assert(!has_npy_ending(name) ==> without_npy(name) == name);
    if has_npy_ending(name) {
        assert(name.skip(name.len() - 4)[3] == name.last());
    }
}

/// A voice of the right length is added under its name, one of another length is passed over, and
/// content that is no NumPy array is an error that names the voice.
pub proof fn law_an_entry_adds_its_voice(
    voices: Map<Seq<char>, Seq<u32>>,
    name: Seq<char>,
    version: (u8, u8),
    header: Seq<u8>,
    floats: Seq<u32>,
)
    requires
        !has_npy_ending(name),
        header.len() < 0x1_0000,
    ensures
        with_entries(
            voices,
            seq![(Some(name + ".npy"@), Some(npy_array(version, header, floats)))],
            0,
        ) == Ok::<Map<Seq<char>, Seq<u32>>, Failure>(
            if floats.len() == 130560 {
                voices.insert(name, floats)
            } else {
                voices
            },
        ),
{
    let bytes = npy_array(version, header, floats);
    law_a_voice_is_named_after_its_entry(name);
    law_floats_are_read_back(version, header, floats, Seq::empty());
    assert(bytes + Seq::<u8>::empty() =~= bytes);
    let one = seq![(Some(name + ".npy"@), Some(bytes))];
    let more = if floats.len() == 130560 {
        voices.insert(name, floats)
    } else {
        voices
    };
    assert(with_voice(voices, name, bytes) == Ok::<Map<Seq<char>, Seq<u32>>, Failure>(more));
    assert(with_entries(more, one, 1) == Ok::<Map<Seq<char>, Seq<u32>>, Failure>(more));
}

/// The voice that an entry is for, where it is for one.
pub open spec fn entry_voice(entry: (Option<Seq<char>>, Option<Seq<u8>>)) -> Option<Seq<char>> {
    match entry.0 {
        Some(name) => if has_npy_ending(name) {
            Some(without_npy(name))
        } else {
            None
        },
        None => None,
    }
}

/// Every voice of an archive that is read is there: each entry that holds one gives its floats,
/// unless a later entry is for the same voice.
pub proof fn law_every_voice_is_loaded(
    voices: Map<Seq<char>, Seq<u32>>,
    entries: Seq<(Option<Seq<char>>, Option<Seq<u8>>)>,
    i: int,
    k: int,
)
    requires
        0 <= i <= k < entries.len(),
        with_entries(voices, entries, i) is Ok,
        entry_voice(entries[k]) is Some,
        entries[k].1 matches Some(bytes) && npy_floats(bytes) matches Ok(floats) && floats.len()
            == 130560,
        forall|j: int|
            k < j < entries.len() ==> entry_voice(#[trigger] entries[j]) != entry_voice(entries[k]),
    ensures
        ({
            let all = with_entries(voices, entries, i)->Ok_0;
            let voice = entry_voice(entries[k])->0;
            all.contains_key(voice) && Ok::<Seq<u32>, NpyError>(all[voice]) == npy_floats(
                entries[k].1->0,
            )
        }),
    decreases k - i,
{
    if let (Some(name), content) = entries[i] {
        if !has_npy_ending(name) {
            law_every_voice_is_loaded(voices, entries, i + 1, k);
        } else if let Some(bytes) = content {
            if let Ok(more) = with_voice(voices, without_npy(name), bytes) {
                if i < k {
                    law_every_voice_is_loaded(more, entries, i + 1, k);
                } else {
                    lemma_voice_is_kept(more, entries, i + 1, without_npy(name));
                }
            }
        }
    }
}

proof fn lemma_voice_is_kept(
    voices: Map<Seq<char>, Seq<u32>>,
    entries: Seq<(Option<Seq<char>>, Option<Seq<u8>>)>,
    i: int,
    voice: Seq<char>,
)
    requires
        0 <= i <= entries.len(),
        with_entries(voices, entries, i) is Ok,
        voices.contains_key(voice),
        forall|j: int|
            i <= j < entries.len() ==> entry_voice(#[trigger] entries[j]) != Some(voice),
    ensures
        with_entries(voices, entries, i)->Ok_0.contains_key(voice),
        with_entries(voices, entries, i)->Ok_0[voice] == voices[voice],
    decreases entries.len() - i,
{
    if i < entries.len() {
        assert(entry_voice(entries[i]) != Some(voice));
        if let (Some(name), content) = entries[i] {
            if !has_npy_ending(name) {
                lemma_voice_is_kept(voices, entries, i + 1, voice);
            } else if let Some(bytes) = content {
                if let Ok(more) = with_voice(voices, without_npy(name), bytes) {
                    lemma_voice_is_kept(more, entries, i + 1, voice);
                }
            }
        }
    }
}

/// However often its ending is repeated, an entry names the same voice, and no name of a voice has
/// the ending.
pub proof fn law_endings_are_stripped_from_a_name(name: Seq<char>)
    ensures
        without_npy(name + ".npy"@) == without_npy(name),
        !has_npy_ending(without_npy(name)),
        !has_npy_ending(name) ==> without_npy(name) == name,
    decreases name.len(),
{
    reveal_strlit(".npy");
    let full = name + ".npy"@;
    assert(full.skip(full.len() - 4) =~= ".npy"@);
    assert(full.take(full.len() - 4) =~= name);
    if has_npy_ending(name) {
        law_endings_are_stripped_from_a_name(name.take(name.len() - 4));
    }
}

}
