use pi_speak::engine::kokoro::{
    plan_tokens, split_long_tokens, Style, StyleError, MAX_PART, MAX_SPEED_BITS, MAX_TOKENS,
    MIN_SPEED_BITS, NATIVE_SAMPLE_RATE,
};
use pi_speak::engine::phonemizer::{Phonemization, ProgramOutput, ESPEAK, MAX_CACHE_SIZE};
use pi_speak::engine::vocab::{tokenize_phonemes, VocabularyEntry};
use pi_speak::engine::voice_loader::{
    parse_npy_float32, voice_of_entry, NpyError, VoiceError, STYLE_DIM, STYLE_LEN,
};
use pi_speak::engine::{KokoroEngine, Phonemizer, VoiceDatabase};
use std::io::Write;

fn npy(floats: &[f32]) -> Vec<u8> {
    let header = "{'descr': '<f4', 'fortran_order': False, 'shape': (1,), }\n";
    let mut bytes = vec![0x93, b'N', b'U', b'M', b'P', b'Y', 1, 0];
    bytes.extend_from_slice(&(header.len() as u16).to_le_bytes());
    bytes.extend_from_slice(header.as_bytes());
    for f in floats {
        bytes.extend_from_slice(&f.to_le_bytes());
    }
    bytes
}

fn voice(base: f32) -> Vec<f32> {
    (0..STYLE_LEN).map(|i| base + (i / STYLE_DIM) as f32).collect()
}

fn archive(entries: &[(&str, Vec<u8>)]) -> Vec<u8> {
    let mut writer = zip::ZipWriter::new(std::io::Cursor::new(Vec::new()));
    for (name, content) in entries {
        writer
            .start_file(*name, zip::write::SimpleFileOptions::default())
            .unwrap();
        writer.write_all(content).unwrap();
    }
    writer.finish().unwrap().into_inner()
}

fn british() -> VoiceDatabase {
    let bytes = archive(&[
        ("bm_george.npy", npy(&voice(1000.0))),
        ("bm_daniel.npy", npy(&voice(2000.0))),
        ("bm_fable.npy", npy(&voice(3000.0))),
        ("bm_lewis.npy", npy(&voice(4000.0))),
    ]);
    VoiceDatabase::load_from_zip(bytes).expect("failed to load voices")
}

fn output(success: bool, stdout: &[u8], stderr: &[u8]) -> ProgramOutput {
    ProgramOutput {
        success,
        stdout: stdout.to_vec(),
        stderr: stderr.to_vec(),
    }
}

#[test]
fn test_load_voices_zip() {
    let bytes = archive(&[
        ("af_heart.npy", npy(&voice(0.0))),
        ("bm_george.npy", npy(&voice(0.5))),
    ]);
    let db = VoiceDatabase::load_from_zip(bytes).expect("failed to load voices");
    assert!(db.contains_voice("af_heart"));
    assert!(db.contains_voice("bm_george"));

    let style = db.get_style("bm_george", 50).expect("missing style");
    assert_eq!(style.len(), 256);
}

#[test]
fn test_phonemize_english() {
    let mut phonemizer = Phonemizer::new("en-gb");
    assert_eq!(ESPEAK, "espeak-ng");
    match phonemizer.phonemize("Good morning, sir.") {
        Phonemization::Run(arguments) => assert_eq!(
            arguments,
            vec!["-v", "en-gb", "-q", "--ipa=3", "Good morning, sir."]
        ),
        other => panic!("not cached yet: {:?}", other),
    }
    let ipa1 = phonemizer
        .finish(
            "Good morning, sir.",
            &output(true, " ɡʊd mˈɔːnɪŋ sˈɜː\n".as_bytes(), b""),
        )
        .expect("phonemize failed");
    assert!(!ipa1.is_empty());
    assert!(ipa1.contains('m') || ipa1.contains('ˈ'));
    assert_eq!(ipa1, "ɡʊd mˈɔːnɪŋ sˈɜː");

    // Second call should hit the cache immediately
    match phonemizer.phonemize("Good morning, sir.") {
        Phonemization::Done(ipa2) => assert_eq!(ipa1, ipa2),
        other => panic!("not cached: {:?}", other),
    }
}

#[test]
fn a_blank_text_has_no_phonemes() {
    let phonemizer = Phonemizer::new("en-gb");
    match phonemizer.phonemize(" \n ") {
        Phonemization::Done(ipa) => assert_eq!(ipa, ""),
        other => panic!("{:?}", other),
    }
}

#[test]
fn a_failed_program_is_reported_and_not_remembered() {
    let mut phonemizer = Phonemizer::new("en-gb");
    let error = phonemizer
        .finish("x", &output(false, b"ignored", b"no such voice"))
        .unwrap_err();
    assert_eq!(
        error.message(),
        "espeak-ng phonemization failed: no such voice"
    );
    assert_eq!(phonemizer.cached_phrases(), 0);
}

#[test]
fn bytes_that_are_no_text_are_replaced() {
    let mut phonemizer = Phonemizer::new("en-gb");
    let ipa = phonemizer
        .finish("x", &output(true, &[b'a', 0xff, b'b'], b""))
        .unwrap();
    assert_eq!(ipa, "a\u{fffd}b");
}

#[test]
fn the_cache_is_bounded() {
    let mut phonemizer = Phonemizer::new("en-gb");
    for i in 0..MAX_CACHE_SIZE + 1 {
        let text = format!("phrase {}", i);
        phonemizer.finish(&text, &output(true, b"ipa", b"")).unwrap();
        assert!(phonemizer.cached_phrases() <= MAX_CACHE_SIZE);
    }
    assert_eq!(phonemizer.cached_phrases(), 1);
    assert!(matches!(
        phonemizer.phonemize("phrase 0"),
        Phonemization::Run(_)
    ));
    assert!(matches!(
        phonemizer.phonemize("phrase 2000"),
        Phonemization::Done(_)
    ));
}

#[test]
fn floats_of_an_array_are_read() {
    let floats = parse_npy_float32(&npy(&[1.5, -2.0])).unwrap();
    assert_eq!(floats, vec![1.5f32.to_bits(), (-2.0f32).to_bits()]);
}

#[test]
fn bytes_that_are_no_array_are_refused() {
    assert_eq!(parse_npy_float32(b"NUMPY"), Err(NpyError::InvalidMagic));
    assert_eq!(
        parse_npy_float32(b"\x93NUMPX\x01\x00\x00\x00"),
        Err(NpyError::InvalidMagic)
    );
    assert_eq!(
        parse_npy_float32(b"\x93NUMPY\x01\x00\xff\x00"),
        Err(NpyError::UnexpectedEof)
    );
    assert_eq!(NpyError::InvalidMagic.message(), "invalid .npy magic header");
    assert_eq!(
        NpyError::UnexpectedEof.message(),
        "unexpected EOF in .npy header"
    );
}

#[test]
fn entries_name_voices() {
    assert_eq!(voice_of_entry("af_heart.npy"), Some("af_heart".to_string()));
    assert_eq!(voice_of_entry("readme.txt"), None);
}

#[test]
fn other_files_and_partial_voices_are_passed_over() {
    let bytes = archive(&[
        ("readme.txt", b"hello".to_vec()),
        ("short.npy", npy(&[1.0, 2.0])),
        ("whole.npy", npy(&voice(0.0))),
    ]);
    let db = VoiceDatabase::load_from_zip(bytes).unwrap();
    assert_eq!(db.len(), 1);
    assert!(db.contains_voice("whole"));
    assert!(!db.contains_voice("short"));
    assert!(db.get_style("short", 1).is_none());
}

#[test]
fn a_file_that_is_no_archive_is_refused() {
    let error = match VoiceDatabase::load_from_zip(b"not a zip".to_vec()) {
        Ok(_) => panic!("loaded"),
        Err(e) => e,
    };
    assert!(matches!(error, VoiceError::Archive { .. }));
    assert_eq!(
        error.message(),
        Some("failed to parse voices ZIP archive".to_string())
    );
}

#[test]
fn a_voice_that_is_no_array_is_refused() {
    let bytes = archive(&[("broken.npy", b"nothing of the kind".to_vec())]);
    let error = match VoiceDatabase::load_from_zip(bytes) {
        Ok(_) => panic!("loaded"),
        Err(e) => e,
    };
    assert!(matches!(
        error,
        VoiceError::Voice {
            error: NpyError::InvalidMagic,
            ..
        }
    ));
    assert_eq!(
        error.message(),
        Some("failed to parse .npy data for voice: broken".to_string())
    );
}

#[test]
fn an_entry_that_cannot_be_read_is_refused() {
    let content = npy(&voice(0.0));
    let mut writer = zip::ZipWriter::new(std::io::Cursor::new(Vec::new()));
    let stored = zip::write::SimpleFileOptions::default()
        .compression_method(zip::CompressionMethod::Stored);
    writer.start_file("af_heart.npy", stored).unwrap();
    writer.write_all(&content).unwrap();
    let mut bytes = writer.finish().unwrap().into_inner();
    let middle = bytes.len() / 2;
    bytes[middle] ^= 0xff;
    let error = match VoiceDatabase::load_from_zip(bytes) {
        Ok(_) => panic!("loaded"),
        Err(e) => e,
    };
    assert!(matches!(error, VoiceError::Entry { index: 0, .. }));
    assert_eq!(error.message(), None);
}

#[test]
fn the_row_of_a_style_follows_the_phonemes() {
    let db = british();
    let first = |n: usize| f32::from_bits(db.get_style("bm_george", n).unwrap()[0]);
    assert_eq!(first(0), 1000.0);
    assert_eq!(first(1), 1000.0);
    assert_eq!(first(50), 1049.0);
    assert_eq!(first(510), 1509.0);
    assert_eq!(first(5000), 1509.0);
}

#[test]
fn the_blend_has_four_parts() {
    let parts = KokoroEngine::compute_jarvis_blend(&british()).unwrap();
    let weights: Vec<u32> = parts.iter().map(|p| p.percent).collect();
    assert_eq!(weights, vec![60, 30, 5, 5]);
    let firsts: Vec<f32> = parts.iter().map(|p| f32::from_bits(p.style[0])).collect();
    assert_eq!(firsts, vec![1049.0, 2049.0, 3049.0, 4049.0]);
    assert!(KokoroEngine::compute_jarvis_blend(&VoiceDatabase::new()).is_none());
}

#[test]
fn percents_are_the_weights() {
    let parts = KokoroEngine::compute_jarvis_blend(&british()).unwrap();
    let weights: Vec<f32> = parts.iter().map(|p| p.percent as f32 / 100.0).collect();
    assert_eq!(weights, vec![0.60, 0.30, 0.05, 0.05]);
    let modifier = |text: &str| KokoroEngine::detect_speed_modifier(text) as f32 / 100.0;
    assert_eq!(modifier("Stop!"), 1.06);
    assert_eq!(modifier("Really?"), 0.98);
    assert_eq!(modifier("Well…"), 0.95);
    assert_eq!(modifier("All is well."), 1.00);
}

#[test]
fn a_voice_and_a_pace_are_set() {
    assert_eq!(MIN_SPEED_BITS, 0.2f32.to_bits());
    assert_eq!(MAX_SPEED_BITS, 4.0f32.to_bits());
    let mut engine = KokoroEngine::new(VoiceDatabase::new(), None, "jarvis", 1.15f32.to_bits());
    assert_eq!(engine.sample_rate(), 24000);
    assert_eq!(NATIVE_SAMPLE_RATE, 24000);
    assert_eq!(engine.voice(), "jarvis");
    engine.set_voice("af_heart");
    assert_eq!(engine.voice(), "af_heart");
    for (asked, got) in [
        (2.0f32, 2.0f32),
        (0.2, 0.2),
        (4.0, 4.0),
        (0.19, 4.0),
        (4.01, 4.0),
        (-1.0, 4.0),
        (f32::NAN, 4.0),
        (f32::INFINITY, 4.0),
    ] {
        engine.set_speed(asked.to_bits());
        assert_eq!(f32::from_bits(engine.speed()), got);
    }
}

#[test]
fn cadence_spells_out_initialisms() {
    assert_eq!(
        KokoroEngine::enhance_cadence(" The AI—an API... "),
        "The A.I. — an A.P.I.…"
    );
    assert_eq!(KokoroEngine::enhance_cadence("JARVIS, CLI, UI"), "Jarvis, C.L.I., U.I.");
    assert_eq!(KokoroEngine::enhance_cadence("SAID"), "SAID");
}

#[test]
fn tone_sets_the_pace() {
    assert_eq!(KokoroEngine::detect_speed_modifier("WARNING: hot"), 106);
    assert_eq!(KokoroEngine::detect_speed_modifier("Stop!"), 106);
    assert_eq!(KokoroEngine::detect_speed_modifier("Shall I proceed"), 98);
    assert_eq!(KokoroEngine::detect_speed_modifier("Really?"), 98);
    assert_eq!(KokoroEngine::detect_speed_modifier("As always, sir."), 95);
    assert_eq!(KokoroEngine::detect_speed_modifier("Well…"), 95);
    assert_eq!(KokoroEngine::detect_speed_modifier("All is well."), 100);
}

#[test]
fn a_text_is_made_ready() {
    let engine = KokoroEngine::new(VoiceDatabase::new(), None, "jarvis", 0);
    assert!(engine.prepare(" \t").is_none());
    let u = engine.prepare("  An AI error ").unwrap();
    assert_eq!(u.text, "An A.I. error");
    assert_eq!(u.speed_percent, 106);
}

#[test]
fn an_engine_remembers_phonemes() {
    let mut engine = KokoroEngine::new(VoiceDatabase::new(), None, "jarvis", 0);
    match engine.phonemize("Hello") {
        Phonemization::Run(arguments) => assert_eq!(arguments[1], "en-gb"),
        other => panic!("{:?}", other),
    }
    let ipa = engine
        .finish_phonemes("Hello", &output(true, "həlˈəʊ\n".as_bytes(), b""))
        .unwrap();
    assert_eq!(ipa, "həlˈəʊ");
    assert!(matches!(engine.phonemize(" Hello "), Phonemization::Done(_)));
}

#[test]
fn short_utterances_stay_whole() {
    assert!(plan_tokens(vec![0, 0]).is_empty());
    assert_eq!(plan_tokens(vec![0, 7, 0]), vec![vec![0, 7, 0]]);
    let full: Vec<i64> = vec![9; MAX_TOKENS];
    assert_eq!(plan_tokens(full.clone()), vec![full]);
}

#[test]
fn long_utterances_are_split_at_breaks() {
    let mut tokens: Vec<i64> = vec![50; 1000];
    tokens[0] = 0;
    tokens[999] = 0;
    tokens[300] = 16;
    tokens[700] = 4;
    let parts = plan_tokens(tokens.clone());
    assert!(parts.iter().all(|p| p.len() <= MAX_PART + 2));
    assert!(parts.iter().all(|p| p[0] == 0 && p[p.len() - 1] == 0));
    let joined: Vec<i64> = parts
        .iter()
        .flat_map(|p| p[1..p.len() - 1].to_vec())
        .collect();
    assert_eq!(joined, tokens[1..999].to_vec());
    assert_eq!(parts[0].len(), 302);
    assert_eq!(parts[0][300], 16);
    assert_eq!(parts[1].len(), 402);
    assert_eq!(parts[2].len(), 300);
    assert_eq!(split_long_tokens(&tokens), parts);
}

#[test]
fn an_utterance_without_breaks_is_split_at_the_limit() {
    let tokens: Vec<i64> = vec![50; 1000];
    let lengths: Vec<usize> = plan_tokens(tokens).iter().map(|p| p.len()).collect();
    assert_eq!(lengths, vec![452, 452, 100]);
}

#[test]
fn the_style_of_a_voice_is_chosen() {
    let blend = vec![7u32; STYLE_DIM];
    let mut engine = KokoroEngine::new(british(), Some(blend.clone()), "jarvis", 0);
    match engine.choose_style(52) {
        Ok(Style::Jarvis(s)) => assert_eq!(s, blend),
        other => panic!("{:?}", other),
    }
    engine.set_voice("bm_daniel");
    match engine.choose_style(52) {
        Ok(Style::Voice(s)) => assert_eq!(f32::from_bits(s[0]), 2049.0),
        other => panic!("{:?}", other),
    }
    engine.set_voice("nobody");
    assert!(matches!(engine.choose_style(52), Ok(Style::Jarvis(_))));
}

#[test]
fn a_style_that_is_missing_is_reported() {
    let mut engine = KokoroEngine::new(british(), None, "jarvis", 0);
    match engine.choose_style(1) {
        Ok(Style::Voice(s)) => assert_eq!(f32::from_bits(s[0]), 1000.0),
        other => panic!("{:?}", other),
    }
    engine.set_voice("nobody");
    match engine.choose_style(3) {
        Err(e) => assert_eq!(e.message(), "Voice 'nobody' not found in voice database"),
        other => panic!("{:?}", other),
    }
    let engine = KokoroEngine::new(VoiceDatabase::new(), None, "jarvis", 0);
    match engine.choose_style(3) {
        Err(StyleError::NoJarvis) => {}
        other => panic!("{:?}", other),
    }
    assert_eq!(
        StyleError::NoJarvis.message(),
        "Voice style not available for JARVIS"
    );
}

#[test]
fn a_voice_is_added_from_its_content() {
    let mut db = VoiceDatabase::new();
    db.add_voice("mine".to_string(), &npy(&voice(5.0))).unwrap();
    assert!(db.contains_voice("mine"));
    assert!(db.add_voice("bad".to_string(), b"").is_err());
    assert_eq!(db.len(), 1);
}

#[test]
fn phonemes_become_tokens() {
    let vocabulary = vec![
        VocabularyEntry {
            symbol: ' ',
            token: 16,
        },
        VocabularyEntry {
            symbol: 'ə',
            token: 83,
        },
    ];
    assert_eq!(tokenize_phonemes("ə ?ə", &vocabulary), vec![0, 83, 16, 83, 0]);
    assert_eq!(tokenize_phonemes("??", &vocabulary), vec![0, 0]);
}
