use pi_speak::text::chars::{
    begins_with, count_words, ends_in, find, has_text, is_ascii_space, is_blank, is_white_space,
    last_word_before, replace, same_text, trim,
};
use pi_speak::text::chunker::{find_sentence_boundary, is_abbreviation};
use pi_speak::text::decimal::decimal_text;
use pi_speak::text::emphasis::remove_emphasis;
use pi_speak::text::filter::{is_diagram_symbol, normalize_code_phonetics, strip_diagram_symbols};
use pi_speak::text::pattern::Rule;
use pi_speak::text::{SentenceChunker, TextSanitizer};

#[test]
fn test_fast_start_first_chunk() {
    let mut chunker = SentenceChunker::new(false, 20);

    // First sentence should emit immediately
    let chunks = chunker.feed("Hello world, this is the first sentence. ");
    assert_eq!(chunks.len(), 1);
    assert_eq!(chunks[0], "Hello world, this is the first sentence.");

    // Second sentence should wait for target word count (20 words)
    let chunks2 = chunker.feed("Short second sentence. ");
    assert!(chunks2.is_empty());

    // Feed more until sustained threshold is reached
    let chunks3 = chunker.feed("And here are a lot more words to ensure that the sustained threshold of twenty words is completely satisfied by this chunk. ");
    assert_eq!(chunks3.len(), 1);
}

#[test]
fn test_handles_abbreviations() {
    let mut chunker = SentenceChunker::new(false, 1);
    let chunks = chunker.feed("Use e.g. this example right here. ");
    assert_eq!(chunks.len(), 1);
    assert!(chunks[0].contains("e.g. this example right here."));
}

#[test]
fn test_flush_remaining() {
    let mut chunker = SentenceChunker::new(false, 30);
    let _ = chunker.feed("Incomplete sentence without final period");
    let flushed = chunker.flush();
    assert_eq!(
        flushed,
        Some("Incomplete sentence without final period".to_string())
    );
}

#[test]
fn test_reset() {
    let mut chunker = SentenceChunker::new(false, 30);
    let _ = chunker.feed("Some buffered content");
    chunker.reset();
    assert_eq!(chunker.flush(), None);
}

#[test]
fn test_strips_code_blocks() {
    let sanitizer = TextSanitizer::new(false);
    let input = "Here is the code:\n```rust\nfn main() {\n    println!(\"hello\");\n}\n```\nIt works fine.";
    let cleaned = sanitizer.clean(input);
    assert_eq!(cleaned, "Here is the code:\n\nIt works fine.");
}

#[test]
fn test_summarizes_code_blocks_when_configured() {
    let sanitizer = TextSanitizer::new(true);
    let input = "Here is the code:\n```rust\nfn foo() {}\n```\nAll done.";
    let cleaned = sanitizer.clean(input);
    assert!(cleaned.contains("[code block omitted]"));
}

#[test]
fn test_strips_markdown_formatting_and_links() {
    let sanitizer = TextSanitizer::new(false);
    let input = "### Title\nThis is **bold** and `inline_code`. Check [our docs](https://example.com/docs).";
    let cleaned = sanitizer.clean(input);
    assert_eq!(
        cleaned,
        "Title\nThis is bold and inline_code. Check our docs."
    );
}

#[test]
fn test_strips_box_drawing_diagrams() {
    let sanitizer = TextSanitizer::new(false);
    let input = "Architecture:\n┌───────┐\n│ Pipe  │ ──► [Audio]\n└───────┘";
    let cleaned = sanitizer.clean(input);
    assert!(!cleaned.contains('┌'));
    assert!(!cleaned.contains('│'));
    assert!(!cleaned.contains('└'));
    assert!(cleaned.contains("Pipe"));
    assert!(cleaned.contains("[Audio]"));
}

#[test]
fn test_phonetic_normalization() {
    let sanitizer = TextSanitizer::new(false);
    let input = "If a != b && c == d { return; }";
    let cleaned = sanitizer.clean(input);
    assert!(cleaned.contains("does not equal"));
    assert!(cleaned.contains("and"));
    assert!(cleaned.contains("equals"));
}

#[test]
fn cleaning_gives_trimmed_text_without_symbols() {
    let sanitizer = TextSanitizer::default();
    let cleaned = sanitizer.clean("  ├── src ▓ done  ");
    assert_eq!(cleaned, cleaned.trim());
    assert!(!cleaned.chars().any(is_diagram_symbol));
    assert!(cleaned.contains("src"));
    assert_eq!(sanitizer.clean("   \n\t "), "");
}

#[test]
fn symbols_are_recognized() {
    assert!(is_diagram_symbol('│'));
    assert!(is_diagram_symbol('►'));
    assert!(!is_diagram_symbol('a'));
    assert!(!is_diagram_symbol('|'));
    assert_eq!(strip_diagram_symbols("a─b").contains('─'), false);
}

#[test]
fn phonetics_spell_out_operators() {
    assert!(normalize_code_phonetics("a == b").contains("equals"));
    assert!(normalize_code_phonetics("a != b").contains("does not equal"));
    assert_eq!(normalize_code_phonetics("plain words"), "plain words");
}

#[test]
fn a_rule_replaces_each_match() {
    let rule = Rule::new(r"\bAI\b");
    assert_eq!(rule.apply("AI and AID and AI", "A.I."), "A.I. and AID and A.I.");
    assert_eq!(rule.clone().apply("AI", "x"), "x");
    assert_eq!(Rule::new(r"<([a-z]+)>").apply("<b>bold", "[$1]"), "[b]bold");
}

#[test]
fn a_pattern_that_does_not_compile_changes_nothing() {
    assert_eq!(Rule::new("(").apply("a(b", "x"), "a(b");
}

#[test]
fn a_first_sentence_of_one_word_is_spoken_at_once() {
    let mut chunker = SentenceChunker::new(false, 30);
    assert_eq!(chunker.feed("Done. "), vec!["Done."]);
    assert!(chunker.feed("Next. ").is_empty());
    assert_eq!(find_sentence_boundary("Done. ", 1), Some(5));
    assert_eq!(find_sentence_boundary("Two words. ", 2), Some(10));
    assert_eq!(find_sentence_boundary(". x", 1), None);
}

#[test]
fn a_list_marker_is_no_first_sentence() {
    assert_eq!(find_sentence_boundary("1. Install the package. ", 1), Some(23));
    assert_eq!(find_sentence_boundary("a. Install the package. ", 1), Some(23));
    assert_eq!(find_sentence_boundary("... well then. ", 1), Some(14));
    assert_eq!(find_sentence_boundary("12. ", 1), None);
    assert_eq!(find_sentence_boundary("Été! Oui", 1), Some(6));
    let mut chunker = SentenceChunker::new(false, 30);
    assert_eq!(
        chunker.feed("1. Install the package. "),
        vec!["Install the package."]
    );
}

#[test]
fn a_code_block_is_not_cut() {
    let mut chunker = SentenceChunker::new(true, 30);
    assert_eq!(chunker.feed("Here is the code. "), vec!["Here is the code."]);
    assert!(chunker
        .feed("```rust\nfn main() {}\n\n// A comment. Another one. And more.\n")
        .is_empty());
    assert!(chunker.feed("let x = 1;\n\n").is_empty());
    let chunks = chunker.feed("```\nThat was it.\n\n");
    assert_eq!(chunks.len(), 1);
    assert!(chunks[0].contains("[code block omitted]"));
    assert!(!chunks[0].contains("comment"));
    assert!(!chunks[0].contains("let x"));
    assert!(chunks[0].contains("That was it."));
    assert_eq!(find_sentence_boundary("``` a b. c\n\n", 1), None);
    assert_eq!(find_sentence_boundary("``` a b. ``` c d. e", 1), Some(17));
}

#[test]
fn single_emphasis_markers_are_removed() {
    assert_eq!(normalize_code_phonetics("an *italic* word"), "an italic word");
    assert_eq!(normalize_code_phonetics("*a whole phrase*, really"), "a whole phrase, really");
    assert_eq!(normalize_code_phonetics("an _italic_ word"), "an italic word");
    assert_eq!(normalize_code_phonetics("***both*** and (*this*)"), "both and (this)");
    assert_eq!(remove_emphasis("x*y* z", '*'), "x*y* z");
}

#[test]
fn other_markers_are_kept() {
    assert_eq!(normalize_code_phonetics("a * b"), "a * b");
    assert_eq!(normalize_code_phonetics("2*3*4"), "2*3*4");
    assert_eq!(normalize_code_phonetics("inline_code_name"), "inline_code_name");
    assert_eq!(normalize_code_phonetics("call *args"), "call *args");
    assert_eq!(normalize_code_phonetics("one *a\n\nb* two"), "one *a\n\nb* two");
}

#[test]
fn comparisons_are_no_tags() {
    let sanitizer = TextSanitizer::new(false);
    assert_eq!(
        sanitizer.clean("x <= y and y >= z"),
        "x is less than or equal to y and y is greater than or equal to z"
    );
    assert_eq!(sanitizer.clean("<b>bold</b><br/> <!-- note --> text"), "bold text");
}

#[test]
fn only_code_blocks_are_summarized() {
    let text = "Some `inline` text, no block.";
    assert_eq!(
        TextSanitizer::new(true).clean(text),
        TextSanitizer::new(false).clean(text)
    );
    let block = "Code: ``` x ``` end";
    assert_ne!(
        TextSanitizer::new(true).clean(block),
        TextSanitizer::new(false).clean(block)
    );
}

#[test]
fn a_boundary_is_a_byte_index() {
    assert_eq!(find_sentence_boundary("Grüße an alle. Mehr", 1), Some(16));
    assert_eq!(find_sentence_boundary("No end here", 1), None);
    assert_eq!(find_sentence_boundary("", 0), None);
}

#[test]
fn a_short_text_waits_for_a_paragraph() {
    assert_eq!(find_sentence_boundary("Too short. ", 20), None);
    assert_eq!(find_sentence_boundary("Too short.\n\nNext", 20), Some(12));
    assert_eq!(find_sentence_boundary("\n\n", 20), None);
}

#[test]
fn a_period_inside_a_number_ends_no_sentence() {
    assert_eq!(find_sentence_boundary("Version 1.5 is out", 1), None);
    assert_eq!(find_sentence_boundary("It is 1.5 now! Yes", 1), Some(14));
}

#[test]
fn abbreviations_are_known_whatever_their_case() {
    let text = "Ask Dr. Who";
    assert!(is_abbreviation(text, 6));
    assert!(!is_abbreviation("Ask him. Now", 7));
}

#[test]
fn cutting_keeps_every_word() {
    let mut chunker = SentenceChunker::new(false, 3);
    let mut spoken: Vec<String> = Vec::new();
    let text = "One two three four. Five six seven eight! Nine ten";
    for piece in [&text[..7], &text[7..30], &text[30..]] {
        spoken.extend(chunker.feed(piece));
    }
    spoken.extend(chunker.flush());
    assert_eq!(
        spoken,
        vec!["One two three four.", "Five six seven eight!", "Nine ten"]
    );
    assert_eq!(chunker.flush(), None);
}

#[test]
fn what_is_not_spoken_is_no_chunk() {
    let mut chunker = SentenceChunker::default();
    let chunks = chunker.feed("a ``` x. ``` ");
    let rest = chunker.flush();
    assert!(chunks.iter().all(|c| !c.is_empty()));
    assert!(rest.map_or(true, |r| !r.is_empty()));
}

#[test]
fn characters_are_classified() {
    assert!(is_white_space('\u{a0}'));
    assert!(!is_white_space('x'));
    assert!(is_ascii_space('\t'));
    assert!(!is_ascii_space('\u{a0}'));
    assert!(is_blank(" \u{3000}\n"));
    assert!(!is_blank(" a "));
}

#[test]
fn texts_are_searched() {
    let v: Vec<char> = "one two  three".chars().collect();
    assert_eq!(count_words(&v), 3);
    assert_eq!(last_word_before(&v, 7), "two");
    let pat: Vec<char> = "two".chars().collect();
    assert_eq!(find(&v, &pat), Some(4));
    assert!(has_text("haystack", "sta"));
    assert!(!has_text("haystack", "stb"));
    assert!(begins_with("shall i go", "shall i"));
    assert!(ends_in("really?", '?'));
    assert!(!ends_in("", '?'));
    assert!(same_text("jarvis", "jarvis"));
    assert!(!same_text("jarvis", "jarviS"));
    assert_eq!(replace("a...b....", "...", "…"), "a…b….");
    assert_eq!(trim("\u{2003} x y \n"), "x y");
}

#[test]
fn numbers_are_written_in_decimal() {
    assert_eq!(decimal_text(0), "0");
    assert_eq!(decimal_text(10), "10");
    assert_eq!(decimal_text(48000), "48000");
    assert_eq!(decimal_text(u64::MAX), u64::MAX.to_string());
}
