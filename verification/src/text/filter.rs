//! Turning markdown into text that can be read aloud.
use crate::text::chars::{
    blank, chars_of, contains_text, has_text, is_blank, is_trimmed,
    law_the_first_occurrence_is_replaced, law_what_does_not_occur_is_not_replaced,
    lemma_replaced_chars, lemma_trim, occurs_at, replace, replaced, trim, trimmed, white_space,
};
use crate::text::emphasis::{
    law_an_emphasized_phrase_is_kept, law_emphasis_brings_nothing_in, law_other_markers_are_kept,
    remove_emphasis, unmarked, word_char,
};
use crate::text::pattern::{rewritten, Rule};
use crate::text::scrub::{
    law_no_address_is_left, law_no_heading_marker_is_left, law_no_image_is_left,
    law_no_list_marker_is_left, law_no_loose_white_space_is_left, law_no_table_row_is_left,
    law_no_tag_is_left, lemma_scrubbed, scrub, scrubbed,
};
use vstd::prelude::*;

verus! {

/// A fenced code block, with its language tag.
pub const CODE_BLOCK: &'static str = r"(?s)```[a-zA-Z0-9_-]*\n?.*?```";

/// A markdown image.
pub const IMAGE: &'static str = r"!\[[^\]]*\]\([^)]+\)";

/// A markdown link; its first group is the anchor text.
pub const LINK: &'static str = r"\[([^\]]+)\]\([^)]+\)";

/// A bare web address.
pub const URL: &'static str = r"https?://[^\s)]+";

/// A row of a markdown table.
pub const TABLE_ROW: &'static str = r"(?m)^\s*\|.*?\|\s*$";

/// The marker of a heading.
pub const HEADING: &'static str = r"(?m)^\s*#{1,6}\s+";

/// The marker of a bullet list item.
pub const BULLET: &'static str = r"(?m)^\s*[-*+]\s+";

/// The marker of a numbered list item.
pub const NUMBERED: &'static str = r"(?m)^\s*\d+\.\s+";

/// An HTML tag, which begins with a letter, a slash or an exclamation mark.
pub const HTML_TAG: &'static str = r"<[a-zA-Z/!][^>]*>";

/// Inline code; its first group is the code.
pub const INLINE_CODE: &'static str = r"`([^`]+)`";

/// A run of spaces and tabs.
pub const SPACES: &'static str = r"[ \t]+";

/// A line of white space.
pub const BLANK_LINE: &'static str = r"(?m)^\s+$";

/// Three line feeds or more.
pub const NEWLINES: &'static str = r"\n{3,}";

/// What a code block begins and ends with.
pub const FENCE: &'static str = "```";

/// What stands for a code block that is summarized.
pub const CODE_BLOCK_SUMMARY: &'static str = " [code block omitted] ";

/// The rules of the sanitizer, compiled.
#[derive(Debug)]
pub struct RuleSet {
    code_block: Rule,
    image: Rule,
    link: Rule,
    url: Rule,
    table_row: Rule,
    heading: Rule,
    bullet: Rule,
    numbered: Rule,
    html_tag: Rule,
    inline_code: Rule,
    spaces: Rule,
    blank_line: Rule,
    newlines: Rule,
}

impl RuleSet {
    #[verifier::type_invariant]
    spec fn has_its_patterns(&self) -> bool {
        &&& self.code_block.pattern() == CODE_BLOCK@
        &&& self.image.pattern() == IMAGE@
        &&& self.link.pattern() == LINK@
        &&& self.url.pattern() == URL@
        &&& self.table_row.pattern() == TABLE_ROW@
        &&& self.heading.pattern() == HEADING@
        &&& self.bullet.pattern() == BULLET@
        &&& self.numbered.pattern() == NUMBERED@
        &&& self.html_tag.pattern() == HTML_TAG@
        &&& self.inline_code.pattern() == INLINE_CODE@
        &&& self.spaces.pattern() == SPACES@
        &&& self.blank_line.pattern() == BLANK_LINE@
        &&& self.newlines.pattern() == NEWLINES@
    }

    /// Compiles the rules, each from its pattern.
    fn new() -> (r: RuleSet)
        ensures
            r.has_its_patterns(),
    {
        RuleSet {
            code_block: Rule::new(CODE_BLOCK),
            image: Rule::new(IMAGE),
            link: Rule::new(LINK),
            url: Rule::new(URL),
            table_row: Rule::new(TABLE_ROW),
            heading: Rule::new(HEADING),
            bullet: Rule::new(BULLET),
            numbered: Rule::new(NUMBERED),
            html_tag: Rule::new(HTML_TAG),
            inline_code: Rule::new(INLINE_CODE),
            spaces: Rule::new(SPACES),
            blank_line: Rule::new(BLANK_LINE),
            newlines: Rule::new(NEWLINES),
        }
    }
}

/// TextSanitizer cleans coding assistant markdown output into natural spoken text.
#[derive(Debug)]
pub struct TextSanitizer {
    pub summarize_code_blocks: bool,
    pub rules: RuleSet,
}

/// The markdown of `text` taken apart: code blocks, images, addresses, tables, list and heading
/// markers and HTML tags are gone, of links and inline code the text is left.
pub open spec fn without_markdown(summarize: bool, text: Seq<char>) -> Seq<char> {
    let summary = if summarize { CODE_BLOCK_SUMMARY@ } else { " "@ };
    let no_code_blocks = if contains_text(text, FENCE@) {
        rewritten(CODE_BLOCK@, summary, text)
    } else {
        text
    };
    let no_images = rewritten(IMAGE@, ""@, no_code_blocks);
    let no_links = rewritten(LINK@, "$1"@, no_images);
    let no_urls = rewritten(URL@, ""@, no_links);
    let no_tables = rewritten(TABLE_ROW@, ""@, no_urls);
    let no_headings = rewritten(HEADING@, ""@, no_tables);
    let no_bullets = rewritten(BULLET@, ""@, no_headings);
    let no_numbers = rewritten(NUMBERED@, ""@, no_bullets);
    let no_html = rewritten(HTML_TAG@, ""@, no_numbers);
    rewritten(INLINE_CODE@, "$1"@, no_html)
}

/// `text` with each run of spaces and tabs made one space, lines of white space emptied, no more
/// than two line feeds in a row, and no white space around it.
pub open spec fn tidied(text: Seq<char>) -> Seq<char> {
    let single_spaced = rewritten(SPACES@, " "@, text);
    let emptied_lines = rewritten(BLANK_LINE@, ""@, single_spaced);
    trimmed(rewritten(NEWLINES@, "\n\n"@, emptied_lines))
}

/// The spoken form of `text`.
pub open spec fn cleaned(summarize: bool, text: Seq<char>) -> Seq<char> {
    if blank(text) {
        Seq::empty()
    } else {
        scrubbed(tidied(phonetized(without_symbols(without_markdown(summarize, text)))))
    }
}

/// Whether `c` is a box-drawing character or a decorative symbol of diagrams.
pub open spec fn diagram_symbol(c: char) -> bool {
    // single lines and their corners and crossings
    ||| c == '─' || c == '│' || c == '┌' || c == '┐' || c == '└' || c == '┘'
    ||| c == '├' || c == '┤' || c == '┬' || c == '┴' || c == '┼'
    // double lines, and double lines that meet single ones
    ||| '═' <= c <= '╬'
    // arrow heads, squares, circles and diamonds
    ||| c == '▲' || c == '▼' || c == '►' || c == '◄' || c == '▶' || c == '◀'
    ||| c == '■' || c == '□' || c == '●' || c == '○' || c == '◆' || c == '◇'
}

/// `text` without the symbols that diagrams are drawn with.
pub open spec fn without_symbols(text: Seq<char>) -> Seq<char> {
    text.filter(|c: char| !diagram_symbol(c))
}

/// `text` without the markers of bold, italic and struck text, and with operators spelled out.
pub open spec fn phonetized(text: Seq<char>) -> Seq<char> {
    let t1 = replaced(text, "**"@, ""@);
    let t2 = replaced(t1, "__"@, ""@);
    let t3 = replaced(t2, "~~"@, ""@);
    let plain = unmarked(unmarked(t3, '*', 0), '_', 0);
    let t4 = replaced(plain, " != "@, " does not equal "@);
    let t5 = replaced(t4, " == "@, " equals "@);
    let t6 = replaced(t5, " >= "@, " is greater than or equal to "@);
    let t7 = replaced(t6, " <= "@, " is less than or equal to "@);
    let t8 = replaced(t7, " && "@, " and "@);
    let t9 = replaced(t8, " || "@, " or "@);
    let t10 = replaced(t9, " -> "@, " returns "@);
    replaced(t10, " => "@, " maps to "@)
}

/// Identifies ASCII box-drawing and decorative diagram symbols.
pub fn is_diagram_symbol(c: char) -> (b: bool)
    ensures
        b == diagram_symbol(c),
{
    matches!(
        c,
        '─'
            | '│'
            | '┌'
            | '┐'
            | '└'
            | '┘'
            | '├'
            | '┤'
            | '┬'
            | '┴'
            | '┼'
            | '═'
            | '║'
            | '╒'
            | '╓'
            | '╔'
            | '╕'
            | '╖'
            | '╗'
            | '╘'
            | '╙'
            | '╚'
            | '╛'
            | '╜'
            | '╝'
            | '╞'
            | '╟'
            | '╠'
            | '╡'
            | '╢'
            | '╣'
            | '╤'
            | '╥'
            | '╦'
            | '╧'
            | '╨'
            | '╩'
            | '╪'
            | '╫'
            | '╬'
            | '▲'
            | '▼'
            | '►'
            | '◄'
            | '■'
            | '□'
            | '●'
            | '○'
            | '◆'
            | '◇'
            | '▶'
            | '◀'
    )
}

/// The text without the symbols that diagrams are drawn with.
pub fn strip_diagram_symbols(text: &str) -> (r: String)
    ensures
        r@ == without_symbols(text@),
{
    let v = chars_of(text);
    let mut r = String::new();
    let mut i: usize = 0;
    let ghost keep = |c: char| !diagram_symbol(c);
    assert(v@.take(0).filter(keep) == Seq::<char>::empty()) by {
        reveal(Seq::filter);
    }
    while i < v.len()
        invariant
            i <= v@.len(),
            keep == (|c: char| !diagram_symbol(c)),
            r@ == v@.take(i as int).filter(keep),
        decreases v.len() - i,
    {
        assert(v@.take(i + 1).drop_last() == v@.take(i as int));
        assert(v@.take(i + 1).filter(keep) == (if keep(v@[i as int]) {
            v@.take(i as int).filter(keep).push(v@[i as int])
        } else {
            v@.take(i as int).filter(keep)
        })) by {
            reveal(Seq::filter);
        }
        if !is_diagram_symbol(v[i]) {
            r.push(v[i]);
        }
        i += 1;
    }
    assert(v@.take(i as int) == v@);
    r
}

/// Normalizes programming syntax to sound natural when spoken.
pub fn normalize_code_phonetics(s: &str) -> (r: String)
    ensures
        r@ == phonetized(s@),
{
    proof {
        reveal_strlit("**");
        reveal_strlit("__");
        reveal_strlit("~~");
        reveal_strlit(" != ");
        reveal_strlit(" == ");
        reveal_strlit(" >= ");
        reveal_strlit(" <= ");
        reveal_strlit(" && ");
        reveal_strlit(" || ");
        reveal_strlit(" -> ");
        reveal_strlit(" => ");
    }
    let t1 = replace(s, "**", "");
    let t2 = replace(t1.as_str(), "__", "");
    let t3 = replace(t2.as_str(), "~~", "");
    let no_stars = remove_emphasis(t3.as_str(), '*');
    let plain = remove_emphasis(no_stars.as_str(), '_');
    let t4 = replace(plain.as_str(), " != ", " does not equal ");
    let t5 = replace(t4.as_str(), " == ", " equals ");
    let t6 = replace(t5.as_str(), " >= ", " is greater than or equal to ");
    let t7 = replace(t6.as_str(), " <= ", " is less than or equal to ");
    let t8 = replace(t7.as_str(), " && ", " and ");
    let t9 = replace(t8.as_str(), " || ", " or ");
    let t10 = replace(t9.as_str(), " -> ", " returns ");
    replace(t10.as_str(), " => ", " maps to ")
}

/// Whether code blocks are mentioned makes a difference only to a text that has a fence in it.
pub proof fn law_only_code_blocks_are_summarized(text: Seq<char>)
    requires
        !contains_text(text, FENCE@),
    ensures
        cleaned(true, text) == cleaned(false, text),
{
}

/// What is spoken of a text has been scrubbed.
proof fn lemma_cleaned(summarize: bool, text: Seq<char>) -> (x: Seq<char>)
    ensures
        cleaned(summarize, text) == scrubbed(x),
{
    if blank(text) {
        text.take(0)
    } else {
        tidied(phonetized(without_symbols(without_markdown(summarize, text))))
    }
}

/// Nothing is spoken of a text that holds nothing but white space.
pub proof fn law_a_blank_text_is_silent(summarize: bool, text: Seq<char>)
    requires
        forall|i: int| 0 <= i < text.len() ==> white_space(#[trigger] text[i]),
    ensures
        cleaned(summarize, text).len() == 0,
{
}

/// No web address is spoken: behind each `http://` and each `https://` of a cleaned text comes
/// white space, a closing bracket or nothing.
pub proof fn law_no_web_address_is_spoken(summarize: bool, text: Seq<char>, i: int)
    ensures
        ({
            let r = cleaned(summarize, text);
            &&& 0 <= i && i + 7 < r.len() && r.subrange(i, i + 7) == "http://"@ ==> white_space(
                r[i + 7],
            ) || r[i + 7] == ')'
            &&& 0 <= i && i + 8 < r.len() && r.subrange(i, i + 8) == "https://"@ ==> white_space(
                r[i + 8],
            ) || r[i + 8] == ')'
        }),
{
    let x = lemma_cleaned(summarize, text);
    law_no_address_is_left(x, i);
}

/// No image is spoken: a cleaned text has no exclamation mark with a label in square brackets and
/// a target in round ones behind it.
pub proof fn law_no_image_is_spoken(
    summarize: bool,
    text: Seq<char>,
    i: int,
    label: int,
    target: int,
)
    requires
        0 <= i,
        i + 2 <= label,
        label + 2 < target < cleaned(summarize, text).len(),
        cleaned(summarize, text)[i] == '!',
        cleaned(summarize, text)[i + 1] == '[',
        forall|k: int| i + 2 <= k < label ==> #[trigger] cleaned(summarize, text)[k] != ']',
        cleaned(summarize, text)[label] == ']',
        cleaned(summarize, text)[label + 1] == '(',
        forall|k: int| label + 2 <= k < target ==> #[trigger] cleaned(summarize, text)[k] != ')',
    ensures
        cleaned(summarize, text)[target] != ')',
{
    let x = lemma_cleaned(summarize, text);
    law_no_image_is_left(x, i, label, target);
}

/// No HTML tag is spoken.
pub proof fn law_no_tag_is_spoken(summarize: bool, text: Seq<char>, i: int, j: int)
    requires
        0 <= i,
        i + 2 <= j < cleaned(summarize, text).len(),
        cleaned(summarize, text)[i] == '<',
        ({
            let c = cleaned(summarize, text)[i + 1];
            'a' <= c <= 'z' || 'A' <= c <= 'Z' || c == '/' || c == '!'
        }),
    ensures
        cleaned(summarize, text)[j] != '>',
{
    let x = lemma_cleaned(summarize, text);
    law_no_tag_is_left(x, i, j);
}

/// No line that is spoken begins with the marker of a heading: with one to six hashes and white
/// space.
pub proof fn law_no_heading_marker_is_spoken(summarize: bool, text: Seq<char>, i: int, n: int)
    requires
        0 <= i,
        1 <= n <= 6,
        i + n < cleaned(summarize, text).len(),
        i == 0 || cleaned(summarize, text)[i - 1] == '\n',
        forall|k: int| i <= k < i + n ==> #[trigger] cleaned(summarize, text)[k] == '#',
    ensures
        !white_space(cleaned(summarize, text)[i + n]),
{
    let x = lemma_cleaned(summarize, text);
    law_no_heading_marker_is_left(x, i, n);
}

/// No line that is spoken begins with the marker of a list item: with a dash, a star or a plus and
/// white space, or with a number, a period and white space.
pub proof fn law_no_list_marker_is_spoken(summarize: bool, text: Seq<char>, i: int, j: int)
    requires
        0 <= i < j,
        j + 1 < cleaned(summarize, text).len(),
        i == 0 || cleaned(summarize, text)[i - 1] == '\n',
    ensures
        ({
            let r = cleaned(summarize, text);
            &&& j == i + 1 && (r[i] == '-' || r[i] == '*' || r[i] == '+') ==> !white_space(r[j])
            &&& (forall|k: int| i <= k < j ==> '0' <= #[trigger] r[k] <= '9') && r[j] == '.'
                ==> !white_space(r[j + 1])
        }),
{
    let x = lemma_cleaned(summarize, text);
    law_no_list_marker_is_left(x, i, j);
}

/// No row of a table is spoken: no line of a cleaned text has a bar at either end.
pub proof fn law_no_table_row_is_spoken(summarize: bool, text: Seq<char>, i: int, j: int)
    requires
        0 <= i,
        i + 2 <= j <= cleaned(summarize, text).len(),
        i == 0 || cleaned(summarize, text)[i - 1] == '\n',
        j == cleaned(summarize, text).len() || cleaned(summarize, text)[j] == '\n',
        forall|k: int| i <= k < j ==> #[trigger] cleaned(summarize, text)[k] != '\n',
        cleaned(summarize, text)[i] == '|',
    ensures
        cleaned(summarize, text)[j - 1] != '|',
{
    let x = lemma_cleaned(summarize, text);
    law_no_table_row_is_left(x, i, j);
}

/// A cleaned text has no two spaces and no three line feeds in a row, and no white space around it.
pub proof fn law_white_space_is_tidy(summarize: bool, text: Seq<char>, i: int)
    ensures
        ({
            let r = cleaned(summarize, text);
            &&& 0 <= i && i + 1 < r.len() && r[i] == ' ' ==> r[i + 1] != ' '
            &&& 0 <= i && i + 2 < r.len() && r[i] == '\n' && r[i + 1] == '\n' ==> r[i + 2] != '\n'
            &&& r.len() > 0 ==> !white_space(r[0]) && !white_space(r.last())
        }),
{
    let x = lemma_cleaned(summarize, text);
    law_no_loose_white_space_is_left(x, i);
}

/// No symbol that diagrams are drawn with is left once they are stripped.
pub proof fn law_no_symbol_is_left(text: Seq<char>, c: char)
    requires
        without_symbols(text).contains(c),
    ensures
        !diagram_symbol(c),
        text.contains(c),
{
    let keep = |c: char| !diagram_symbol(c);
    text.lemma_filter_contains_rev(keep, c);
}

/// Whether the pattern matches nothing in the text that its replacement would change.
pub open spec fn leaves(pattern: Seq<char>, replacement: Seq<char>, text: Seq<char>) -> bool {
    rewritten(pattern, replacement, text) == text
}

/// Every rule for markdown has its say: where no other rule has anything to do, what is made of the
/// text is what that rule alone makes of it. So images, web addresses, rows of tables, the markers of
/// headings and of list items and HTML tags are taken out, and links and inline code give way to
/// their text.
pub proof fn law_every_markdown_rule_has_its_say(
    summarize: bool,
    text: Seq<char>,
    after: Seq<char>,
)
    requires
        !contains_text(text, "```"@),
    ensures
        after == rewritten(r"!\[[^\]]*\]\([^)]+\)"@, ""@, text)
            && leaves(r"\[([^\]]+)\]\([^)]+\)"@, "$1"@, after)
            && leaves(r"https?://[^\s)]+"@, ""@, after)
            && leaves(r"(?m)^\s*\|.*?\|\s*$"@, ""@, after)
            && leaves(r"(?m)^\s*#{1,6}\s+"@, ""@, after)
            && leaves(r"(?m)^\s*[-*+]\s+"@, ""@, after)
            && leaves(r"(?m)^\s*\d+\.\s+"@, ""@, after)
            && leaves(r"<[a-zA-Z/!][^>]*>"@, ""@, after)
            && leaves(r"`([^`]+)`"@, "$1"@, after)
            ==> without_markdown(summarize, text) == after,
        leaves(r"!\[[^\]]*\]\([^)]+\)"@, ""@, text)
            && after == rewritten(r"\[([^\]]+)\]\([^)]+\)"@, "$1"@, text)
            && leaves(r"https?://[^\s)]+"@, ""@, after)
            && leaves(r"(?m)^\s*\|.*?\|\s*$"@, ""@, after)
            && leaves(r"(?m)^\s*#{1,6}\s+"@, ""@, after)
            && leaves(r"(?m)^\s*[-*+]\s+"@, ""@, after)
            && leaves(r"(?m)^\s*\d+\.\s+"@, ""@, after)
            && leaves(r"<[a-zA-Z/!][^>]*>"@, ""@, after)
            && leaves(r"`([^`]+)`"@, "$1"@, after)
            ==> without_markdown(summarize, text) == after,
        leaves(r"!\[[^\]]*\]\([^)]+\)"@, ""@, text)
            && leaves(r"\[([^\]]+)\]\([^)]+\)"@, "$1"@, text)
            && after == rewritten(r"https?://[^\s)]+"@, ""@, text)
            && leaves(r"(?m)^\s*\|.*?\|\s*$"@, ""@, after)
            && leaves(r"(?m)^\s*#{1,6}\s+"@, ""@, after)
            && leaves(r"(?m)^\s*[-*+]\s+"@, ""@, after)
            && leaves(r"(?m)^\s*\d+\.\s+"@, ""@, after)
            && leaves(r"<[a-zA-Z/!][^>]*>"@, ""@, after)
            && leaves(r"`([^`]+)`"@, "$1"@, after)
            ==> without_markdown(summarize, text) == after,
        leaves(r"!\[[^\]]*\]\([^)]+\)"@, ""@, text)
            && leaves(r"\[([^\]]+)\]\([^)]+\)"@, "$1"@, text)
            && leaves(r"https?://[^\s)]+"@, ""@, text)
            && after == rewritten(r"(?m)^\s*\|.*?\|\s*$"@, ""@, text)
            && leaves(r"(?m)^\s*#{1,6}\s+"@, ""@, after)
            && leaves(r"(?m)^\s*[-*+]\s+"@, ""@, after)
            && leaves(r"(?m)^\s*\d+\.\s+"@, ""@, after)
            && leaves(r"<[a-zA-Z/!][^>]*>"@, ""@, after)
            && leaves(r"`([^`]+)`"@, "$1"@, after)
            ==> without_markdown(summarize, text) == after,
        leaves(r"!\[[^\]]*\]\([^)]+\)"@, ""@, text)
            && leaves(r"\[([^\]]+)\]\([^)]+\)"@, "$1"@, text)
            && leaves(r"https?://[^\s)]+"@, ""@, text)
            && leaves(r"(?m)^\s*\|.*?\|\s*$"@, ""@, text)
            && after == rewritten(r"(?m)^\s*#{1,6}\s+"@, ""@, text)
            && leaves(r"(?m)^\s*[-*+]\s+"@, ""@, after)
            && leaves(r"(?m)^\s*\d+\.\s+"@, ""@, after)
            && leaves(r"<[a-zA-Z/!][^>]*>"@, ""@, after)
            && leaves(r"`([^`]+)`"@, "$1"@, after)
            ==> without_markdown(summarize, text) == after,
        leaves(r"!\[[^\]]*\]\([^)]+\)"@, ""@, text)
            && leaves(r"\[([^\]]+)\]\([^)]+\)"@, "$1"@, text)
            && leaves(r"https?://[^\s)]+"@, ""@, text)
            && leaves(r"(?m)^\s*\|.*?\|\s*$"@, ""@, text)
            && leaves(r"(?m)^\s*#{1,6}\s+"@, ""@, text)
            && after == rewritten(r"(?m)^\s*[-*+]\s+"@, ""@, text)
            && leaves(r"(?m)^\s*\d+\.\s+"@, ""@, after)
            && leaves(r"<[a-zA-Z/!][^>]*>"@, ""@, after)
            && leaves(r"`([^`]+)`"@, "$1"@, after)
            ==> without_markdown(summarize, text) == after,
        leaves(r"!\[[^\]]*\]\([^)]+\)"@, ""@, text)
            && leaves(r"\[([^\]]+)\]\([^)]+\)"@, "$1"@, text)
            && leaves(r"https?://[^\s)]+"@, ""@, text)
            && leaves(r"(?m)^\s*\|.*?\|\s*$"@, ""@, text)
            && leaves(r"(?m)^\s*#{1,6}\s+"@, ""@, text)
            && leaves(r"(?m)^\s*[-*+]\s+"@, ""@, text)
            && after == rewritten(r"(?m)^\s*\d+\.\s+"@, ""@, text)
            && leaves(r"<[a-zA-Z/!][^>]*>"@, ""@, after)
            && leaves(r"`([^`]+)`"@, "$1"@, after)
            ==> without_markdown(summarize, text) == after,
        leaves(r"!\[[^\]]*\]\([^)]+\)"@, ""@, text)
            && leaves(r"\[([^\]]+)\]\([^)]+\)"@, "$1"@, text)
            && leaves(r"https?://[^\s)]+"@, ""@, text)
            && leaves(r"(?m)^\s*\|.*?\|\s*$"@, ""@, text)
            && leaves(r"(?m)^\s*#{1,6}\s+"@, ""@, text)
            && leaves(r"(?m)^\s*[-*+]\s+"@, ""@, text)
            && leaves(r"(?m)^\s*\d+\.\s+"@, ""@, text)
            && after == rewritten(r"<[a-zA-Z/!][^>]*>"@, ""@, text)
            && leaves(r"`([^`]+)`"@, "$1"@, after)
            ==> without_markdown(summarize, text) == after,
        leaves(r"!\[[^\]]*\]\([^)]+\)"@, ""@, text)
            && leaves(r"\[([^\]]+)\]\([^)]+\)"@, "$1"@, text)
            && leaves(r"https?://[^\s)]+"@, ""@, text)
            && leaves(r"(?m)^\s*\|.*?\|\s*$"@, ""@, text)
            && leaves(r"(?m)^\s*#{1,6}\s+"@, ""@, text)
            && leaves(r"(?m)^\s*[-*+]\s+"@, ""@, text)
            && leaves(r"(?m)^\s*\d+\.\s+"@, ""@, text)
            && leaves(r"<[a-zA-Z/!][^>]*>"@, ""@, text)
            && after == rewritten(r"`([^`]+)`"@, "$1"@, text)
            ==> without_markdown(summarize, text) == after,
{
}

/// A code block gives way to a mention of it, or to a space where none is wanted, and the other
/// rules see the text without it.
pub proof fn law_a_code_block_gives_way(summarize: bool, text: Seq<char>, after: Seq<char>)
    requires
        contains_text(text, "```"@),
        after == rewritten(
            r"(?s)```[a-zA-Z0-9_-]*\n?.*?```"@,
            if summarize {
                " [code block omitted] "@
            } else {
                " "@
            },
            text,
        ),
        leaves(r"!\[[^\]]*\]\([^)]+\)"@, ""@, after),
        leaves(r"\[([^\]]+)\]\([^)]+\)"@, "$1"@, after),
        leaves(r"https?://[^\s)]+"@, ""@, after),
        leaves(r"(?m)^\s*\|.*?\|\s*$"@, ""@, after),
        leaves(r"(?m)^\s*#{1,6}\s+"@, ""@, after),
        leaves(r"(?m)^\s*[-*+]\s+"@, ""@, after),
        leaves(r"(?m)^\s*\d+\.\s+"@, ""@, after),
        leaves(r"<[a-zA-Z/!][^>]*>"@, ""@, after),
        leaves(r"`([^`]+)`"@, "$1"@, after),
    ensures
        without_markdown(summarize, text) == after,
{
}

/// Every rule for white space has its say, each where the others have nothing to do: a run of spaces
/// and tabs becomes one space, a line of white space is emptied, and of three line feeds and more
/// two are left. What stands around the text goes.
pub proof fn law_every_spacing_rule_has_its_say(text: Seq<char>, after: Seq<char>)
    ensures
        after == rewritten(r"[ \t]+"@, " "@, text) && leaves(r"(?m)^\s+$"@, ""@, after) && leaves(
            r"\n{3,}"@,
            "\n\n"@,
            after,
        ) ==> tidied(text) == trimmed(after),
        leaves(r"[ \t]+"@, " "@, text) && after == rewritten(r"(?m)^\s+$"@, ""@, text) && leaves(
            r"\n{3,}"@,
            "\n\n"@,
            after,
        ) ==> tidied(text) == trimmed(after),
        leaves(r"[ \t]+"@, " "@, text) && leaves(r"(?m)^\s+$"@, ""@, text) && after == rewritten(
            r"\n{3,}"@,
            "\n\n"@,
            text,
        ) ==> tidied(text) == trimmed(after),
{
}

/// The symbols that diagrams are drawn with: lines, corners, crossings, arrow heads, squares,
/// circles and diamonds. Text is made of other characters.
pub proof fn law_lines_and_arrow_heads_are_symbols(c: char)
    ensures
        diagram_symbol(c) <==> {
            ||| c == '─' || c == '│' || c == '┌' || c == '┐' || c == '└' || c == '┘'
            ||| c == '├' || c == '┤' || c == '┬' || c == '┴' || c == '┼'
            ||| '\u{2550}' <= c <= '\u{256c}'
            ||| c == '▲' || c == '▼' || c == '►' || c == '◄' || c == '▶' || c == '◀'
            ||| c == '■' || c == '□' || c == '●' || c == '○' || c == '◆' || c == '◇'
        },
        c <= '\u{24ff}' || c >= '\u{2600}' ==> !diagram_symbol(c),
{
}

/// Stripping symbols takes nothing else: a text without symbols is kept, and a symbol in a text
/// goes while what is around it stays in order.
pub proof fn law_only_symbols_are_stripped(a: Seq<char>, c: char, b: Seq<char>)
    requires
        forall|i: int| 0 <= i < a.len() ==> !diagram_symbol(#[trigger] a[i]),
        forall|i: int| 0 <= i < b.len() ==> !diagram_symbol(#[trigger] b[i]),
    ensures
        without_symbols(a) == a,
        without_symbols(a + seq![c] + b) == (if diagram_symbol(c) {
            a + b
        } else {
            a + seq![c] + b
        }),
{
    let keep = |c: char| !diagram_symbol(c);
    lemma_all_kept(a);
    lemma_all_kept(b);
    Seq::filter_distributes_over_add(a + seq![c], b, keep);
    Seq::filter_distributes_over_add(a, seq![c], keep);
    assert(seq![c].filter(keep) == (if diagram_symbol(c) {
        Seq::<char>::empty()
    } else {
        seq![c]
    })) by {
        reveal(Seq::filter);
        assert(seq![c].drop_last() =~= Seq::<char>::empty());
        assert(seq![c].drop_last().filter(keep) =~= Seq::<char>::empty());
        assert(Seq::<char>::empty().push(c) =~= seq![c]);
    }
    assert(a + Seq::<char>::empty() =~= a);
}

proof fn lemma_all_kept(s: Seq<char>)
    requires
        forall|i: int| 0 <= i < s.len() ==> !diagram_symbol(#[trigger] s[i]),
    ensures
        without_symbols(s) == s,
    decreases s.len(),
{
    let keep = |c: char| !diagram_symbol(c);
    reveal(Seq::filter);
    if s.len() > 0 {
        lemma_all_kept(s.drop_last());
        assert(s.drop_last().push(s.last()) =~= s);
        assert(s.filter(keep) =~= s);
    } else {
        assert(s.filter(keep) =~= s);
    }
}

/// Whether the text holds no character of which markers or operators are made.
pub open spec fn plain(s: Seq<char>) -> bool {
    forall|i: int|
        0 <= i < s.len() ==> {
            let c = #[trigger] s[i];
            &&& c != '*' && c != '_' && c != '~' && c != '=' && c != '!'
            &&& c != '<' && c != '>' && c != '&' && c != '|' && c != '-'
        }
}

/// An operator between spaces.
pub open spec fn operator(a: char, b: char) -> Seq<char> {
    seq![' ', a, b, ' ']
}

proof fn lemma_no_operator(s: Seq<char>, a: char, b: char, to: Seq<char>)
    requires
        forall|i: int| 0 <= i && i + 1 < s.len() ==> !(#[trigger] s[i] == a && s[i + 1] == b),
    ensures
        replaced(s, operator(a, b), to) == s,
{
    assert forall|i: int| !occurs_at(s, operator(a, b), i) by {
        if occurs_at(s, operator(a, b), i) {
            let t = s.subrange(i, i + 4);
            assert(t[1] == a && t[2] == b);
            assert(s[i + 1] == a && s[i + 2] == b);
        }
    }
    law_what_does_not_occur_is_not_replaced(s, operator(a, b), to);
}

proof fn lemma_operator(
    before: Seq<char>,
    after: Seq<char>,
    a: char,
    b: char,
    c: char,
    d: char,
    word: Seq<char>,
    to: Seq<char>,
)
    requires
        plain(before),
        plain(after),
        plain(word),
        !plain(seq![a]),
        !plain(seq![b]),
        !plain(seq![c]),
        !plain(seq![d]),
    ensures
        (a, b) == (c, d) ==> replaced(before + operator(a, b) + after, operator(c, d), to) == before
            + to + after,
        (a, b) != (c, d) ==> replaced(before + operator(a, b) + after, operator(c, d), to) == before
            + operator(a, b) + after,
        replaced(before + word + after, operator(c, d), to) == before + word + after,
{
    let s = before + operator(a, b) + after;
    let n = before.len() as int;
    assert(!plain(seq![c]) && !plain(seq![d]) && !plain(seq![a]) && !plain(seq![b]));
    assert(seq![a][0] == a && seq![b][0] == b && seq![c][0] == c && seq![d][0] == d);
    assert(s[n] == ' ' && s[n + 1] == a && s[n + 2] == b && s[n + 3] == ' ');
    assert forall|i: int|
        0 <= i && i + 1 < s.len() && #[trigger] s[i] == c && s[i + 1] == d implies i == n + 1 by {
        if i < n {
            assert(s[i] == before[i]);
        } else if i >= n + 4 {
            assert(s[i] == after[i - n - 4]);
        }
    }
    if (a, b) == (c, d) {
        assert forall|i: int| 0 <= i < n implies !#[trigger] occurs_at(s, operator(c, d), i) by {
            if occurs_at(s, operator(c, d), i) {
                let t = s.subrange(i, i + 4);
                assert(t[1] == c && t[2] == d);
                assert(s[i + 1] == c && s[i + 2] == d);
            }
        }
        law_the_first_occurrence_is_replaced(before, operator(c, d), to, after);
        assert forall|i: int| 0 <= i && i + 1 < after.len() implies !(#[trigger] after[i] == c
            && after[i + 1] == d) by {}
        lemma_no_operator(after, c, d, to);
    } else {
        lemma_no_operator(s, c, d, to);
    }
    let r = before + word + after;
    assert forall|i: int| 0 <= i && i + 1 < r.len() implies !(#[trigger] r[i] == c && r[i + 1]
        == d) by {
        if i < n {
            assert(r[i] == before[i]);
        } else if i < n + word.len() {
            assert(r[i] == word[i - n]);
        } else {
            assert(r[i] == after[i - n - word.len()]);
        }
    }
    lemma_no_operator(r, c, d, to);
}

proof fn lemma_no_pair(s: Seq<char>, marker: char)
    requires
        forall|i: int| 0 <= i < s.len() ==> #[trigger] s[i] != marker,
    ensures
        replaced(s, seq![marker, marker], ""@) == s,
        unmarked(s, marker, 0) == s,
{
    let m = seq![marker, marker];
    assert forall|i: int| !occurs_at(s, m, i) by {
        if occurs_at(s, m, i) {
            assert(s.subrange(i, i + 2)[0] == marker);
            assert(s[i] == marker);
        }
    }
    law_what_does_not_occur_is_not_replaced(s, m, ""@);
    law_other_markers_are_kept(s, marker, 0);
    assert(s.skip(0) =~= s);
}

/// Where a text holds none of the markers, only operators are spelled out.
proof fn lemma_markers_done(s: Seq<char>)
    requires
        forall|i: int|
            0 <= i < s.len() ==> {
                let c = #[trigger] s[i];
                c != '*' && c != '_' && c != '~'
            },
    ensures
        replaced(s, "**"@, ""@) == s,
        replaced(s, "__"@, ""@) == s,
        replaced(s, "~~"@, ""@) == s,
        unmarked(s, '*', 0) == s,
        unmarked(s, '_', 0) == s,
{
    reveal_strlit("**");
    reveal_strlit("__");
    reveal_strlit("~~");
    assert("**"@ =~= seq!['*', '*']);
    assert("__"@ =~= seq!['_', '_']);
    assert("~~"@ =~= seq!['~', '~']);
    lemma_no_pair(s, '*');
    lemma_no_pair(s, '_');
    lemma_no_pair(s, '~');
}

proof fn lemma_operators()
    ensures
        " != "@ == operator('!', '='),
        " == "@ == operator('=', '='),
        " >= "@ == operator('>', '='),
        " <= "@ == operator('<', '='),
        " && "@ == operator('&', '&'),
        " || "@ == operator('|', '|'),
        " -> "@ == operator('-', '>'),
        " => "@ == operator('=', '>'),
{
    reveal_strlit(" != ");
    reveal_strlit(" == ");
    reveal_strlit(" >= ");
    reveal_strlit(" <= ");
    reveal_strlit(" && ");
    reveal_strlit(" || ");
    reveal_strlit(" -> ");
    reveal_strlit(" => ");
    assert(" != "@ =~= operator('!', '='));
    assert(" == "@ =~= operator('=', '='));
    assert(" >= "@ =~= operator('>', '='));
    assert(" <= "@ =~= operator('<', '='));
    assert(" && "@ =~= operator('&', '&'));
    assert(" || "@ =~= operator('|', '|'));
    assert(" -> "@ =~= operator('-', '>'));
    assert(" => "@ =~= operator('=', '>'));
}

proof fn lemma_not_plain(c: char)
    requires
        c == '=' || c == '!' || c == '<' || c == '>' || c == '&' || c == '|' || c == '-',
    ensures
        !plain(seq![c]),
{
    assert(seq![c][0] == c);
}

proof fn lemma_spelled_out(
    before: Seq<char>,
    after: Seq<char>,
    a: char,
    b: char,
    word: Seq<char>,
    c: char,
    d: char,
    to: Seq<char>,
)
    requires
        plain(before),
        plain(after),
        plain(word),
        a == '=' || a == '!' || a == '<' || a == '>' || a == '&' || a == '|' || a == '-',
        b == '=' || b == '>' || b == '&' || b == '|',
        c == '=' || c == '!' || c == '<' || c == '>' || c == '&' || c == '|' || c == '-',
        d == '=' || d == '>' || d == '&' || d == '|',
    ensures
        (a, b) == (c, d) ==> replaced(before + operator(a, b) + after, operator(c, d), to) == before
            + to + after,
        (a, b) != (c, d) ==> replaced(before + operator(a, b) + after, operator(c, d), to) == before
            + operator(a, b) + after,
        replaced(before + word + after, operator(c, d), to) == before + word + after,
{
    lemma_not_plain(a);
    lemma_not_plain(b);
    lemma_not_plain(c);
    lemma_not_plain(d);
    lemma_operator(before, after, a, b, c, d, word, to);
}

/// An operator between spaces is spelled out, whatever plain text stands around it, and the text
/// is kept.
#[verifier::rlimit(40)]
#[verifier::spinoff_prover]
proof fn lemma_operator_is_spelled_out(
    before: Seq<char>,
    after: Seq<char>,
    a: char,
    b: char,
    word: Seq<char>,
)
    requires
        plain(before),
        plain(after),
        plain(word),
        ({
            ||| a == '!' && b == '=' && word == " does not equal "@
            ||| a == '=' && b == '=' && word == " equals "@
            ||| a == '>' && b == '=' && word == " is greater than or equal to "@
            ||| a == '<' && b == '=' && word == " is less than or equal to "@
            ||| a == '&' && b == '&' && word == " and "@
            ||| a == '|' && b == '|' && word == " or "@
            ||| a == '-' && b == '>' && word == " returns "@
            ||| a == '=' && b == '>' && word == " maps to "@
        }),
    ensures
        phonetized(before + operator(a, b) + after) == before + word + after,
{
    let s = before + operator(a, b) + after;
    assert forall|i: int| 0 <= i < s.len() implies {
        let c = #[trigger] s[i];
        c != '*' && c != '_' && c != '~'
    } by {
        let n = before.len() as int;
        if i < n {
            assert(s[i] == before[i]);
        } else if i < n + 4 {
            assert(s[i] == operator(a, b)[i - n]);
        } else {
            assert(s[i] == after[i - n - 4]);
        }
    }
    lemma_markers_done(s);
    lemma_operators();
    lemma_spelled_out(before, after, a, b, word, '!', '=', " does not equal "@);
    lemma_spelled_out(before, after, a, b, word, '=', '=', " equals "@);
    lemma_spelled_out(before, after, a, b, word, '>', '=', " is greater than or equal to "@);
    lemma_spelled_out(before, after, a, b, word, '<', '=', " is less than or equal to "@);
    lemma_spelled_out(before, after, a, b, word, '&', '&', " and "@);
    lemma_spelled_out(before, after, a, b, word, '|', '|', " or "@);
    lemma_spelled_out(before, after, a, b, word, '-', '>', " returns "@);
    lemma_spelled_out(before, after, a, b, word, '=', '>', " maps to "@);
}

/// Each operator between spaces is spelled out, whatever plain text stands around it, and that
/// text is kept.
pub proof fn law_operators_are_spelled_out(before: Seq<char>, after: Seq<char>)
    requires
        plain(before),
        plain(after),
    ensures
        phonetized(before + " != "@ + after) == before + " does not equal "@ + after,
        phonetized(before + " == "@ + after) == before + " equals "@ + after,
        phonetized(before + " >= "@ + after) == before + " is greater than or equal to "@ + after,
        phonetized(before + " <= "@ + after) == before + " is less than or equal to "@ + after,
        phonetized(before + " && "@ + after) == before + " and "@ + after,
        phonetized(before + " || "@ + after) == before + " or "@ + after,
        phonetized(before + " -> "@ + after) == before + " returns "@ + after,
        phonetized(before + " => "@ + after) == before + " maps to "@ + after,
{
    reveal_strlit(" does not equal ");
    reveal_strlit(" equals ");
    reveal_strlit(" is greater than or equal to ");
    reveal_strlit(" is less than or equal to ");
    reveal_strlit(" and ");
    reveal_strlit(" or ");
    reveal_strlit(" returns ");
    reveal_strlit(" maps to ");
    lemma_operators();
    lemma_operator_is_spelled_out(before, after, '!', '=', " does not equal "@);
    lemma_operator_is_spelled_out(before, after, '=', '=', " equals "@);
    lemma_operator_is_spelled_out(before, after, '>', '=', " is greater than or equal to "@);
    lemma_operator_is_spelled_out(before, after, '<', '=', " is less than or equal to "@);
    lemma_operator_is_spelled_out(before, after, '&', '&', " and "@);
    lemma_operator_is_spelled_out(before, after, '|', '|', " or "@);
    lemma_operator_is_spelled_out(before, after, '-', '>', " returns "@);
    lemma_operator_is_spelled_out(before, after, '=', '>', " maps to "@);
}

/// Plain text is spoken as it is written.
pub proof fn law_plain_text_is_kept(s: Seq<char>)
    requires
        plain(s),
    ensures
        phonetized(s) == s,
{
    lemma_markers_done(s);
    lemma_operators();
    lemma_no_operator(s, '!', '=', " does not equal "@);
    lemma_no_operator(s, '=', '=', " equals "@);
    lemma_no_operator(s, '>', '=', " is greater than or equal to "@);
    lemma_no_operator(s, '<', '=', " is less than or equal to "@);
    lemma_no_operator(s, '&', '&', " and "@);
    lemma_no_operator(s, '|', '|', " or "@);
    lemma_no_operator(s, '-', '>', " returns "@);
    lemma_no_operator(s, '=', '>', " maps to "@);
}

/// Bold and struck text is spoken without its markers.
pub proof fn law_bold_and_struck_text_is_kept(
    before: Seq<char>,
    phrase: Seq<char>,
    after: Seq<char>,
)
    requires
        plain(before),
        plain(phrase),
        plain(after),
    ensures
        phonetized(before + "**"@ + phrase + "**"@ + after) == before + phrase + after,
        phonetized(before + "__"@ + phrase + "__"@ + after) == before + phrase + after,
        phonetized(before + "~~"@ + phrase + "~~"@ + after) == before + phrase + after,
{
    reveal_strlit("**");
    reveal_strlit("__");
    reveal_strlit("~~");
    assert("**"@ =~= seq!['*', '*']);
    assert("__"@ =~= seq!['_', '_']);
    assert("~~"@ =~= seq!['~', '~']);
    let r = before + phrase + after;
    assert(plain(r)) by {
        assert forall|i: int| 0 <= i < r.len() implies {
            let c = #[trigger] r[i];
            &&& c != '*' && c != '_' && c != '~' && c != '=' && c != '!'
            &&& c != '<' && c != '>' && c != '&' && c != '|' && c != '-'
        } by {
            if i < before.len() {
                assert(r[i] == before[i]);
            } else if i < before.len() + phrase.len() {
                assert(r[i] == phrase[i - before.len()]);
            } else {
                assert(r[i] == after[i - before.len() - phrase.len()]);
            }
        }
    }
    law_plain_text_is_kept(r);
    lemma_markers_done(r);
    lemma_pair_removed(before, phrase, after, '*');
    lemma_pair_removed(before, phrase, after, '_');
    lemma_pair_removed(before, phrase, after, '~');
    lemma_other_pair_kept(before, phrase, after, '_', '*');
    lemma_other_pair_kept(before, phrase, after, '~', '*');
    lemma_other_pair_kept(before, phrase, after, '~', '_');
}

/// The text with a phrase between two pairs of the marker.
spec fn paired(before: Seq<char>, phrase: Seq<char>, after: Seq<char>, marker: char) -> Seq<char> {
    before + seq![marker, marker] + phrase + seq![marker, marker] + after
}

proof fn lemma_pair_removed(before: Seq<char>, phrase: Seq<char>, after: Seq<char>, marker: char)
    requires
        plain(before),
        plain(phrase),
        plain(after),
        marker == '*' || marker == '_' || marker == '~',
    ensures
        replaced(paired(before, phrase, after, marker), seq![marker, marker], ""@) == before
            + phrase + after,
{
    reveal_strlit("");
    let m = seq![marker, marker];
    let s = paired(before, phrase, after, marker);
    let rest = phrase + m + after;
    assert(s =~= before + m + rest);
    lemma_not_before(before, m, rest, marker);
    law_the_first_occurrence_is_replaced(before, m, ""@, rest);
    lemma_not_before(phrase, m, after, marker);
    law_the_first_occurrence_is_replaced(phrase, m, ""@, after);
    lemma_no_pair(after, marker);
    assert(phrase + ""@ + after =~= phrase + after);
    assert(before + ""@ + (phrase + after) =~= before + phrase + after);
}

proof fn lemma_not_before(before: Seq<char>, m: Seq<char>, rest: Seq<char>, marker: char)
    requires
        plain(before),
        m == seq![marker, marker],
        marker == '*' || marker == '_' || marker == '~',
    ensures
        forall|i: int| 0 <= i < before.len() ==> !#[trigger] occurs_at(before + m + rest, m, i),
{
    let s = before + m + rest;
    assert forall|i: int| 0 <= i < before.len() implies !#[trigger] occurs_at(s, m, i) by {
        if occurs_at(s, m, i) {
            assert(s.subrange(i, i + 2)[0] == marker);
            assert(s[i] == before[i]);
        }
    }
}

proof fn lemma_other_pair_kept(
    before: Seq<char>,
    phrase: Seq<char>,
    after: Seq<char>,
    marker: char,
    other: char,
)
    requires
        plain(before),
        plain(phrase),
        plain(after),
        marker == '*' || marker == '_' || marker == '~',
        other == '*' || other == '_' || other == '~',
        marker != other,
    ensures
        replaced(paired(before, phrase, after, marker), seq![other, other], ""@) == paired(
            before,
            phrase,
            after,
            marker,
        ),
{
    let s = paired(before, phrase, after, marker);
    let n = before.len() as int;
    let p = phrase.len() as int;
    assert forall|i: int| 0 <= i < s.len() implies #[trigger] s[i] != other by {
        if i < n {
            assert(s[i] == before[i]);
        } else if n + 2 <= i < n + 2 + p {
            assert(s[i] == phrase[i - n - 2]);
        } else if i >= n + p + 4 {
            assert(s[i] == after[i - n - p - 4]);
        }
    }
    lemma_no_pair(s, other);
}

/// Emphasized text is spoken without its markers, where no word is next to them.
pub proof fn law_emphasized_text_is_kept(
    before: Seq<char>,
    phrase: Seq<char>,
    after: Seq<char>,
    marker: char,
)
    requires
        marker == '*' || marker == '_',
        plain(before),
        plain(phrase),
        plain(after),
        !phrase.contains('\n'),
        phrase.len() > 0,
        !white_space(phrase[0]),
        !white_space(phrase.last()),
        before.len() > 0 ==> !word_char(before.last()),
        after.len() > 0 ==> !word_char(after[0]),
    ensures
        phonetized(before + seq![marker] + phrase + seq![marker] + after) == before + phrase
            + after,
{
    reveal_strlit("**");
    reveal_strlit("__");
    reveal_strlit("~~");
    assert("**"@ =~= seq!['*', '*']);
    assert("__"@ =~= seq!['_', '_']);
    assert("~~"@ =~= seq!['~', '~']);
    let s = before + seq![marker] + phrase + seq![marker] + after;
    let r = before + phrase + after;
    let n = before.len() as int;
    let p = phrase.len() as int;
    assert forall|i: int| 0 <= i < s.len() && i != n && i != n + p + 1 implies {
        let c = #[trigger] s[i];
        &&& c != '*' && c != '_' && c != '~' && c != '=' && c != '!'
        &&& c != '<' && c != '>' && c != '&' && c != '|' && c != '-'
    } by {
        if i < n {
            assert(s[i] == before[i]);
        } else if i < n + p + 1 {
            assert(s[i] == phrase[i - n - 1]);
        } else {
            assert(s[i] == after[i - n - p - 2]);
        }
    }
    assert(plain(r)) by {
        assert forall|i: int| 0 <= i < r.len() implies {
            let c = #[trigger] r[i];
            &&& c != '*' && c != '_' && c != '~' && c != '=' && c != '!'
            &&& c != '<' && c != '>' && c != '&' && c != '|' && c != '-'
        } by {
            if i < n {
                assert(r[i] == before[i]);
            } else if i < n + p {
                assert(r[i] == phrase[i - n]);
            } else {
                assert(r[i] == after[i - n - p]);
            }
        }
    }
    assert forall|c: char| c == '*' || c == '_' || c == '~' implies replaced(
        s,
        #[trigger] seq![c, c],
        ""@,
    ) == s by {
        let m = seq![c, c];
        assert forall|i: int| !occurs_at(s, m, i) by {
            if occurs_at(s, m, i) {
                assert(s.subrange(i, i + 2)[0] == c && s.subrange(i, i + 2)[1] == c);
                assert(s[i] == c && s[i + 1] == c);
            }
        }
        law_what_does_not_occur_is_not_replaced(s, m, ""@);
    }
    assert(!before.contains(marker) && !phrase.contains(marker) && !after.contains(marker));
    law_an_emphasized_phrase_is_kept(before, phrase, after, marker);
    law_plain_text_is_kept(r);
    lemma_markers_done(r);
    if marker == '_' {
        lemma_no_pair(s, '*');
    }
}

/// Spelling out operators brings no character into the text but ASCII ones.
pub proof fn law_phonetics_bring_in_only_ascii(text: Seq<char>, c: char)
    requires
        phonetized(text).contains(c),
    ensures
        text.contains(c) || c <= '\u{7f}',
{
    reveal_strlit("");
    reveal_strlit(" does not equal ");
    reveal_strlit(" equals ");
    reveal_strlit(" is greater than or equal to ");
    reveal_strlit(" is less than or equal to ");
    reveal_strlit(" and ");
    reveal_strlit(" or ");
    reveal_strlit(" returns ");
    reveal_strlit(" maps to ");
    let t1 = replaced(text, "**"@, ""@);
    let t2 = replaced(t1, "__"@, ""@);
    let t3 = replaced(t2, "~~"@, ""@);
    let plain = unmarked(unmarked(t3, '*', 0), '_', 0);
    let t4 = replaced(plain, " != "@, " does not equal "@);
    let t5 = replaced(t4, " == "@, " equals "@);
    let t6 = replaced(t5, " >= "@, " is greater than or equal to "@);
    let t7 = replaced(t6, " <= "@, " is less than or equal to "@);
    let t8 = replaced(t7, " && "@, " and "@);
    let t9 = replaced(t8, " || "@, " or "@);
    let t10 = replaced(t9, " -> "@, " returns "@);
    if phonetized(text).contains(c) {
        lemma_replaced_chars(t10, " => "@, " maps to "@, c);
    }
    if t10.contains(c) {
        lemma_replaced_chars(t9, " -> "@, " returns "@, c);
    }
    if t9.contains(c) {
        lemma_replaced_chars(t8, " || "@, " or "@, c);
    }
    if t8.contains(c) {
        lemma_replaced_chars(t7, " && "@, " and "@, c);
    }
    if t7.contains(c) {
        lemma_replaced_chars(t6, " <= "@, " is less than or equal to "@, c);
    }
    if t6.contains(c) {
        lemma_replaced_chars(t5, " >= "@, " is greater than or equal to "@, c);
    }
    if t5.contains(c) {
        lemma_replaced_chars(t4, " == "@, " equals "@, c);
    }
    if t4.contains(c) {
        lemma_replaced_chars(plain, " != "@, " does not equal "@, c);
    }
    if plain.contains(c) {
        law_emphasis_brings_nothing_in(unmarked(t3, '*', 0), '_', 0, c);
    }
    if unmarked(t3, '*', 0).contains(c) {
        law_emphasis_brings_nothing_in(t3, '*', 0, c);
    }
    if t3.contains(c) {
        lemma_replaced_chars(t2, "~~"@, ""@, c);
    }
    if t2.contains(c) {
        lemma_replaced_chars(t1, "__"@, ""@, c);
    }
    if t1.contains(c) {
        lemma_replaced_chars(text, "**"@, ""@, c);
    }
}

impl TextSanitizer {
    #[must_use]
    pub fn new(summarize_code_blocks: bool) -> (r: Self)
        ensures
            r.summarize_code_blocks == summarize_code_blocks,
    {
        TextSanitizer { summarize_code_blocks, rules: RuleSet::new() }
    }

    /// Sanitizes raw LLM output into clean human-pronounceable text.
    #[must_use]
    pub fn clean(&self, text: &str) -> (r: String)
        ensures
            r@ == cleaned(self.summarize_code_blocks, text@),
            is_trimmed(r@),
            forall|i: int| 0 <= i < r@.len() ==> !diagram_symbol(#[trigger] r@[i]),
    {
        if is_blank(text) {
            return String::new();
        }
        let plain = self.strip_markdown(text);
        let no_symbols = strip_diagram_symbols(plain.as_str());
        let spoken = normalize_code_phonetics(no_symbols.as_str());
        let tidy = self.tidy(spoken.as_str());
        let r = scrub(tidy.as_str());
        proof {
            lemma_scrubbed(tidy@);
            assert forall|i: int| 0 <= i < r@.len() implies !diagram_symbol(#[trigger] r@[i]) by {
                assert(tidy@.contains(r@[i]));
                let j = choose|j: int| 0 <= j < tidy@.len() && tidy@[j] == r@[i];
                assert(spoken@.contains(tidy@[j]) || tidy@[j] == ' ' || tidy@[j] == '\n');
                if spoken@.contains(r@[i]) {
                    law_phonetics_bring_in_only_ascii(no_symbols@, r@[i]);
                    if no_symbols@.contains(r@[i]) {
                        law_no_symbol_is_left(plain@, r@[i]);
                    }
                }
            }
        }
        r
    }

    /// Takes the markdown of the text apart.
    pub fn strip_markdown(&self, text: &str) -> (r: String)
        ensures
            r@ == without_markdown(self.summarize_code_blocks, text@),
    {
        proof {
            use_type_invariant(&self.rules);
        }
        let no_code_blocks = if !has_text(text, FENCE) {
            text.to_owned()
        } else if self.summarize_code_blocks {
            self.rules.code_block.apply(text, CODE_BLOCK_SUMMARY)
        } else {
            self.rules.code_block.apply(text, " ")
        };
        let no_images = self.rules.image.apply(no_code_blocks.as_str(), "");
        let no_links = self.rules.link.apply(no_images.as_str(), "$1");
        let no_urls = self.rules.url.apply(no_links.as_str(), "");
        let no_tables = self.rules.table_row.apply(no_urls.as_str(), "");
        let no_headings = self.rules.heading.apply(no_tables.as_str(), "");
        let no_bullets = self.rules.bullet.apply(no_headings.as_str(), "");
        let no_numbers = self.rules.numbered.apply(no_bullets.as_str(), "");
        let no_html = self.rules.html_tag.apply(no_numbers.as_str(), "");
        self.rules.inline_code.apply(no_html.as_str(), "$1")
    }

    /// Normalizes the white space of the text.
    pub fn tidy(&self, text: &str) -> (r: String)
        ensures
            r@ == tidied(text@),
            is_trimmed(r@),
            forall|i: int|
                0 <= i < r@.len() ==> text@.contains(#[trigger] r@[i]) || r@[i] == ' ' || r@[i]
                    == '\n',
    {
        proof {
            use_type_invariant(&self.rules);
            reveal_strlit(" ");
            reveal_strlit("");
            reveal_strlit("\n\n");
        }
        let single_spaced = self.rules.spaces.apply(text, " ");
        let emptied_lines = self.rules.blank_line.apply(single_spaced.as_str(), "");
        let normalized = self.rules.newlines.apply(emptied_lines.as_str(), "\n\n");
        let r = trim(normalized.as_str());
        proof {
            let (a, b) = lemma_trim(normalized@);
            assert forall|i: int| 0 <= i < r@.len() implies text@.contains(#[trigger] r@[i])
                || r@[i] == ' ' || r@[i] == '\n' by {
                let c = r@[i];
                assert(normalized@[a + i] == c);
                if c != '\n' {
                    assert(emptied_lines@.contains(c));
                    let j = choose|j: int| 0 <= j < emptied_lines@.len() && emptied_lines@[j] == c;
                    assert(single_spaced@.contains(emptied_lines@[j]));
                    let k = choose|k: int| 0 <= k < single_spaced@.len() && single_spaced@[k] == c;
                    assert(text@.contains(single_spaced@[k]) || " "@.contains(c));
                }
            }
        }
        r
    }
}

impl Default for TextSanitizer {
    fn default() -> (r: Self)
        ensures
            !r.summarize_code_blocks,
    {
        TextSanitizer::new(false)
    }
}

impl Clone for TextSanitizer {
    fn clone(&self) -> (r: Self)
        ensures
            r.summarize_code_blocks == self.summarize_code_blocks,
    {
        TextSanitizer::new(self.summarize_code_blocks)
    }
}

}
