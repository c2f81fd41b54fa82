//! The last look at a text that is about to be spoken: whatever markup, web address or stray white
//! space the steps before have left or brought together is taken out, until none is found.
use crate::text::chars::{
    chars_of, is_trimmed, is_white_space, occurs_at, stands_at, string_of, white_space,
};
use vstd::prelude::*;

verus! {

/// Where the run of characters from `i` on that can belong to a web address ends.
pub open spec fn address_run(s: Seq<char>, i: int) -> int
    decreases s.len() - i,
{
    if 0 <= i < s.len() && !white_space(s[i]) && s[i] != ')' {
        address_run(s, i + 1)
    } else {
        i
    }
}

/// Where the run of `c` from `i` on ends.
pub open spec fn same_run(s: Seq<char>, c: char, i: int) -> int
    decreases s.len() - i,
{
    if 0 <= i < s.len() && s[i] == c {
        same_run(s, c, i + 1)
    } else {
        i
    }
}

/// Where the run of digits from `i` on ends.
pub open spec fn digit_run(s: Seq<char>, i: int) -> int
    decreases s.len() - i,
{
    if 0 <= i < s.len() && '0' <= s[i] <= '9' {
        digit_run(s, i + 1)
    } else {
        i
    }
}

/// The first position from `i` on that holds `c`, or the end of the text.
pub open spec fn char_from(s: Seq<char>, c: char, i: int) -> int
    decreases s.len() - i,
{
    if 0 <= i < s.len() && s[i] != c {
        char_from(s, c, i + 1)
    } else {
        i
    }
}

/// The end of what stands between `from` and `to`, without the white space in front of `to`.
pub open spec fn solid_end(s: Seq<char>, from: int, to: int) -> int
    decreases to - from,
{
    if from < to && white_space(s[to - 1]) {
        solid_end(s, from, to - 1)
    } else {
        to
    }
}

/// Whether nothing but white space stands between the start of a line and position `k`.
pub open spec fn line_start(s: Seq<char>, k: int) -> bool
    decreases k,
{
    k <= 0 || s[k - 1] == '\n' || (white_space(s[k - 1]) && line_start(s, k - 1))
}

/// The end of the web address at `i`.
pub open spec fn address_end(s: Seq<char>, i: int) -> Option<int> {
    if occurs_at(s, "https://"@, i) && address_run(s, i + 8) > i + 8 {
        Some(address_run(s, i + 8))
    } else if occurs_at(s, "http://"@, i) && address_run(s, i + 7) > i + 7 {
        Some(address_run(s, i + 7))
    } else {
        None
    }
}

/// The end of the image at `i`.
pub open spec fn image_end(s: Seq<char>, i: int) -> Option<int> {
    let label = char_from(s, ']', i + 2);
    let target = char_from(s, ')', label + 2);
    if s[i] == '!' && i + 1 < s.len() && s[i + 1] == '[' && label + 2 < target < s.len() && s[label
        + 1] == '(' {
        Some(target + 1)
    } else {
        None
    }
}

/// The end of the HTML tag at `i`.
pub open spec fn tag_end(s: Seq<char>, i: int) -> Option<int> {
    let close = char_from(s, '>', i + 2);
    if s[i] == '<' && close < s.len() && ('a' <= s[i + 1] <= 'z' || 'A' <= s[i + 1] <= 'Z' || s[i
        + 1] == '/' || s[i + 1] == '!') {
        Some(close + 1)
    } else {
        None
    }
}

/// The end of the marker of a heading at `i`.
pub open spec fn heading_end(s: Seq<char>, i: int) -> Option<int> {
    let end = same_run(s, '#', i);
    if 1 <= end - i <= 6 && end < s.len() && white_space(s[end]) && line_start(s, i) {
        Some(end + 1)
    } else {
        None
    }
}

/// The end of the marker of a list item at `i`.
pub open spec fn bullet_end(s: Seq<char>, i: int) -> Option<int> {
    if (s[i] == '-' || s[i] == '*' || s[i] == '+') && i + 1 < s.len() && white_space(s[i + 1])
        && line_start(s, i) {
        Some(i + 2)
    } else {
        None
    }
}

/// The end of the number of a list item at `i`.
pub open spec fn number_end(s: Seq<char>, i: int) -> Option<int> {
    let end = digit_run(s, i);
    if i < end && end + 1 < s.len() && s[end] == '.' && white_space(s[end + 1]) && line_start(
        s,
        i,
    ) {
        Some(end + 2)
    } else {
        None
    }
}

/// The end of the row of a table at `i`.
pub open spec fn row_end(s: Seq<char>, i: int) -> Option<int> {
    let end = solid_end(s, i + 1, char_from(s, '\n', i));
    if s[i] == '|' && i + 1 < end && s[end - 1] == '|' && line_start(s, i) {
        Some(end)
    } else {
        None
    }
}

/// The end of white space at `i` that the text does not need: one of two spaces, one of three line
/// feeds, or what the text begins with or ends in.
pub open spec fn loose_end(s: Seq<char>, i: int) -> Option<int> {
    if s[i] == ' ' && i + 1 < s.len() && s[i + 1] == ' ' {
        Some(i + 1)
    } else if s[i] == '\n' && i + 2 < s.len() && s[i + 1] == '\n' && s[i + 2] == '\n' {
        Some(i + 1)
    } else if white_space(s[i]) && (i == 0 || i == s.len() - 1) {
        Some(i + 1)
    } else {
        None
    }
}

/// The end of what is not to be spoken at `i`.
pub open spec fn mark_end(s: Seq<char>, i: int) -> Option<int> {
    if address_end(s, i) is Some {
        address_end(s, i)
    } else if image_end(s, i) is Some {
        image_end(s, i)
    } else if tag_end(s, i) is Some {
        tag_end(s, i)
    } else if heading_end(s, i) is Some {
        heading_end(s, i)
    } else if bullet_end(s, i) is Some {
        bullet_end(s, i)
    } else if number_end(s, i) is Some {
        number_end(s, i)
    } else if row_end(s, i) is Some {
        row_end(s, i)
    } else {
        loose_end(s, i)
    }
}

/// The first mark from `i` on: where it begins and where it ends.
pub open spec fn first_mark(s: Seq<char>, i: int) -> Option<(int, int)>
    decreases s.len() - i,
{
    if i < 0 || i >= s.len() {
        None
    } else {
        match mark_end(s, i) {
            Some(end) => Some((i, end)),
            None => first_mark(s, i + 1),
        }
    }
}

/// `s` with one mark after the other taken out of it.
pub open spec fn scrubbed(s: Seq<char>) -> Seq<char>
    decreases s.len(),
{
    match first_mark(s, 0) {
        Some((from, to)) if 0 <= from < to <= s.len() => scrubbed(s.take(from) + s.skip(to)),
        _ => s,
    }
}

proof fn lemma_address_run(s: Seq<char>, i: int)
    requires
        0 <= i <= s.len(),
    ensures
        i <= address_run(s, i) <= s.len(),
    decreases s.len() - i,
{
    if i < s.len() {
        lemma_address_run(s, i + 1);
    }
}

proof fn lemma_same_run(s: Seq<char>, c: char, i: int)
    requires
        0 <= i <= s.len(),
    ensures
        i <= same_run(s, c, i) <= s.len(),
        forall|k: int| i <= k < same_run(s, c, i) ==> #[trigger] s[k] == c,
        same_run(s, c, i) < s.len() ==> s[same_run(s, c, i)] != c,
    decreases s.len() - i,
{
    if i < s.len() {
        lemma_same_run(s, c, i + 1);
    }
}

proof fn lemma_digit_run(s: Seq<char>, i: int)
    requires
        0 <= i <= s.len(),
    ensures
        i <= digit_run(s, i) <= s.len(),
        forall|k: int| i <= k < digit_run(s, i) ==> '0' <= #[trigger] s[k] <= '9',
        digit_run(s, i) < s.len() ==> !('0' <= s[digit_run(s, i)] <= '9'),
    decreases s.len() - i,
{
    if i < s.len() {
        lemma_digit_run(s, i + 1);
    }
}

proof fn lemma_char_from(s: Seq<char>, c: char, i: int)
    requires
        0 <= i <= s.len(),
    ensures
        i <= char_from(s, c, i) <= s.len(),
        forall|k: int| i <= k < char_from(s, c, i) ==> #[trigger] s[k] != c,
        char_from(s, c, i) < s.len() ==> s[char_from(s, c, i)] == c,
    decreases s.len() - i,
{
    if i < s.len() {
        lemma_char_from(s, c, i + 1);
    }
}

proof fn lemma_solid_end(s: Seq<char>, from: int, to: int)
    requires
        0 <= from <= to <= s.len(),
    ensures
        from <= solid_end(s, from, to) <= to,
    decreases to - from,
{
    if from < to {
        lemma_solid_end(s, from, to - 1);
    }
}

/// A mark is not empty and ends within the text.
proof fn lemma_mark_end(s: Seq<char>, i: int)
    requires
        0 <= i < s.len(),
    ensures
        mark_end(s, i) matches Some(end) ==> i < end <= s.len(),
{
    reveal_strlit("https://");
    reveal_strlit("http://");
    if i + 8 <= s.len() {
        lemma_address_run(s, i + 8);
    }
    if i + 7 <= s.len() {
        lemma_address_run(s, i + 7);
    }
    lemma_same_run(s, '#', i);
    lemma_digit_run(s, i);
    lemma_char_from(s, '\n', i);
    if s[i] == '|' {
        lemma_solid_end(s, i + 1, char_from(s, '\n', i));
    }
    if i + 2 <= s.len() {
        lemma_char_from(s, ']', i + 2);
        let label = char_from(s, ']', i + 2);
        if label + 2 <= s.len() {
            lemma_char_from(s, ')', label + 2);
        }
        lemma_char_from(s, '>', i + 2);
    }
}

proof fn lemma_first_mark(s: Seq<char>, i: int)
    requires
        0 <= i,
    ensures
        match first_mark(s, i) {
            Some((from, to)) => i <= from < to <= s.len() && mark_end(s, from) == Some(to),
            None => forall|k: int| i <= k < s.len() ==> (#[trigger] mark_end(s, k)) is None,
        },
    decreases s.len() - i,
{
    if i < s.len() {
        lemma_mark_end(s, i);
        lemma_first_mark(s, i + 1);
    }
}

/// No mark is left in a scrubbed text, and nothing is in it that the text did not hold.
pub proof fn lemma_scrubbed(s: Seq<char>)
    ensures
        forall|k: int|
            0 <= k < scrubbed(s).len() ==> (#[trigger] mark_end(scrubbed(s), k)) is None,
        forall|k: int| 0 <= k < scrubbed(s).len() ==> s.contains(#[trigger] scrubbed(s)[k]),
    decreases s.len(),
{
    lemma_first_mark(s, 0);
    if let Some((from, to)) = first_mark(s, 0) {
        let t = s.take(from) + s.skip(to);
        lemma_scrubbed(t);
        assert forall|k: int| 0 <= k < scrubbed(s).len() implies s.contains(
            #[trigger] scrubbed(s)[k],
        ) by {
            let c = scrubbed(t)[k];
            assert(t.contains(c));
            let j = choose|j: int| 0 <= j < t.len() && t[j] == c;
            if j < from {
                assert(s[j] == c);
            } else {
                assert(s[j - from + to] == c);
            }
        }
    }
}

/// A text that no mark is found in is left as it is, so scrubbing it again changes nothing.
pub proof fn law_scrubbing_twice_is_scrubbing_once(s: Seq<char>)
    ensures
        scrubbed(scrubbed(s)) == scrubbed(s),
{
    lemma_scrubbed(s);
    lemma_first_mark(scrubbed(s), 0);
}

/// No web address is left in a scrubbed text: behind what one begins with comes white space, a
/// closing bracket or nothing.
pub proof fn law_no_address_is_left(s: Seq<char>, i: int)
    ensures
        ({
            let r = scrubbed(s);
            &&& 0 <= i && i + 7 < r.len() && r.subrange(i, i + 7) == "http://"@ ==> white_space(
                r[i + 7],
            ) || r[i + 7] == ')'
            &&& 0 <= i && i + 8 < r.len() && r.subrange(i, i + 8) == "https://"@ ==> white_space(
                r[i + 8],
            ) || r[i + 8] == ')'
        }),
{
    let r = scrubbed(s);
    reveal_strlit("https://");
    reveal_strlit("http://");
    lemma_scrubbed(s);
    if 0 <= i < r.len() {
        assert(mark_end(r, i) is None);
        if i + 8 < r.len() {
            lemma_address_run(r, i + 8);
            lemma_address_run(r, i + 9);
        }
        if i + 7 < r.len() {
            lemma_address_run(r, i + 7);
            lemma_address_run(r, i + 8);
        }
    }
}

/// No image is left in a scrubbed text.
pub proof fn law_no_image_is_left(s: Seq<char>, i: int, label: int, target: int)
    requires
        0 <= i,
        i + 2 <= label,
        label + 2 < target < scrubbed(s).len(),
        scrubbed(s)[i] == '!',
        scrubbed(s)[i + 1] == '[',
        forall|k: int| i + 2 <= k < label ==> #[trigger] scrubbed(s)[k] != ']',
        scrubbed(s)[label] == ']',
        scrubbed(s)[label + 1] == '(',
        forall|k: int| label + 2 <= k < target ==> #[trigger] scrubbed(s)[k] != ')',
    ensures
        scrubbed(s)[target] != ')',
{
    let r = scrubbed(s);
    lemma_scrubbed(s);
    assert(mark_end(r, i) is None);
    lemma_char_from(r, ']', i + 2);
    assert(char_from(r, ']', i + 2) == label);
    lemma_char_from(r, ')', label + 2);
    if r[target] == ')' {
        assert(char_from(r, ')', label + 2) == target);
    }
}

/// No HTML tag is left in a scrubbed text.
pub proof fn law_no_tag_is_left(s: Seq<char>, i: int, j: int)
    requires
        0 <= i,
        i + 2 <= j < scrubbed(s).len(),
        scrubbed(s)[i] == '<',
        ({
            let c = scrubbed(s)[i + 1];
            'a' <= c <= 'z' || 'A' <= c <= 'Z' || c == '/' || c == '!'
        }),
    ensures
        scrubbed(s)[j] != '>',
{
    let r = scrubbed(s);
    lemma_scrubbed(s);
    assert(mark_end(r, i) is None);
    lemma_char_from(r, '>', i + 2);
}

/// No line of a scrubbed text begins with the marker of a heading: with one to six hashes and white
/// space.
pub proof fn law_no_heading_marker_is_left(s: Seq<char>, i: int, n: int)
    requires
        0 <= i,
        1 <= n <= 6,
        i + n < scrubbed(s).len(),
        i == 0 || scrubbed(s)[i - 1] == '\n',
        forall|k: int| i <= k < i + n ==> #[trigger] scrubbed(s)[k] == '#',
    ensures
        !white_space(scrubbed(s)[i + n]),
{
    let r = scrubbed(s);
    lemma_scrubbed(s);
    assert(mark_end(r, i) is None);
    lemma_same_run(r, '#', i);
    if white_space(r[i + n]) {
        assert(same_run(r, '#', i) == i + n);
    }
}

/// No line of a scrubbed text begins with the marker of a list item, a dash, a star or a plus and
/// white space, nor with a number, a period and white space.
pub proof fn law_no_list_marker_is_left(s: Seq<char>, i: int, j: int)
    requires
        0 <= i < j,
        j + 1 < scrubbed(s).len(),
        i == 0 || scrubbed(s)[i - 1] == '\n',
    ensures
        j == i + 1 && (scrubbed(s)[i] == '-' || scrubbed(s)[i] == '*' || scrubbed(s)[i] == '+')
            ==> !white_space(scrubbed(s)[j]),
        (forall|k: int| i <= k < j ==> '0' <= #[trigger] scrubbed(s)[k] <= '9') && scrubbed(s)[j]
            == '.' ==> !white_space(scrubbed(s)[j + 1]),
{
    let r = scrubbed(s);
    lemma_scrubbed(s);
    assert(mark_end(r, i) is None);
    lemma_digit_run(r, i);
    if (forall|k: int| i <= k < j ==> '0' <= #[trigger] r[k] <= '9') && r[j] == '.' {
        assert(digit_run(r, i) == j) by {
            if digit_run(r, i) < j {
                assert('0' <= r[digit_run(r, i)] <= '9');
            }
        }
    }
}

/// No line of a scrubbed text is the row of a table, with a bar at either end.
pub proof fn law_no_table_row_is_left(s: Seq<char>, i: int, j: int)
    requires
        0 <= i,
        i + 2 <= j <= scrubbed(s).len(),
        i == 0 || scrubbed(s)[i - 1] == '\n',
        j == scrubbed(s).len() || scrubbed(s)[j] == '\n',
        forall|k: int| i <= k < j ==> #[trigger] scrubbed(s)[k] != '\n',
        scrubbed(s)[i] == '|',
    ensures
        scrubbed(s)[j - 1] != '|',
{
    let r = scrubbed(s);
    lemma_scrubbed(s);
    assert(mark_end(r, i) is None);
    lemma_char_from(r, '\n', i);
    assert(char_from(r, '\n', i) == j);
}

/// A scrubbed text has no two spaces and no three line feeds in a row, and no white space around
/// it.
pub proof fn law_no_loose_white_space_is_left(s: Seq<char>, i: int)
    ensures
        0 <= i && i + 1 < scrubbed(s).len() && scrubbed(s)[i] == ' ' ==> scrubbed(s)[i + 1] != ' ',
        0 <= i && i + 2 < scrubbed(s).len() && scrubbed(s)[i] == '\n' && scrubbed(s)[i + 1] == '\n'
            ==> scrubbed(s)[i + 2] != '\n',
        is_trimmed(scrubbed(s)),
{
    let r = scrubbed(s);
    lemma_scrubbed(s);
    if 0 <= i < r.len() {
        assert(mark_end(r, i) is None);
    }
    if r.len() > 0 {
        assert(mark_end(r, 0) is None);
        assert(mark_end(r, r.len() - 1) is None);
    }
}

/// Ordinary text is left alone: one whose lines each begin with a letter, in which no web address,
/// image or tag begins, and whose white space is tidy. Dashes, hashes, stars, bars and numbers within
/// a line are ordinary.
pub proof fn law_ordinary_text_is_left_alone(s: Seq<char>)
    requires
        forall|i: int|
            0 <= i < s.len() && (i == 0 || s[i - 1] == '\n') && #[trigger] s[i] != '\n' ==> 'a'
                <= s[i] <= 'z' || 'A' <= s[i] <= 'Z',
        forall|i: int|
            0 <= i && i + 4 <= s.len() ==> #[trigger] s.subrange(i, i + 4) != "http"@,
        forall|i: int|
            0 <= i && i + 1 < s.len() && #[trigger] s[i] == '!' ==> s[i + 1] != '[',
        forall|i: int|
            0 <= i && i + 1 < s.len() && #[trigger] s[i] == '<' ==> !('a' <= s[i + 1] <= 'z' || 'A'
                <= s[i + 1] <= 'Z' || s[i + 1] == '/' || s[i + 1] == '!'),
        forall|i: int| 0 <= i && i + 1 < s.len() && #[trigger] s[i] == ' ' ==> s[i + 1] != ' ',
        forall|i: int|
            0 <= i && i + 2 < s.len() && #[trigger] s[i] == '\n' ==> s[i + 1] != '\n' || s[i + 2]
                != '\n',
        s.len() > 0 ==> !white_space(s[0]) && !white_space(s.last()),
    ensures
        scrubbed(s) == s,
{
    assert forall|i: int| 0 <= i < s.len() implies (#[trigger] mark_end(s, i)) is None by {
        if line_start(s, i) {
            lemma_line_start(s, i);
        }
        lemma_ordinary_place(s, i);
    }
    lemma_first_mark(s, 0);
}

/// No mark begins at an ordinary place of a text.
proof fn lemma_ordinary_place(s: Seq<char>, i: int)
    requires
        0 <= i < s.len(),
        line_start(s, i) && s[i] != '\n' ==> 'a' <= s[i] <= 'z' || 'A' <= s[i] <= 'Z',
        i + 4 <= s.len() ==> s.subrange(i, i + 4) != "http"@,
        i + 1 < s.len() && s[i] == '!' ==> s[i + 1] != '[',
        i + 1 < s.len() && s[i] == '<' ==> !('a' <= s[i + 1] <= 'z' || 'A' <= s[i + 1] <= 'Z'
            || s[i + 1] == '/' || s[i + 1] == '!'),
        i + 1 < s.len() && s[i] == ' ' ==> s[i + 1] != ' ',
        i + 2 < s.len() && s[i] == '\n' ==> s[i + 1] != '\n' || s[i + 2] != '\n',
        !white_space(s[0]),
        !white_space(s.last()),
    ensures
        mark_end(s, i) is None,
{
    reveal_strlit("http");
    reveal_strlit("https://");
    reveal_strlit("http://");
    assert(!occurs_at(s, "https://"@, i)) by {
        if occurs_at(s, "https://"@, i) {
            assert(s.subrange(i, i + 4) =~= s.subrange(i, i + 8).take(4));
            assert(s.subrange(i, i + 4) =~= "http"@);
        }
    }
    assert(!occurs_at(s, "http://"@, i)) by {
        if occurs_at(s, "http://"@, i) {
            assert(s.subrange(i, i + 4) =~= s.subrange(i, i + 7).take(4));
            assert(s.subrange(i, i + 4) =~= "http"@);
        }
    }
    if i + 2 <= s.len() {
        lemma_char_from(s, '>', i + 2);
    }
    lemma_same_run(s, '#', i);
    lemma_digit_run(s, i);
}

/// Where every line begins with a letter, nothing is at the start of a line but its first
/// character.
proof fn lemma_line_start(s: Seq<char>, k: int)
    requires
        0 <= k <= s.len(),
        line_start(s, k),
        forall|i: int|
            0 <= i < s.len() && (i == 0 || s[i - 1] == '\n') && #[trigger] s[i] != '\n' ==> 'a'
                <= s[i] <= 'z' || 'A' <= s[i] <= 'Z',
    ensures
        k == 0 || s[k - 1] == '\n',
    decreases k,
{
    if k > 0 && s[k - 1] != '\n' {
        lemma_line_start(s, k - 1);
        assert('a' <= s[k - 1] <= 'z' || 'A' <= s[k - 1] <= 'Z');
    }
}

/// A web address is cut out whole, up to the white space, the closing bracket or the end behind it,
/// and the text is looked at again without it.
pub proof fn law_an_address_is_cut_out_whole(
    before: Seq<char>,
    address: Seq<char>,
    after: Seq<char>,
)
    requires
        address.len() > 8 && address.take(8) == "https://"@ || address.len() > 7 && address.take(7)
            == "http://"@,
        forall|i: int|
            0 <= i < address.len() ==> !white_space(#[trigger] address[i]) && address[i] != ')',
        after.len() > 0 ==> white_space(after[0]) || after[0] == ')',
        forall|i: int|
            0 <= i < before.len() ==> (#[trigger] mark_end(before + address + after, i)) is None,
    ensures
        scrubbed(before + address + after) == scrubbed(before + after),
{
    reveal_strlit("https://");
    reveal_strlit("http://");
    let s = before + address + after;
    let n = before.len() as int;
    let end = n + address.len();
    assert forall|i: int| n <= i < end implies !white_space(#[trigger] s[i]) && s[i] != ')' by {
        assert(s[i] == address[i - n]);
    }
    assert(end < s.len() ==> s[end] == after[0]);
    if address.take(8) == "https://"@ && address.len() > 8 {
        assert(s.subrange(n, n + 8) =~= address.take(8));
        lemma_address_run_to(s, n + 8, end);
    } else {
        assert(s.subrange(n, n + 7) =~= address.take(7));
        assert(s[n + 4] == address.take(7)[4]);
        assert(!occurs_at(s, "https://"@, n)) by {
            if occurs_at(s, "https://"@, n) {
                assert(s.subrange(n, n + 8)[4] == 's');
            }
        }
        lemma_address_run_to(s, n + 7, end);
    }
    assert(mark_end(s, n) == Some(end));
    lemma_first_mark_at(s, 0, n);
    assert(s.take(n) + s.skip(end) =~= before + after);
}

proof fn lemma_address_run_to(s: Seq<char>, i: int, end: int)
    requires
        0 <= i <= end <= s.len(),
        forall|k: int| i <= k < end ==> !white_space(#[trigger] s[k]) && s[k] != ')',
        end < s.len() ==> white_space(s[end]) || s[end] == ')',
    ensures
        address_run(s, i) == end,
    decreases end - i,
{
    if i < end {
        lemma_address_run_to(s, i + 1, end);
    }
}

proof fn lemma_first_mark_at(s: Seq<char>, i: int, n: int)
    requires
        0 <= i <= n < s.len(),
        forall|k: int| i <= k < n ==> (#[trigger] mark_end(s, k)) is None,
        mark_end(s, n) is Some,
    ensures
        first_mark(s, i) == Some((n, mark_end(s, n)->0)),
    decreases n - i,
{
    if i < n {
        lemma_first_mark_at(s, i + 1, n);
    }
}

fn address_run_from(v: &Vec<char>, from: usize) -> (r: usize)
    requires
        from <= v@.len(),
    ensures
        r == address_run(v@, from as int),
        from <= r <= v@.len(),
{
    let mut i: usize = from;
    while i < v.len() && !is_white_space(v[i]) && v[i] != ')'
        invariant
            from <= i <= v@.len(),
            address_run(v@, from as int) == address_run(v@, i as int),
        decreases v.len() - i,
    {
        i += 1;
    }
    i
}

fn same_run_from(v: &Vec<char>, c: char, from: usize) -> (r: usize)
    requires
        from <= v@.len(),
    ensures
        r == same_run(v@, c, from as int),
        from <= r <= v@.len(),
{
    let mut i: usize = from;
    while i < v.len() && v[i] == c
        invariant
            from <= i <= v@.len(),
            same_run(v@, c, from as int) == same_run(v@, c, i as int),
        decreases v.len() - i,
    {
        i += 1;
    }
    i
}

fn digit_run_from(v: &Vec<char>, from: usize) -> (r: usize)
    requires
        from <= v@.len(),
    ensures
        r == digit_run(v@, from as int),
        from <= r <= v@.len(),
{
    let mut i: usize = from;
    while i < v.len() && '0' <= v[i] && v[i] <= '9'
        invariant
            from <= i <= v@.len(),
            digit_run(v@, from as int) == digit_run(v@, i as int),
        decreases v.len() - i,
    {
        i += 1;
    }
    i
}

fn find_char(v: &Vec<char>, c: char, from: usize) -> (r: usize)
    requires
        from <= v@.len(),
    ensures
        r == char_from(v@, c, from as int),
        from <= r <= v@.len(),
{
    let mut i: usize = from;
    while i < v.len() && v[i] != c
        invariant
            from <= i <= v@.len(),
            char_from(v@, c, from as int) == char_from(v@, c, i as int),
        decreases v.len() - i,
    {
        i += 1;
    }
    i
}

fn solid_end_of(v: &Vec<char>, from: usize, to: usize) -> (r: usize)
    requires
        from <= to <= v@.len(),
    ensures
        r == solid_end(v@, from as int, to as int),
        from <= r <= to,
{
    let mut i: usize = to;
    while from < i && is_white_space(v[i - 1])
        invariant
            from <= i <= to <= v@.len(),
            solid_end(v@, from as int, to as int) == solid_end(v@, from as int, i as int),
        decreases i,
    {
        i -= 1;
    }
    i
}

fn starts_line(v: &Vec<char>, k: usize) -> (b: bool)
    requires
        k <= v@.len(),
    ensures
        b == line_start(v@, k as int),
{
    let mut i: usize = k;
    while i > 0 && v[i - 1] != '\n' && is_white_space(v[i - 1])
        invariant
            i <= k <= v@.len(),
            line_start(v@, k as int) == line_start(v@, i as int),
        decreases i,
    {
        i -= 1;
    }
    i == 0 || v[i - 1] == '\n'
}

fn find_address_end(v: &Vec<char>, i: usize) -> (r: Option<usize>)
    requires
        i < v@.len(),
    ensures
        match r {
            Some(end) => address_end(v@, i as int) == Some(end as int),
            None => address_end(v@, i as int) is None,
        },
{
    if v[i] != 'h' {
        proof {
            reveal_strlit("https://");
            reveal_strlit("http://");
            assert(occurs_at(v@, "https://"@, i as int) ==> v@.subrange(i as int, i + 8)[0] == 'h');
            assert(occurs_at(v@, "http://"@, i as int) ==> v@.subrange(i as int, i + 7)[0] == 'h');
        }
        return None;
    }
    proof {
        reveal_strlit("https://");
        reveal_strlit("http://");
    }
    let n: usize = v.len();
    let secure = chars_of("https://");
    if n - i >= 8 && stands_at(v, &secure, i) {
        let end: usize = address_run_from(v, i + 8);
        if end > i + 8 {
            return Some(end);
        }
    }
    let plain = chars_of("http://");
    if n - i >= 7 && stands_at(v, &plain, i) {
        let end: usize = address_run_from(v, i + 7);
        if end > i + 7 {
            return Some(end);
        }
    }
    None
}

fn find_image_end(v: &Vec<char>, i: usize) -> (r: Option<usize>)
    requires
        i < v@.len(),
    ensures
        match r {
            Some(end) => image_end(v@, i as int) == Some(end as int),
            None => image_end(v@, i as int) is None,
        },
{
    if v[i] != '!' || v.len() - i < 2 || v[i + 1] != '[' {
        return None;
    }
    let label: usize = find_char(v, ']', i + 2);
    if v.len() - label < 2 || v[label + 1] != '(' {
        return None;
    }
    let target: usize = find_char(v, ')', label + 2);
    if label + 2 < target && target < v.len() {
        Some(target + 1)
    } else {
        None
    }
}

fn find_tag_end(v: &Vec<char>, i: usize) -> (r: Option<usize>)
    requires
        i < v@.len(),
    ensures
        match r {
            Some(end) => tag_end(v@, i as int) == Some(end as int),
            None => tag_end(v@, i as int) is None,
        },
{
    if v[i] != '<' || v.len() - i < 2 {
        return None;
    }
    let c = v[i + 1];
    let close: usize = find_char(v, '>', i + 2);
    if close < v.len() && (('a' <= c && c <= 'z') || ('A' <= c && c <= 'Z') || c == '/' || c
        == '!') {
        Some(close + 1)
    } else {
        None
    }
}

fn find_marker_end(v: &Vec<char>, i: usize) -> (r: Option<usize>)
    requires
        i < v@.len(),
    ensures
        ({
            let found = if heading_end(v@, i as int) is Some {
                heading_end(v@, i as int)
            } else if bullet_end(v@, i as int) is Some {
                bullet_end(v@, i as int)
            } else {
                number_end(v@, i as int)
            };
            match r {
                Some(end) => found == Some(end as int),
                None => found is None,
            }
        }),
{
    proof {
        lemma_same_run(v@, '#', i as int);
        lemma_digit_run(v@, i as int);
    }
    let c = v[i];
    if c == '#' {
        let end: usize = same_run_from(v, '#', i);
        if end - i <= 6 && end < v.len() && is_white_space(v[end]) && starts_line(v, i) {
            return Some(end + 1);
        }
    } else if c == '-' || c == '*' || c == '+' {
        if v.len() - i > 1 && is_white_space(v[i + 1]) && starts_line(v, i) {
            return Some(i + 2);
        }
    } else if '0' <= c && c <= '9' {
        let end: usize = digit_run_from(v, i);
        if v.len() - end > 1 && v[end] == '.' && is_white_space(v[end + 1]) && starts_line(v, i) {
            return Some(end + 2);
        }
    }
    None
}

fn find_row_end(v: &Vec<char>, i: usize) -> (r: Option<usize>)
    requires
        i < v@.len(),
    ensures
        match r {
            Some(end) => row_end(v@, i as int) == Some(end as int),
            None => row_end(v@, i as int) is None,
        },
{
    if v[i] != '|' {
        return None;
    }
    let line_end: usize = find_char(v, '\n', i);
    assert(line_end > i) by {
        lemma_char_from(v@, '\n', i as int);
    }
    let end: usize = solid_end_of(v, i + 1, line_end);
    if i + 1 < end && v[end - 1] == '|' && starts_line(v, i) {
        Some(end)
    } else {
        None
    }
}

fn find_loose_end(v: &Vec<char>, i: usize) -> (r: Option<usize>)
    requires
        i < v@.len(),
    ensures
        match r {
            Some(end) => loose_end(v@, i as int) == Some(end as int),
            None => loose_end(v@, i as int) is None,
        },
{
    let n: usize = v.len();
    if v[i] == ' ' && n - i > 1 && v[i + 1] == ' ' {
        Some(i + 1)
    } else if v[i] == '\n' && n - i > 2 && v[i + 1] == '\n' && v[i + 2] == '\n' {
        Some(i + 1)
    } else if is_white_space(v[i]) && (i == 0 || i == n - 1) {
        Some(i + 1)
    } else {
        None
    }
}

fn find_mark_end(v: &Vec<char>, i: usize) -> (r: Option<usize>)
    requires
        i < v@.len(),
    ensures
        match r {
            Some(end) => mark_end(v@, i as int) == Some(end as int) && i < end <= v@.len(),
            None => mark_end(v@, i as int) is None,
        },
{
    proof {
        lemma_mark_end(v@, i as int);
    }
    if let Some(end) = find_address_end(v, i) {
        return Some(end);
    }
    if let Some(end) = find_image_end(v, i) {
        return Some(end);
    }
    if let Some(end) = find_tag_end(v, i) {
        return Some(end);
    }
    if let Some(end) = find_marker_end(v, i) {
        return Some(end);
    }
    if let Some(end) = find_row_end(v, i) {
        return Some(end);
    }
    find_loose_end(v, i)
}

fn find_first_mark(v: &Vec<char>) -> (r: Option<(usize, usize)>)
    ensures
        match r {
            Some((from, to)) => first_mark(v@, 0) == Some((from as int, to as int)) && from < to
                <= v@.len(),
            None => first_mark(v@, 0) is None,
        },
{
    let mut i: usize = 0;
    while i < v.len()
        invariant
            i <= v@.len(),
            first_mark(v@, 0) == first_mark(v@, i as int),
        decreases v.len() - i,
    {
        if let Some(end) = find_mark_end(v, i) {
            return Some((i, end));
        }
        i += 1;
    }
    None
}

/// The characters of `v` without those from `from` up to `to`.
fn cut_out(v: &Vec<char>, from: usize, to: usize) -> (r: Vec<char>)
    requires
        from <= to <= v@.len(),
    ensures
        r@ == v@.take(from as int) + v@.skip(to as int),
{
    let mut r: Vec<char> = Vec::new();
    let mut i: usize = 0;
    while i < from
        invariant
            i <= from <= v@.len(),
            r@ == v@.take(i as int),
        decreases from - i,
    {
        r.push(v[i]);
        i += 1;
    }
    let mut j: usize = to;
    assert(r@ =~= v@.take(from as int) + v@.subrange(to as int, j as int));
    while j < v.len()
        invariant
            from <= to <= j <= v@.len(),
            r@ == v@.take(from as int) + v@.subrange(to as int, j as int),
        decreases v.len() - j,
    {
        r.push(v[j]);
        j += 1;
        assert(r@ =~= v@.take(from as int) + v@.subrange(to as int, j as int));
    }
    assert(v@.subrange(to as int, j as int) =~= v@.skip(to as int));
    r
}

/// Takes out of the text what is not to be spoken.
pub fn scrub(text: &str) -> (r: String)
    ensures
        r@ == scrubbed(text@),
        is_trimmed(r@),
{
    let mut v = chars_of(text);
    loop
        invariant
            scrubbed(text@) == scrubbed(v@),
        ensures
            scrubbed(text@) == v@,
        decreases v@.len(),
    {
        match find_first_mark(&v) {
            Some((from, to)) => {
                v = cut_out(&v, from, to);
            },
            None => {
                break ;
            },
        }
    }
    proof {
        law_no_loose_white_space_is_left(text@, 0);
    }
    let r = string_of(&v, 0, v.len());
    assert(r@ =~= v@);
    r
}

}
