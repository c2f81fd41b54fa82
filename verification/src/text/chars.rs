//! Text as a sequence of characters: what trimming, splitting into words,
//! searching and replacing mean, and functions that do so.
use vstd::prelude::*;
use vstd::utf8::*;

verus! {

/// `String::push`: the string afterwards is the string before, with `c` behind it.
pub assume_specification[ String::push ](s: &mut String, c: char)
    ensures
        final(s)@ == old(s)@.push(c),
;

/// `String::clear`: the string afterwards is empty.
pub assume_specification[ String::clear ](s: &mut String)
    ensures
        final(s)@ == Seq::<char>::empty(),
;

/// What `str::to_lowercase` makes of the characters of a string.
pub uninterp spec fn unicode_lowercase(s: Seq<char>) -> Seq<char>;

/// The lowercase of an ASCII character, and any other character itself.
pub open spec fn ascii_lowercase(c: char) -> char {
    if 'A' <= c <= 'Z' {
        ((c as u32) + 32) as char
    } else {
        c
    }
}

/// `str::to_lowercase`: the result depends on the characters of `s` alone, and on ASCII text it
/// maps `A` to `Z` onto `a` to `z` and keeps the rest. Nothing is said of the mapping beyond
/// ASCII.
pub assume_specification[ str::to_lowercase ](s: &str) -> (r: String)
    ensures
        r@ == unicode_lowercase(s@),
        is_ascii_chars(s@) ==> r@ == s@.map_values(|c: char| ascii_lowercase(c)),
;

/// Whether `char::is_alphabetic` holds of the character.
pub uninterp spec fn unicode_alphabetic(c: char) -> bool;

/// `char::is_alphabetic`: the result depends on the character alone, and of ASCII characters it
/// holds of the letters and of no other. Nothing is said of it beyond ASCII.
pub assume_specification[ char::is_alphabetic ](c: char) -> (b: bool)
    ensures
        b == unicode_alphabetic(c),
        c <= '\u{7f}' ==> b == ascii_letter(c),
;

/// Whether `c` is an ASCII letter.
pub open spec fn ascii_letter(c: char) -> bool {
    'a' <= c <= 'z' || 'A' <= c <= 'Z'
}

/// Whether `c` is a letter.
pub open spec fn letter(c: char) -> bool {
    if c <= '\u{7f}' {
        ascii_letter(c)
    } else {
        unicode_alphabetic(c)
    }
}

/// Decides [`letter`].
pub fn is_letter(c: char) -> (b: bool)
    ensures
        b == letter(c),
{
    c.is_alphabetic()
}

/// Whether `c` has the Unicode property White_Space.
pub open spec fn white_space(c: char) -> bool {
    ||| '\u{9}' <= c <= '\u{d}'
    ||| c == '\u{20}'
    ||| c == '\u{85}'
    ||| c == '\u{a0}'
    ||| c == '\u{1680}'
    ||| '\u{2000}' <= c <= '\u{200a}'
    ||| c == '\u{2028}'
    ||| c == '\u{2029}'
    ||| c == '\u{202f}'
    ||| c == '\u{205f}'
    ||| c == '\u{3000}'
}

/// Decides [`white_space`].
pub fn is_white_space(c: char) -> (b: bool)
    ensures
        b == white_space(c),
{
    ('\u{9}' <= c && c <= '\u{d}') || c == '\u{20}' || c == '\u{85}' || c == '\u{a0}' || c
        == '\u{1680}' || ('\u{2000}' <= c && c <= '\u{200a}') || c == '\u{2028}' || c == '\u{2029}'
        || c == '\u{202f}' || c == '\u{205f}' || c == '\u{3000}'
}

/// Whether `c` is ASCII white space: space, tab, line feed, form feed or carriage return.
pub open spec fn ascii_space(c: char) -> bool {
    c == ' ' || c == '\t' || c == '\n' || c == '\u{c}' || c == '\r'
}

/// Decides [`ascii_space`].
pub fn is_ascii_space(c: char) -> (b: bool)
    ensures
        b == ascii_space(c),
{
    c == ' ' || c == '\t' || c == '\n' || c == '\u{c}' || c == '\r'
}

/// Whether every character of `s` is white space.
pub open spec fn blank(s: Seq<char>) -> bool {
    forall|i: int| 0 <= i < s.len() ==> white_space(#[trigger] s[i])
}

/// `s` without the white space it begins with.
pub open spec fn trim_start(s: Seq<char>) -> Seq<char>
    decreases s.len(),
{
    if s.len() > 0 && white_space(s[0]) {
        trim_start(s.skip(1))
    } else {
        s
    }
}

/// `s` without the white space it ends in.
pub open spec fn trim_end(s: Seq<char>) -> Seq<char>
    decreases s.len(),
{
    if s.len() > 0 && white_space(s.last()) {
        trim_end(s.drop_last())
    } else {
        s
    }
}

/// `s` without the white space it begins with and ends in.
pub open spec fn trimmed(s: Seq<char>) -> Seq<char> {
    trim_end(trim_start(s))
}

/// Whether `s` neither begins with nor ends in white space.
pub open spec fn is_trimmed(s: Seq<char>) -> bool {
    s.len() > 0 ==> !white_space(s[0]) && !white_space(s.last())
}

/// The number of words in `s`: of maximal runs of characters that are not white space.
pub open spec fn word_count(s: Seq<char>) -> nat
    decreases s.len(),
{
    if s.len() == 0 {
        0
    } else {
        word_count(s.drop_last()) + (if !white_space(s.last()) && (s.len() == 1 || white_space(
            s[s.len() - 2],
        )) {
            1nat
        } else {
            0
        })
    }
}

/// The longest run of characters at the end of `s` that holds no white space.
pub open spec fn last_run(s: Seq<char>) -> Seq<char>
    decreases s.len(),
{
    if s.len() > 0 && !white_space(s.last()) {
        last_run(s.drop_last()).push(s.last())
    } else {
        Seq::empty()
    }
}

/// The last word of `s`, empty where it has none.
pub open spec fn last_word(s: Seq<char>) -> Seq<char> {
    last_run(trim_end(s))
}

/// Whether `pat` stands in `s` from position `i` on.
pub open spec fn occurs_at(s: Seq<char>, pat: Seq<char>, i: int) -> bool {
    &&& 0 <= i
    &&& i + pat.len() <= s.len()
    &&& s.subrange(i, i + pat.len()) == pat
}

/// The first position, from `i` on, at which `pat` stands in `s`.
pub open spec fn find_from(s: Seq<char>, pat: Seq<char>, i: int) -> Option<int>
    decreases s.len() + 1 - i,
{
    if i < 0 || i + pat.len() > s.len() {
        None
    } else if occurs_at(s, pat, i) {
        Some(i)
    } else {
        find_from(s, pat, i + 1)
    }
}

/// Whether `pat` stands anywhere in `s`.
pub open spec fn contains_text(s: Seq<char>, pat: Seq<char>) -> bool {
    exists|i: int| occurs_at(s, pat, i)
}

/// `s` with `to` in place of each occurrence of `from`, taken from the left without overlap.
pub open spec fn replaced(s: Seq<char>, from: Seq<char>, to: Seq<char>) -> Seq<char>
    decreases s.len(),
{
    if from.len() == 0 || s.len() < from.len() {
        s
    } else if s.take(from.len() as int) == from {
        to + replaced(s.skip(from.len() as int), from, to)
    } else {
        seq![s[0]] + replaced(s.skip(1), from, to)
    }
}

/// The characters of `s`, in order.
pub fn chars_of(s: &str) -> (v: Vec<char>)
    ensures
        v@ == s@,
{
    let mut v: Vec<char> = Vec::new();
    for c in it: s.chars()
        invariant
            it.seq() == s@,
            v@ == s@.take(it.index()),
    {
        v.push(c);
    }
    v
}

/// The string of the characters of `v` from position `from` up to `to`.
pub fn string_of(v: &Vec<char>, from: usize, to: usize) -> (s: String)
    requires
        from <= to <= v@.len(),
    ensures
        s@ == v@.subrange(from as int, to as int),
{
    let mut s = String::new();
    let mut i: usize = from;
    while i < to
        invariant
            from <= i <= to <= v@.len(),
            s@ == v@.subrange(from as int, i as int),
        decreases to - i,
    {
        s.push(v[i]);
        i += 1;
    }
    s
}

/// Whether the two strings hold the same characters.
pub fn same_text(a: &str, b: &str) -> (r: bool)
    ensures
        r == (a@ == b@),
{
    let u = chars_of(a);
    let v = chars_of(b);
    if u.len() != v.len() {
        return false;
    }
    let mut i: usize = 0;
    while i < u.len()
        invariant
            u@ == a@,
            v@ == b@,
            u@.len() == v@.len(),
            i <= u@.len(),
            u@.take(i as int) == v@.take(i as int),
        decreases u.len() - i,
    {
        if u[i] != v[i] {
            return false;
        }
        assert(u@.take(i + 1) == u@.take(i as int).push(u@[i as int]));
        assert(v@.take(i + 1) == v@.take(i as int).push(v@[i as int]));
        i += 1;
    }
    assert(u@.take(i as int) == u@);
    assert(v@.take(i as int) == v@);
    true
}

/// Trimming only cuts off white space, and what is left begins and ends with other characters.
pub proof fn lemma_trim(s: Seq<char>) -> (r: (int, int))
    ensures
        0 <= r.0 <= r.1 <= s.len(),
        trim_start(s) == s.skip(r.0),
        trimmed(s) == s.subrange(r.0, r.1),
        is_trimmed(trimmed(s)),
        blank(s) <==> trimmed(s).len() == 0,
        forall|i: int| 0 <= i < r.0 ==> white_space(#[trigger] s[i]),
        forall|i: int| r.1 <= i < s.len() ==> white_space(#[trigger] s[i]),
    decreases s.len(),
{
    if s.len() > 0 && white_space(s[0]) {
        let (a, b) = lemma_trim(s.skip(1));
        assert(s.skip(1).skip(a) == s.skip(a + 1));
        assert(s.skip(1).subrange(a, b) == s.subrange(a + 1, b + 1));
        assert forall|i: int| 0 <= i < a + 1 implies white_space(#[trigger] s[i]) by {
            if i > 0 {
                assert(s.skip(1)[i - 1] == s[i]);
            }
        }
        assert forall|i: int| b + 1 <= i < s.len() implies white_space(#[trigger] s[i]) by {
            assert(s.skip(1)[i - 1] == s[i]);
        }
        assert(blank(s) <==> blank(s.skip(1))) by {
            if blank(s.skip(1)) {
                assert forall|i: int| 0 <= i < s.len() implies white_space(#[trigger] s[i]) by {
                    if i > 0 {
                        assert(s.skip(1)[i - 1] == s[i]);
                    }
                }
            }
        }
        (a + 1, b + 1)
    } else {
        assert(s.skip(0) == s);
        lemma_trim_end(s);
        let b = trim_end(s).len() as int;
        assert(s.take(b) == s.subrange(0, b));
        (0, b)
    }
}

/// Trimming the end leaves a prefix that ends in no white space, and cuts off nothing else.
pub proof fn lemma_trim_end(s: Seq<char>)
    ensures
        trim_end(s).len() <= s.len(),
        trim_end(s) == s.take(trim_end(s).len() as int),
        trim_end(s).len() > 0 ==> !white_space(trim_end(s).last()),
        forall|i: int| trim_end(s).len() <= i < s.len() ==> white_space(#[trigger] s[i]),
    decreases s.len(),
{
    if s.len() > 0 && white_space(s.last()) {
        lemma_trim_end(s.drop_last());
        let n = trim_end(s).len() as int;
        assert(s.drop_last().take(n) == s.take(n));
        assert forall|i: int| n <= i < s.len() implies white_space(#[trigger] s[i]) by {
            if i < s.len() - 1 {
                assert(s.drop_last()[i] == s[i]);
            }
        }
    } else {
        assert(s.take(s.len() as int) == s);
    }
}

/// The text without the white space around it.
pub fn trim(s: &str) -> (r: String)
    ensures
        r@ == trimmed(s@),
{
    let v = chars_of(s);
    let mut a: usize = 0;
    assert(v@.skip(0) == v@);
    while a < v.len() && is_white_space(v[a])
        invariant
            a <= v@.len(),
            trim_start(v@) == trim_start(v@.skip(a as int)),
        decreases v.len() - a,
    {
        assert(v@.skip(a as int).skip(1) == v@.skip(a + 1));
        a += 1;
    }
    let mut b: usize = v.len();
    assert(v@.subrange(a as int, b as int) == v@.skip(a as int));
    while a < b && is_white_space(v[b - 1])
        invariant
            a <= b <= v@.len(),
            trim_end(v@.skip(a as int)) == trim_end(v@.subrange(a as int, b as int)),
        decreases b,
    {
        assert(v@.subrange(a as int, b as int).drop_last() == v@.subrange(a as int, b - 1));
        b -= 1;
    }
    string_of(&v, a, b)
}

/// Whether the text holds nothing but white space.
pub fn is_blank(s: &str) -> (b: bool)
    ensures
        b == blank(s@),
        b == (trimmed(s@).len() == 0),
{
    let t = trim(s);
    proof {
        lemma_trim(s@);
    }
    t.as_str().is_empty()
}

/// The number of words of the text.
pub fn count_words(v: &Vec<char>) -> (n: usize)
    ensures
        n == word_count(v@),
{
    let mut n: usize = 0;
    let mut i: usize = 0;
    while i < v.len()
        invariant
            i <= v@.len(),
            n <= i,
            n == word_count(v@.take(i as int)),
        decreases v.len() - i,
    {
        assert(v@.take(i + 1).drop_last() == v@.take(i as int));
        if !is_white_space(v[i]) && (i == 0 || is_white_space(v[i - 1])) {
            n += 1;
        }
        i += 1;
    }
    assert(v@.take(i as int) == v@);
    n
}

/// The last word among the first `end` characters, empty where they hold none.
pub fn last_word_before(v: &Vec<char>, end: usize) -> (r: String)
    requires
        end <= v@.len(),
    ensures
        r@ == last_word(v@.take(end as int)),
{
    let mut b: usize = end;
    while b > 0 && is_white_space(v[b - 1])
        invariant
            b <= end <= v@.len(),
            trim_end(v@.take(end as int)) == trim_end(v@.take(b as int)),
        decreases b,
    {
        assert(v@.take(b as int).drop_last() == v@.take(b - 1));
        b -= 1;
    }
    let mut a: usize = b;
    assert(v@.subrange(b as int, b as int) =~= Seq::<char>::empty());
    while a > 0 && !is_white_space(v[a - 1])
        invariant
            a <= b <= v@.len(),
            last_run(v@.take(b as int)) == last_run(v@.take(a as int)) + v@.subrange(
                a as int,
                b as int,
            ),
        decreases a,
    {
        assert(v@.take(a as int).drop_last() == v@.take(a - 1));
        assert(last_run(v@.take(a as int)) == last_run(v@.take(a - 1)).push(v@[a - 1]));
        assert(v@.subrange(a - 1, b as int) == seq![v@[a - 1]] + v@.subrange(a as int, b as int));
        a -= 1;
    }
    assert(last_run(v@.take(a as int)) =~= Seq::<char>::empty());
    string_of(v, a, b)
}

/// Whether `pat` stands in `v` from position `i` on.
pub fn stands_at(v: &Vec<char>, pat: &Vec<char>, i: usize) -> (b: bool)
    ensures
        b == occurs_at(v@, pat@, i as int),
{
    if i > v.len() || v.len() - i < pat.len() {
        return false;
    }
    let mut k: usize = 0;
    while k < pat.len()
        invariant
            k <= pat@.len(),
            i + pat@.len() <= v.len(),
            v@.subrange(i as int, i + k) == pat@.take(k as int),
        decreases pat.len() - k,
    {
        if v[i + k] != pat[k] {
            assert(v@.subrange(i as int, i + pat@.len())[k as int] == v@[i + k]);
            return false;
        }
        assert(v@.subrange(i as int, i + k + 1) == v@.subrange(i as int, i + k).push(v@[i + k]));
        assert(pat@.take(k + 1) == pat@.take(k as int).push(pat@[k as int]));
        k += 1;
    }
    assert(pat@.take(k as int) == pat@);
    true
}

/// The first position at which `pat` stands in `v`.
pub fn find(v: &Vec<char>, pat: &Vec<char>) -> (r: Option<usize>)
    ensures
        match r {
            Some(i) => find_from(v@, pat@, 0) == Some(i as int),
            None => find_from(v@, pat@, 0) is None,
        },
{
    if v.len() < pat.len() {
        return None;
    }
    let last: usize = v.len() - pat.len();
    let mut i: usize = 0;
    loop
        invariant
            i <= last,
            last + pat@.len() == v@.len(),
            find_from(v@, pat@, 0) == find_from(v@, pat@, i as int),
        decreases last - i,
    {
        if stands_at(v, pat, i) {
            return Some(i);
        }
        if i == last {
            assert(find_from(v@, pat@, i + 1) is None);
            return None;
        }
        i += 1;
    }
}

/// [`find_from`] gives the least position at which the pattern stands, and none where it stands
/// nowhere.
pub proof fn lemma_find(s: Seq<char>, pat: Seq<char>, i: int)
    requires
        0 <= i,
    ensures
        match find_from(s, pat, i) {
            Some(k) => i <= k && occurs_at(s, pat, k) && forall|j: int|
                i <= j < k ==> !occurs_at(s, pat, j),
            None => forall|j: int| i <= j ==> !occurs_at(s, pat, j),
        },
    decreases s.len() + 1 - i,
{
    if i + pat.len() <= s.len() && !occurs_at(s, pat, i) {
        lemma_find(s, pat, i + 1);
    }
}

/// Whether `pat` stands anywhere in the text.
pub fn has_text(s: &str, pat: &str) -> (b: bool)
    ensures
        b == contains_text(s@, pat@),
{
    let v = chars_of(s);
    let p = chars_of(pat);
    proof {
        lemma_find(v@, p@, 0);
    }
    match find(&v, &p) {
        Some(i) => {
            assert(occurs_at(s@, pat@, i as int));
            true
        },
        None => false,
    }
}

/// Whether the text begins with `pat`.
pub fn begins_with(s: &str, pat: &str) -> (b: bool)
    ensures
        b == occurs_at(s@, pat@, 0),
{
    stands_at(&chars_of(s), &chars_of(pat), 0)
}

/// Whether the last character of the text is `c`.
pub fn ends_in(s: &str, c: char) -> (b: bool)
    ensures
        b == (s@.len() > 0 && s@.last() == c),
{
    let v = chars_of(s);
    v.len() > 0 && v[v.len() - 1] == c
}

/// The text with `to` in place of each occurrence of `from`.
pub fn replace(s: &str, from: &str, to: &str) -> (r: String)
    requires
        from@.len() > 0,
    ensures
        r@ == replaced(s@, from@, to@),
{
    let v = chars_of(s);
    let p = chars_of(from);
    let mut r = String::new();
    let mut i: usize = 0;
    assert(v@.skip(0) == v@);
    while i < v.len()
        invariant
            v@ == s@,
            p@ == from@,
            p@.len() > 0,
            i <= v@.len(),
            replaced(v@, p@, to@) == r@ + replaced(v@.skip(i as int), p@, to@),
        decreases v.len() - i,
    {
        let ghost rest = v@.skip(i as int);
        let ghost before = r@;
        if stands_at(&v, &p, i) {
            assert(rest.take(p@.len() as int) == v@.subrange(i as int, i + p@.len()));
            assert(rest.skip(p@.len() as int) == v@.skip(i + p@.len()));
            r.append(to);
            assert(before + (to@ + replaced(v@.skip(i + p@.len()), p@, to@)) == (before + to@)
                + replaced(v@.skip(i + p@.len()), p@, to@));
            i += p.len();
        } else {
            proof {
                if rest.len() >= p@.len() {
                    assert(rest.take(p@.len() as int) == v@.subrange(i as int, i + p@.len()));
                } else {
                    assert(rest.skip(1).len() < p@.len());
                    assert(seq![rest[0]] + rest.skip(1) == rest);
                }
            }
            assert(rest.skip(1) == v@.skip(i + 1));
            r.push(v[i]);
            assert(before + (seq![rest[0]] + replaced(v@.skip(i + 1), p@, to@)) == before.push(
                rest[0],
            ) + replaced(v@.skip(i + 1), p@, to@));
            i += 1;
        }
    }
    assert(v@.skip(i as int) =~= Seq::<char>::empty());
    assert(r@ + Seq::<char>::empty() == r@);
    r
}

/// Replacing brings in no character that neither the text nor the replacement holds.
pub proof fn lemma_replaced_chars(s: Seq<char>, from: Seq<char>, to: Seq<char>, c: char)
    requires
        replaced(s, from, to).contains(c),
    ensures
        s.contains(c) || to.contains(c),
    decreases s.len(),
{
    let r = replaced(s, from, to);
    let k = choose|k: int| 0 <= k < r.len() && r[k] == c;
    if from.len() == 0 || s.len() < from.len() {
    } else if s.take(from.len() as int) == from {
        let n = from.len() as int;
        let tail = replaced(s.skip(n), from, to);
        if k < to.len() {
            assert(to[k] == c);
        } else {
            assert(tail[k - to.len()] == c);
            lemma_replaced_chars(s.skip(n), from, to, c);
            if s.skip(n).contains(c) {
                let j = choose|j: int| 0 <= j < s.skip(n).len() && s.skip(n)[j] == c;
                assert(s[j + n] == c);
            }
        }
    } else {
        let tail = replaced(s.skip(1), from, to);
        if k == 0 {
            assert(s[0] == c);
        } else {
            assert(tail[k - 1] == c);
            lemma_replaced_chars(s.skip(1), from, to, c);
            if s.skip(1).contains(c) {
                let j = choose|j: int| 0 <= j < s.skip(1).len() && s.skip(1)[j] == c;
                assert(s[j + 1] == c);
            }
        }
    }
}

/// What does not occur in a text is not replaced.
pub proof fn law_what_does_not_occur_is_not_replaced(s: Seq<char>, from: Seq<char>, to: Seq<char>)
    requires
        !contains_text(s, from),
    ensures
        replaced(s, from, to) == s,
    decreases s.len(),
{
    if from.len() > 0 && s.len() >= from.len() {
        assert(s.take(from.len() as int) == s.subrange(0, from.len() as int));
        assert(!occurs_at(s, from, 0));
        let t = s.skip(1);
        assert forall|i: int| !occurs_at(t, from, i) by {
            if occurs_at(t, from, i) {
                assert(s.subrange(i + 1, i + 1 + from.len()) =~= t.subrange(i, i + from.len()));
                assert(occurs_at(s, from, i + 1));
            }
        }
        law_what_does_not_occur_is_not_replaced(t, from, to);
        assert(seq![s[0]] + t =~= s);
    }
}

/// The first occurrence is replaced, what is before it is kept, and what is behind it is treated
/// as a text of its own.
pub proof fn law_the_first_occurrence_is_replaced(
    before: Seq<char>,
    from: Seq<char>,
    to: Seq<char>,
    after: Seq<char>,
)
    requires
        from.len() > 0,
        forall|i: int|
            0 <= i < before.len() ==> !#[trigger] occurs_at(before + from + after, from, i),
    ensures
        replaced(before + from + after, from, to) == before + to + replaced(after, from, to),
    decreases before.len(),
{
    let s = before + from + after;
    let n = from.len() as int;
    if before.len() == 0 {
        assert(s.take(n) =~= from);
        assert(s.skip(n) =~= after);
        assert(before + to + replaced(after, from, to) =~= to + replaced(after, from, to));
    } else {
        assert(s.take(n) == s.subrange(0, n));
        assert(!occurs_at(s, from, 0));
        let rest = before.skip(1);
        let t = rest + from + after;
        assert(s.skip(1) =~= t);
        assert forall|i: int| 0 <= i < rest.len() implies !#[trigger] occurs_at(t, from, i) by {
            if occurs_at(t, from, i) {
                assert(s.subrange(i + 1, i + 1 + n) =~= t.subrange(i, i + n));
                assert(occurs_at(s, from, i + 1));
            }
        }
        law_the_first_occurrence_is_replaced(rest, from, to, after);
        assert(seq![s[0]] + (rest + to + replaced(after, from, to)) =~= before + to + replaced(
            after,
            from,
            to,
        ));
    }
}

/// White space around a text is trimmed away, and nothing else: blanks of any kind on either side
/// change nothing, and a text that neither begins with nor ends in one is kept as it is.
pub proof fn law_blanks_around_a_text_are_trimmed(a: Seq<char>, s: Seq<char>, b: Seq<char>)
    requires
        blank(a),
        blank(b),
    ensures
        trimmed(a + s + b) == trimmed(s),
        is_trimmed(s) ==> trimmed(a + s + b) == s,
{
    lemma_trim_blank_start(a, s + b);
    assert(a + (s + b) =~= a + s + b);
    let (i, j) = lemma_trim(s);
    let (k, l) = lemma_trim(s + b);
    if blank(s) {
        assert(blank(s + b));
        assert(trimmed(s) =~= trimmed(s + b));
    } else {
        assert(!blank(s + b)) by {
            let w = choose|w: int| 0 <= w < s.len() && !white_space(#[trigger] s[w]);
            assert((s + b)[w] == s[w]);
        }
        lemma_trim_bounds(s, i, j);
        lemma_trim_bounds(s + b, k, l);
        assert(k == i) by {
            if k < i {
                assert((s + b)[k] == s[k]);
            } else if i < k {
                assert((s + b)[i] == s[i]);
            }
        }
        assert(l == j) by {
            if l < j {
                assert((s + b)[j - 1] == s[j - 1]);
            } else if j < l {
                if l - 1 < s.len() {
                    assert((s + b)[l - 1] == s[l - 1]);
                } else {
                    assert((s + b)[l - 1] == b[l - 1 - s.len()]);
                }
            }
        }
        assert((s + b).subrange(k, l) =~= s.subrange(i, j));
    }
    if is_trimmed(s) && s.len() > 0 {
        assert(i == 0);
        assert(j == s.len());
        assert(s.subrange(0, s.len() as int) =~= s);
    }
}

proof fn lemma_trim_bounds(s: Seq<char>, i: int, j: int)
    requires
        0 <= i <= j <= s.len(),
        trimmed(s) == s.subrange(i, j),
        !blank(s),
    ensures
        i < j,
        !white_space(s[i]),
        !white_space(s[j - 1]),
{
    lemma_trim(s);
    assert(trimmed(s)[0] == s[i]);
    assert(trimmed(s).last() == s[j - 1]);
}

proof fn lemma_trim_blank_start(a: Seq<char>, s: Seq<char>)
    requires
        blank(a),
    ensures
        trimmed(a + s) == trimmed(s),
    decreases a.len(),
{
    if a.len() > 0 {
        assert((a + s)[0] == a[0]);
        assert((a + s).skip(1) =~= a.skip(1) + s);
        assert(blank(a.skip(1))) by {
            assert forall|i: int| 0 <= i < a.skip(1).len() implies white_space(
                #[trigger] a.skip(1)[i],
            ) by {
                assert(a.skip(1)[i] == a[i + 1]);
            }
        }
        lemma_trim_blank_start(a.skip(1), s);
    } else {
        assert(a + s =~= s);
    }
}

/// What white space is: space, tab, line feed, vertical tab, form feed, carriage return, next line,
/// no-break space and the spaces and separators beyond, but no character that is seen.
pub proof fn law_white_space_is_not_seen(c: char)
    ensures
        white_space(c) <==> {
            ||| c == ' ' || c == '\t' || c == '\n' || c == '\u{b}' || c == '\u{c}' || c == '\r'
            ||| c == '\u{85}' || c == '\u{a0}' || c == '\u{1680}' || '\u{2000}' <= c <= '\u{200a}'
            ||| c == '\u{2028}' || c == '\u{2029}' || c == '\u{202f}' || c == '\u{205f}'
            ||| c == '\u{3000}'
        },
        '!' <= c <= '~' ==> !white_space(c),
        c == '\u{200b}' || c == '\u{feff}' || c == '…' || c == '—' || c == '–' ==> !white_space(c),
        c == ' ' || c == '\t' || c == '\n' || c == '\u{c}' || c == '\r' <==> ascii_space(c),
{
}

/// Letters of ASCII are letters, and no other character of ASCII is one; beyond ASCII the letters of
/// every script are.
pub proof fn law_letters_of_every_script_are_letters(c: char)
    ensures
        c <= '\u{7f}' ==> (letter(c) <==> 'a' <= c <= 'z' || 'A' <= c <= 'Z'),
        c > '\u{7f}' ==> (letter(c) <==> unicode_alphabetic(c)),
{
}

/// Words are counted across white space: a text in two parts has the words of both, where white
/// space stands between them.
pub proof fn law_words_add_up(a: Seq<char>, c: char, b: Seq<char>)
    requires
        white_space(c),
    ensures
        word_count(a + seq![c] + b) == word_count(a) + word_count(b),
    decreases b.len(),
{
    let s = a + seq![c] + b;
    if b.len() == 0 {
        assert(s.drop_last() =~= a);
        assert(s.last() == c);
    } else {
        law_words_add_up(a, c, b.drop_last());
        assert(s.drop_last() =~= a + seq![c] + b.drop_last());
        assert(s.last() == b.last());
        if b.len() == 1 {
            assert(s[s.len() - 2] == c);
        } else {
            assert(s[s.len() - 2] == b[b.len() - 2]);
        }
    }
}

/// A text without white space is a single word, and one of nothing but white space has none.
pub proof fn law_a_run_is_a_word(s: Seq<char>)
    ensures
        s.len() > 0 && (forall|i: int| 0 <= i < s.len() ==> !white_space(#[trigger] s[i]))
            ==> word_count(s) == 1,
        blank(s) ==> word_count(s) == 0,
    decreases s.len(),
{
    if s.len() > 0 {
        let t = s.drop_last();
        assert forall|i: int| 0 <= i < t.len() implies t[i] == #[trigger] s[i] by {}
        law_a_run_is_a_word(t);
        if forall|i: int| 0 <= i < s.len() ==> !white_space(#[trigger] s[i]) {
            assert forall|i: int| 0 <= i < t.len() implies !white_space(#[trigger] t[i]) by {
                assert(t[i] == s[i]);
            }
            if s.len() > 1 {
                assert(!white_space(s[s.len() - 2]));
            }
        }
        if blank(s) {
            assert forall|i: int| 0 <= i < t.len() implies white_space(#[trigger] t[i]) by {
                assert(t[i] == s[i]);
            }
        }
    }
}

}
