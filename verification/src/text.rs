//! Text helpers: comparing, trimming, splitting, searching and joining.

use vstd::prelude::*;
use vstd::string::*;
use vstd::utf8::*;

verus! {

/// Whether a character has the Unicode `White_Space` property.
pub open spec fn is_white(c: char) -> bool {
    ||| '\u{9}' <= c <= '\u{d}'
    ||| c == '\u{20}'
    ||| c == '\u{85}'
    ||| c == '\u{a0}'
    ||| c == '\u{1680}'
    ||| '\u{2000}' <= c <= '\u{200a}'
    ||| c == '\u{2028}'
    ||| c == '\u{2029}'
    ||| c == '\u{202f}'
    ||| c == '\u{205f}'
    ||| c == '\u{3000}'
}

/// `char::is_whitespace` of std: it is true exactly of the characters that have
/// the Unicode `White_Space` property.
pub assume_specification[ char::is_whitespace ](c: char) -> (white: bool)
    ensures
        white == is_white(c),
;

/// `String::push` of std: it appends one character.
pub assume_specification[ String::push ](text: &mut String, c: char)
    ensures
        final(text)@ == old(text)@.push(c),
;

/// A text without its leading white space.
pub open spec fn trim_start(s: Seq<char>) -> Seq<char>
    decreases s.len(),
{
    if s.len() > 0 && is_white(s[0]) {
        trim_start(s.drop_first())
    } else {
        s
    }
}

/// A text without its trailing white space.
pub open spec fn trim_end(s: Seq<char>) -> Seq<char>
    decreases s.len(),
{
    if s.len() > 0 && is_white(s.last()) {
        trim_end(s.drop_last())
    } else {
        s
    }
}

/// A text without white space at either end.
pub open spec fn trimmed(s: Seq<char>) -> Seq<char> {
    trim_end(trim_start(s))
}

/// How many characters stand before the first white space.
pub open spec fn word_len(s: Seq<char>) -> nat
    decreases s.len(),
{
    if s.len() == 0 || is_white(s[0]) {
        0
    } else {
        1 + word_len(s.drop_first())
    }
}

/// A word is not longer than the text that it starts.
pub proof fn lemma_word_len_bound(s: Seq<char>)
    ensures
        word_len(s) <= s.len(),
    decreases s.len(),
{
    if s.len() > 0 && !is_white(s[0]) {
        lemma_word_len_bound(s.drop_first());
    }
}

/// What is left of a text is not longer, and starts with no white space.
pub proof fn lemma_trim_start_len(s: Seq<char>)
    ensures
        trim_start(s).len() <= s.len(),
        trim_start(s).len() > 0 ==> !is_white(trim_start(s)[0]),
    decreases s.len(),
{
    if s.len() > 0 && is_white(s[0]) {
        lemma_trim_start_len(s.drop_first());
    }
}

/// The words of a text: its maximal runs of characters that are not white space.
pub open spec fn words(s: Seq<char>) -> Seq<Seq<char>>
    decreases s.len(),
{
    let t = trim_start(s);
    if t.len() == 0 {
        Seq::empty()
    } else {
        let n = word_len(t) as int;
        proof {
            lemma_trim_start_len(s);
            lemma_word_len_bound(t);
        }
        seq![t.take(n)] + words(t.skip(n))
    }
}

/// Texts joined by a separator.
pub open spec fn joined(parts: Seq<Seq<char>>, separator: Seq<char>) -> Seq<char>
    decreases parts.len(),
{
    if parts.len() == 0 {
        Seq::empty()
    } else if parts.len() == 1 {
        parts[0]
    } else {
        joined(parts.drop_last(), separator) + separator + parts.last()
    }
}

/// The characters of each text of a list.
pub open spec fn views(parts: Seq<String>) -> Seq<Seq<char>> {
    Seq::new(parts.len(), |i: int| parts[i]@)
}

/// Whether `needle` stands in `text` at position `at`.
pub open spec fn occurs_at(text: Seq<char>, needle: Seq<char>, at: int) -> bool {
    0 <= at <= text.len() - needle.len() && text.subrange(at, at + needle.len()) == needle
}

/// Whether `needle` stands anywhere in `text`.
pub open spec fn occurs(text: Seq<char>, needle: Seq<char>) -> bool {
    exists|at: int| occurs_at(text, needle, at)
}

/// One character with the letters `A` to `Z` put in lower case.
pub open spec fn lower_char(c: char) -> char {
    if 'A' <= c <= 'Z' {
        (c as u32 + 32) as u8 as char
    } else {
        c
    }
}

/// A text with the letters `A` to `Z` put in lower case.
pub open spec fn ascii_lower(s: Seq<char>) -> Seq<char> {
    Seq::new(s.len(), |i: int| lower_char(s[i]))
}

/// The decimal digits of a number, most significant first.
pub open spec fn decimal_digits(n: nat) -> Seq<char>
    decreases n,
{
    let digit = (48 + n % 10) as u8 as char;
    if n < 10 {
        seq![digit]
    } else {
        decimal_digits(n / 10).push(digit)
    }
}

/// Whether two texts hold the same characters.
pub fn same(a: &str, b: &str) -> (equal: bool)
    ensures
        equal == (a@ == b@),
{
    let x: &[u8] = a.as_bytes();
    let y: &[u8] = b.as_bytes();
    proof {
        encode_utf8_decode_utf8(a@);
        encode_utf8_decode_utf8(b@);
    }
    if x.len() != y.len() {
        return false;
    }
    let mut i: usize = 0;
    while i < x.len()
        invariant
            x@ == encode_utf8(a@),
            y@ == encode_utf8(b@),
            x@.len() == y@.len(),
            0 <= i <= x@.len(),
            forall|j: int| 0 <= j < i ==> x@[j] == y@[j],
        decreases x@.len() - i,
    {
        if x[i] != y[i] {
            return false;
        }
        i += 1;
    }
    assert(x@ =~= y@);
    true
}

/// The characters of a text as a list.
pub fn chars_of(s: &str) -> (chars: Vec<char>)
    ensures
        chars@ == s@,
{
    let mut chars: Vec<char> = Vec::new();
    for c in it: s.chars()
        invariant
            it.seq() == s@,
            chars@ =~= s@.take(it.index() as int),
    {
        chars.push(c);
    }
    assert(s@.take(s@.len() as int) =~= s@);
    chars
}

/// The text that a run of characters spells.
pub fn text_of(chars: &[char]) -> (text: String)
    ensures
        text@ == chars@,
{
    let mut text = String::new();
    let mut i: usize = 0;
    while i < chars.len()
        invariant
            0 <= i <= chars@.len(),
            text@ =~= chars@.take(i as int),
        decreases chars@.len() - i,
    {
        text.push(chars[i]);
        i += 1;
    }
    assert(chars@.take(chars@.len() as int) =~= chars@);
    text
}

/// A text without white space at either end.
pub fn trim(s: &str) -> (text: String)
    ensures
        text@ == trimmed(s@),
{
    let chars = chars_of(s);
    let mut from: usize = 0;
    assert(s@.skip(0) =~= s@);
    while from < chars.len() && chars[from].is_whitespace()
        invariant
            chars@ == s@,
            0 <= from <= chars@.len(),
            trim_start(s@) == trim_start(s@.skip(from as int)),
        decreases chars@.len() - from,
    {
        assert(s@.skip(from as int).drop_first() =~= s@.skip(from + 1));
        from += 1;
    }
    let ghost rest = s@.skip(from as int);
    assert(trim_start(s@) == rest);
    let mut to: usize = chars.len();
    assert(rest =~= s@.subrange(from as int, to as int));
    while from < to && chars[to - 1].is_whitespace()
        invariant
            chars@ == s@,
            0 <= from <= to <= chars@.len(),
            trim_end(rest) == trim_end(s@.subrange(from as int, to as int)),
        decreases to,
    {
        assert(s@.subrange(from as int, to as int).drop_last() =~= s@.subrange(
            from as int,
            to - 1,
        ));
        to -= 1;
    }
    assert(trim_end(rest) == s@.subrange(from as int, to as int));
    text_of(&chars[from..to])
}

/// The words of a text, in order.
pub fn split_words(s: &str) -> (list: Vec<String>)
    ensures
        views(list@) == words(s@),
{
    let chars = chars_of(s);
    let mut list: Vec<String> = Vec::new();
    let mut i: usize = 0;
    assert(s@.skip(0) =~= s@);
    assert(views(list@) =~= Seq::empty());
    while i < chars.len()
        invariant
            chars@ == s@,
            0 <= i <= chars@.len(),
            words(s@) == views(list@) + words(s@.skip(i as int)),
        decreases chars@.len() - i,
    {
        let ghost rest = s@.skip(i as int);
        if chars[i].is_whitespace() {
            assert(rest.drop_first() =~= s@.skip(i + 1));
            i += 1;
        } else {
            let from: usize = i;
            assert(s@.skip(i as int) =~= rest.skip(0));
            assert(rest.skip(0) =~= rest);
            while i < chars.len() && !chars[i].is_whitespace()
                invariant
                    chars@ == s@,
                    0 <= from <= i <= chars@.len(),
                    rest == s@.skip(from as int),
                    word_len(rest) == (i - from) + word_len(rest.skip(i - from)),
                    i == from ==> i < chars@.len() && !is_white(chars@[i as int]),
                decreases chars@.len() - i,
            {
                assert(rest.skip(i - from).drop_first() =~= rest.skip(i + 1 - from));
                i += 1;
            }
            let ghost before = list@;
            let word = text_of(&chars[from..i]);
            list.push(word);
            proof {
                let n = i - from;
                assert(word_len(rest) == n);
                assert(trim_start(rest) == rest);
                assert(rest.take(n) =~= s@.subrange(from as int, i as int));
                assert(rest.skip(n) =~= s@.skip(i as int));
                assert(words(rest) =~= seq![rest.take(n)] + words(rest.skip(n)));
                assert(views(list@) =~= views(before) + seq![word@]);
                assert(views(before) + (seq![word@] + words(s@.skip(i as int))) =~= views(list@)
                    + words(s@.skip(i as int)));
            }
        }
    }
    assert(s@.skip(i as int) =~= Seq::empty());
    assert(words(s@) =~= views(list@));
    list
}

/// Texts joined by a separator.
pub fn join(parts: &[String], separator: &str) -> (text: String)
    ensures
        text@ == joined(views(parts@), separator@),
{
    let mut text = String::new();
    let mut i: usize = 0;
    assert(views(parts@).take(0) =~= Seq::empty());
    while i < parts.len()
        invariant
            0 <= i <= parts@.len(),
            text@ == joined(views(parts@).take(i as int), separator@),
        decreases parts@.len() - i,
    {
        let ghost list = views(parts@);
        assert(list.take(i + 1).drop_last() =~= list.take(i as int));
        assert(list.take(i + 1).last() == parts@[i as int]@);
        if i > 0 {
            text.append(separator);
        } else {
            assert(list.take(1)[0] == parts@[0]@);
        }
        text.append(parts[i].as_str());
        assert(i == 0 ==> text@ =~= parts@[0]@);
        i += 1;
    }
    assert(views(parts@).take(i as int) =~= views(parts@));
    text
}

/// Where `needle` first stands in `text`, if it does.
fn find(text: &[char], needle: &[char]) -> (at: Option<usize>)
    ensures
        at matches Some(i) ==> occurs_at(text@, needle@, i as int) && forall|j: int|
            0 <= j < i ==> !occurs_at(text@, needle@, j),
        at is None ==> !occurs(text@, needle@),
{
    if needle.len() > text.len() {
        return None;
    }
    let total: usize = text.len();
    let last: usize = total - needle.len();
    let mut i: usize = 0;
    loop
        invariant
            text@.len() == total,
            needle@.len() <= text@.len(),
            last == text@.len() - needle@.len(),
            0 <= i <= last,
            forall|j: int| 0 <= j < i ==> !occurs_at(text@, needle@, j),
        decreases last - i,
    {
        let mut k: usize = 0;
        while k < needle.len() && text[i + k] == needle[k]
            invariant
                0 <= k <= needle@.len(),
                text@.len() == total,
                i + needle@.len() <= text@.len(),
                forall|j: int| 0 <= j < k ==> text@[i + j] == needle@[j],
            decreases needle@.len() - k,
        {
            k += 1;
        }
        if k == needle.len() {
            assert(text@.subrange(i as int, i + needle@.len()) =~= needle@);
            return Some(i);
        }
        assert(!occurs_at(text@, needle@, i as int)) by {
            assert(text@.subrange(i as int, i + needle@.len())[k as int] == text@[i + k]);
        }
        if i == last {
            return None;
        }
        i += 1;
    }
}

/// Whether `needle` stands anywhere in `text`.
pub fn contains(text: &str, needle: &str) -> (found: bool)
    ensures
        found == occurs(text@, needle@),
{
    find(&chars_of(text), &chars_of(needle)).is_some()
}

/// A text with the letters `A` to `Z` put in lower case.
pub fn to_ascii_lower(s: &str) -> (text: String)
    ensures
        text@ == ascii_lower(s@),
{
    let chars = chars_of(s);
    let mut text = String::new();
    let mut i: usize = 0;
    while i < chars.len()
        invariant
            chars@ == s@,
            0 <= i <= chars@.len(),
            text@ =~= ascii_lower(s@).take(i as int),
        decreases chars@.len() - i,
    {
        let c: char = chars[i];
        if 'A' <= c && c <= 'Z' {
            text.push((c as u32 + 32) as u8 as char);
        } else {
            text.push(c);
        }
        i += 1;
    }
    assert(ascii_lower(s@).take(i as int) =~= ascii_lower(s@));
    text
}

/// The characters of each text of a list.
pub open spec fn str_views(list: Seq<&str>) -> Seq<Seq<char>> {
    Seq::new(list.len(), |i: int| list[i]@)
}

/// A list of texts of its own.
pub fn owned(list: &[&str]) -> (texts: Vec<String>)
    ensures
        views(texts@) == str_views(list@),
{
    let mut texts: Vec<String> = Vec::new();
    let mut i: usize = 0;
    while i < list.len()
        invariant
            0 <= i <= list@.len(),
            texts@.len() == i,
            forall|j: int| 0 <= j < i ==> (#[trigger] texts@[j])@ == list@[j]@,
        decreases list@.len() - i,
    {
        texts.push(list[i].to_string());
        i += 1;
    }
    assert(views(texts@) =~= str_views(list@));
    texts
}

/// The decimal digits of a number.
pub fn decimal(n: u128) -> (text: String)
    ensures
        text@ == decimal_digits(n as nat),
    decreases n,
{
    let digit: char = (48 + (n % 10) as u8) as char;
    if n < 10 {
        let mut text = String::new();
        text.push(digit);
        assert(text@ =~= seq![digit]);
        text
    } else {
        let mut text = decimal(n / 10);
        text.push(digit);
        text
    }
}

// ---------------------------------------------------------------------------
// Cutting
// ---------------------------------------------------------------------------

/// Whether a text can be cut after `n` bytes: it is not longer, or a character
/// ends there.
pub open spec fn cuttable(s: Seq<char>, n: nat) -> bool {
    encode_utf8(s).len() <= n || is_char_boundary(encode_utf8(s), n as int)
}

/// The part of a text that fits in `n` bytes.
pub open spec fn truncated(s: Seq<char>, n: nat) -> Seq<char> {
    if encode_utf8(s).len() <= n {
        s
    } else {
        decode_utf8(encode_utf8(s).take(n as int))
    }
}

/// Whether a text can be cut after `n` bytes.
pub fn can_truncate(s: &str, n: usize) -> (possible: bool)
    ensures
        possible == cuttable(s@, n as nat),
{
    s.as_bytes().len() <= n || s.is_char_boundary(n)
}

/// The part of a text that fits in `n` bytes.
pub fn truncate(s: &str, n: usize) -> (head: &str)
    requires
        cuttable(s@, n as nat),
    ensures
        head@ == truncated(s@, n as nat),
{
    if s.as_bytes().len() <= n {
        s
    } else {
        let head = s.split_at(n).0;
        proof {
            encode_utf8_decode_utf8(head@);
        }
        assert(encode_utf8(head@) =~= encode_utf8(s@).take(n as int));
        head
    }
}

// ---------------------------------------------------------------------------
// What std computes on text
// ---------------------------------------------------------------------------

/// What `String::from_utf8_lossy` makes of some bytes.
pub uninterp spec fn lossy_text(bytes: Seq<u8>) -> Seq<char>;

/// `String::from_utf8_lossy` of std: the text depends on the bytes alone, and
/// bytes that are valid UTF-8 are decoded as they are.
#[verifier::external_body]
pub(crate) fn lossy(bytes: &[u8]) -> (text: String)
    ensures
        text@ == lossy_text(bytes@),
        valid_utf8(bytes@) ==> text@ == decode_utf8(bytes@),
{
    String::from_utf8_lossy(bytes).into_owned()
}

/// What `{:?}` makes of a text: the text in quotes, with escapes.
pub uninterp spec fn debug_text(text: Seq<char>) -> Seq<char>;

/// The `Debug` form of a text that std writes: it depends on the text alone.
#[verifier::external_body]
pub(crate) fn debug_quoted(text: &str) -> (quoted: String)
    ensures
        quoted@ == debug_text(text@),
{
    format!("{text:?}")
}

/// What `str::to_lowercase` makes of a text.
pub uninterp spec fn lower_text(text: Seq<char>) -> Seq<char>;

/// `str::to_lowercase` of std: the result depends on the text alone, and of a
/// text of ASCII characters it changes only the letters `A` to `Z`.
#[verifier::external_body]
pub(crate) fn to_lower(text: &str) -> (lower: String)
    ensures
        lower@ == lower_text(text@),
        is_ascii_chars(text@) ==> lower@ == ascii_lower(text@),
{
    text.to_lowercase()
}

// ---------------------------------------------------------------------------
// Laws
// ---------------------------------------------------------------------------

/// Whether a text holds white space only.
pub open spec fn is_blank(s: Seq<char>) -> bool {
    forall|i: int| 0 <= i < s.len() ==> is_white(#[trigger] s[i])
}

/// Whether a text holds characters, and none of them is white space.
pub open spec fn is_word(s: Seq<char>) -> bool {
    s.len() > 0 && forall|i: int| 0 <= i < s.len() ==> !is_white(#[trigger] s[i])
}

proof fn lemma_trim_start_cut(s: Seq<char>)
    ensures
        exists|from: int|
            0 <= from <= s.len() && trim_start(s) == #[trigger] s.skip(from) && is_blank(
                s.take(from),
            ),
    decreases s.len(),
{
    if s.len() > 0 && is_white(s[0]) {
        let rest = s.drop_first();
        lemma_trim_start_cut(rest);
        let from = choose|from: int|
            0 <= from <= rest.len() && trim_start(rest) == #[trigger] rest.skip(from) && is_blank(
                rest.take(from),
            );
        assert(rest.skip(from) =~= s.skip(from + 1));
        assert forall|i: int| 0 <= i < from + 1 implies is_white(#[trigger] s.take(from + 1)[i]) by {
            if i > 0 {
                assert(is_white(rest.take(from)[i - 1]));
            }
        }
    } else {
        assert(s.skip(0) =~= s);
        assert(is_blank(s.take(0)));
    }
}

proof fn lemma_trim_end_cut(s: Seq<char>)
    ensures
        exists|to: int|
            0 <= to <= s.len() && trim_end(s) == #[trigger] s.take(to) && is_blank(s.skip(to)),
        trim_end(s).len() > 0 ==> !is_white(trim_end(s).last()),
    decreases s.len(),
{
    if s.len() > 0 && is_white(s.last()) {
        let rest = s.drop_last();
        lemma_trim_end_cut(rest);
        let to = choose|to: int|
            0 <= to <= rest.len() && trim_end(rest) == #[trigger] rest.take(to) && is_blank(
                rest.skip(to),
            );
        assert(rest.take(to) =~= s.take(to));
        assert forall|i: int| 0 <= i < s.len() - to implies is_white(#[trigger] s.skip(to)[i]) by {
            if i < s.len() - to - 1 {
                assert(is_white(rest.skip(to)[i]));
            }
        }
    } else {
        assert(s.take(s.len() as int) =~= s);
        assert(is_blank(s.skip(s.len() as int)));
    }
}

/// Trimming takes away white space at the ends and nothing else: the text is
/// what is left, with white space before and after it, and what is left neither
/// starts nor ends with white space.
pub proof fn law_trimming_takes_only_white_ends(s: Seq<char>)
    ensures
        exists|before: Seq<char>, after: Seq<char>|
            is_blank(before) && is_blank(after) && s == #[trigger] (before + trimmed(s) + after),
        trimmed(s).len() > 0 ==> !is_white(trimmed(s)[0]) && !is_white(trimmed(s).last()),
{
    lemma_trim_start_cut(s);
    let from = choose|from: int|
        0 <= from <= s.len() && trim_start(s) == #[trigger] s.skip(from) && is_blank(s.take(from));
    let rest = s.skip(from);
    lemma_trim_end_cut(rest);
    let to = choose|to: int|
        0 <= to <= rest.len() && trim_end(rest) == #[trigger] rest.take(to) && is_blank(
            rest.skip(to),
        );
    lemma_trim_start_len(s);
    let (before, after) = (s.take(from), rest.skip(to));
    assert(s =~= before + trimmed(s) + after);
}

/// What stands between white space is what trimming leaves.
pub proof fn law_trimming_finds_what_is_between(before: Seq<char>, text: Seq<char>, after: Seq<char>)
    requires
        is_blank(before),
        is_blank(after),
        text.len() > 0 ==> !is_white(text[0]) && !is_white(text.last()),
    ensures
        trimmed(before + text + after) == text,
{
    let s = before + text + after;
    lemma_trim_start_cut(s);
    let from = choose|from: int|
        0 <= from <= s.len() && trim_start(s) == #[trigger] s.skip(from) && is_blank(s.take(from));
    let rest = s.skip(from);
    lemma_trim_start_len(s);
    lemma_trim_end_cut(rest);
    let to = choose|to: int|
        0 <= to <= rest.len() && trim_end(rest) == #[trigger] rest.take(to) && is_blank(
            rest.skip(to),
        );
    let t = trimmed(s);
    if text.len() == 0 {
        assert forall|i: int| 0 <= i < s.len() implies is_white(#[trigger] s[i]) by {
            if i < before.len() {
                assert(is_white(before[i]));
            } else {
                assert(is_white(after[i - before.len()]));
            }
        }
        if t.len() > 0 {
            assert(t.last() == s[from + to - 1]);
        }
        assert(t =~= text);
    } else {
        let (a, b) = (before.len() as int, before.len() + text.len());
        assert(s[a] == text[0]);
        assert(s[b - 1] == text.last());
        if from > a {
            assert(s.take(from)[a] == s[a]);
        }
        if from < a {
            assert(rest[0] == before[from]);
        }
        assert(from == a);
        if from + to < b {
            assert(rest.skip(to)[b - 1 - from - to] == s[b - 1]);
        }
        if from + to > b {
            assert(t.last() == s[from + to - 1]);
            assert(s[from + to - 1] == after[from + to - 1 - b]);
        }
        assert(t =~= text);
    }
}

proof fn lemma_word_len_all(s: Seq<char>, n: int)
    requires
        0 <= n <= s.len(),
        forall|i: int| 0 <= i < n ==> !is_white(#[trigger] s[i]),
        n < s.len() ==> is_white(s[n]),
    ensures
        word_len(s) == n,
    decreases s.len(),
{
    if n > 0 {
        assert(!is_white(s[0]));
        let rest = s.drop_first();
        assert forall|i: int| 0 <= i < n - 1 implies !is_white(#[trigger] rest[i]) by {
            assert(rest[i] == s[i + 1]);
        }
        lemma_word_len_all(rest, n - 1);
    }
}

proof fn lemma_word_len_cut(s: Seq<char>)
    ensures
        word_len(s) <= s.len(),
        forall|i: int| 0 <= i < word_len(s) ==> !is_white(#[trigger] s[i]),
        word_len(s) < s.len() ==> is_white(s[word_len(s) as int]),
    decreases s.len(),
{
    if s.len() > 0 && !is_white(s[0]) {
        let rest = s.drop_first();
        lemma_word_len_cut(rest);
        assert forall|i: int| 0 <= i < word_len(s) implies !is_white(#[trigger] s[i]) by {
            if i > 0 {
                assert(s[i] == rest[i - 1]);
            }
        }
        if word_len(s) < s.len() {
            assert(s[word_len(s) as int] == rest[word_len(rest) as int]);
        }
    }
}

/// White space holds no word.
pub proof fn law_white_space_holds_no_word(s: Seq<char>)
    requires
        is_blank(s),
    ensures
        words(s) == Seq::<Seq<char>>::empty(),
{
    lemma_trim_start_len(s);
    lemma_trim_start_cut(s);
    let from = choose|from: int|
        0 <= from <= s.len() && trim_start(s) == #[trigger] s.skip(from) && is_blank(s.take(from));
    if trim_start(s).len() > 0 {
        assert(trim_start(s)[0] == s[from]);
    }
}

/// A text without white space is one word, however long it is.
pub proof fn law_a_word_is_whole(s: Seq<char>)
    requires
        is_word(s),
    ensures
        words(s) == seq![s],
{
    assert(!is_white(s[0]));
    lemma_word_len_all(s, s.len() as int);
    assert(s.take(s.len() as int) =~= s);
    let rest = s.skip(s.len() as int);
    assert(rest =~= Seq::empty());
    assert(words(rest) =~= Seq::empty());
    assert(words(s) =~= seq![s]);
}

/// White space parts words, and nothing else does: the words of two texts with
/// a white space character between them are those of the first and then those
/// of the second.
pub proof fn law_white_space_parts_words(first: Seq<char>, gap: char, second: Seq<char>)
    requires
        is_white(gap),
    ensures
        words(first.push(gap) + second) == words(first) + words(second),
    decreases first.len(),
{
    let all = first.push(gap) + second;
    if first.len() == 0 {
        assert(words(first) =~= Seq::empty());
        assert(all.drop_first() =~= second);
        assert(words(first) + words(second) =~= words(second));
    } else if is_white(first[0]) {
        let rest = first.drop_first();
        assert(all.drop_first() =~= rest.push(gap) + second);
        law_white_space_parts_words(rest, gap, second);
    } else {
        lemma_word_len_cut(first);
        let n = word_len(first) as int;
        assert forall|i: int| 0 <= i < n implies !is_white(#[trigger] all[i]) by {
            assert(all[i] == first[i]);
        }
        lemma_word_len_all(all, n);
        let rest = first.skip(n);
        assert(all.take(n) =~= first.take(n));
        assert(all.skip(n) =~= rest.push(gap) + second);
        assert(n > 0);
        law_white_space_parts_words(rest, gap, second);
        assert(words(all) =~= seq![first.take(n)] + (words(rest) + words(second)));
        assert(words(first) =~= seq![first.take(n)] + words(rest));
        assert(words(all) =~= words(first) + words(second));
    }
}

/// Texts put together without anything between them.
pub open spec fn put_together(parts: Seq<Seq<char>>) -> Seq<char>
    decreases parts.len(),
{
    if parts.len() == 0 {
        Seq::empty()
    } else {
        parts[0] + put_together(parts.skip(1))
    }
}

/// A text without its white space.
pub open spec fn without_white(s: Seq<char>) -> Seq<char>
    decreases s.len(),
{
    if s.len() == 0 {
        Seq::empty()
    } else if is_white(s[0]) {
        without_white(s.skip(1))
    } else {
        seq![s[0]] + without_white(s.skip(1))
    }
}

proof fn lemma_without_white_concat(a: Seq<char>, b: Seq<char>)
    ensures
        without_white(a + b) == without_white(a) + without_white(b),
    decreases a.len(),
{
    if a.len() == 0 {
        assert(a + b =~= b);
        assert(without_white(a) + without_white(b) =~= without_white(b));
    } else {
        lemma_without_white_concat(a.skip(1), b);
        assert((a + b).skip(1) =~= a.skip(1) + b);
        assert(without_white(a + b) =~= without_white(a) + without_white(b));
    }
}

proof fn lemma_without_white_of_word(s: Seq<char>)
    requires
        forall|i: int| 0 <= i < s.len() ==> !is_white(#[trigger] s[i]),
    ensures
        without_white(s) == s,
    decreases s.len(),
{
    if s.len() > 0 {
        assert(!is_white(s[0]));
        assert forall|i: int| 0 <= i < s.len() - 1 implies !is_white(#[trigger] s.skip(1)[i]) by {
            assert(s.skip(1)[i] == s[i + 1]);
        }
        lemma_without_white_of_word(s.skip(1));
        assert(seq![s[0]] + s.skip(1) =~= s);
    } else {
        assert(s =~= Seq::empty());
    }
}

/// The words of a text hold all its characters that are not white space, in
/// order, and each of them is a word.
pub proof fn law_words_lose_no_character(s: Seq<char>)
    ensures
        put_together(words(s)) == without_white(s),
        forall|k: int| 0 <= k < words(s).len() ==> is_word(#[trigger] words(s)[k]),
    decreases s.len(),
{
    let t = trim_start(s);
    lemma_trim_start_cut(s);
    let from = choose|from: int|
        0 <= from <= s.len() && t == #[trigger] s.skip(from) && is_blank(s.take(from));
    lemma_trim_start_len(s);
    assert(s =~= s.take(from) + t);
    lemma_without_white_concat(s.take(from), t);
    lemma_without_white_of_blank(s.take(from));
    assert(without_white(s) =~= without_white(t));
    if t.len() > 0 {
        lemma_word_len_cut(t);
        let n = word_len(t) as int;
        let word = t.take(n);
        let rest = t.skip(n);
        assert(n > 0);
        assert forall|i: int| 0 <= i < word.len() implies !is_white(#[trigger] word[i]) by {
            assert(word[i] == t[i]);
        }
        law_words_lose_no_character(rest);
        let all = words(s);
        assert(all.skip(1) =~= words(rest));
        lemma_without_white_of_word(word);
        assert(t =~= word + rest);
        lemma_without_white_concat(word, rest);
        assert forall|k: int| 0 <= k < all.len() implies is_word(#[trigger] all[k]) by {
            if k > 0 {
                assert(all[k] == words(rest)[k - 1]);
            }
        }
    }
}

proof fn lemma_without_white_of_blank(s: Seq<char>)
    requires
        is_blank(s),
    ensures
        without_white(s) == Seq::<char>::empty(),
    decreases s.len(),
{
    if s.len() > 0 {
        assert(is_white(s[0]));
        assert forall|i: int| 0 <= i < s.len() - 1 implies is_white(#[trigger] s.skip(1)[i]) by {
            assert(s.skip(1)[i] == s[i + 1]);
        }
        lemma_without_white_of_blank(s.skip(1));
    }
}

/// Joining puts the separator between neighbours and nowhere else: lists that
/// are joined one after the other have one separator between them.
pub proof fn law_joining_separates_neighbours(
    first: Seq<Seq<char>>,
    second: Seq<Seq<char>>,
    separator: Seq<char>,
)
    requires
        first.len() > 0,
        second.len() > 0,
    ensures
        joined(first + second, separator) == joined(first, separator) + separator + joined(
            second,
            separator,
        ),
    decreases second.len(),
{
    let all = first + second;
    if second.len() == 1 {
        assert(all.drop_last() =~= first);
    } else {
        let front = second.drop_last();
        assert(all.drop_last() =~= first + front);
        law_joining_separates_neighbours(first, front, separator);
        assert(joined(all, separator) =~= joined(first, separator) + separator + joined(
            second,
            separator,
        ));
    }
}

/// One text is joined to itself, and nothing to nothing.
pub proof fn law_joining_few_texts(text: Seq<char>, separator: Seq<char>)
    ensures
        joined(Seq::empty(), separator) == Seq::<char>::empty(),
        joined(seq![text], separator) == text,
{
}

/// Words that are joined by spaces are split again into the same words.
pub proof fn law_joined_words_are_split_again(list: Seq<Seq<char>>)
    requires
        forall|k: int| 0 <= k < list.len() ==> is_word(#[trigger] list[k]),
    ensures
        words(joined(list, " "@)) == list,
    decreases list.len(),
{
    reveal_strlit(" ");
    if list.len() == 0 {
        law_white_space_holds_no_word(joined(list, " "@));
        assert(list =~= Seq::empty());
    } else if list.len() == 1 {
        law_a_word_is_whole(list[0]);
        assert(seq![list[0]] =~= list);
    } else {
        let front = list.drop_last();
        assert forall|k: int| 0 <= k < front.len() implies is_word(#[trigger] front[k]) by {
            assert(front[k] == list[k]);
        }
        law_joined_words_are_split_again(front);
        let text = joined(front, " "@);
        assert(is_word(list[list.len() - 1]));
        law_a_word_is_whole(list.last());
        law_white_space_parts_words(text, ' ', list.last());
        assert(text.push(' ') + list.last() =~= joined(list, " "@));
        assert(front + seq![list.last()] =~= list);
    }
}

/// Words that are joined by spaces have single spaces between them, and no white
/// space at either end.
pub proof fn law_joined_words_hold_single_spaces(list: Seq<Seq<char>>, i: int)
    requires
        forall|k: int| 0 <= k < list.len() ==> is_word(#[trigger] list[k]),
        0 <= i < joined(list, " "@).len(),
        is_white(joined(list, " "@)[i]),
    ensures
        joined(list, " "@)[i] == ' ',
        0 < i < joined(list, " "@).len() - 1,
        !is_white(joined(list, " "@)[i - 1]),
        !is_white(joined(list, " "@)[i + 1]),
    decreases list.len(),
{
    reveal_strlit(" ");
    let text = joined(list, " "@);
    if list.len() == 1 {
        assert(is_word(list[0]));
        assert(!is_white(list[0][i]));
    } else {
        let front = list.drop_last();
        assert forall|k: int| 0 <= k < front.len() implies is_word(#[trigger] front[k]) by {
            assert(front[k] == list[k]);
        }
        let head = joined(front, " "@);
        let last = list[list.len() - 1];
        assert(is_word(last));
        lemma_joined_words_end(front);
        assert(text =~= head.push(' ') + last);
        if i < head.len() {
            law_joined_words_hold_single_spaces(front, i);
            assert(text[i - 1] == head[i - 1] && text[i + 1] == head[i + 1]);
        } else if i == head.len() {
            assert(text[i - 1] == head.last());
            assert(text[i + 1] == last[0]);
        } else {
            assert(!is_white(last[i - head.len() - 1]));
        }
    }
}

proof fn lemma_joined_words_end(list: Seq<Seq<char>>)
    requires
        list.len() > 0,
        forall|k: int| 0 <= k < list.len() ==> is_word(#[trigger] list[k]),
    ensures
        joined(list, " "@).len() > 0,
        !is_white(joined(list, " "@).last()),
{
    let last = list[list.len() - 1];
    assert(is_word(last));
    assert(joined(list, " "@).last() == last[last.len() - 1]);
}

/// The list of texts is seen text by text.
pub proof fn law_lists_are_seen_whole(parts: Seq<String>, i: int)
    requires
        0 <= i < parts.len(),
    ensures
        views(parts).len() == parts.len(),
        views(parts)[i] == parts[i]@,
{
}

/// The number that decimal digits spell.
pub open spec fn digits_value(digits: Seq<char>) -> int
    decreases digits.len(),
{
    if digits.len() == 0 {
        0
    } else {
        10 * digits_value(digits.drop_last()) + (digits.last() as int - 48)
    }
}

/// The digits of a number spell it: they are decimal digits, without a zero in
/// front.
pub proof fn law_digits_spell_the_number(n: nat)
    ensures
        digits_value(decimal_digits(n)) == n,
        decimal_digits(n).len() > 0,
        forall|i: int|
            0 <= i < decimal_digits(n).len() ==> '0' <= (#[trigger] decimal_digits(n)[i]) <= '9',
        n > 0 ==> decimal_digits(n)[0] != '0',
    decreases n,
{
    let digits = decimal_digits(n);
    if n >= 10 {
        law_digits_spell_the_number(n / 10);
        assert(digits.drop_last() =~= decimal_digits(n / 10));
        assert(digits[0] == decimal_digits(n / 10)[0]);
        assert forall|i: int| 0 <= i < digits.len() implies '0' <= (#[trigger] digits[i])
            <= '9' by {
            if i < digits.len() - 1 {
                assert(digits[i] == decimal_digits(n / 10)[i]);
            }
        }
    } else {
        assert(digits.drop_last() =~= Seq::empty());
        assert(digits_value(digits.drop_last()) == 0);
    }
}

/// A text that is cut keeps its beginning: as many bytes of it as there is room
/// for, and all of it where there is room.
pub proof fn law_a_cut_text_keeps_its_beginning(s: Seq<char>, n: nat)
    requires
        cuttable(s, n),
    ensures
        truncated(s, n).is_prefix_of(s),
        encode_utf8(truncated(s, n)).len() == if encode_utf8(s).len() <= n {
            encode_utf8(s).len()
        } else {
            n
        },
{
    let bytes = encode_utf8(s);
    if bytes.len() > n {
        encode_utf8_valid_utf8(s);
        encode_utf8_decode_utf8(s);
        assert(bytes.subrange(0, n as int) =~= bytes.take(n as int));
        decode_utf8_split(bytes, n as int);
        valid_utf8_split(bytes, n as int);
        decode_utf8_encode_utf8(bytes.take(n as int));
    }
}

/// Putting letters in lower case changes the letters `A` to `Z` alone, each to
/// the letter that stands 32 places after it.
pub proof fn law_lower_case_changes_capitals_alone(s: Seq<char>, i: int)
    requires
        0 <= i < s.len(),
    ensures
        ascii_lower(s).len() == s.len(),
        if 'A' <= s[i] <= 'Z' {
            ascii_lower(s)[i] as int == s[i] as int + 32
        } else {
            ascii_lower(s)[i] == s[i]
        },
{
}

/// Whether a needle is found depends on the characters alone: it stands in a
/// text exactly where the text is something, then the needle, then something.
pub proof fn law_a_needle_is_found_anywhere(before: Seq<char>, needle: Seq<char>, after: Seq<char>)
    ensures
        occurs(before + needle + after, needle),
{
    let text = before + needle + after;
    let at = before.len() as int;
    assert(text.subrange(at, at + needle.len()) =~= needle);
    assert(occurs_at(text, needle, at));
}

/// A needle that is found stands in the text as it is.
pub proof fn law_a_found_needle_stands_there(text: Seq<char>, needle: Seq<char>)
    requires
        occurs(text, needle),
    ensures
        exists|before: Seq<char>, after: Seq<char>| text == #[trigger] (before + needle + after),
{
    let at = choose|at: int| occurs_at(text, needle, at);
    assert(text =~= text.take(at) + needle + text.skip(at + needle.len()));
}

proof fn lemma_boundary_after(s: Seq<char>, k: int)
    requires
        0 <= k <= s.len(),
    ensures
        encode_utf8(s.take(k)).len() <= encode_utf8(s).len(),
        is_char_boundary(encode_utf8(s), encode_utf8(s.take(k)).len() as int),
    decreases k,
{
    let bytes = encode_utf8(s);
    encode_utf8_valid_utf8(s);
    if k > 0 {
        let rest = s.drop_first();
        encode_utf8_first_scalar(s);
        assert(pop_first_scalar(bytes) =~= encode_utf8(rest));
        assert(s.take(k).drop_first() =~= rest.take(k - 1));
        lemma_boundary_after(rest, k - 1);
    }
}

/// A text can be cut exactly where it fits or one of its characters ends there.
pub proof fn law_a_text_can_be_cut_between_characters(s: Seq<char>, n: nat)
    ensures
        cuttable(s, n) <==> encode_utf8(s).len() <= n || exists|k: int|
            0 <= k <= s.len() && encode_utf8(#[trigger] s.take(k)).len() == n,
{
    if cuttable(s, n) && encode_utf8(s).len() > n {
        law_a_cut_text_keeps_its_beginning(s, n);
        let k = truncated(s, n).len() as int;
        assert(s.take(k) =~= truncated(s, n));
    }
    if exists|k: int| 0 <= k <= s.len() && encode_utf8(#[trigger] s.take(k)).len() == n {
        let k = choose|k: int| 0 <= k <= s.len() && encode_utf8(#[trigger] s.take(k)).len() == n;
        lemma_boundary_after(s, k);
    }
}

/// A list of borrowed texts is seen text by text.
pub proof fn law_borrowed_lists_are_seen_whole(list: Seq<&str>, i: int)
    requires
        0 <= i < list.len(),
    ensures
        str_views(list).len() == list.len(),
        str_views(list)[i] == list[i]@,
{
}

} // verus!
