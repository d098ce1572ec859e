//! Operations on text, specified over sequences of characters.

use vstd::prelude::*;
use vstd::utf8::{decode_utf8, encode_utf8, encode_utf8_decode_utf8, valid_utf8};

verus! {

/// `String::push` appends one character.
pub assume_specification[ String::push ](string: &mut String, ch: char)
    ensures
        final(string)@ == old(string)@.push(ch),
;

/// The error of `std::str::from_utf8`, carried only.
#[verifier::external_type_specification]
#[verifier::external_body]
pub struct ExUtf8Error(std::str::Utf8Error);

/// `std::str::from_utf8` accepts exactly the valid UTF-8 sequences and hands out
/// the text that they encode.
pub assume_specification[ std::str::from_utf8 ](bytes: &[u8]) -> (text: Result<
    &str,
    std::str::Utf8Error,
>)
    ensures
        text is Ok <==> valid_utf8(bytes@),
        text matches Ok(t) ==> encode_utf8(t@) == bytes@,
;

/// What `String::from_utf8_lossy` makes of bytes that are not valid UTF-8.
pub uninterp spec fn replaced_utf8(bytes: Seq<u8>) -> Seq<char>;

/// The text of `bytes`, with malformed parts replaced.
pub open spec fn lossy_utf8(bytes: Seq<u8>) -> Seq<char> {
    if valid_utf8(bytes) {
        decode_utf8(bytes)
    } else {
        replaced_utf8(bytes)
    }
}

/// Calls `String::from_utf8_lossy`: valid UTF-8 is decoded as it stands; in other
/// input the malformed parts are replaced, in a way that depends on the bytes alone.
#[verifier::external_body]
pub(crate) fn text_from_utf8_lossy(bytes: &[u8]) -> (text: String)
    ensures
        text@ == if valid_utf8(bytes@) {
            decode_utf8(bytes@)
        } else {
            replaced_utf8(bytes@)
        },
{
    String::from_utf8_lossy(bytes).into_owned()
}

/// The text that `bytes` encode, if they are valid UTF-8.
pub open spec fn utf8_text(bytes: Seq<u8>) -> Option<Seq<char>> {
    if valid_utf8(bytes) {
        Some(decode_utf8(bytes))
    } else {
        None
    }
}

/// Decodes valid UTF-8.
pub fn text_from_utf8(bytes: &[u8]) -> (text: Option<String>)
    ensures
        match text {
            Some(t) => utf8_text(bytes@) == Some(t@),
            None => utf8_text(bytes@) is None,
        },
{
    match std::str::from_utf8(bytes) {
        Ok(text) => {
            proof {
                encode_utf8_decode_utf8(text@);
            }
            Some(text.to_owned())
        },
        Err(_) => None,
    }
}

/// Whether two texts are the same.
pub fn same_text(left: &str, right: &str) -> (same: bool)
    ensures
        same == (left@ == right@),
{
    let a = left.as_bytes();
    let b = right.as_bytes();
    proof {
        encode_utf8_decode_utf8(left@);
        encode_utf8_decode_utf8(right@);
    }
    if a.len() != b.len() {
        return false;
    }
    let mut i: usize = 0;
    while i < a.len()
        invariant
            a@ == encode_utf8(left@),
            b@ == encode_utf8(right@),
            a@.len() == b@.len(),
            i <= a@.len(),
            forall|j: int| 0 <= j < i ==> a@[j] == b@[j],
        decreases a@.len() - i,
    {
        if a[i] != b[i] {
            return false;
        }
        i += 1;
    }
    assert(a@ =~= b@);
    true
}

/// The characters of a text, in order.
pub fn chars_of(text: &str) -> (chars: Vec<char>)
    ensures
        chars@ == text@,
{
    let mut chars: Vec<char> = Vec::new();
    for c in iter: text.chars()
        invariant
            chars@ == iter.seq().take(iter.index() as int),
            iter.seq() == text@,
    {
        chars.push(c);
    }
    chars
}

/// The text made of the characters `chars[from..to]`.
pub fn string_of(chars: &[char], from: usize, to: usize) -> (text: String)
    requires
        from <= to <= chars@.len(),
    ensures
        text@ == chars@.subrange(from as int, to as int),
{
    let mut text = String::new();
    let mut i: usize = from;
    while i < to
        invariant
            from <= i <= to <= chars@.len(),
            text@ == chars@.subrange(from as int, i as int),
        decreases to - i,
    {
        text.push(chars[i]);
        i += 1;
    }
    text
}

/// The texts of a list of strings.
pub open spec fn texts(strings: Seq<String>) -> Seq<Seq<char>> {
    strings.map_values(|s: String| s@)
}

/// An optional text.
pub open spec fn text_view(text: Option<String>) -> Option<Seq<char>> {
    match text {
        Some(t) => Some(t@),
        None => None,
    }
}

/// The views of optional bytes.
pub open spec fn bytes_view(bytes: Option<Vec<u8>>) -> Option<Seq<u8>> {
    match bytes {
        Some(b) => Some(b@),
        None => None,
    }
}

/// A copy of a text, if there is one.
pub fn clone_text(text: &Option<String>) -> (copy: Option<String>)
    ensures
        text_view(copy) == text_view(*text),
{
    match text {
        Some(text) => Some(text.clone()),
        None => None,
    }
}

/// The first text, or else the second.
pub open spec fn either_text(first: Option<Seq<char>>, second: Option<Seq<char>>) -> Option<
    Seq<char>,
> {
    match first {
        Some(text) => Some(text),
        None => second,
    }
}

/// The bytes that encode a text.
pub fn bytes_of(text: &str) -> (bytes: Vec<u8>)
    ensures
        bytes@ == encode_utf8(text@),
{
    let encoded = text.as_bytes();
    let mut bytes: Vec<u8> = Vec::new();
    let mut i: usize = 0;
    while i < encoded.len()
        invariant
            i <= encoded@.len(),
            bytes@ == encoded@.take(i as int),
        decreases encoded@.len() - i,
    {
        bytes.push(encoded[i]);
        i += 1;
    }
    assert(bytes@ =~= encoded@);
    bytes
}

/// Two texts in a row.
pub fn concat(left: &str, right: &str) -> (text: String)
    ensures
        text@ == left@ + right@,
{
    let mut text = left.to_owned();
    text.append(right);
    text
}

/// The characters with the Unicode property `White_Space`.
pub open spec fn is_white_space(c: char) -> bool {
    ||| '\u{9}' <= c <= '\u{d}'
    ||| c == ' '
    ||| c == '\u{85}'
    ||| c == '\u{a0}'
    ||| c == '\u{1680}'
    ||| '\u{2000}' <= c <= '\u{200a}'
    ||| c == '\u{2028}'
    ||| c == '\u{2029}'
    ||| c == '\u{202f}'
    ||| c == '\u{205f}'
    ||| c == '\u{3000}'
}

/// The control characters (general category `Cc`).
pub open spec fn is_control(c: char) -> bool {
    c <= '\u{1f}' || '\u{7f}' <= c <= '\u{9f}'
}

/// A set of characters that can be trimmed.
#[derive(Clone, Copy)]
pub enum CharClass {
    WhiteSpace,
    Control,
    ControlOrWhiteSpace,
    Nul,
}

impl CharClass {
    pub open spec fn has(self, c: char) -> bool {
        match self {
            CharClass::WhiteSpace => is_white_space(c),
            CharClass::Control => is_control(c),
            CharClass::ControlOrWhiteSpace => is_control(c) || is_white_space(c),
            CharClass::Nul => c == '\0',
        }
    }

    /// Whether `c` belongs to the class.
    pub fn contains(self, c: char) -> (belongs: bool)
        ensures
            belongs == self.has(c),
    {
        match self {
            CharClass::WhiteSpace => white_space(c),
            CharClass::Control => control(c),
            CharClass::ControlOrWhiteSpace => control(c) || white_space(c),
            CharClass::Nul => c == '\0',
        }
    }
}

fn white_space(c: char) -> (belongs: bool)
    ensures
        belongs == is_white_space(c),
{
    ('\u{9}' <= c && c <= '\u{d}') || c == ' ' || c == '\u{85}' || c == '\u{a0}' || c == '\u{1680}'
        || ('\u{2000}' <= c && c <= '\u{200a}') || c == '\u{2028}' || c == '\u{2029}' || c
        == '\u{202f}' || c == '\u{205f}' || c == '\u{3000}'
}

fn control(c: char) -> (belongs: bool)
    ensures
        belongs == is_control(c),
{
    c <= '\u{1f}' || ('\u{7f}' <= c && c <= '\u{9f}')
}

pub open spec fn trim_start(s: Seq<char>, class: CharClass) -> Seq<char>
    decreases s.len(),
{
    if s.len() > 0 && class.has(s[0]) {
        trim_start(s.drop_first(), class)
    } else {
        s
    }
}

pub open spec fn trim_end(s: Seq<char>, class: CharClass) -> Seq<char>
    decreases s.len(),
{
    if s.len() > 0 && class.has(s.last()) {
        trim_end(s.drop_last(), class)
    } else {
        s
    }
}

/// `s` without the characters of `class` at its ends.
pub open spec fn trim_both(s: Seq<char>, class: CharClass) -> Seq<char> {
    trim_end(trim_start(s, class), class)
}

/// `s` without the white space at its ends.
pub open spec fn trimmed(s: Seq<char>) -> Seq<char> {
    trim_both(s, CharClass::WhiteSpace)
}

/// What is left after trimming is not trimmed further.
pub proof fn law_trim_twice(s: Seq<char>, class: CharClass)
    ensures
        trim_both(trim_both(s, class), class) == trim_both(s, class),
{
    let t = trim_start(s, class);
    let r = trim_end(t, class);
    lemma_trim_start(s, class);
    lemma_trim_end(t, class);
}

proof fn lemma_trim_start(s: Seq<char>, class: CharClass)
    ensures
        trim_start(s, class).len() > 0 ==> !class.has(trim_start(s, class)[0]),
        trim_start(s, class).len() <= s.len(),
        trim_start(s, class) == s.skip(s.len() - trim_start(s, class).len()),
    decreases s.len(),
{
    if s.len() > 0 && class.has(s[0]) {
        lemma_trim_start(s.drop_first(), class);
        let n = trim_start(s, class).len();
        assert(s.drop_first().skip(s.drop_first().len() - n) =~= s.skip(s.len() - n));
    } else {
        assert(s.skip(0) =~= s);
    }
}

proof fn lemma_trim_end(s: Seq<char>, class: CharClass)
    ensures
        trim_end(s, class).len() > 0 ==> !class.has(trim_end(s, class).last()),
        trim_end(s, class).len() <= s.len(),
        trim_end(s, class) == s.take(trim_end(s, class).len() as int),
    decreases s.len(),
{
    if s.len() > 0 && class.has(s.last()) {
        lemma_trim_end(s.drop_last(), class);
        let n = trim_end(s, class).len() as int;
        assert(s.drop_last().take(n) =~= s.take(n));
    } else {
        assert(s.take(s.len() as int) =~= s);
    }
}

/// A text that neither begins nor ends with a character of the class stays as it is.
pub proof fn lemma_trim_nothing(s: Seq<char>, class: CharClass)
    requires
        s.len() > 0 ==> !class.has(s[0]) && !class.has(s.last()),
    ensures
        trim_both(s, class) == s,
{
}

/// The range that is left of `chars[from..to]` after trimming.
pub fn trim_range(chars: &[char], from: usize, to: usize, class: CharClass) -> (range: (
    usize,
    usize,
))
    requires
        from <= to <= chars@.len(),
    ensures
        from <= range.0 <= range.1 <= to,
        chars@.subrange(range.0 as int, range.1 as int) == trim_both(
            chars@.subrange(from as int, to as int),
            class,
        ),
{
    let ghost whole = chars@.subrange(from as int, to as int);
    let mut lo: usize = from;
    while lo < to && class.contains(chars[lo])
        invariant
            from <= lo <= to <= chars@.len(),
            trim_start(whole, class) == trim_start(
                chars@.subrange(lo as int, to as int),
                class,
            ),
        decreases to - lo,
    {
        assert(chars@.subrange(lo as int, to as int).drop_first() =~= chars@.subrange(
            lo + 1,
            to as int,
        ));
        lo += 1;
    }
    let ghost left = chars@.subrange(lo as int, to as int);
    assert(trim_start(whole, class) == left);
    let mut hi: usize = to;
    while lo < hi && class.contains(chars[hi - 1])
        invariant
            lo <= hi <= to <= chars@.len(),
            trim_end(left, class) == trim_end(chars@.subrange(lo as int, hi as int), class),
        decreases hi - lo,
    {
        assert(chars@.subrange(lo as int, hi as int).drop_last() =~= chars@.subrange(
            lo as int,
            hi - 1,
        ));
        hi -= 1;
    }
    (lo, hi)
}

/// The text without the characters of `class` at its ends.
pub fn trim_matches(text: &str, class: CharClass) -> (result: String)
    ensures
        result@ == trim_both(text@, class),
{
    let chars = chars_of(text);
    let (lo, hi) = trim_range(chars.as_slice(), 0, chars.len(), class);
    assert(chars@.subrange(0, chars@.len() as int) =~= chars@);
    string_of(chars.as_slice(), lo, hi)
}

/// The text without the white space at its ends.
pub fn trim(text: &str) -> (result: String)
    ensures
        result@ == trimmed(text@),
{
    trim_matches(text, CharClass::WhiteSpace)
}

/// Whether `needle` stands in `hay` at `i`.
pub open spec fn occurs_at(hay: Seq<char>, needle: Seq<char>, i: int) -> bool {
    &&& 0 <= i
    &&& i + needle.len() <= hay.len()
    &&& hay.subrange(i, i + needle.len()) == needle
}

/// The first place from `from` on at which `needle` stands in `hay`.
pub open spec fn find_from(hay: Seq<char>, needle: Seq<char>, from: int) -> Option<int>
    decreases hay.len() - from + 1,
{
    if from < 0 || from + needle.len() > hay.len() {
        None
    } else if occurs_at(hay, needle, from) {
        Some(from)
    } else {
        find_from(hay, needle, from + 1)
    }
}

/// The first place at which `needle` stands in `hay`.
pub open spec fn find(hay: Seq<char>, needle: Seq<char>) -> Option<int> {
    find_from(hay, needle, 0)
}

/// `find_from` finds the first occurrence, and one wherever there is one.
pub proof fn lemma_find_from(hay: Seq<char>, needle: Seq<char>, from: int)
    requires
        0 <= from,
    ensures
        match find_from(hay, needle, from) {
            Some(k) => {
                &&& from <= k
                &&& occurs_at(hay, needle, k)
                &&& forall|j: int| from <= j < k ==> !occurs_at(hay, needle, j)
            },
            None => forall|j: int| from <= j ==> !occurs_at(hay, needle, j),
        },
    decreases hay.len() - from + 1,
{
    if from + needle.len() <= hay.len() && !occurs_at(hay, needle, from) {
        lemma_find_from(hay, needle, from + 1);
    }
}

/// An occurrence with none before it is the one that is found.
pub proof fn lemma_find_is_first(hay: Seq<char>, needle: Seq<char>, k: int)
    requires
        occurs_at(hay, needle, k),
        forall|j: int| 0 <= j < k ==> !occurs_at(hay, needle, j),
    ensures
        find(hay, needle) == Some(k),
{
    lemma_find_from(hay, needle, 0);
}

fn stands_at(hay: &[char], needle: &[char], at: usize) -> (stands: bool)
    requires
        at + needle@.len() <= hay@.len(),
    ensures
        stands == occurs_at(hay@, needle@, at as int),
{
    let size = hay.len();
    let mut i: usize = 0;
    while i < needle.len()
        invariant
            i <= needle@.len(),
            at + needle@.len() <= size,
            size == hay@.len(),
            forall|j: int| 0 <= j < i ==> hay@[at + j] == needle@[j],
        decreases needle@.len() - i,
    {
        if hay[at + i] != needle[i] {
            assert(hay@.subrange(at as int, at + needle@.len())[i as int] == hay@[at + i]);
            return false;
        }
        i += 1;
    }
    assert(hay@.subrange(at as int, at + needle@.len()) =~= needle@);
    true
}

/// The first place from `from` on at which `needle` stands in `hay`.
pub fn find_chars(hay: &[char], needle: &[char], from: usize) -> (place: Option<usize>)
    ensures
        match place {
            Some(k) => find_from(hay@, needle@, from as int) == Some(k as int) && from <= k && k
                + needle@.len() <= hay@.len(),
            None => find_from(hay@, needle@, from as int) is None,
        },
{
    let size = hay.len();
    let length = needle.len();
    let mut i: usize = from;
    while length <= size && i <= size - length
        invariant
            from <= i,
            size == hay@.len(),
            length == needle@.len(),
            find_from(hay@, needle@, from as int) == find_from(hay@, needle@, i as int),
        decreases size - i,
    {
        if stands_at(hay, needle, i) {
            return Some(i);
        }
        assert(length > 0) by {
            assert(length == 0 ==> hay@.subrange(i as int, i as int) =~= needle@);
        }
        i += 1;
    }
    None
}

/// The place of the last `c` before `end`.
pub open spec fn last_index(s: Seq<char>, c: char, end: int) -> Option<int>
    decreases end,
{
    if end <= 0 || end > s.len() {
        None
    } else if s[end - 1] == c {
        Some(end - 1)
    } else {
        last_index(s, c, end - 1)
    }
}

/// The last place is one where the character stands, and behind it there is none.
pub proof fn lemma_last_index(s: Seq<char>, c: char, end: int)
    requires
        0 <= end <= s.len(),
    ensures
        match last_index(s, c, end) {
            Some(place) => 0 <= place < end && s[place] == c && forall|i: int|
                place < i < end ==> s[i] != c,
            None => forall|i: int| 0 <= i < end ==> s[i] != c,
        },
    decreases end,
{
    if end > 0 && s[end - 1] != c {
        lemma_last_index(s, c, end - 1);
    }
}

/// The place of the last `c`.
pub fn find_last(chars: &[char], c: char) -> (place: Option<usize>)
    ensures
        match place {
            Some(i) => last_index(chars@, c, chars@.len() as int) == Some(i as int) && i
                < chars@.len(),
            None => last_index(chars@, c, chars@.len() as int) is None,
        },
{
    let mut end: usize = chars.len();
    while end > 0
        invariant
            end <= chars@.len(),
            last_index(chars@, c, chars@.len() as int) == last_index(chars@, c, end as int),
        decreases end,
    {
        if chars[end - 1] == c {
            return Some(end - 1);
        }
        end -= 1;
    }
    None
}

/// Whether `c` occurs in the text.
pub fn contains_char(chars: &[char], c: char) -> (found: bool)
    ensures
        found == chars@.contains(c),
{
    let mut i: usize = 0;
    while i < chars.len()
        invariant
            i <= chars@.len(),
            forall|j: int| 0 <= j < i ==> chars@[j] != c,
        decreases chars@.len() - i,
    {
        if chars[i] == c {
            assert(chars@[i as int] == c);
            return true;
        }
        i += 1;
    }
    false
}

/// Whether the text begins with `prefix`.
pub fn starts_with(text: &str, prefix: &str) -> (starts: bool)
    ensures
        starts == occurs_at(text@, prefix@, 0),
{
    let hay = chars_of(text);
    let needle = chars_of(prefix);
    needle.len() <= hay.len() && stands_at(hay.as_slice(), needle.as_slice(), 0)
}

/// `s` without any repetition of `prefix` at its start.
pub open spec fn strip_repeated(s: Seq<char>, prefix: Seq<char>) -> Seq<char>
    decreases s.len(),
{
    if prefix.len() > 0 && occurs_at(s, prefix, 0) {
        strip_repeated(s.skip(prefix.len() as int), prefix)
    } else {
        s
    }
}

/// The text without any repetition of `prefix` at its start.
pub fn trim_start_matches(text: &str, prefix: &str) -> (result: String)
    ensures
        result@ == strip_repeated(text@, prefix@),
{
    let hay = chars_of(text);
    let needle = chars_of(prefix);
    let mut at: usize = 0;
    assert(hay@.skip(0) =~= hay@);
    while needle.len() > 0 && needle.len() <= hay.len() - at && stands_at(
        hay.as_slice(),
        needle.as_slice(),
        at,
    )
        invariant
            at <= hay@.len(),
            needle@ == prefix@,
            hay@ == text@,
            strip_repeated(text@, prefix@) == strip_repeated(hay@.skip(at as int), prefix@),
        decreases hay@.len() - at,
    {
        let ghost rest = hay@.skip(at as int);
        assert(rest.subrange(0, needle@.len() as int) =~= hay@.subrange(
            at as int,
            at + needle@.len(),
        ));
        assert(rest.skip(needle@.len() as int) =~= hay@.skip(at + needle@.len()));
        at += needle.len();
    }
    let ghost rest = hay@.skip(at as int);
    proof {
        if needle@.len() <= rest.len() {
            assert(rest.subrange(0, needle@.len() as int) =~= hay@.subrange(
                at as int,
                at + needle@.len(),
            ));
        }
        assert(rest =~= hay@.subrange(at as int, hay@.len() as int));
    }
    string_of(hay.as_slice(), at, hay.len())
}

/// The parts with `separator` between each two of them.
pub open spec fn joined(parts: Seq<Seq<char>>, separator: Seq<char>) -> Seq<char>
    decreases parts.len(),
{
    if parts.len() == 0 {
        seq![]
    } else if parts.len() == 1 {
        parts[0]
    } else {
        joined(parts.drop_last(), separator) + separator + parts.last()
    }
}

/// The parts with `separator` between each two of them.
pub fn join(parts: &Vec<String>, separator: &str) -> (result: String)
    ensures
        result@ == joined(texts(parts@), separator@),
{
    let mut result = String::new();
    let mut i: usize = 0;
    while i < parts.len()
        invariant
            i <= parts@.len(),
            result@ == joined(texts(parts@).take(i as int), separator@),
        decreases parts@.len() - i,
    {
        assert(texts(parts@).take(i + 1).drop_last() =~= texts(parts@).take(i as int));
        if i > 0 {
            result.append(separator);
        }
        result.append(parts[i].as_str());
        i += 1;
    }
    assert(texts(parts@).take(parts@.len() as int) =~= texts(parts@));
    result
}

/// The pieces of a text between separators.
pub open spec fn pieces(text: Seq<char>, separator: char) -> Seq<Seq<char>>
    decreases text.len(),
{
    if text.len() == 0 {
        seq![seq![]]
    } else {
        let before = pieces(text.drop_last(), separator);
        if text.last() == separator {
            before.push(seq![])
        } else {
            before.drop_last().push(before.last().push(text.last()))
        }
    }
}

/// There is always a piece.
pub proof fn lemma_some_piece(text: Seq<char>, separator: char)
    ensures
        pieces(text, separator).len() > 0,
    decreases text.len(),
{
    if text.len() > 0 {
        lemma_some_piece(text.drop_last(), separator);
    }
}

/// The pieces between separators, joined again, are the text.
pub proof fn law_pieces_make_the_text(text: Seq<char>, separator: char)
    ensures
        joined(pieces(text, separator), seq![separator]) == text,
        forall|i: int|
            0 <= i < pieces(text, separator).len() ==> !(#[trigger] pieces(
                text,
                separator,
            )[i]).contains(separator),
    decreases text.len(),
{
    let parts = pieces(text, separator);
    let sep = seq![separator];
    if text.len() == 0 {
        assert(joined(parts, sep) =~= text);
    } else {
        let before = pieces(text.drop_last(), separator);
        law_pieces_make_the_text(text.drop_last(), separator);
        lemma_some_piece(text.drop_last(), separator);
        if text.last() == separator {
            assert(parts.drop_last() =~= before);
            assert(joined(parts, sep) =~= text.drop_last() + sep + Seq::<char>::empty());
        } else {
            let longer = before.last().push(text.last());
            assert(parts.drop_last() =~= before.drop_last());
            assert(parts.last() == longer);
            assert(!longer.contains(separator)) by {
                assert(!before[before.len() - 1].contains(separator));
                assert forall|k: int| 0 <= k < longer.len() implies longer[k] != separator by {
                    if k < before.last().len() {
                        assert(longer[k] == before.last()[k]);
                        assert(before.last().contains(before.last()[k]));
                    }
                }
            }
            if parts.len() == 1 {
                assert(joined(before, sep) == before[0]);
                assert(joined(parts, sep) =~= text.drop_last().push(text.last()));
            } else {
                assert(joined(parts, sep) =~= joined(before, sep).push(text.last()));
            }
            assert forall|i: int| 0 <= i < parts.len() implies !(#[trigger] parts[i]).contains(
                separator,
            ) by {
                if i < parts.len() - 1 {
                    assert(parts[i] == before[i]);
                }
            }
        }
        assert(text.drop_last().push(text.last()) =~= text);
    }
}

/// Trimming takes away characters of the class at both ends, all of them, and nothing
/// else.
pub proof fn law_trim_takes_the_ends_away(s: Seq<char>, class: CharClass)
    ensures
        exists|lo: int, hi: int|
            0 <= lo <= hi <= s.len() && trim_both(s, class) == #[trigger] s.subrange(lo, hi) && (
            forall|i: int| 0 <= i < lo ==> class.has(#[trigger] s[i])) && (forall|i: int|
                hi <= i < s.len() ==> class.has(#[trigger] s[i])) && (lo < hi ==> !class.has(s[lo])
                && !class.has(s[hi - 1])),
{
    let t = trim_start(s, class);
    let r = trim_end(t, class);
    lemma_trim_start(s, class);
    lemma_trim_end(t, class);
    lemma_start_is_of_class(s, class);
    lemma_end_is_of_class(t, class);
    let lo = s.len() - t.len();
    let hi = lo + r.len();
    assert(r =~= s.subrange(lo, hi));
    assert forall|i: int| hi <= i < s.len() implies class.has(#[trigger] s[i]) by {
        assert(t[i - lo] == s[i]);
    }
    if lo < hi {
        assert(r[0] == t[0] && t[0] == s[lo]);
        assert(r.last() == s[hi - 1]);
    }
}

proof fn lemma_start_is_of_class(s: Seq<char>, class: CharClass)
    ensures
        forall|i: int| 0 <= i < s.len() - trim_start(s, class).len() ==> class.has(#[trigger] s[i]),
    decreases s.len(),
{
    if s.len() > 0 && class.has(s[0]) {
        let rest = s.drop_first();
        lemma_start_is_of_class(rest, class);
        assert forall|i: int| 0 <= i < s.len() - trim_start(s, class).len() implies class.has(
            #[trigger] s[i],
        ) by {
            if i > 0 {
                assert(rest[i - 1] == s[i]);
            }
        }
    }
}

proof fn lemma_end_is_of_class(s: Seq<char>, class: CharClass)
    ensures
        forall|i: int| trim_end(s, class).len() <= i < s.len() ==> class.has(#[trigger] s[i]),
    decreases s.len(),
{
    if s.len() > 0 && class.has(s.last()) {
        let rest = s.drop_last();
        lemma_end_is_of_class(rest, class);
        assert forall|i: int| trim_end(s, class).len() <= i < s.len() implies class.has(
            #[trigger] s[i],
        ) by {
            if i < rest.len() {
                assert(rest[i] == s[i]);
            }
        }
    }
}

/// Only a text of nothing but white space is trimmed to nothing.
pub proof fn law_only_blanks_are_trimmed_away(s: Seq<char>)
    ensures
        trimmed(s).len() == 0 <==> (forall|i: int|
            0 <= i < s.len() ==> is_white_space(#[trigger] s[i])),
{
    law_trim_takes_the_ends_away(s, CharClass::WhiteSpace);
    let (lo, hi) = choose|lo: int, hi: int|
        0 <= lo <= hi <= s.len() && trim_both(s, CharClass::WhiteSpace) == #[trigger] s.subrange(
            lo,
            hi,
        ) && (forall|i: int| 0 <= i < lo ==> CharClass::WhiteSpace.has(#[trigger] s[i])) && (
        forall|i: int| hi <= i < s.len() ==> CharClass::WhiteSpace.has(#[trigger] s[i])) && (lo < hi
            ==> !CharClass::WhiteSpace.has(s[lo]) && !CharClass::WhiteSpace.has(s[hi - 1]));
    if lo == hi {
        assert forall|i: int| 0 <= i < s.len() implies is_white_space(#[trigger] s[i]) by {
            assert(CharClass::WhiteSpace.has(s[i]));
        }
    } else {
        assert(!is_white_space(s[lo]));
    }
}

/// Spaces, tabs and line ends are white space, and no character that is seen is, nor one
/// that controls.
pub proof fn law_character_classes(c: char)
    ensures
        c == ' ' || c == '\t' || c == '\n' || c == '\r' ==> is_white_space(c),
        '!' <= c <= '~' ==> !is_white_space(c) && !is_control(c),
        c < ' ' ==> is_control(c),
        CharClass::Control.has(c) || CharClass::WhiteSpace.has(c)
            <==> CharClass::ControlOrWhiteSpace.has(c),
        CharClass::Nul.has(c) ==> CharClass::Control.has(c) && c < '\u{1}',
{
}

/// A repeated prefix is stripped to the last repetition, and a text that does not begin
/// with it stays as it is.
pub proof fn law_prefix_is_stripped(s: Seq<char>, prefix: Seq<char>)
    ensures
        strip_repeated(prefix + s, prefix) == strip_repeated(s, prefix),
        !occurs_at(s, prefix, 0) ==> strip_repeated(s, prefix) == s,
        prefix.len() > 0 ==> !occurs_at(strip_repeated(s, prefix), prefix, 0),
    decreases s.len(),
{
    let n = prefix.len() as int;
    assert((prefix + s).subrange(0, n) =~= prefix);
    assert((prefix + s).skip(n) =~= s);
    if n == 0 {
        assert(prefix + s =~= s);
    } else if occurs_at(s, prefix, 0) {
        law_prefix_is_stripped(s.skip(n), prefix);
    }
}

/// Joined parts are the parts, with a separator between those that are joined in one
/// place and those in another.
pub proof fn law_joined_in_places(left: Seq<Seq<char>>, right: Seq<Seq<char>>, separator: Seq<char>)
    ensures
        joined(seq![], separator).len() == 0,
        left.len() == 1 ==> joined(left, separator) == left[0],
        left.len() > 0 && right.len() > 0 ==> joined(left + right, separator) == joined(
            left,
            separator,
        ) + separator + joined(right, separator),
    decreases right.len(),
{
    if left.len() > 0 && right.len() > 0 {
        let all = left + right;
        assert(all.last() == right.last());
        if right.len() == 1 {
            assert(all.drop_last() =~= left);
        } else {
            law_joined_in_places(left, right.drop_last(), separator);
            assert(all.drop_last() =~= left + right.drop_last());
            assert(joined(all, separator) =~= joined(left, separator) + separator + joined(
                right,
                separator,
            ));
        }
    }
}

/// Characters of the class around a text make no difference once it is trimmed.
pub proof fn law_padding_is_trimmed(
    before: Seq<char>,
    s: Seq<char>,
    after: Seq<char>,
    class: CharClass,
)
    requires
        forall|i: int| 0 <= i < before.len() ==> class.has(#[trigger] before[i]),
        forall|i: int| 0 <= i < after.len() ==> class.has(#[trigger] after[i]),
    ensures
        trim_both(before + s + after, class) == trim_both(s, class),
{
    assert(before + s + after =~= before + (s + after));
    lemma_trim_padded_start(before, s + after, class);
    lemma_trim_start_and_pad(s, after, class);
}

proof fn lemma_trim_padded_start(before: Seq<char>, s: Seq<char>, class: CharClass)
    requires
        forall|i: int| 0 <= i < before.len() ==> class.has(#[trigger] before[i]),
    ensures
        trim_start(before + s, class) == trim_start(s, class),
    decreases before.len(),
{
    let all = before + s;
    if before.len() == 0 {
        assert(all =~= s);
    } else {
        let rest = before.drop_first();
        assert(all[0] == before[0]);
        assert(all.drop_first() =~= rest + s);
        assert forall|i: int| 0 <= i < rest.len() implies class.has(#[trigger] rest[i]) by {
            assert(rest[i] == before[i + 1]);
        }
        lemma_trim_padded_start(rest, s, class);
    }
}

proof fn lemma_trim_padded_end(s: Seq<char>, after: Seq<char>, class: CharClass)
    requires
        forall|i: int| 0 <= i < after.len() ==> class.has(#[trigger] after[i]),
    ensures
        trim_end(s + after, class) == trim_end(s, class),
    decreases after.len(),
{
    let all = s + after;
    if after.len() == 0 {
        assert(all =~= s);
    } else {
        let rest = after.drop_last();
        assert(class.has(after[after.len() - 1]));
        assert(all.last() == after.last());
        assert(all.drop_last() =~= s + rest);
        assert forall|i: int| 0 <= i < rest.len() implies class.has(#[trigger] rest[i]) by {
            assert(rest[i] == after[i]);
        }
        lemma_trim_padded_end(s, rest, class);
    }
}

proof fn lemma_trim_start_and_pad(s: Seq<char>, after: Seq<char>, class: CharClass)
    requires
        forall|i: int| 0 <= i < after.len() ==> class.has(#[trigger] after[i]),
    ensures
        trim_both(s + after, class) == trim_both(s, class),
    decreases s.len(),
{
    let all = s + after;
    if s.len() == 0 {
        assert(all =~= after + Seq::<char>::empty());
        lemma_trim_padded_start(after, Seq::empty(), class);
        assert(s =~= Seq::<char>::empty());
    } else if class.has(s[0]) {
        assert(all[0] == s[0]);
        assert(all.drop_first() =~= s.drop_first() + after);
        lemma_trim_start_and_pad(s.drop_first(), after, class);
    } else {
        assert(all[0] == s[0]);
        lemma_trim_padded_end(s, after, class);
    }
}

/// What is found is the first occurrence, and nothing is found without one.
pub proof fn law_first_occurrence(hay: Seq<char>, needle: Seq<char>, from: int, k: int)
    requires
        0 <= from <= k,
        k + needle.len() <= hay.len() ==> hay.subrange(k, k + needle.len()) == needle,
        forall|j: int|
            #![trigger hay.subrange(j, j + needle.len())]
            from <= j < k && j + needle.len() <= hay.len() ==> hay.subrange(j, j + needle.len())
                != needle,
    ensures
        find_from(hay, needle, from) == if k + needle.len() <= hay.len() {
            Some(k)
        } else {
            None
        },
    decreases k - from,
{
    if from < k {
        if from + needle.len() <= hay.len() {
            assert(hay.subrange(from, from + needle.len()) != needle);
        }
        law_first_occurrence(hay, needle, from + 1, k);
    }
}

/// The last place of a character in a text is the one with none behind it.
pub proof fn law_last_occurrence(s: Seq<char>, c: char, k: int)
    requires
        -1 <= k < s.len(),
        k >= 0 ==> s[k] == c,
        forall|i: int| k < i < s.len() ==> #[trigger] s[i] != c,
    ensures
        last_index(s, c, s.len() as int) == if k >= 0 {
            Some(k)
        } else {
            None
        },
{
    lemma_last_index(s, c, s.len() as int);
}

} // verus!
