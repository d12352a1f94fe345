//! Texts and their characters: what the library knows of a string is the
//! sequence of its characters, which is its view.
use vstd::prelude::*;
use vstd::utf8::*;

verus! {

broadcast use vstd::seq_lib::group_seq_properties;

/// `String::push` appends the character to the end of the string.
pub assume_specification[ String::push ](s: &mut String, ch: char)
    ensures
        final(s)@ == old(s)@.push(ch),
;

/// The texts that a sequence of strings holds.
pub open spec fn texts(strings: Seq<String>) -> Seq<Seq<char>> {
    strings.map_values(|s: String| s@)
}

/// The texts of a row of strings and one more.
pub broadcast proof fn lemma_texts_push(strings: Seq<String>, s: String)
    ensures
        #[trigger] texts(strings.push(s)) == texts(strings).push(s@),
{
    assert(texts(strings.push(s)) =~= texts(strings).push(s@));
}

/// Whether a character has the Unicode property `White_Space`.
pub open spec fn white_space(c: char) -> bool {
    ||| '\u{9}' <= c <= '\u{d}'
    ||| c == ' '
    ||| c == '\u{85}'
    ||| c == '\u{a0}'
    ||| c == '\u{1680}'
    ||| '\u{2000}' <= c <= '\u{200a}'
    ||| c == '\u{2028}'
    ||| c == '\u{2029}'
    ||| c == '\u{202f}'
    ||| c == '\u{205f}'
    ||| c == '\u{3000}'
}

/// A text without the white space that it starts and ends with.
pub open spec fn trimmed(s: Seq<char>) -> Seq<char>
    decreases s.len(),
{
    if s.len() > 0 && white_space(s[0]) {
        trimmed(s.drop_first())
    } else if s.len() > 0 && white_space(s.last()) {
        trimmed(s.drop_last())
    } else {
        s
    }
}

/// A text with each character `from` turned into `to`.
pub open spec fn replaced(s: Seq<char>, from: char, to: char) -> Seq<char> {
    Seq::new(s.len(), |i: int| if s[i] == from { to } else { s[i] })
}

/// The pieces of a text between the separators: one more than it has
/// separators, the empty ones among them.
pub open spec fn pieces(s: Seq<char>, separator: char) -> Seq<Seq<char>>
    decreases s.len(),
{
    if s.len() == 0 {
        seq![s]
    } else {
        let before = pieces(s.drop_last(), separator);
        if s.last() == separator {
            before.push(Seq::empty())
        } else {
            before.drop_last().push(before.last().push(s.last()))
        }
    }
}

/// The pieces put together again, with the separator between any two.
pub open spec fn joined(parts: Seq<Seq<char>>, separator: char) -> Seq<char>
    decreases parts.len(),
{
    if parts.len() == 0 {
        Seq::empty()
    } else if parts.len() == 1 {
        parts[0]
    } else {
        joined(parts.drop_last(), separator).push(separator) + parts.last()
    }
}

/// The characters of a text, one by one.
pub fn chars_of(s: &str) -> (chars: Vec<char>)
    ensures
        chars@ == s@,
{
    let mut chars: Vec<char> = Vec::new();
    for c in it: s.chars()
        invariant
            it.seq() == s@,
            chars@ == s@.take(it.index() as int),
    {
        chars.push(c);
    }
    chars
}

/// The text that the characters from `start` up to `end` make.
pub fn text_of(chars: &Vec<char>, start: usize, end: usize) -> (s: String)
    requires
        start <= end <= chars@.len(),
    ensures
        s@ == chars@.subrange(start as int, end as int),
{
    let mut s = String::new();
    let mut i: usize = start;
    while i < end
        invariant
            start <= i <= end <= chars@.len(),
            s@ == chars@.subrange(start as int, i as int),
        decreases end - i,
    {
        s.push(chars[i]);
        i += 1;
    }
    s
}

/// Tells whether a character is white space.
pub fn is_white_space(c: char) -> (yes: bool)
    ensures
        yes == white_space(c),
{
    ('\u{9}' <= c && c <= '\u{d}') || c == ' ' || c == '\u{85}' || c == '\u{a0}' || c == '\u{1680}'
        || ('\u{2000}' <= c && c <= '\u{200a}') || c == '\u{2028}' || c == '\u{2029}' || c
        == '\u{202f}' || c == '\u{205f}' || c == '\u{3000}'
}

proof fn lemma_trimmed_front(s: Seq<char>, start: int)
    requires
        0 <= start <= s.len(),
        forall|i: int| 0 <= i < start ==> white_space(#[trigger] s[i]),
    ensures
        trimmed(s) == trimmed(s.skip(start)),
    decreases start,
{
    if start == 0 {
        assert(s.skip(0) == s);
    } else {
        assert(white_space(s[0]));
        let rest = s.drop_first();
        assert forall|i: int| 0 <= i < start - 1 implies white_space(#[trigger] rest[i]) by {
            assert(rest[i] == s[i + 1]);
        }
        lemma_trimmed_front(rest, start - 1);
        assert(rest.skip(start - 1) == s.skip(start));
    }
}

proof fn lemma_trimmed_back(s: Seq<char>, end: int)
    requires
        0 <= end <= s.len(),
        end == 0 || !white_space(s[0]),
        end == 0 ==> s.len() == 0,
        forall|i: int| end <= i < s.len() ==> white_space(#[trigger] s[i]),
        end > 0 ==> !white_space(s[end - 1]),
    ensures
        trimmed(s) == s.take(end),
    decreases s.len(),
{
    if end == s.len() {
        assert(s.take(end) == s);
    } else {
        assert(white_space(s.last()));
        let rest = s.drop_last();
        lemma_trimmed_back(rest, end);
        assert(rest.take(end) == s.take(end));
    }
}

/// Tells whether two texts are the same.
pub fn same_text(a: &str, b: &str) -> (yes: bool)
    ensures
        yes == (a@ == b@),
{
    a.to_string().eq(&b.to_string())
}

/// The text without the white space around it.
pub fn trim(s: &str) -> (res: String)
    ensures
        res@ == trimmed(s@),
{
    let chars = chars_of(s);
    let mut start: usize = 0;
    while start < chars.len() && is_white_space(chars[start])
        invariant
            start <= chars@.len(),
            forall|i: int| 0 <= i < start ==> white_space(#[trigger] chars@[i]),
        decreases chars@.len() - start,
    {
        start += 1;
    }
    let mut end: usize = chars.len();
    while end > start && is_white_space(chars[end - 1])
        invariant
            start <= end <= chars@.len(),
            forall|i: int| end <= i < chars@.len() ==> white_space(#[trigger] chars@[i]),
        decreases end - start,
    {
        end -= 1;
    }
    proof {
        lemma_trimmed_front(chars@, start as int);
        let rest = chars@.skip(start as int);
        assert forall|i: int| end - start <= i < rest.len() implies white_space(
            #[trigger] rest[i],
        ) by {
            assert(rest[i] == chars@[start + i]);
        }
        if end > start {
            assert(rest[0] == chars@[start as int]);
            assert(rest[end - start - 1] == chars@[end - 1]);
        } else if rest.len() > 0 {
            assert(rest[0] == chars@[start as int]);
        }
        lemma_trimmed_back(rest, end - start);
        assert(rest.take(end - start) == chars@.subrange(start as int, end as int));
    }
    text_of(&chars, start, end)
}

/// The text with each character `from` turned into `to`.
pub fn replace_char(s: &str, from: char, to: char) -> (res: String)
    ensures
        res@ == replaced(s@, from, to),
{
    let mut res = String::new();
    for c in it: s.chars()
        invariant
            it.seq() == s@,
            res@ == replaced(s@.take(it.index() as int), from, to),
    {
        res.push(if c == from { to } else { c });
    }
    proof {
        assert(s@.take(s@.len() as int) == s@);
    }
    res
}

/// The pieces of the text between the separators.
pub fn split_on(s: &str, separator: char) -> (parts: Vec<String>)
    ensures
        texts(parts@) == pieces(s@, separator),
{
    let mut parts: Vec<String> = Vec::new();
    let mut piece = String::new();
    for c in it: s.chars()
        invariant
            it.seq() == s@,
            texts(parts@).push(piece@) == pieces(s@.take(it.index() as int), separator),
    {
        proof {
            assert(s@.take(it.index() as int + 1).drop_last() == s@.take(it.index() as int));
        }
        let ghost before = texts(parts@).push(piece@);
        if c == separator {
            parts.push(piece);
            piece = String::new();
            proof {
                assert(texts(parts@) == before);
            }
        } else {
            piece.push(c);
            proof {
                assert(before.drop_last() == texts(parts@));
            }
        }
    }
    proof {
        assert(s@.take(s@.len() as int) == s@);
    }
    let ghost before = texts(parts@).push(piece@);
    parts.push(piece);
    proof {
        assert(texts(parts@) == before);
    }
    parts
}

/// Whether the text can be cut before its byte number `n`: that byte, if
/// there is one, starts a character, and the text has `n` bytes or more.
pub open spec fn cuttable(s: Seq<char>, n: int) -> bool {
    is_char_boundary(encode_utf8(s), n)
}

/// The text without its first `n` bytes.
pub open spec fn without_bytes(s: Seq<char>, n: int) -> Seq<char>
    recommends
        cuttable(s, n),
{
    decode_utf8(encode_utf8(s).skip(n))
}

/// Tells whether the text can be cut before its byte number `n`.
pub fn can_cut(s: &str, n: usize) -> (yes: bool)
    ensures
        yes == cuttable(s@, n as int),
{
    s.is_char_boundary(n)
}

/// The text without its first `n` bytes.
pub fn cut_bytes(s: &str, n: usize) -> (res: String)
    requires
        cuttable(s@, n as int),
    ensures
        res@ == without_bytes(s@, n as int),
{
    let rest = s.split_at(n).1;
    proof {
        encode_utf8_decode_utf8(rest@);
    }
    rest.to_owned()
}

/// The digit that stands for `d`.
pub open spec fn digit(d: nat) -> char {
    (48 + d) as char
}

/// A number written in decimal, without leading zeros.
pub open spec fn decimal(n: nat) -> Seq<char>
    decreases n,
{
    if n < 10 {
        seq![digit(n)]
    } else {
        decimal(n / 10).push(digit(n % 10))
    }
}

/// The number written in decimal.
pub fn decimal_text(n: u64) -> (res: String)
    ensures
        res@ == decimal(n as nat),
    decreases n,
{
    let d = (48 + (n % 10) as u8) as char;
    if n < 10 {
        let mut res = String::new();
        res.push(d);
        res
    } else {
        let mut res = decimal_text(n / 10);
        res.push(d);
        res
    }
}

/// What `str::to_lowercase` makes of a text, by the rules of Unicode.
pub uninterp spec fn lowercased(s: Seq<char>) -> Seq<char>;

/// A text with its capital ASCII letters turned into small ones.
pub open spec fn ascii_lowercased(s: Seq<char>) -> Seq<char> {
    Seq::new(s.len(), |i: int| if 'A' <= s[i] <= 'Z' { (s[i] as u32 + 32) as char } else { s[i] })
}

/// Calls `str::to_lowercase`. Its result is named; of an ASCII text it is the
/// text with its capital letters turned into small ones.
#[verifier::external_body]
pub(crate) fn lowercase(s: &str) -> (res: String)
    ensures
        res@ == lowercased(s@),
        is_ascii_chars(s@) ==> res@ == ascii_lowercased(s@),
{
    s.to_lowercase()
}

/// The order of texts, character by character; a text comes before those that
/// it is the start of.
pub open spec fn text_le(a: Seq<char>, b: Seq<char>) -> bool
    decreases a.len(),
{
    ||| a.len() == 0
    ||| b.len() > 0 && (a[0] < b[0] || a[0] == b[0] && text_le(a.drop_first(), b.drop_first()))
}

} // verus!
