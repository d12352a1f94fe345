//! The regular expressions that file names are held to.
use regex::Regex;
use vstd::prelude::*;

verus! {

/// A file name with a type: something, a dot, and the type after the last dot.
pub const RE_FILETYPE: &'static str = r#"^(.+)\.([^.]+)$"#;

/// What the names of icons, flags and sports kits hold.
pub const RE_KEY_PHRASES: &'static str = r#"(Flag_of_|Crystal_Clear_|Nuvola_|Kit_)"#;

/// What the names of rendered thumbnails hold.
pub const RE_KEY_PHRASES_PNG: &'static str = r#"(600px_)"#;

/// Whether the phrase stands somewhere in the text.
pub open spec fn occurs_in(phrase: Seq<char>, s: Seq<char>) -> bool {
    exists|i: int|
        0 <= i <= s.len() - phrase.len() && #[trigger] s.subrange(i, i + phrase.len()) == phrase
}

/// Whether the file name holds one of the key phrases.
pub open spec fn has_key_phrase(s: Seq<char>) -> bool {
    ||| occurs_in("Flag_of_"@, s)
    ||| occurs_in("Crystal_Clear_"@, s)
    ||| occurs_in("Nuvola_"@, s)
    ||| occurs_in("Kit_"@, s)
}

/// Whether position `dot` parts the file name from its type: it holds the last
/// dot, something stands before it, all on one line, and something after it.
pub open spec fn parts_filetype(s: Seq<char>, dot: int) -> bool {
    &&& 0 < dot < s.len() - 1
    &&& s[dot] == '.'
    &&& forall|i: int| 0 <= i < dot ==> #[trigger] s[i] != '\n'
    &&& forall|i: int| dot < i < s.len() ==> #[trigger] s[i] != '.'
}

/// The type of a file: what follows the last dot of its name.
pub open spec fn filetype(s: Seq<char>) -> Option<Seq<char>> {
    if exists|dot: int| parts_filetype(s, dot) {
        Some(s.skip((choose|dot: int| parts_filetype(s, dot)) + 1))
    } else {
        None
    }
}

/// Calls `Regex::is_match` of the `regex` crate for a pattern that is a group
/// of alternative words made of letters, digits and underscores: such a
/// pattern matches the texts in which one of the words stands.
#[verifier::external_body]
pub(crate) fn is_match(pattern: &str, haystack: &str) -> (res: bool)
    requires
        pattern@ == RE_KEY_PHRASES@ || pattern@ == RE_KEY_PHRASES_PNG@,
    ensures
        pattern@ == RE_KEY_PHRASES@ ==> res == has_key_phrase(haystack@),
        pattern@ == RE_KEY_PHRASES_PNG@ ==> res == occurs_in("600px_"@, haystack@),
{
    Regex::new(pattern).unwrap().is_match(haystack)
}

/// Calls `Regex::captures_iter` of the `regex` crate and hands out what the
/// second group of the first match holds. For the pattern of file types that
/// is what follows the last dot; there is a match where something stands
/// before that dot, without a line feed in it, and something after it.
#[verifier::external_body]
pub(crate) fn second_capture(pattern: &str, haystack: &str) -> (res: Option<String>)
    requires
        pattern@ == RE_FILETYPE@,
    ensures
        match res {
            Some(group) => filetype(haystack@) == Some(group@),
            None => filetype(haystack@) is None,
        },
{
    Regex::new(pattern).unwrap().captures_iter(haystack).next().map(|cap| cap[2].to_string())
}

} // verus!
