//! File names: their normal form, and which of them are good for an item.
use crate::pattern::{
    filetype, has_key_phrase, is_match, occurs_in, second_capture, RE_FILETYPE, RE_KEY_PHRASES,
    RE_KEY_PHRASES_PNG,
};
use crate::text::{
    ascii_lowercased, lowercase, lowercased, replace_char, replaced, same_text, trim, trimmed,
};
use vstd::hash_set::StringHashSet;
use vstd::prelude::*;
use vstd::utf8::is_ascii_chars;

verus! {

/// The form of a file name in which it is compared: without white space around
/// it, and with underscores in place of spaces.
pub open spec fn normalized(name: Seq<char>) -> Seq<char> {
    replaced(trimmed(name), ' ', '_')
}

/// The file name in the form in which it is compared.
pub fn normalize(name: &str) -> (res: String)
    ensures
        res@ == normalized(name@),
{
    replace_char(trim(name).as_str(), ' ', '_')
}

/// Whether a file is good for an item, by its name and its type in small
/// letters.
pub open spec fn good_filetype(
    allow_svg: bool,
    only_jpeg: bool,
    name: Seq<char>,
    filetype: Seq<char>,
) -> bool {
    if only_jpeg && filetype != "jpg"@ && filetype != "jpeg"@ {
        false
    } else if filetype == "svg"@ {
        allow_svg
    } else if filetype == "pdf"@ || filetype == "gif"@ {
        false
    } else {
        &&& !has_key_phrase(name)
        &&& !(filetype == "png"@ && occurs_in("600px_"@, name))
    }
}

/// Whether a file is good for an item, by its normalized name: it is not to be
/// ignored, it has a type, and its type and name are good.
pub open spec fn valid_filename(
    ignored: Set<Seq<char>>,
    allow_svg: bool,
    only_jpeg: bool,
    name: Seq<char>,
) -> bool {
    &&& name.len() > 0
    &&& !ignored.contains(name)
    &&& filetype(name) is Some
    &&& good_filetype(allow_svg, only_jpeg, name, lowercased(filetype(name).unwrap()))
}

/// Whether a file whose type is written in ASCII characters is good for an item,
/// by its normalized name.
pub open spec fn valid_ascii(
    ignored: Set<Seq<char>>,
    allow_svg: bool,
    only_jpeg: bool,
    name: Seq<char>,
    filetype: Seq<char>,
) -> bool {
    !ignored.contains(name) && good_filetype(
        allow_svg,
        only_jpeg,
        name,
        ascii_lowercased(filetype),
    )
}

/// Tells whether a file is good for an item, by its name and its type in small
/// letters.
pub fn is_good_filetype(
    allow_svg: bool,
    only_jpeg: bool,
    filename: &String,
    filetype: &String,
) -> (yes: bool)
    ensures
        yes == good_filetype(allow_svg, only_jpeg, filename@, filetype@),
{
    let name = filename.as_str();
    let filetype = filetype.as_str();
    if only_jpeg && !same_text(filetype, "jpg") && !same_text(filetype, "jpeg") {
        return false;
    }
    if same_text(filetype, "svg") {
        return allow_svg;
    }
    if same_text(filetype, "pdf") || same_text(filetype, "gif") {
        return false;
    }
    if is_match(RE_KEY_PHRASES, name) {
        return false;
    }
    if same_text(filetype, "png") && is_match(RE_KEY_PHRASES_PNG, name) {
        return false;
    }
    true
}

/// Tells whether a file is good for an item, by its normalized name.
pub fn is_valid(
    ignored: &StringHashSet,
    allow_svg: bool,
    only_jpeg: bool,
    filename: &String,
) -> (yes: bool)
    ensures
        yes == valid_filename(ignored@, allow_svg, only_jpeg, filename@),
        filetype(filename@) matches Some(t) ==> is_ascii_chars(t) ==> yes == valid_ascii(
            ignored@,
            allow_svg,
            only_jpeg,
            filename@,
            t,
        ),
{
    if filename.as_str().is_empty() {
        return false;
    }
    if ignored.contains(filename.as_str()) {
        return false;
    }
    match second_capture(RE_FILETYPE, filename.as_str()) {
        Some(filetype) => {
            let filetype = lowercase(filetype.as_str());
            is_good_filetype(allow_svg, only_jpeg, filename, &filetype)
        },
        None => false,
    }
}

} // verus!
