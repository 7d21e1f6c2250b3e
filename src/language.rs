use vstd::prelude::*;
use crate::model::Language;
use crate::text::{ascii_lower, ascii_lower_text, last_index, text_eq, text_last_index};

verus! {

/// The file name of a slash-separated path: the part after its last '/'.
pub open spec fn file_name_of(path: Seq<char>) -> Seq<char> {
    path.subrange(last_index(path, '/') + 1, path.len() as int)
}

/// The extension of a slash-separated path: what follows the last '.' of its
/// file name, when that '.' is not the name's first character.
pub open spec fn extension_of(path: Seq<char>) -> Option<Seq<char>> {
    let name = file_name_of(path);
    let k = last_index(name, '.');
    if k > 0 {
        Some(name.subrange(k + 1, name.len() as int))
    } else {
        None
    }
}

/// The language of a lower-case extension.
pub open spec fn language_of_extension(e: Seq<char>) -> Option<Language> {
    if e == "rs"@ {
        Some(Language::Rust)
    } else if e == "js"@ || e == "cjs"@ || e == "mjs"@ {
        Some(Language::JavaScript)
    } else if e == "ts"@ {
        Some(Language::TypeScript)
    } else if e == "tsx"@ {
        Some(Language::Tsx)
    } else {
        None
    }
}

/// The language of a file, by its extension taken case-insensitively.
pub open spec fn language_of_path(path: Seq<char>) -> Option<Language> {
    match extension_of(path) {
        Some(e) => language_of_extension(ascii_lower(e)),
        None => None,
    }
}

/// The language of an extension that is already lower case.
pub fn language_for_extension(e: &str) -> (r: Option<Language>)
    ensures
        r == language_of_extension(e@),
{
    if text_eq(e, "rs") {
        Some(Language::Rust)
    } else if text_eq(e, "js") || text_eq(e, "cjs") || text_eq(e, "mjs") {
        Some(Language::JavaScript)
    } else if text_eq(e, "ts") {
        Some(Language::TypeScript)
    } else if text_eq(e, "tsx") {
        Some(Language::Tsx)
    } else {
        None
    }
}

/// The extension of a slash-separated path, if its file name has one.
pub fn path_extension(path: &str) -> (r: Option<String>)
    ensures
        crate::parser::opt_seq(r) == extension_of(path@),
{
    let n = path.unicode_len();
    let start = match text_last_index(path, '/') {
        Some(k) => k + 1,
        None => 0,
    };
    let name = path.substring_char(start, n);
    assert(name@ == file_name_of(path@));
    match text_last_index(name, '.') {
        Some(k) => {
            if k > 0 {
                Some(name.substring_char(k + 1, name.unicode_len()).to_owned())
            } else {
                None
            }
        },
        None => None,
    }
}

/// The language of a file, by its lower-cased extension: rs for Rust; js,
/// cjs and mjs for JavaScript; ts for TypeScript; tsx for TSX.
pub fn detect_language(path: &str) -> (r: Option<Language>)
    ensures
        r == language_of_path(path@),
{
    match path_extension(path) {
        Some(e) => {
            let lower = ascii_lower_text(e.as_str());
            language_for_extension(lower.as_str())
        },
        None => None,
    }
}

/// The extensions that name a supported language.
pub open spec fn supported_extension_set() -> Seq<Seq<char>> {
    seq!["rs"@, "js"@, "cjs"@, "mjs"@, "ts"@, "tsx"@]
}

/// The extensions that name a supported language.
pub fn supported_extensions() -> (r: Vec<&'static str>)
    ensures
        r@.map_values(|s: &'static str| s@) == supported_extension_set(),
{
    let r = vec!["rs", "js", "cjs", "mjs", "ts", "tsx"];
    assert(r@.map_values(|s: &'static str| s@) =~= supported_extension_set());
    r
}

/// Every supported extension names a language, and only those do.
pub proof fn lemma_supported_extensions(e: Seq<char>)
    ensures
        language_of_extension(e) is Some <==> supported_extension_set().contains(e),
{
    if language_of_extension(e) is Some {
        assert(supported_extension_set().contains(e)) by {
            if e == "rs"@ { assert(supported_extension_set()[0] == e); }
            else if e == "js"@ { assert(supported_extension_set()[1] == e); }
            else if e == "cjs"@ { assert(supported_extension_set()[2] == e); }
            else if e == "mjs"@ { assert(supported_extension_set()[3] == e); }
            else if e == "ts"@ { assert(supported_extension_set()[4] == e); }
            else { assert(supported_extension_set()[5] == e); }
        }
    }
}

} // verus!
