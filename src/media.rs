use vstd::prelude::*;

verus! {

/// Case-insensitive pattern of the names of embedded media: `ppt/media/`
/// followed by at least one character.
pub const MEDIA_PATTERN: &'static str = "(?i)^ppt/media/.+";

/// The prefix of media names, in lower case.
pub open spec fn media_prefix() -> Seq<char> {
    seq!['p', 'p', 't', '/', 'm', 'e', 'd', 'i', 'a', '/']
}

/// Whether `c` is `lower` or, for an ASCII letter, its upper-case form.
pub open spec fn same_letter(c: char, lower: char) -> bool {
    c == lower || ('A' <= c <= 'Z' && c as u32 + 32 == lower as u32)
}

/// Whether `name` is the name of an embedded media file: `ppt/media/` in any
/// case, then at least one character that is not a line feed (what the media
/// pattern matches, as `.` does not match `\n`).
pub open spec fn media_name(name: Seq<char>) -> bool {
    &&& name.len() > media_prefix().len()
    &&& forall|k: int| 0 <= k < media_prefix().len() ==> same_letter(#[trigger] name[k], media_prefix()[k])
    &&& name[media_prefix().len() as int] != '\n'
}

/// Relies on regex::Regex::new, which fails only on an invalid pattern (the
/// media pattern is valid), and on Regex::is_match, which tells whether the
/// compiled expression matches somewhere in `text`. Anchored at the start,
/// with `(?i)` (the letters of the prefix fold to ASCII letters only) and `.+`
/// (any character but `\n`), the media pattern matches exactly `media_name`.
#[verifier::external_body]
fn regex_is_match(pattern: &str, text: &str) -> (r: bool)
    requires
        pattern@ == MEDIA_PATTERN@,
    ensures
        r == media_name(text@),
{
    regex::Regex::new(pattern).unwrap().is_match(text)
}

/// Whether `name` names an embedded media file.
pub fn is_media_name(name: &str) -> (r: bool)
    ensures
        r == media_name(name@),
{
    regex_is_match(MEDIA_PATTERN, name)
}

} // verus!
