//! Calls into std functions that vstd leaves unspecified and into the `regex`
//! crate. Each item here is trusted: its contract is believed, not proved.

use vstd::prelude::*;
use vstd::string::StringSliceAdditionalSpecFns;
use vstd::utf8::valid_utf8;

verus! {

/// Whether `regex::Regex::new` accepts `pattern` (it refuses an invalid pattern,
/// or one whose compiled form would exceed the default size limit).
pub uninterp spec fn regex_compiles(pattern: Seq<char>) -> bool;

/// What `regex::Regex::replace_all` returns for the regex compiled from
/// `pattern`, applied to `haystack` with `replacement` (in which `$1` stands for
/// the first capture group): every leftmost-first, non-overlapping match
/// replaced. Its result depends on these three values alone.
pub uninterp spec fn regex_replaced(
    pattern: Seq<char>,
    haystack: Seq<char>,
    replacement: Seq<char>,
) -> Seq<char>;

/// Compiles `pattern` with `regex::Regex::new`; when that succeeds, returns
/// what `Regex::replace_all(haystack, replacement)` gives, as an owned string.
/// Claims that the outcome depends on the three arguments alone: `None` exactly
/// when the pattern does not compile, and otherwise the named replacement. The
/// two calls share one item because a compiled `Regex` has no abstract value
/// that a contract could tie back to its pattern. Nothing is claimed about
/// which matches a pattern has: that stays inside `regex_replaced`.
#[verifier::external_body]
pub(crate) fn regex_replace_all(pattern: &str, haystack: &str, replacement: &str) -> (res: Option<
    String,
>)
    ensures
        res.is_some() == regex_compiles(pattern@),
        res matches Some(r) ==> r@ == regex_replaced(pattern@, haystack@, replacement@),
{
    match regex::Regex::new(pattern) {
        Ok(re) => Some(re.replace_all(haystack, replacement).into_owned()),
        Err(_) => None,
    }
}

/// Every character is ASCII.
pub open spec fn all_ascii(s: Seq<char>) -> bool {
    forall|i: int| 0 <= i < s.len() ==> #[trigger] s[i] <= '\u{7f}'
}

/// ASCII lowercasing: `A`..=`Z` become `a`..=`z`, every other character stays.
pub open spec fn ascii_lowered(s: Seq<char>) -> Seq<char> {
    s.map_values(|c: char| if 'A' <= c && c <= 'Z' { ((c as u32) + 32) as char } else { c })
}

/// What `str::to_lowercase` returns: the Unicode lowercase mapping of the
/// whole string (which may change its length and is context-sensitive for
/// final sigma).
pub uninterp spec fn lowercased(s: Seq<char>) -> Seq<char>;

/// `str::to_lowercase`. Claims that the result is a function of the
/// characters of `s`, named `lowercased`, and, for all-ASCII text, the ASCII
/// lowercase of it (Unicode maps each ASCII uppercase letter to its ASCII
/// lowercase letter, one for one, and leaves other ASCII characters alone).
/// Nothing is claimed about other text.
#[verifier::external_body]
pub(crate) fn str_to_lowercase(s: &str) -> (res: String)
    ensures
        res@ == lowercased(s@),
        all_ascii(s@) ==> res@ == ascii_lowered(s@),
{
    s.to_lowercase()
}

/// `std::str::from_utf8`: a string slice over exactly the given bytes when they
/// are valid UTF-8 (the `valid_utf8` of vstd), and nothing otherwise.
#[verifier::external_body]
pub(crate) fn str_from_utf8(raw: &[u8]) -> (res: Option<&str>)
    ensures
        res.is_some() == valid_utf8(raw@),
        res matches Some(t) ==> t.spec_bytes() == raw@,
{
    std::str::from_utf8(raw).ok()
}

/// `String::from_iter` over the characters of a slice: a string holding
/// exactly those characters, in order.
#[verifier::external_body]
pub(crate) fn string_from_chars(v: &[char]) -> (res: String)
    ensures
        res@ == v@,
{
    String::from_iter(v)
}

} // verus!
