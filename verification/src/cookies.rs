//! The file of a saved session.
//!
//! A session is the list of the cookies of the browser, and its file is that list
//! as JSON.
use playwright_rs::protocol::Cookie;
use vstd::prelude::*;

verus! {

/// `playwright_rs::protocol::Cookie`, a cookie of the browser.
#[verifier::external_type_specification]
#[verifier::external_body]
pub struct ExCookie(Cookie);

/// `serde_json::Error`, why a text was not read or not written.
#[verifier::external_type_specification]
#[verifier::external_body]
pub struct ExJsonError(serde_json::Error);

/// The cookies that a text tells as JSON, or why it tells none.
pub uninterp spec fn cookies_told(raw: Seq<char>) -> Result<Seq<Cookie>, serde_json::Error>;

/// Calls `serde_json::from_str` for a list of cookies. What it returns rests on the
/// text alone.
#[verifier::external_body]
pub(crate) fn parse_cookies(raw: &str) -> (r: Result<Vec<Cookie>, serde_json::Error>)
    ensures
        match r {
            Ok(cookies) => cookies_told(raw@) == Ok::<Seq<Cookie>, serde_json::Error>(cookies@),
            Err(error) => cookies_told(raw@) == Err::<Seq<Cookie>, serde_json::Error>(error),
        },
{
    serde_json::from_str(raw)
}

/// The text that tells cookies as JSON, or why there is none.
pub uninterp spec fn cookies_written(cookies: Seq<Cookie>) -> Result<Seq<char>, serde_json::Error>;

/// What decides whether a cookie is read back as it was written.
pub struct CookieParts {
    /// The domain of the cookie.
    pub domain: Seq<char>,
    /// The path of the cookie.
    pub path: Seq<char>,
    /// When the cookie ends, in seconds, if that is a whole number.
    pub expires: Option<int>,
}

/// The fields `domain`, `path` and `expires` of a cookie.
pub uninterp spec fn cookie_parts(cookie: Cookie) -> CookieParts;

/// Whether a cookie has a domain and a path, and ends at a whole second, at most
/// some three million years away, or with the session of the browser.
pub open spec fn is_plain(parts: CookieParts) -> bool {
    &&& parts.domain.len() > 0
    &&& parts.path.len() > 0
    &&& parts.expires matches Some(seconds) && -100000000000000 <= seconds <= 100000000000000
}

/// Calls `serde_json::to_string` for a list of cookies. What it returns rests on the
/// cookies alone, and the text is read back as the same cookies in the same order
/// where all of them are plain. Of others that is not stated: an empty domain or
/// path is left out of the text, which is then refused, and of a part of a second
/// the last digit may be missed.
#[verifier::external_body]
pub(crate) fn cookies_text(cookies: &Vec<Cookie>) -> (r: Result<String, serde_json::Error>)
    ensures
        match r {
            Ok(text) => cookies_written(cookies@) == Ok::<Seq<char>, serde_json::Error>(text@),
            Err(error) => cookies_written(cookies@) == Err::<Seq<char>, serde_json::Error>(error),
        },
        r matches Ok(text) ==> ((forall|i: int|
            0 <= i < cookies@.len() ==> is_plain(cookie_parts(#[trigger] cookies@[i])))
            ==> cookies_told(text@) == Ok::<Seq<Cookie>, serde_json::Error>(cookies@)),
{
    serde_json::to_string(cookies)
}

/// Whether all cookies are plain.
pub open spec fn all_plain(cookies: Seq<Cookie>) -> bool {
    forall|i: int| 0 <= i < cookies.len() ==> is_plain(cookie_parts(#[trigger] cookies[i]))
}

} // verus!
