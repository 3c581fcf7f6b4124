//! Data model: stored records, submissions, and search parameters.

use vstd::prelude::*;

verus! {

/// A stored record: a unique short key, the value it resolves to, and its
/// creation time in seconds of Unix time.
#[derive(Debug, Clone, PartialEq)]
pub struct Link {
    pub short_link: String,
    pub url: String,
    pub created_at: i64,
}

/// A record as submitted for creation, before validation.
#[derive(Debug, Clone, PartialEq)]
pub struct NewLink {
    pub short_link: String,
    pub url: String,
}

/// What `char::is_alphanumeric` returns for `c`; it depends on the
/// character alone.
pub uninterp spec fn is_alphanum(c: char) -> bool;

/// Relies on `char::is_alphanumeric`: whether `c` is a Unicode letter or
/// digit. The result depends on the character alone.
#[verifier::external_body]
fn char_is_alphanumeric(c: char) -> (r: bool)
    ensures
        r == is_alphanum(c),
{
    c.is_alphanumeric()
}

/// Whether `c` may appear in a short key: a letter or digit, or one of
/// `.`, `-`, `:`.
pub open spec fn valid_key_char(c: char) -> bool {
    is_alphanum(c) || c == '.' || c == '-' || c == ':'
}

/// Whether `s` is acceptable as a short key: non-empty, every character
/// allowed.
pub open spec fn valid_key(s: Seq<char>) -> bool {
    s.len() > 0 && (forall|i: int| 0 <= i < s.len() ==> valid_key_char(s[i]))
}

impl NewLink {
    /// Accept the submission exactly when its short key is non-empty and
    /// made of allowed characters; otherwise name what is wrong.
    pub fn validate(&self) -> (r: Result<(), &'static str>)
        ensures
            r is Ok <==> valid_key(self.short_link@),
            self.short_link@.len() == 0 ==> (r matches Err(m) && m@
                == "Short link cannot be empty"@),
            self.short_link@.len() > 0 && !valid_key(self.short_link@) ==> (r matches Err(m) && m@
                == "Invalid characters in short link"@),
    {
        let s: &str = self.short_link.as_str();
        if s.unicode_len() == 0 {
            return Err("Short link cannot be empty");
        }
        let n: usize = s.unicode_len();
        let mut i: usize = 0;
        while i < n
            invariant
                i <= n,
                n == s@.len(),
                s@ == self.short_link@,
                forall|k: int| 0 <= k < i ==> valid_key_char(s@[k]),
            decreases n - i,
        {
            let c: char = s.get_char(i);
            let ok: bool = char_is_alphanumeric(c) || c == '.' || c == '-' || c == ':';
            if !ok {
                return Err("Invalid characters in short link");
            }
            i = i + 1;
        }
        Ok(())
    }
}

/// The parameters of one search call: the raw query, if any, and the
/// requested page and page size.
#[derive(Debug, Clone, PartialEq)]
pub struct SearchParams {
    pub q: Option<String>,
    pub page: u32,
    pub limit: u32,
}

/// The page requested when the caller names none.
pub fn default_page() -> (p: u32)
    ensures
        p == 1,
{
    1
}

/// The page size used when the caller names none.
pub fn default_limit() -> (l: u32)
    ensures
        l == 10,
{
    10
}

} // verus!
