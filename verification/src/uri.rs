//! URIs as the HTTP stack reads them.

use crate::uri_serde::{self, CharClass, UriSerde};
use vstd::prelude::*;

verus! {

/// What `hyper::Uri` shows for a text: the text is parsed with
/// `<hyper::Uri as FromStr>::from_str`, and the URI is written with its `Display`.
/// `None` stands for a text that does not parse.
pub uninterp spec fn shown_uri(text: Seq<char>) -> Option<Seq<char>>;

/// Whether `hyper::Uri`, parsed from `text`, equals the text `other` by its
/// `PartialEq<str>`; false for a text that does not parse.
pub uninterp spec fn uri_equals(text: Seq<char>, other: Seq<char>) -> bool;

/// The longest text, in bytes, that is read as a URI.
pub const MAX_URI_LEN: usize = 65534;

/// A path that starts with a slash and stands alone, without query or fragment.
pub open spec fn path_alone(s: Seq<char>) -> bool {
    s.len() > 0 && s[0] == '/' && !s.contains('?') && !s.contains('#')
}

/// The address of an HTTP service: `http` or `https` and an authority, with or
/// without a path, and with neither query nor fragment.
pub open spec fn address(s: Seq<char>) -> bool {
    let parts = uri_serde::uri_parts(s);
    &&& parts.scheme == Some("http"@) || parts.scheme == Some("https"@)
    &&& parts.authority is Some
    &&& parts.query is None
    &&& parts.fragment is None
}

/// How a text is shown again if it parses, for the texts of which that is stated: a
/// path as it is, and the address of a service with `/` for a path that is missing.
pub open spec fn shown_plainly(s: Seq<char>) -> Option<Seq<char>> {
    if path_alone(s) {
        Some(s)
    } else if address(s) {
        if uri_serde::uri_parts(s).path.len() == 0 {
            Some(s.push('/'))
        } else {
            Some(s)
        }
    } else {
        None
    }
}

/// A non-empty host name with an optional port: at most one colon, and no
/// percent-encoding, brackets or user information.
pub open spec fn plain_authority(s: Seq<char>) -> bool {
    &&& s.len() > 0
    &&& forall|i: int|
        0 <= i < s.len() ==> crate::rfc3986::unreserved(#[trigger] s[i])
            || crate::rfc3986::sub_delim(s[i]) || s[i] == ':'
    &&& forall|i: int, j: int|
        0 <= i < j < s.len() ==> !(#[trigger] s[i] == ':' && #[trigger] s[j] == ':')
}

/// A text that is known to parse: a path, or the address of a service under a plain
/// authority, that holds path characters only and is not too long.
pub open spec fn surely_parses(s: Seq<char>) -> bool {
    let parts = uri_serde::uri_parts(s);
    &&& s.len() <= MAX_URI_LEN
    &&& {
        ||| path_alone(s) && uri_serde::all_in(s, CharClass::Path)
        ||| address(s) && plain_authority(parts.authority->Some_0) && uri_serde::all_in(
            parts.path,
            CharClass::Path,
        )
    }
}

/// `<hyper::Uri as FromStr>::from_str`, then `to_string` by `Display`. The contract
/// names the result, and claims of it that the texts of `surely_parses` parse, and
/// that paths and addresses of services, if they parse, are shown as `shown_plainly`
/// says. Which other texts parse, and how they are shown, is left unsaid.
#[verifier::external_body]
fn show_uri(text: &str) -> (shown: Option<String>)
    ensures
        match shown {
            Some(s) => shown_uri(text@) == Some(s@),
            None => shown_uri(text@) is None,
        },
        surely_parses(text@) ==> shown is Some,
        shown is Some && shown_plainly(text@) is Some ==> shown_plainly(text@) == Some(
            shown->Some_0@,
        ),
{
    match text.parse::<hyper::Uri>() {
        Ok(uri) => Some(uri.to_string()),
        Err(_) => None,
    }
}

/// `<hyper::Uri as PartialEq<str>>::eq`, on the URI parsed from `text`. The contract
/// names the result, and claims of it that a path that parses equals itself, with or
/// without a fragment behind it, and nothing else. What other URIs equal is left
/// unsaid.
#[verifier::external_body]
fn compare_uri(text: &str, other: &str) -> (b: bool)
    ensures
        b == uri_equals(text@, other@),
        path_alone(text@) && shown_uri(text@) is Some ==> b == (other@ == text@
            || text@.push('#').is_prefix_of(other@)),
{
    match text.parse::<hyper::Uri>() {
        Ok(uri) => uri == *other,
        Err(_) => false,
    }
}

/// A URI that the HTTP stack accepts. Its view is the text that it was read from.
#[derive(Debug)]
pub struct Uri {
    source: String,
    shown: String,
}

impl View for Uri {
    type V = Seq<char>;

    closed spec fn view(&self) -> Seq<char> {
        self.source@
    }
}

impl Uri {
    #[verifier::type_invariant]
    closed spec fn accepted(self) -> bool {
        &&& shown_uri(self.source@) == Some(self.shown@)
        &&& shown_plainly(self.source@) is Some ==> shown_plainly(self.source@) == Some(self.shown@)
    }

    /// Reads a URI; `None` when the HTTP stack does not accept the text.
    pub fn parse(text: &str) -> (uri: Option<Uri>)
        ensures
            match uri {
                Some(uri) => uri@ == text@ && shown_uri(text@) is Some,
                None => shown_uri(text@) is None,
            },
            surely_parses(text@) ==> uri is Some,
    {
        match show_uri(text) {
            Some(shown) => Some(Uri { source: String::from_str(text), shown }),
            None => None,
        }
    }

    /// Reads a checked text as a URI. `None` when the HTTP stack does not accept it,
    /// which the checks alone do not rule out.
    pub fn from(uri_serde: UriSerde) -> (uri: Option<Uri>)
        ensures
            match uri {
                Some(uri) => uri@ == uri_serde@ && shown_uri(uri_serde@) is Some,
                None => shown_uri(uri_serde@) is None,
            },
            surely_parses(uri_serde@) ==> uri is Some,
            uri_serde::uri_complaint(uri_serde@) is None,
    {
        Self::parse(uri_serde.as_str())
    }

    /// The URI as the HTTP stack shows it.
    pub fn to_string(&self) -> (shown: String)
        ensures
            shown_uri(self@) == Some(shown@),
            shown_plainly(self@) is Some ==> shown_plainly(self@) == Some(shown@),
    {
        proof {
            use_type_invariant(self);
        }
        self.shown.clone()
    }

    /// Whether the URI equals the text `other`.
    pub fn equals(&self, other: &str) -> (b: bool)
        ensures
            b == uri_equals(self@, other@),
            path_alone(self@) ==> b == (other@ == self@ || self@.push('#').is_prefix_of(other@)),
    {
        proof {
            use_type_invariant(self);
        }
        compare_uri(self.source.as_str(), other)
    }
}

impl Clone for Uri {
    fn clone(&self) -> (copy: Self)
        ensures
            copy@ == self@,
    {
        proof {
            use_type_invariant(self);
        }
        Uri { source: self.source.clone(), shown: self.shown.clone() }
    }
}

impl UriSerde {
    /// Checks the text that a URI is shown as. A checked path comes back as it was.
    pub fn try_from(uri: Uri) -> (made: Result<UriSerde, String>)
        ensures
            shown_uri(uri@) is Some,
            match made {
                Ok(checked) => uri_serde::uri_complaint(checked@) is None && shown_uri(uri@)
                    == Some(checked@),
                Err(text) => uri_serde::uri_complaint(shown_uri(uri@)->Some_0) == Some(text@),
            },
            path_alone(uri@) && uri_serde::uri_complaint(uri@) is None ==> made is Ok
                && made->Ok_0@ == uri@,
    {
        UriSerde::new(uri.to_string().as_str())
    }
}

} // verus!
