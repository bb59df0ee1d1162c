//! URI texts that have been checked, component by component.

use crate::rfc3986::{
    self, is_digit, is_hex_digit, is_letter, is_pct_encoded_start, is_sub_delim, is_unreserved,
};
use crate::text::{self, chars_of, find_first, find_last, parse_decimal, skip, split, take};
use vstd::prelude::*;

verus! {

/// The characters that a component of a URI may hold.
#[derive(Clone, Copy)]
pub enum CharClass {
    /// A scheme after its first letter.
    SchemeTail,
    Userinfo,
    /// A host given by name.
    RegName,
    Path,
    QueryOrFragment,
    Digit,
    HexDigit,
}

/// The characters of user information.
pub open spec fn userinfo_char(c: char) -> bool {
    rfc3986::unreserved(c) || rfc3986::sub_delim(c) || c == ':' || rfc3986::pct_encoded_start(c)
}

/// The characters of a host given by name.
pub open spec fn reg_name_char(c: char) -> bool {
    rfc3986::unreserved(c) || rfc3986::sub_delim(c) || rfc3986::pct_encoded_start(c)
}

/// The characters of a path.
pub open spec fn path_char(c: char) -> bool {
    rfc3986::unreserved(c) || rfc3986::sub_delim(c) || c == ':' || c == '@' || c == '/'
        || rfc3986::pct_encoded_start(c)
}

/// The characters of a query or a fragment.
pub open spec fn query_or_fragment_char(c: char) -> bool {
    path_char(c) || c == '?'
}

impl CharClass {
    /// The class holds `c`.
    pub open spec fn has(self, c: char) -> bool {
        match self {
            CharClass::SchemeTail => rfc3986::letter(c) || rfc3986::digit(c) || c == '+' || c == '-'
                || c == '.',
            CharClass::Userinfo => userinfo_char(c),
            CharClass::RegName => reg_name_char(c),
            CharClass::Path => path_char(c),
            CharClass::QueryOrFragment => query_or_fragment_char(c),
            CharClass::Digit => rfc3986::digit(c),
            CharClass::HexDigit => rfc3986::hex_digit(c),
        }
    }

    /// Whether the class holds `c`.
    fn admits(self, c: char) -> (b: bool)
        ensures
            b == self.has(c),
    {
        match self {
            CharClass::SchemeTail => is_letter(c) || is_digit(c) || c == '+' || c == '-'
                || c == '.',
            CharClass::Userinfo => UriSerde::is_userinfo_char(c),
            CharClass::RegName => UriSerde::is_reg_name_char(c),
            CharClass::Path => UriSerde::is_path_char(c),
            CharClass::QueryOrFragment => UriSerde::is_query_or_fragment_char(c),
            CharClass::Digit => is_digit(c),
            CharClass::HexDigit => is_hex_digit(c),
        }
    }
}

/// Every character of `s` is in `class`.
pub open spec fn all_in(s: Seq<char>, class: CharClass) -> bool {
    forall|i: int| 0 <= i < s.len() ==> class.has(#[trigger] s[i])
}

/// The first character of `s` that is not in `class` stands at `i`.
pub open spec fn strays_first_at(s: Seq<char>, class: CharClass, i: int) -> bool {
    &&& 0 <= i < s.len()
    &&& !class.has(s[i])
    &&& all_in(s.take(i), class)
}

/// The first character of `s` that is not in `class`.
pub open spec fn first_stray(s: Seq<char>, class: CharClass) -> char {
    s[choose|i: int| strays_first_at(s, class, i)]
}

pub(crate) proof fn lemma_first_stray(s: Seq<char>, class: CharClass, i: int)
    requires
        strays_first_at(s, class, i),
    ensures
        !all_in(s, class),
        first_stray(s, class) == s[i],
{
    let k = choose|k: int| strays_first_at(s, class, k);
    assert(strays_first_at(s, class, k));
    if k < i {
        assert(class.has(s.take(i)[k]));
    } else if i < k {
        assert(class.has(s.take(k)[i]));
    }
}

/// Looks for a character of `s` that is not in `class`.
fn find_stray(s: &str, class: CharClass) -> (stray: Option<char>)
    ensures
        match stray {
            Some(c) => !all_in(s@, class) && c == first_stray(s@, class),
            None => all_in(s@, class),
        },
{
    let chars = chars_of(s);
    let mut i: usize = 0;
    while i < chars.len()
        invariant
            chars@ == s@,
            i <= s@.len(),
            all_in(s@.take(i as int), class),
        decreases chars.len() - i,
    {
        let c: char = chars[i];
        if !class.admits(c) {
            proof {
                lemma_first_stray(s@, class, i as int);
            }
            return Some(c);
        }
        proof {
            assert forall|j: int| 0 <= j < i + 1 implies class.has(
                #[trigger] s@.take(i + 1)[j],
            ) by {
                if j < i {
                    assert(class.has(s@.take(i as int)[j]));
                }
            }
        }
        i += 1;
    }
    proof {
        assert(s@.take(i as int) =~= s@);
    }
    None
}

/// `before`, then the character `c`, then `after`.
pub open spec fn around(before: Seq<char>, c: char, after: Seq<char>) -> Seq<char> {
    before.push(c) + after
}

fn message(before: &str, c: char, after: &str) -> (text: String)
    ensures
        text@ == around(before@, c, after@),
{
    let mut text = String::from_str(before);
    text.push(c);
    text.append(after);
    text
}

/// The outcome of a check agrees with the complaint that is due: none when the
/// check passes, else the message of the error.
pub open spec fn reports(outcome: Result<(), String>, complaint: Option<Seq<char>>) -> bool {
    match outcome {
        Ok(()) => complaint is None,
        Err(text) => complaint == Some(text@),
    }
}

/// The complaint about characters of `s` outside `class`, which names the first
/// of them between `before` and `after`.
pub open spec fn class_complaint(
    s: Seq<char>,
    class: CharClass,
    before: Seq<char>,
    after: Seq<char>,
) -> Option<Seq<char>> {
    if all_in(s, class) {
        None
    } else {
        Some(around(before, first_stray(s, class), after))
    }
}

fn check_class(s: &str, class: CharClass, before: &str, after: &str) -> (outcome: Result<
    (),
    String,
>)
    ensures
        reports(outcome, class_complaint(s@, class, before@, after@)),
{
    match find_stray(s, class) {
        Some(c) => Err(message(before, c, after)),
        None => Ok(()),
    }
}

/// The complaint about a scheme: it starts with a letter and goes on with
/// letters, digits, `+`, `-` and `.`. An empty scheme passes.
pub open spec fn scheme_complaint(s: Seq<char>) -> Option<Seq<char>> {
    if s.len() == 0 {
        None
    } else if !rfc3986::letter(s[0]) {
        Some(around("Scheme must start with letter, found '"@, s[0], "'"@))
    } else {
        class_complaint(
            s.skip(1),
            CharClass::SchemeTail,
            "Invalid character '"@,
            "' in scheme"@,
        )
    }
}

/// The complaint about a port: it is a decimal number up to 65535.
pub open spec fn port_complaint(s: Seq<char>) -> Option<Seq<char>> {
    if s.len() == 0 {
        Some("Port cannot be empty"@)
    } else if !all_in(s, CharClass::Digit) {
        class_complaint(s, CharClass::Digit, "Invalid character '"@, "' in port"@)
    } else if text::decimal_value(s) > u32::MAX {
        Some("Port number too large"@)
    } else if text::decimal_value(s) > 65535 {
        Some("Port must be 0-65535"@)
    } else {
        None
    }
}

/// A decimal number up to 255 in at most three characters, the first of which
/// may be a `+`.
pub open spec fn octet(s: Seq<char>) -> bool {
    let digits = if s.len() > 0 && s[0] == '+' {
        s.skip(1)
    } else {
        s
    };
    &&& s.len() <= 3
    &&& digits.len() > 0
    &&& all_in(digits, CharClass::Digit)
    &&& text::decimal_value(digits) <= 255
}

/// Four octets with dots between them.
pub open spec fn ipv4(s: Seq<char>) -> bool {
    let parts = text::pieces(s, '.');
    &&& parts.len() == 4
    &&& forall|i: int| 0 <= i < 4 ==> octet(#[trigger] parts[i])
}

/// The complaint about one colon-separated part of an IPv6 address: it is empty
/// or holds hexadecimal digits, in at most four bytes.
pub open spec fn ipv6_part_complaint(part: Seq<char>) -> Option<Seq<char>> {
    if part.len() == 0 {
        None
    } else if vstd::utf8::encode_utf8(part).len() > 4 {
        Some("IPv6 part '"@ + part + "' too long"@)
    } else {
        class_complaint(part, CharClass::HexDigit, "Invalid hex digit '"@, "' in IPv6"@)
    }
}

/// The complaint about the first of `parts` that there is one about.
pub open spec fn ipv6_parts_complaint(parts: Seq<Seq<char>>) -> Option<Seq<char>>
    decreases parts.len(),
{
    if parts.len() == 0 {
        None
    } else {
        or_else(ipv6_part_complaint(parts[0]), ipv6_parts_complaint(parts.skip(1)))
    }
}

/// The first complaint if there is one, else the second.
pub open spec fn or_else(first: Option<Seq<char>>, second: Option<Seq<char>>) -> Option<Seq<char>> {
    match first {
        Some(_) => first,
        None => second,
    }
}

/// How many of `parts` are empty.
pub open spec fn empty_parts(parts: Seq<Seq<char>>) -> nat
    decreases parts.len(),
{
    if parts.len() == 0 {
        0
    } else {
        (if parts[0].len() == 0 { 1nat } else { 0nat }) + empty_parts(parts.skip(1))
    }
}

/// The complaint about an IPv6 address without its brackets.
pub open spec fn ipv6_complaint(s: Seq<char>) -> Option<Seq<char>> {
    let parts = text::pieces(s, ':');
    if parts.len() > 8 {
        Some("IPv6 address has too many parts"@)
    } else {
        or_else(
            ipv6_parts_complaint(parts),
            if empty_parts(parts) > 1 && parts.len() < 3 {
                Some("Invalid IPv6 format"@)
            } else {
                None
            },
        )
    }
}

/// `s` stands in square brackets.
pub open spec fn bracketed(s: Seq<char>) -> bool {
    s.len() > 0 && s[0] == '[' && s.last() == ']'
}

/// The complaint about a host: an IPv6 address in brackets, an IPv4 address or
/// a name.
pub open spec fn host_complaint(s: Seq<char>) -> Option<Seq<char>> {
    if s.len() == 0 {
        Some("Host cannot be empty"@)
    } else if bracketed(s) {
        ipv6_complaint(s.subrange(1, s.len() - 1))
    } else if ipv4(s) {
        None
    } else {
        class_complaint(s, CharClass::RegName, "Invalid character '"@, "' in host"@)
    }
}

/// The host and the port in the end of an authority, or the complaint about
/// their form. A host that opens with a bracket reaches to the first closing one;
/// otherwise the last colon opens the port.
pub open spec fn host_port(s: Seq<char>) -> Result<(Seq<char>, Option<Seq<char>>), Seq<char>> {
    if s.len() > 0 && s[0] == '[' {
        match s.index_of_first(']') {
            None => Err("Unclosed '[' in IPv6 address"@),
            Some(end) => if s.len() == end + 1 {
                Ok((s, None))
            } else if s[end + 1] != ':' {
                Err("Expected ':' after IPv6 address"@)
            } else {
                Ok((s.take(end + 1), Some(s.skip(end + 2))))
            },
        }
    } else {
        match s.index_of_last(':') {
            None => Ok((s, None)),
            Some(colon) => Ok((s.take(colon), Some(s.skip(colon + 1)))),
        }
    }
}

/// The complaint about a host and an optional port.
pub open spec fn host_port_complaint(s: Seq<char>) -> Option<Seq<char>> {
    match host_port(s) {
        Err(complaint) => Some(complaint),
        Ok((host, None)) => host_complaint(host),
        Ok((host, Some(port))) => or_else(host_complaint(host), port_complaint(port)),
    }
}

/// The complaint about user information.
pub open spec fn userinfo_complaint(s: Seq<char>) -> Option<Seq<char>> {
    class_complaint(s, CharClass::Userinfo, "Invalid character '"@, "' in userinfo"@)
}

/// The complaint about an authority: the last `@` ends the user information,
/// and a host with an optional port follows. An empty authority passes.
pub open spec fn authority_complaint(s: Seq<char>) -> Option<Seq<char>> {
    if s.len() == 0 {
        None
    } else {
        match s.index_of_last('@') {
            None => host_port_complaint(s),
            Some(at) => or_else(
                userinfo_complaint(s.take(at)),
                host_port_complaint(s.skip(at + 1)),
            ),
        }
    }
}

/// The complaint about a path.
pub open spec fn path_complaint(s: Seq<char>) -> Option<Seq<char>> {
    class_complaint(s, CharClass::Path, "Invalid character '"@, "' in path"@)
}

/// The complaint about a query or a fragment; `name` says which of the two.
pub open spec fn query_or_fragment_complaint(s: Seq<char>, name: Seq<char>) -> Option<Seq<char>> {
    class_complaint(s, CharClass::QueryOrFragment, "Invalid character '"@, "' in "@ + name)
}

/// The position of the first `c` in `s`, or the length of `s` if there is none.
pub open spec fn reach(s: Seq<char>, c: char) -> int {
    match s.index_of_first(c) {
        Some(i) => i,
        None => s.len() as int,
    }
}

/// The smaller of two positions.
pub open spec fn smaller(a: int, b: int) -> int {
    if a < b {
        a
    } else {
        b
    }
}

/// The components of a URI text.
pub ghost struct UriParts {
    pub scheme: Option<Seq<char>>,
    pub authority: Option<Seq<char>>,
    pub path: Seq<char>,
    pub query: Option<Seq<char>>,
    pub fragment: Option<Seq<char>>,
}

/// A query, introduced by `?`, and a fragment, introduced by `#`, as they stand
/// after a path.
pub open spec fn split_tail(s: Seq<char>) -> (Option<Seq<char>>, Option<Seq<char>>) {
    if s.len() == 0 {
        (None, None)
    } else if s[0] == '?' {
        let after = s.skip(1);
        let end = reach(after, '#');
        (
            Some(after.take(end)),
            if end < after.len() {
                Some(after.skip(end + 1))
            } else {
                None
            },
        )
    } else {
        (None, Some(s.skip(1)))
    }
}

/// Where the path ends that `s` starts with.
pub open spec fn path_end(s: Seq<char>) -> int {
    smaller(reach(s, '?'), reach(s, '#'))
}

/// Where the authority ends that `s` starts with.
pub open spec fn authority_end(s: Seq<char>) -> int {
    smaller(reach(s, '/'), path_end(s))
}

/// `s` opens with two slashes.
pub open spec fn has_authority(s: Seq<char>) -> bool {
    s.len() >= 2 && s[0] == '/' && s[1] == '/'
}

/// What follows the scheme of `s` and its colon.
pub open spec fn after_scheme(s: Seq<char>) -> Seq<char> {
    match s.index_of_first(':') {
        None => s,
        Some(colon) => s.skip(colon + 1),
    }
}

/// What follows the authority of `s`, where `s` follows a scheme.
pub open spec fn after_authority(s: Seq<char>) -> Seq<char> {
    if has_authority(s) {
        s.skip(2).skip(authority_end(s.skip(2)))
    } else {
        s
    }
}

/// Takes a URI text apart. Everything before the first colon counts as the
/// scheme, wherever in the text that colon stands.
pub open spec fn uri_parts(s: Seq<char>) -> UriParts {
    let hier = after_scheme(s);
    let rest = after_authority(hier);
    let (query, fragment) = split_tail(rest.skip(path_end(rest)));
    UriParts {
        scheme: match s.index_of_first(':') {
            None => None,
            Some(colon) => Some(s.take(colon)),
        },
        authority: if has_authority(hier) {
            Some(hier.skip(2).take(authority_end(hier.skip(2))))
        } else {
            None
        },
        path: rest.take(path_end(rest)),
        query,
        fragment,
    }
}

/// The complaint about a URI: about its first component that there is one about.
pub open spec fn uri_complaint(s: Seq<char>) -> Option<Seq<char>> {
    if s.len() == 0 {
        Some("URI cannot be empty"@)
    } else {
        let parts = uri_parts(s);
        let scheme = match parts.scheme {
            Some(scheme) => scheme_complaint(scheme),
            None => None,
        };
        let authority = match parts.authority {
            Some(authority) => authority_complaint(authority),
            None => None,
        };
        let query = match parts.query {
            Some(query) => query_or_fragment_complaint(query, "query"@),
            None => None,
        };
        let fragment = match parts.fragment {
            Some(fragment) => query_or_fragment_complaint(fragment, "fragment"@),
            None => None,
        };
        or_else(
            scheme,
            or_else(authority, or_else(path_complaint(parts.path), or_else(query, fragment))),
        )
    }
}

/// `part` after its delimiter, or nothing.
pub open spec fn delimited(delimiter: Seq<char>, part: Option<Seq<char>>) -> Seq<char> {
    match part {
        Some(part) => delimiter + part,
        None => Seq::empty(),
    }
}

/// A URI text put together from its components.
pub open spec fn assembled(parts: UriParts) -> Seq<char> {
    let scheme = match parts.scheme {
        Some(scheme) => scheme + ":"@,
        None => Seq::empty(),
    };
    scheme + (delimited("//"@, parts.authority) + (parts.path + (delimited("?"@, parts.query)
        + delimited("#"@, parts.fragment))))
}

proof fn lemma_reach(s: Seq<char>, c: char)
    ensures
        0 <= reach(s, c) <= s.len(),
        reach(s, c) < s.len() ==> s[reach(s, c)] == c,
{
    s.index_of_first_ensures(c);
}

proof fn lemma_path_end(s: Seq<char>)
    ensures
        0 <= path_end(s) <= s.len(),
        path_end(s) < s.len() ==> s[path_end(s)] == '?' || s[path_end(s)] == '#',
{
    lemma_reach(s, '?');
    lemma_reach(s, '#');
}

proof fn lemma_tail_assembles(tail: Seq<char>)
    requires
        tail.len() > 0 ==> tail[0] == '?' || tail[0] == '#',
    ensures
        delimited("?"@, split_tail(tail).0) + delimited("#"@, split_tail(tail).1) == tail,
{
    reveal_strlit("?");
    reveal_strlit("#");
    let (query, fragment) = split_tail(tail);
    if tail.len() == 0 {
        assert(delimited("?"@, query) + delimited("#"@, fragment) =~= tail);
    } else if tail[0] == '?' {
        let after = tail.skip(1);
        let end = reach(after, '#');
        lemma_reach(after, '#');
        assert("?"@ + after =~= tail);
        if end < after.len() {
            assert(after.take(end) + ("#"@ + after.skip(end + 1)) =~= after);
            assert("?"@ + after.take(end) + ("#"@ + after.skip(end + 1)) =~= "?"@ + after);
        } else {
            assert(after.take(end) =~= after);
            assert("?"@ + after + Seq::empty() =~= tail);
        }
    } else {
        assert(Seq::empty() + ("#"@ + tail.skip(1)) =~= tail);
    }
}

proof fn lemma_authority_assembles(hier: Seq<char>)
    ensures
        has_authority(hier) ==> "//"@ + hier.skip(2).take(authority_end(hier.skip(2)))
            + after_authority(hier) == hier,
{
    reveal_strlit("//");
    if has_authority(hier) {
        let after = hier.skip(2);
        lemma_reach(after, '/');
        lemma_path_end(after);
        assert("//"@ + after.take(authority_end(after)) + after.skip(authority_end(after))
            =~= hier);
    }
}

/// Taking a URI text apart loses nothing: its components, put together again
/// with their delimiters, give the text back.
pub proof fn law_parts_assemble(s: Seq<char>)
    ensures
        assembled(uri_parts(s)) == s,
{
    let parts = uri_parts(s);
    let hier = after_scheme(s);
    let rest = after_authority(hier);
    let tail = rest.skip(path_end(rest));
    lemma_path_end(rest);
    lemma_tail_assembles(tail);
    assert(parts.path + tail =~= rest);
    lemma_authority_assembles(hier);
    assert(delimited("//"@, parts.authority) + rest =~= hier);
    s.index_of_first_ensures(':');
    match parts.scheme {
        Some(scheme) => {
            reveal_strlit(":");
            assert(scheme + ":"@ + hier =~= s);
        },
        None => {
            assert(Seq::empty() + hier =~= s);
        },
    }
}

/// Splitting off the port loses nothing: the host, and after a colon the port,
/// give the text back.
pub proof fn law_host_port_assemble(s: Seq<char>)
    ensures
        match host_port(s) {
            Ok((host, None)) => host == s,
            Ok((host, Some(port))) => host.push(':') + port == s,
            Err(_) => s.len() > 0 && s[0] == '[',
        },
{
    s.index_of_first_ensures(']');
    s.index_of_last_ensures(':');
    match host_port(s) {
        Ok((host, Some(port))) => {
            assert(host.push(':') + port =~= s);
        },
        _ => {},
    }
}

/// An IPv4 address holds only characters of a name, and is accepted as a host.
pub proof fn law_ipv4_is_host(s: Seq<char>)
    requires
        ipv4(s),
    ensures
        all_in(s, CharClass::RegName),
        host_complaint(s) is None,
{
    let parts = text::pieces(s, '.');
    assert forall|i: int| 0 <= i < s.len() implies CharClass::RegName.has(#[trigger] s[i]) by {
        text::lemma_in_piece(s, '.', i);
        if s[i] != '.' {
            let k = choose|k: int| 0 <= k < parts.len() && (#[trigger] parts[k]).contains(s[i]);
            let part = parts[k];
            let j = choose|j: int| 0 <= j < part.len() && part[j] == s[i];
            assert(octet(part));
            if part[0] == '+' {
                if j > 0 {
                    assert(CharClass::Digit.has(part.skip(1)[j - 1]));
                }
            } else {
                assert(CharClass::Digit.has(part[j]));
            }
        }
    }
    if s.len() == 0 {
        assert(parts.len() == 1);
    } else {
        assert(CharClass::RegName.has(s[0]));
    }
}

/// Every port number, written in decimal, is accepted as a port.
pub proof fn law_port_numbers_pass(n: u16)
    ensures
        port_complaint(text::decimal_text(n as nat)) is None,
{
    text::law_decimal_round_trip(n as nat);
    assert(all_in(text::decimal_text(n as nat), CharClass::Digit));
}

pub(crate) proof fn lemma_class_is_ascii(s: Seq<char>, class: CharClass)
    requires
        all_in(s, class),
    ensures
        vstd::utf8::is_ascii_chars(s),
{
    assert forall|i: int| 0 <= i < s.len() implies '\0' <= #[trigger] s[i] <= '\u{7f}' by {
        assert(class.has(s[i]));
    }
}

pub(crate) proof fn lemma_ipv6_parts(parts: Seq<Seq<char>>, k: int)
    requires
        ipv6_parts_complaint(parts) is None,
        0 <= k < parts.len(),
    ensures
        ipv6_part_complaint(parts[k]) is None,
    decreases parts.len(),
{
    if k > 0 {
        lemma_ipv6_parts(parts.skip(1), k - 1);
        assert(parts.skip(1)[k - 1] == parts[k]);
    }
}

proof fn lemma_ipv6_is_ascii(s: Seq<char>)
    requires
        ipv6_complaint(s) is None,
    ensures
        vstd::utf8::is_ascii_chars(s),
{
    let parts = text::pieces(s, ':');
    assert forall|i: int| 0 <= i < s.len() implies '\0' <= #[trigger] s[i] <= '\u{7f}' by {
        text::lemma_in_piece(s, ':', i);
        if s[i] != ':' {
            let k = choose|k: int| 0 <= k < parts.len() && (#[trigger] parts[k]).contains(s[i]);
            let j = choose|j: int| 0 <= j < parts[k].len() && parts[k][j] == s[i];
            lemma_ipv6_parts(parts, k);
            assert(CharClass::HexDigit.has(parts[k][j]));
        }
    }
}

proof fn lemma_host_is_ascii(s: Seq<char>)
    requires
        host_complaint(s) is None,
    ensures
        vstd::utf8::is_ascii_chars(s),
{
    if bracketed(s) {
        let inner = s.subrange(1, s.len() - 1);
        lemma_ipv6_is_ascii(inner);
        assert forall|i: int| 0 <= i < s.len() implies '\0' <= #[trigger] s[i] <= '\u{7f}' by {
            if 0 < i < s.len() - 1 {
                assert(s[i] == inner[i - 1]);
            }
        }
    } else {
        if ipv4(s) {
            law_ipv4_is_host(s);
        }
        lemma_class_is_ascii(s, CharClass::RegName);
    }
}

proof fn lemma_host_port_is_ascii(s: Seq<char>)
    requires
        host_port_complaint(s) is None,
    ensures
        vstd::utf8::is_ascii_chars(s),
{
    law_host_port_assemble(s);
    match host_port(s) {
        Ok((host, port)) => {
            lemma_host_is_ascii(host);
            match port {
                Some(port) => {
                    lemma_class_is_ascii(port, CharClass::Digit);
                },
                None => {},
            }
        },
        Err(_) => {},
    }
}

proof fn lemma_authority_is_ascii(s: Seq<char>)
    requires
        authority_complaint(s) is None,
    ensures
        vstd::utf8::is_ascii_chars(s),
{
    s.index_of_last_ensures('@');
    match s.index_of_last('@') {
        None => {
            if s.len() > 0 {
                lemma_host_port_is_ascii(s);
            }
        },
        Some(at) => {
            lemma_class_is_ascii(s.take(at), CharClass::Userinfo);
            lemma_host_port_is_ascii(s.skip(at + 1));
            assert(s.take(at).push('@') + s.skip(at + 1) =~= s);
        },
    }
}

proof fn lemma_scheme_is_ascii(s: Seq<char>)
    requires
        scheme_complaint(s) is None,
    ensures
        vstd::utf8::is_ascii_chars(s),
{
    if s.len() > 0 {
        lemma_class_is_ascii(s.skip(1), CharClass::SchemeTail);
        assert forall|i: int| 0 <= i < s.len() implies '\0' <= #[trigger] s[i] <= '\u{7f}' by {
            if i > 0 {
                assert(s[i] == s.skip(1)[i - 1]);
            }
        }
    }
}

proof fn lemma_ascii_concat(a: Seq<char>, b: Seq<char>)
    requires
        vstd::utf8::is_ascii_chars(a),
        vstd::utf8::is_ascii_chars(b),
    ensures
        vstd::utf8::is_ascii_chars(a + b),
{
    assert forall|i: int| 0 <= i < (a + b).len() implies '\0' <= #[trigger] (a + b)[i]
        <= '\u{7f}' by {
        if i < a.len() {
            assert((a + b)[i] == a[i]);
        } else {
            assert((a + b)[i] == b[i - a.len()]);
        }
    }
}

proof fn lemma_delimited_is_ascii(delimiter: Seq<char>, part: Option<Seq<char>>)
    requires
        vstd::utf8::is_ascii_chars(delimiter),
        part matches Some(part) ==> vstd::utf8::is_ascii_chars(part),
    ensures
        vstd::utf8::is_ascii_chars(delimited(delimiter, part)),
{
    match part {
        Some(part) => lemma_ascii_concat(delimiter, part),
        None => {},
    }
}

proof fn lemma_delimiters_are_ascii()
    ensures
        vstd::utf8::is_ascii_chars(":"@),
        vstd::utf8::is_ascii_chars("//"@),
        vstd::utf8::is_ascii_chars("?"@),
        vstd::utf8::is_ascii_chars("#"@),
{
    reveal_strlit(":");
    reveal_strlit("//");
    reveal_strlit("?");
    reveal_strlit("#");
}

proof fn lemma_assembled_is_ascii(parts: UriParts)
    requires
        parts.scheme matches Some(scheme) ==> vstd::utf8::is_ascii_chars(scheme),
        parts.authority matches Some(authority) ==> vstd::utf8::is_ascii_chars(authority),
        vstd::utf8::is_ascii_chars(parts.path),
        parts.query matches Some(query) ==> vstd::utf8::is_ascii_chars(query),
        parts.fragment matches Some(fragment) ==> vstd::utf8::is_ascii_chars(fragment),
    ensures
        vstd::utf8::is_ascii_chars(assembled(parts)),
{
    lemma_delimiters_are_ascii();
    let scheme = match parts.scheme {
        Some(scheme) => scheme + ":"@,
        None => Seq::empty(),
    };
    match parts.scheme {
        Some(scheme) => lemma_ascii_concat(scheme, ":"@),
        None => {},
    }
    let authority = delimited("//"@, parts.authority);
    let query = delimited("?"@, parts.query);
    let fragment = delimited("#"@, parts.fragment);
    lemma_delimited_is_ascii("//"@, parts.authority);
    lemma_delimited_is_ascii("?"@, parts.query);
    lemma_delimited_is_ascii("#"@, parts.fragment);
    lemma_ascii_concat(query, fragment);
    lemma_ascii_concat(parts.path, query + fragment);
    lemma_ascii_concat(authority, parts.path + (query + fragment));
    lemma_ascii_concat(scheme, authority + (parts.path + (query + fragment)));
}

/// A URI text that passes the checks holds ASCII characters only.
pub proof fn law_valid_uri_is_ascii(s: Seq<char>)
    requires
        uri_complaint(s) is None,
    ensures
        vstd::utf8::is_ascii_chars(s),
{
    let parts = uri_parts(s);
    law_parts_assemble(s);
    match parts.scheme {
        Some(scheme) => lemma_scheme_is_ascii(scheme),
        None => {},
    }
    match parts.authority {
        Some(authority) => lemma_authority_is_ascii(authority),
        None => {},
    }
    lemma_class_is_ascii(parts.path, CharClass::Path);
    match parts.query {
        Some(query) => lemma_class_is_ascii(query, CharClass::QueryOrFragment),
        None => {},
    }
    match parts.fragment {
        Some(fragment) => lemma_class_is_ascii(fragment, CharClass::QueryOrFragment),
        None => {},
    }
    lemma_assembled_is_ascii(parts);
}

fn reach_of(s: &str, c: char) -> (n: usize)
    ensures
        n == reach(s@, c),
        n <= s@.len(),
{
    proof {
        s@.index_of_first_ensures(c);
    }
    match find_first(s, c) {
        Some(i) => i,
        None => s.unicode_len(),
    }
}

fn path_end_of(s: &str) -> (n: usize)
    ensures
        n == path_end(s@),
        n <= s@.len(),
{
    let query = reach_of(s, '?');
    let fragment = reach_of(s, '#');
    if query < fragment {
        query
    } else {
        fragment
    }
}

fn authority_end_of(s: &str) -> (n: usize)
    ensures
        n == authority_end(s@),
        n <= s@.len(),
{
    let slash = reach_of(s, '/');
    let end = path_end_of(s);
    if slash < end {
        slash
    } else {
        end
    }
}

/// A URI text that passes `UriSerde::validate`.
#[derive(Debug)]
pub struct UriSerde(String);

impl View for UriSerde {
    type V = Seq<char>;

    closed spec fn view(&self) -> Seq<char> {
        self.0@
    }
}

impl UriSerde {
    /// Whether user information may hold `ch`.
    pub fn is_userinfo_char(ch: char) -> (b: bool)
        ensures
            b == userinfo_char(ch),
    {
        is_unreserved(ch) || is_sub_delim(ch) || ch == ':' || is_pct_encoded_start(ch)
    }

    /// Whether a path may hold `ch`.
    pub fn is_path_char(ch: char) -> (b: bool)
        ensures
            b == path_char(ch),
    {
        is_unreserved(ch) || is_sub_delim(ch) || ch == ':' || ch == '@' || ch == '/'
            || is_pct_encoded_start(ch)
    }

    /// Whether a query or a fragment may hold `ch`.
    pub fn is_query_or_fragment_char(ch: char) -> (b: bool)
        ensures
            b == query_or_fragment_char(ch),
    {
        Self::is_path_char(ch) || ch == '?'
    }

    /// Whether a host given by name may hold `ch`.
    pub fn is_reg_name_char(ch: char) -> (b: bool)
        ensures
            b == reg_name_char(ch),
    {
        is_unreserved(ch) || is_sub_delim(ch) || is_pct_encoded_start(ch)
    }

    /// Checks a scheme.
    pub fn validate_scheme(scheme: &str) -> (outcome: Result<(), String>)
        ensures
            reports(outcome, scheme_complaint(scheme@)),
    {
        if scheme.unicode_len() > 0 {
            let first: char = scheme.get_char(0);
            if !is_letter(first) {
                return Err(message("Scheme must start with letter, found '", first, "'"));
            }
            return check_class(
                skip(scheme, 1),
                CharClass::SchemeTail,
                "Invalid character '",
                "' in scheme",
            );
        }
        Ok(())
    }

    /// Checks a port.
    pub fn validate_port(port: &str) -> (outcome: Result<(), String>)
        ensures
            reports(outcome, port_complaint(port@)),
    {
        if port.is_empty() {
            return Err(String::from_str("Port cannot be empty"));
        }
        match find_stray(port, CharClass::Digit) {
            Some(c) => {
                return Err(message("Invalid character '", c, "' in port"));
            },
            None => {},
        }
        let digits = chars_of(port);
        proof {
            assert forall|i: int| 0 <= i < digits@.len() implies '0' <= #[trigger] digits@[i]
                <= '9' by {
                assert(CharClass::Digit.has(port@[i]));
            }
        }
        match parse_decimal(&digits) {
            None => Err(String::from_str("Port number too large")),
            Some(number) => {
                if number > 65535 {
                    Err(String::from_str("Port must be 0-65535"))
                } else {
                    Ok(())
                }
            },
        }
    }

    /// Whether `part` is one of the four numbers of an IPv4 address.
    fn is_octet(part: &str) -> (b: bool)
        ensures
            b == octet(part@),
    {
        let len = part.unicode_len();
        if len == 0 || len > 3 {
            return false;
        }
        let digits = if part.get_char(0) == '+' {
            skip(part, 1)
        } else {
            part
        };
        if digits.is_empty() || find_stray(digits, CharClass::Digit).is_some() {
            return false;
        }
        let chars = chars_of(digits);
        proof {
            assert forall|i: int| 0 <= i < chars@.len() implies '0' <= #[trigger] chars@[i]
                <= '9' by {
                assert(CharClass::Digit.has(digits@[i]));
            }
        }
        match parse_decimal(&chars) {
            Some(number) => number <= 255,
            None => false,
        }
    }

    /// Whether `s` is an IPv4 address.
    pub fn is_ipv4(s: &str) -> (b: bool)
        ensures
            b == ipv4(s@),
    {
        let parts = split(s, '.');
        if parts.len() != 4 {
            return false;
        }
        let mut i: usize = 0;
        while i < 4
            invariant
                parts@.len() == 4,
                text::views(parts@) == text::pieces(s@, '.'),
                i <= 4,
                forall|j: int| 0 <= j < i ==> octet(#[trigger] text::pieces(s@, '.')[j]),
            decreases 4 - i,
        {
            proof {
                assert(text::views(parts@)[i as int] == parts@[i as int]@);
            }
            if !Self::is_octet(parts[i]) {
                return false;
            }
            i += 1;
        }
        true
    }

    /// Checks an IPv6 address without its brackets.
    pub fn validate_ipv6(addr: &str) -> (outcome: Result<(), String>)
        ensures
            reports(outcome, ipv6_complaint(addr@)),
    {
        let parts = split(addr, ':');
        if parts.len() > 8 {
            return Err(String::from_str("IPv6 address has too many parts"));
        }
        let ghost all = text::pieces(addr@, ':');
        let mut empty: usize = 0;
        let mut i: usize = 0;
        proof {
            assert(all.skip(0) =~= all);
        }
        while i < parts.len()
            invariant
                parts@.len() <= 8,
                text::views(parts@) == all,
                all == text::pieces(addr@, ':'),
                i <= parts@.len(),
                empty <= i,
                ipv6_parts_complaint(all) == ipv6_parts_complaint(all.skip(i as int)),
                empty_parts(all) == empty + empty_parts(all.skip(i as int)),
            decreases parts.len() - i,
        {
            let part = parts[i];
            proof {
                assert(part@ == all[i as int]);
                assert(all.skip(i as int)[0] == part@);
                assert(all.skip(i as int).skip(1) =~= all.skip(i + 1));
            }
            if part.is_empty() {
                empty += 1;
            } else if part.as_bytes().len() > 4 {
                let mut text = String::from_str("IPv6 part '");
                text.append(part);
                text.append("' too long");
                return Err(text);
            } else {
                match find_stray(part, CharClass::HexDigit) {
                    Some(c) => {
                        return Err(message("Invalid hex digit '", c, "' in IPv6"));
                    },
                    None => {},
                }
            }
            i += 1;
        }
        if empty > 1 && parts.len() < 3 {
            return Err(String::from_str("Invalid IPv6 format"));
        }
        Ok(())
    }

    /// Checks a host.
    pub fn validate_host(host: &str) -> (outcome: Result<(), String>)
        ensures
            reports(outcome, host_complaint(host@)),
    {
        if host.is_empty() {
            return Err(String::from_str("Host cannot be empty"));
        }
        let len = host.unicode_len();
        if host.get_char(0) == '[' && host.get_char(len - 1) == ']' {
            return Self::validate_ipv6(host.substring_char(1, len - 1));
        }
        if Self::is_ipv4(host) {
            return Ok(());
        }
        check_class(host, CharClass::RegName, "Invalid character '", "' in host")
    }

    /// Splits the end of an authority into a host and an optional port.
    pub fn parse_host_port(s: &str) -> (outcome: Result<(&str, Option<&str>), String>)
        ensures
            match outcome {
                Ok((host, None)) => host_port(s@) == Ok::<_, Seq<char>>(
                    (host@, None::<Seq<char>>),
                ),
                Ok((host, Some(port))) => host_port(s@) == Ok::<_, Seq<char>>(
                    (host@, Some(port@)),
                ),
                Err(text) => host_port(s@) == Err::<(Seq<char>, Option<Seq<char>>), _>(text@),
            },
    {
        let len = s.unicode_len();
        if len > 0 && s.get_char(0) == '[' {
            return match find_first(s, ']') {
                None => Err(String::from_str("Unclosed '[' in IPv6 address")),
                Some(end) => {
                    if len == end + 1 {
                        Ok((s, None))
                    } else if s.get_char(end + 1) != ':' {
                        Err(String::from_str("Expected ':' after IPv6 address"))
                    } else {
                        Ok((take(s, end + 1), Some(skip(s, end + 2))))
                    }
                },
            };
        }
        match find_last(s, ':') {
            Some(colon) => Ok((take(s, colon), Some(skip(s, colon + 1)))),
            None => Ok((s, None)),
        }
    }

    /// Checks user information.
    pub fn validate_userinfo(userinfo: &str) -> (outcome: Result<(), String>)
        ensures
            reports(outcome, userinfo_complaint(userinfo@)),
    {
        check_class(userinfo, CharClass::Userinfo, "Invalid character '", "' in userinfo")
    }

    /// Checks an authority.
    pub fn validate_authority(authority: &str) -> (outcome: Result<(), String>)
        ensures
            reports(outcome, authority_complaint(authority@)),
    {
        if authority.is_empty() {
            return Ok(());
        }
        let location = match find_last(authority, '@') {
            Some(at) => {
                Self::validate_userinfo(take(authority, at))?;
                skip(authority, at + 1)
            },
            None => authority,
        };
        let (host, port) = Self::parse_host_port(location)?;
        Self::validate_host(host)?;
        if let Some(p) = port {
            Self::validate_port(p)?;
        }
        Ok(())
    }

    /// Checks a path.
    pub fn validate_path(path: &str) -> (outcome: Result<(), String>)
        ensures
            reports(outcome, path_complaint(path@)),
    {
        check_class(path, CharClass::Path, "Invalid character '", "' in path")
    }

    /// Checks a query or a fragment; `name` says in the message which of the two.
    pub fn validate_query_or_fragment(s: &str, name: &str) -> (outcome: Result<(), String>)
        ensures
            reports(outcome, query_or_fragment_complaint(s@, name@)),
    {
        let mut after = String::from_str("' in ");
        after.append(name);
        check_class(s, CharClass::QueryOrFragment, "Invalid character '", after.as_str())
    }

    /// Checks a URI.
    pub fn validate(uri: &str) -> (outcome: Result<(), String>)
        ensures
            reports(outcome, uri_complaint(uri@)),
    {
        if uri.is_empty() {
            return Err(String::from_str("URI cannot be empty"));
        }
        // Scheme (optional)
        let hier = match find_first(uri, ':') {
            Some(colon) => {
                Self::validate_scheme(take(uri, colon))?;
                skip(uri, colon + 1)
            },
            None => uri,
        };
        // Authority (optional)
        let rest = if hier.unicode_len() >= 2 && hier.get_char(0) == '/' && hier.get_char(1)
            == '/' {
            let after = skip(hier, 2);
            let end = authority_end_of(after);
            Self::validate_authority(take(after, end))?;
            skip(after, end)
        } else {
            hier
        };
        // Path
        let end = path_end_of(rest);
        Self::validate_path(take(rest, end))?;
        // Query and fragment (both optional)
        let tail = skip(rest, end);
        if tail.unicode_len() > 0 {
            proof {
                rest@.index_of_first_ensures('?');
                rest@.index_of_first_ensures('#');
            }
            let after = skip(tail, 1);
            if tail.get_char(0) == '?' {
                let end = reach_of(after, '#');
                Self::validate_query_or_fragment(take(after, end), "query")?;
                if end < after.unicode_len() {
                    Self::validate_query_or_fragment(skip(after, end + 1), "fragment")?;
                }
            } else {
                Self::validate_query_or_fragment(after, "fragment")?;
            }
        }
        Ok(())
    }

    /// Checks `str` and keeps it.
    pub fn new(str: &str) -> (made: Result<Self, String>)
        ensures
            match made {
                Ok(uri) => uri_complaint(str@) is None && uri@ == str@,
                Err(text) => uri_complaint(str@) == Some(text@),
            },
    {
        Self::validate(str)?;
        Ok(UriSerde(String::from_str(str)))
    }

    #[verifier::type_invariant]
    closed spec fn checked(self) -> bool {
        uri_complaint(self.0@) is None
    }

    /// The text.
    pub fn as_str(&self) -> (text: &str)
        ensures
            text@ == self@,
            uri_complaint(text@) is None,
    {
        proof {
            use_type_invariant(self);
        }
        self.0.as_str()
    }

    /// The text, borrowed.
    pub fn as_ref(&self) -> (text: &str)
        ensures
            text@ == self@,
            uri_complaint(text@) is None,
    {
        self.as_str()
    }

    /// The text, owned.
    pub fn into_string(self) -> (text: String)
        ensures
            text@ == self@,
            uri_complaint(text@) is None,
    {
        proof {
            use_type_invariant(&self);
        }
        self.0
    }

    /// Checks the text again; it passes.
    pub fn valid(&self) -> (b: bool)
        ensures
            b == uri_complaint(self@) is None,
            b,
    {
        proof {
            use_type_invariant(self);
        }
        Self::validate(self.0.as_str()).is_ok()
    }
}

impl Clone for UriSerde {
    fn clone(&self) -> (copy: Self)
        ensures
            copy@ == self@,
    {
        proof {
            use_type_invariant(self);
        }
        UriSerde(self.0.clone())
    }
}

} // verus!
