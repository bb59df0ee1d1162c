//! What the checks of URI texts promise, component by component.

use crate::rfc3986;
use crate::route;
use crate::text;
use crate::uri;
use crate::uri_serde::{self, CharClass};
use vstd::prelude::*;

verus! {

/// The characters of each component, by code point, in the order of the code table.
pub proof fn law_component_characters(c: char)
    ensures
        CharClass::Path.has(c) <==> c as u32 == 0x21 || 0x24 <= c as u32 <= 0x3b || c as u32 == 0x3d
            || 0x40 <= c as u32 <= 0x5a || c as u32 == 0x5f || 0x61 <= c as u32 <= 0x7a || c as u32
            == 0x7e,
        CharClass::QueryOrFragment.has(c) <==> c as u32 == 0x21 || 0x24 <= c as u32 <= 0x3b || c
            as u32 == 0x3d || 0x3f <= c as u32 <= 0x5a || c as u32 == 0x5f || 0x61 <= c as u32
            <= 0x7a || c as u32 == 0x7e,
        CharClass::Userinfo.has(c) <==> c as u32 == 0x21 || 0x24 <= c as u32 <= 0x2e || 0x30 <= c
            as u32 <= 0x3b || c as u32 == 0x3d || 0x41 <= c as u32 <= 0x5a || c as u32 == 0x5f
            || 0x61 <= c as u32 <= 0x7a || c as u32 == 0x7e,
        CharClass::RegName.has(c) <==> c as u32 == 0x21 || 0x24 <= c as u32 <= 0x2e || 0x30 <= c
            as u32 <= 0x39 || c as u32 == 0x3b || c as u32 == 0x3d || 0x41 <= c as u32 <= 0x5a || c
            as u32 == 0x5f || 0x61 <= c as u32 <= 0x7a || c as u32 == 0x7e,
        CharClass::SchemeTail.has(c) <==> c as u32 == 0x2b || 0x2d <= c as u32 <= 0x2e || 0x30 <= c
            as u32 <= 0x39 || 0x41 <= c as u32 <= 0x5a || 0x61 <= c as u32 <= 0x7a,
        CharClass::Digit.has(c) <==> 0x30 <= c as u32 <= 0x39,
        CharClass::HexDigit.has(c) <==> 0x30 <= c as u32 <= 0x39 || 0x41 <= c as u32 <= 0x46 || 0x61
            <= c as u32 <= 0x66,
        uri_serde::path_char(c) <==> CharClass::Path.has(c),
        uri_serde::query_or_fragment_char(c) <==> CharClass::QueryOrFragment.has(c),
        uri_serde::userinfo_char(c) <==> CharClass::Userinfo.has(c),
        uri_serde::reg_name_char(c) <==> CharClass::RegName.has(c),
{
}

/// The outcome of a check: it passes where there is no complaint, and else fails with
/// the complaint as its message.
pub proof fn law_outcome_reports_complaint(text: String, complaint: Option<Seq<char>>)
    ensures
        uri_serde::reports(Ok(()), complaint) <==> complaint is None,
        uri_serde::reports(Err(text), complaint) <==> complaint == Some(text@),
{
}

/// A text of a class passes. One that goes on with a character outside the class is
/// complained about, under that character, whatever follows it.
pub proof fn law_first_stray_is_named(
    good: Seq<char>,
    bad: char,
    rest: Seq<char>,
    class: CharClass,
    before: Seq<char>,
    after: Seq<char>,
)
    requires
        forall|i: int| 0 <= i < good.len() ==> class.has(#[trigger] good[i]),
        !class.has(bad),
    ensures
        uri_serde::class_complaint(good, class, before, after) is None,
        uri_serde::class_complaint(good + seq![bad] + rest, class, before, after) == Some(
            before + seq![bad] + after,
        ),
{
    let s = good + seq![bad] + rest;
    let n = good.len() as int;
    assert(s.take(n) =~= good);
    assert(uri_serde::strays_first_at(s, class, n));
    uri_serde::lemma_first_stray(s, class, n);
    assert(before.push(bad) + after =~= before + seq![bad] + after);
}

/// The components that consist of characters of one class pass if they do, and are
/// complained about by the first other character.
pub proof fn law_component_messages(
    good: Seq<char>,
    bad: char,
    rest: Seq<char>,
    name: Seq<char>,
)
    ensures
        (forall|i: int| 0 <= i < good.len() ==> CharClass::Path.has(#[trigger] good[i])) ==> ({
            &&& uri_serde::path_complaint(good) is None
            &&& !CharClass::Path.has(bad) ==> uri_serde::path_complaint(good + seq![bad] + rest)
                == Some("Invalid character '"@ + seq![bad] + "' in path"@)
        }),
        (forall|i: int| 0 <= i < good.len() ==> CharClass::Userinfo.has(#[trigger] good[i])) ==> ({
            &&& uri_serde::userinfo_complaint(good) is None
            &&& !CharClass::Userinfo.has(bad) ==> uri_serde::userinfo_complaint(
                good + seq![bad] + rest,
            ) == Some("Invalid character '"@ + seq![bad] + "' in userinfo"@)
        }),
        (forall|i: int| 0 <= i < good.len() ==> CharClass::QueryOrFragment.has(#[trigger] good[i]))
            ==> ({
            &&& uri_serde::query_or_fragment_complaint(good, name) is None
            &&& !CharClass::QueryOrFragment.has(bad) ==> uri_serde::query_or_fragment_complaint(
                good + seq![bad] + rest,
                name,
            ) == Some("Invalid character '"@ + seq![bad] + "' in "@ + name)
        }),
{
    let opening = "Invalid character '"@;
    if (forall|i: int| 0 <= i < good.len() ==> CharClass::Path.has(#[trigger] good[i]))
        && !CharClass::Path.has(bad) {
        law_first_stray_is_named(good, bad, rest, CharClass::Path, opening, "' in path"@);
    }
    if (forall|i: int| 0 <= i < good.len() ==> CharClass::Userinfo.has(#[trigger] good[i]))
        && !CharClass::Userinfo.has(bad) {
        law_first_stray_is_named(good, bad, rest, CharClass::Userinfo, opening, "' in userinfo"@);
    }
    if (forall|i: int| 0 <= i < good.len() ==> CharClass::QueryOrFragment.has(#[trigger] good[i]))
        && !CharClass::QueryOrFragment.has(bad) {
        law_first_stray_is_named(
            good,
            bad,
            rest,
            CharClass::QueryOrFragment,
            opening,
            "' in "@ + name,
        );
        assert(opening + seq![bad] + ("' in "@ + name) =~= opening + seq![bad] + "' in "@ + name);
    }
}

/// A scheme passes if it is empty, or a letter followed by letters, digits, `+`, `-` and
/// `.`. The first character that is out of place is named in the message.
pub proof fn law_schemes(first: char, good: Seq<char>, bad: char, rest: Seq<char>)
    requires
        forall|i: int| 0 <= i < good.len() ==> CharClass::SchemeTail.has(#[trigger] good[i]),
    ensures
        uri_serde::scheme_complaint(Seq::empty()) is None,
        ({
            let letter = 0x41 <= first as u32 <= 0x5a || 0x61 <= first as u32 <= 0x7a;
            &&& letter ==> uri_serde::scheme_complaint(seq![first] + good) is None
            &&& letter && !CharClass::SchemeTail.has(bad) ==> uri_serde::scheme_complaint(
                seq![first] + good + seq![bad] + rest,
            ) == Some("Invalid character '"@ + seq![bad] + "' in scheme"@)
            &&& !letter ==> uri_serde::scheme_complaint(seq![first] + rest) == Some(
                "Scheme must start with letter, found '"@ + seq![first] + "'"@,
            )
        }),
{
    assert((seq![first] + good).skip(1) =~= good);
    assert((seq![first] + good + seq![bad] + rest).skip(1) =~= good + seq![bad] + rest);
    assert("Scheme must start with letter, found '"@.push(first) + "'"@
        =~= "Scheme must start with letter, found '"@ + seq![first] + "'"@);
    if !CharClass::SchemeTail.has(bad) {
        law_first_stray_is_named(
            good,
            bad,
            rest,
            CharClass::SchemeTail,
            "Invalid character '"@,
            "' in scheme"@,
        );
    }
}

/// A run of digits passes as a port if and only if it stands for a number up to 65535.
/// Larger numbers, other characters and an empty text have a message each.
pub proof fn law_ports(digits: Seq<char>, bad: char, rest: Seq<char>)
    requires
        forall|i: int| 0 <= i < digits.len() ==> '0' <= #[trigger] digits[i] <= '9',
        !('0' <= bad <= '9'),
    ensures
        uri_serde::port_complaint(Seq::empty()) == Some("Port cannot be empty"@),
        digits.len() > 0 && text::decimal_value(digits) <= 65535 ==> uri_serde::port_complaint(
            digits,
        ) is None,
        digits.len() > 0 && 65535 < text::decimal_value(digits) <= 4294967295
            ==> uri_serde::port_complaint(digits) == Some("Port must be 0-65535"@),
        digits.len() > 0 && text::decimal_value(digits) > 4294967295 ==> uri_serde::port_complaint(
            digits,
        ) == Some("Port number too large"@),
        uri_serde::port_complaint(digits + seq![bad] + rest) == Some(
            "Invalid character '"@ + seq![bad] + "' in port"@,
        ),
{
    let s = digits + seq![bad] + rest;
    law_first_stray_is_named(
        digits,
        bad,
        rest,
        CharClass::Digit,
        "Invalid character '"@,
        "' in port"@,
    );
    assert(!CharClass::Digit.has(s[digits.len() as int]));
}

/// A part of an IPv4 address: one to three digits for a number up to 255, or a `+` and
/// one or two digits.
pub proof fn law_octets(s: Seq<char>)
    ensures
        uri_serde::octet(s) <==> {
            ||| 1 <= s.len() <= 3 && (forall|i: int| 0 <= i < s.len() ==> '0' <= #[trigger] s[i]
                <= '9') && text::decimal_value(s) <= 255
            ||| 2 <= s.len() <= 3 && s[0] == '+' && forall|i: int|
                1 <= i < s.len() ==> '0' <= #[trigger] s[i] <= '9'
        },
{
    if 2 <= s.len() <= 3 && s[0] == '+' {
        let digits = s.skip(1);
        if forall|i: int| 1 <= i < s.len() ==> '0' <= #[trigger] s[i] <= '9' {
            assert forall|i: int| 0 <= i < digits.len() implies '0' <= #[trigger] digits[i]
                <= '9' by {
                assert(digits[i] == s[i + 1]);
            }
            reveal_with_fuel(text::decimal_value, 3);
            assert(digits.last() == digits[digits.len() - 1]);
            if digits.len() == 2 {
                assert(digits.drop_last().last() == digits[0]);
            }
        }
        if uri_serde::octet(s) {
            assert forall|i: int| 1 <= i < s.len() implies '0' <= #[trigger] s[i] <= '9' by {
                assert(CharClass::Digit.has(digits[i - 1]));
            }
        }
    } else if uri_serde::octet(s) {
        assert forall|i: int| 0 <= i < s.len() implies '0' <= #[trigger] s[i] <= '9' by {
            assert(CharClass::Digit.has(s[i]));
        }
    }
}

/// An IPv4 address is four such parts with dots between them, and nothing else is one.
pub proof fn law_ipv4_addresses(parts: Seq<Seq<char>>)
    requires
        parts.len() > 0,
        forall|i: int| 0 <= i < parts.len() ==> !(#[trigger] parts[i]).contains('.'),
    ensures
        uri_serde::ipv4(text::joined(parts, '.')) <==> parts.len() == 4 && uri_serde::octet(
            parts[0],
        ) && uri_serde::octet(parts[1]) && uri_serde::octet(parts[2]) && uri_serde::octet(parts[3]),
{
    text::law_join_pieces(parts, '.');
}

proof fn lemma_number_is_octet(n: u8)
    ensures
        uri_serde::octet(text::decimal_text(n as nat)),
        !text::decimal_text(n as nat).contains('.'),
{
    let s = text::decimal_text(n as nat);
    text::law_decimal_round_trip(n as nat);
    reveal_with_fuel(text::decimal_text, 3);
    assert('0' <= s[0] <= '9');
}

/// Four numbers up to 255, with dots between them, are an IPv4 address.
pub proof fn law_numbers_are_ipv4(a: u8, b: u8, c: u8, d: u8)
    ensures
        uri_serde::ipv4(
            text::decimal_text(a as nat) + seq!['.'] + text::decimal_text(b as nat) + seq!['.']
                + text::decimal_text(c as nat) + seq!['.'] + text::decimal_text(d as nat),
        ),
{
    let (s, t) = (text::decimal_text(a as nat), text::decimal_text(b as nat));
    let (u, v) = (text::decimal_text(c as nat), text::decimal_text(d as nat));
    lemma_number_is_octet(a);
    lemma_number_is_octet(b);
    lemma_number_is_octet(c);
    lemma_number_is_octet(d);
    let two = seq![s].push(t);
    let three = two.push(u);
    let four = three.push(v);
    text::law_joined_part_by_part(seq![s], '.', s);
    text::law_joined_part_by_part(seq![s], '.', t);
    text::law_joined_part_by_part(two, '.', u);
    text::law_joined_part_by_part(three, '.', v);
    law_ipv4_addresses(four);
}

/// A part that may stand between the colons of an IPv6 address: at most four
/// hexadecimal digits, or nothing.
pub open spec fn group(s: Seq<char>) -> bool {
    &&& s.len() <= 4
    &&& forall|i: int|
        0 <= i < s.len() ==> '0' <= #[trigger] s[i] <= '9' || 'a' <= s[i] <= 'f' || 'A' <= s[i]
            <= 'F'
}

proof fn lemma_group_passes(s: Seq<char>)
    ensures
        uri_serde::ipv6_part_complaint(s) is None <==> group(s),
        group(s) ==> !s.contains(':'),
{
    if group(s) {
        assert(uri_serde::all_in(s, CharClass::HexDigit));
        uri_serde::lemma_class_is_ascii(s, CharClass::HexDigit);
        vstd::utf8::is_ascii_chars_encode_utf8(s);
    }
    if uri_serde::ipv6_part_complaint(s) is None && s.len() > 0 {
        uri_serde::lemma_class_is_ascii(s, CharClass::HexDigit);
        vstd::utf8::is_ascii_chars_encode_utf8(s);
        assert forall|i: int| 0 <= i < s.len() implies '0' <= #[trigger] s[i] <= '9' || 'a' <= s[i]
            <= 'f' || 'A' <= s[i] <= 'F' by {
            assert(CharClass::HexDigit.has(s[i]));
        }
    }
}

proof fn lemma_groups_pass(parts: Seq<Seq<char>>, rest: Seq<Seq<char>>)
    requires
        forall|i: int| 0 <= i < parts.len() ==> group(#[trigger] parts[i]),
    ensures
        uri_serde::ipv6_parts_complaint(parts + rest) == uri_serde::ipv6_parts_complaint(rest),
    decreases parts.len(),
{
    if parts.len() == 0 {
        assert(parts + rest =~= rest);
    } else {
        let all = parts + rest;
        lemma_group_passes(parts[0]);
        assert(all[0] == parts[0]);
        assert(all.skip(1) =~= parts.skip(1) + rest);
        assert forall|i: int| 0 <= i < parts.skip(1).len() implies group(
            #[trigger] parts.skip(1)[i],
        ) by {
            assert(parts.skip(1)[i] == parts[i + 1]);
        }
        lemma_groups_pass(parts.skip(1), rest);
    }
}

/// An IPv6 address is accepted if it is up to eight groups with colons between them,
/// however many of them are empty; a lone colon is the one exception.
pub proof fn law_ipv6_groups_pass(parts: Seq<Seq<char>>)
    requires
        1 <= parts.len() <= 8,
        parts.len() != 2 || parts[0].len() > 0 || parts[1].len() > 0,
        forall|i: int|
            0 <= i < parts.len() ==> (#[trigger] parts[i]).len() <= 4 && forall|j: int|
                0 <= j < parts[i].len() ==> '0' <= #[trigger] parts[i][j] <= '9' || 'a'
                    <= parts[i][j] <= 'f' || 'A' <= parts[i][j] <= 'F',
    ensures
        uri_serde::ipv6_complaint(text::joined(parts, ':')) is None,
{
    assert forall|i: int| 0 <= i < parts.len() implies group(#[trigger] parts[i]) && !parts[i]
        .contains(':') by {
        lemma_group_passes(parts[i]);
    }
    text::law_join_pieces(parts, ':');
    lemma_groups_pass(parts, Seq::empty());
    assert(parts + Seq::empty() =~= parts);
    reveal_with_fuel(uri_serde::empty_parts, 3);
    if parts.len() == 2 {
        assert(parts.skip(1)[0] == parts[1]);
    }
}

/// An IPv6 address that is accepted is up to eight groups with colons between them.
pub proof fn law_accepted_ipv6_is_groups(s: Seq<char>) -> (parts: Seq<Seq<char>>)
    requires
        uri_serde::ipv6_complaint(s) is None,
    ensures
        text::joined(parts, ':') == s,
        1 <= parts.len() <= 8,
        parts.len() != 2 || parts[0].len() > 0 || parts[1].len() > 0,
        forall|i: int|
            0 <= i < parts.len() ==> (#[trigger] parts[i]).len() <= 4 && forall|j: int|
                0 <= j < parts[i].len() ==> '0' <= #[trigger] parts[i][j] <= '9' || 'a'
                    <= parts[i][j] <= 'f' || 'A' <= parts[i][j] <= 'F',
{
    let parts = text::pieces(s, ':');
    text::law_pieces_join(s, ':');
    assert forall|i: int| 0 <= i < parts.len() implies group(#[trigger] parts[i]) by {
        uri_serde::lemma_ipv6_parts(parts, i);
        lemma_group_passes(parts[i]);
    }
    if parts.len() == 2 {
        reveal_with_fuel(uri_serde::empty_parts, 3);
        assert(parts.skip(1)[0] == parts[1]);
    }
    parts
}

/// Why an IPv6 address is refused: more than eight parts, a lone colon, or the first part
/// `bad` that is no group, which is too long or holds a character `c` after `hex` digits.
pub proof fn law_refused_ipv6(
    parts: Seq<Seq<char>>,
    good: Seq<Seq<char>>,
    bad: Seq<char>,
    rest: Seq<Seq<char>>,
    hex: Seq<char>,
    c: char,
    more: Seq<char>,
)
    requires
        forall|i: int| 0 <= i < parts.len() ==> !(#[trigger] parts[i]).contains(':'),
        forall|i: int| 0 <= i < good.len() ==> group(#[trigger] good[i]),
        !bad.contains(':'),
        forall|i: int| 0 <= i < rest.len() ==> !(#[trigger] rest[i]).contains(':'),
        good.len() + 1 + rest.len() <= 8,
    ensures
        parts.len() > 8 ==> uri_serde::ipv6_complaint(text::joined(parts, ':')) == Some(
            "IPv6 address has too many parts"@,
        ),
        uri_serde::ipv6_complaint(seq![':']) == Some("Invalid IPv6 format"@),
        vstd::utf8::encode_utf8(bad).len() > 4 ==> uri_serde::ipv6_complaint(
            text::joined(good + seq![bad] + rest, ':'),
        ) == Some("IPv6 part '"@ + bad + "' too long"@),
        vstd::utf8::encode_utf8(bad).len() <= 4 && bad == hex + seq![c] + more && group(hex)
            && !group(seq![c]) ==> uri_serde::ipv6_complaint(
            text::joined(good + seq![bad] + rest, ':'),
        ) == Some("Invalid hex digit '"@ + seq![c] + "' in IPv6"@),
{
    if parts.len() > 8 {
        text::law_join_pieces(parts, ':');
    }
    lemma_lone_colon();
    let all = good + seq![bad] + rest;
    assert forall|i: int| 0 <= i < all.len() implies !(#[trigger] all[i]).contains(':') by {
        if i < good.len() {
            assert(all[i] == good[i]);
            lemma_group_passes(good[i]);
        } else if i > good.len() {
            assert(all[i] == rest[i - good.len() - 1]);
        }
    }
    text::law_join_pieces(all, ':');
    let tail = seq![bad] + rest;
    assert(all =~= good + tail);
    lemma_groups_pass(good, tail);
    assert(tail[0] == bad);
    if vstd::utf8::encode_utf8(bad).len() > 4 {
        vstd::utf8::is_ascii_chars_encode_utf8(Seq::empty());
        if bad.len() == 0 {
            assert(bad =~= Seq::empty());
        }
    } else if bad == hex + seq![c] + more && group(hex) && !group(seq![c]) {
        assert(!CharClass::HexDigit.has(c)) by {
            if CharClass::HexDigit.has(c) {
                assert(group(seq![c]));
            }
        }
        law_first_stray_is_named(
            hex,
            c,
            more,
            CharClass::HexDigit,
            "Invalid hex digit '"@,
            "' in IPv6"@,
        );
    }
}

proof fn lemma_lone_colon()
    ensures
        uri_serde::ipv6_complaint(seq![':']) == Some("Invalid IPv6 format"@),
{
    let none: Seq<char> = Seq::empty();
    let parts = seq![none].push(none);
    text::law_joined_part_by_part(seq![none], ':', none);
    assert(text::joined(parts, ':') =~= seq![':']);
    text::law_join_pieces(parts, ':');
    assert(group(none));
    assert forall|i: int| 0 <= i < parts.len() implies group(#[trigger] parts[i]) by {
        assert(parts[i] == none);
    }
    lemma_groups_pass(parts, Seq::empty());
    assert(parts + Seq::empty() =~= parts);
    reveal_with_fuel(uri_serde::empty_parts, 3);
    assert(parts.skip(1)[0] == none);
}

/// A host in brackets is checked as the IPv6 address between them. Any other host passes
/// if it is not empty and holds characters of a name only, and is else complained about
/// by the first other character.
pub proof fn law_hosts(inner: Seq<char>, good: Seq<char>, bad: char, rest: Seq<char>)
    ensures
        uri_serde::host_complaint(Seq::empty()) == Some("Host cannot be empty"@),
        uri_serde::host_complaint(seq!['['] + inner + seq![']']) == uri_serde::ipv6_complaint(
            inner,
        ),
        (forall|i: int| 0 <= i < good.len() ==> CharClass::RegName.has(#[trigger] good[i])) ==> ({
            let s = good + seq![bad] + rest;
            &&& good.len() > 0 ==> uri_serde::host_complaint(good) is None
            &&& !CharClass::RegName.has(bad) && !(s[0] == '[' && s[s.len() - 1] == ']')
                ==> uri_serde::host_complaint(s) == Some(
                "Invalid character '"@ + seq![bad] + "' in host"@,
            )
        }),
{
    let bracketed = seq!['['] + inner + seq![']'];
    assert(bracketed.subrange(1, bracketed.len() - 1) =~= inner);
    if forall|i: int| 0 <= i < good.len() ==> CharClass::RegName.has(#[trigger] good[i]) {
        if good.len() > 0 {
            assert(CharClass::RegName.has(good[0]));
        }
        if !CharClass::RegName.has(bad) {
            let s = good + seq![bad] + rest;
            law_first_stray_is_named(
                good,
                bad,
                rest,
                CharClass::RegName,
                "Invalid character '"@,
                "' in host"@,
            );
            if uri_serde::ipv4(s) {
                uri_serde::law_ipv4_is_host(s);
                assert(CharClass::RegName.has(s[good.len() as int]));
            }
        }
    }
}

proof fn lemma_last_is(s: Seq<char>, c: char, n: int)
    requires
        0 <= n < s.len(),
        s[n] == c,
        forall|i: int| n < i < s.len() ==> s[i] != c,
    ensures
        s.index_of_last(c) == Some(n),
{
    s.index_of_last_ensures(c);
    assert(s.contains(c));
}

proof fn lemma_first_is(s: Seq<char>, c: char, n: int)
    requires
        0 <= n < s.len(),
        s[n] == c,
        forall|i: int| 0 <= i < n ==> s[i] != c,
    ensures
        s.index_of_first(c) == Some(n),
{
    s.index_of_first_ensures(c);
    assert(s.contains(c));
}

/// Where a host ends and a port begins: without a bracket in front, at the last colon if
/// there is one.
pub proof fn law_host_and_port(host: Seq<char>, port: Seq<char>)
    requires
        host.len() == 0 || host[0] != '[',
        !port.contains(':'),
    ensures
        uri_serde::host_port(host + seq![':'] + port) == Ok::<
            (Seq<char>, Option<Seq<char>>),
            Seq<char>,
        >((host, Some(port))),
        !host.contains(':') ==> uri_serde::host_port(host) == Ok::<
            (Seq<char>, Option<Seq<char>>),
            Seq<char>,
        >((host, None)),
{
    let s = host + seq![':'] + port;
    let n = host.len() as int;
    assert forall|i: int| n < i < s.len() implies s[i] != ':' by {
        assert(s[i] == port[i - n - 1]);
    }
    lemma_last_is(s, ':', n);
    assert(s.take(n) =~= host);
    assert(s.skip(n + 1) =~= port);
    host.index_of_last_ensures(':');
}

/// With a bracket in front, the host ends at the first closing bracket; a port follows
/// after a colon, and nothing else may follow.
pub proof fn law_bracketed_host_and_port(inner: Seq<char>, c: char, rest: Seq<char>)
    requires
        !inner.contains(']'),
    ensures
        uri_serde::host_port(seq!['['] + inner + seq![']']) == Ok::<
            (Seq<char>, Option<Seq<char>>),
            Seq<char>,
        >((seq!['['] + inner + seq![']'], None)),
        uri_serde::host_port(seq!['['] + inner + seq![']', ':'] + rest) == Ok::<
            (Seq<char>, Option<Seq<char>>),
            Seq<char>,
        >((seq!['['] + inner + seq![']'], Some(rest))),
        c != ':' ==> uri_serde::host_port(seq!['['] + inner + seq![']', c] + rest) == Err::<
            (Seq<char>, Option<Seq<char>>),
            Seq<char>,
        >("Expected ':' after IPv6 address"@),
        uri_serde::host_port(seq!['['] + inner) == Err::<
            (Seq<char>, Option<Seq<char>>),
            Seq<char>,
        >("Unclosed '[' in IPv6 address"@),
{
    let open = seq!['['] + inner;
    let closed = open + seq![']'];
    let ported = open + seq![']', ':'] + rest;
    let other = open + seq![']', c] + rest;
    let n = open.len() as int;
    assert forall|i: int| 0 <= i < n implies open[i] != ']' by {
        if i > 0 {
            assert(open[i] == inner[i - 1]);
        }
    }
    assert forall|i: int| 0 <= i < n implies closed[i] != ']' by {
        assert(closed[i] == open[i]);
    }
    assert forall|i: int| 0 <= i < n implies ported[i] != ']' by {
        assert(ported[i] == open[i]);
    }
    assert forall|i: int| 0 <= i < n implies other[i] != ']' by {
        assert(other[i] == open[i]);
    }
    lemma_first_is(closed, ']', n);
    lemma_first_is(ported, ']', n);
    lemma_first_is(other, ']', n);
    assert(ported.take(n + 1) =~= closed);
    assert(ported.skip(n + 2) =~= rest);
    open.index_of_first_ensures(']');
}

/// The host is checked before the port.
pub proof fn law_host_and_port_are_checked(s: Seq<char>)
    ensures
        match uri_serde::host_port(s) {
            Err(complaint) => uri_serde::host_port_complaint(s) == Some(complaint),
            Ok((host, port)) => {
                &&& uri_serde::host_complaint(host) is Some ==> uri_serde::host_port_complaint(s)
                    == uri_serde::host_complaint(host)
                &&& uri_serde::host_complaint(host) is None && port is None
                    ==> uri_serde::host_port_complaint(s) is None
                &&& uri_serde::host_complaint(host) is None && port is Some
                    ==> uri_serde::host_port_complaint(s) == uri_serde::port_complaint(port->Some_0)
            },
        },
{
}

/// An empty authority passes. The last `@` ends the user information, which is checked
/// before the host and the port behind it; without one, all of it is host and port.
pub proof fn law_authorities(userinfo: Seq<char>, location: Seq<char>)
    requires
        !location.contains('@'),
    ensures
        uri_serde::authority_complaint(Seq::empty()) is None,
        location.len() > 0 ==> uri_serde::authority_complaint(location)
            == uri_serde::host_port_complaint(location),
        uri_serde::userinfo_complaint(userinfo) is Some ==> uri_serde::authority_complaint(
            userinfo + seq!['@'] + location,
        ) == uri_serde::userinfo_complaint(userinfo),
        uri_serde::userinfo_complaint(userinfo) is None ==> uri_serde::authority_complaint(
            userinfo + seq!['@'] + location,
        ) == uri_serde::host_port_complaint(location),
{
    let s = userinfo + seq!['@'] + location;
    let n = userinfo.len() as int;
    assert forall|i: int| n < i < s.len() implies s[i] != '@' by {
        assert(s[i] == location[i - n - 1]);
    }
    lemma_last_is(s, '@', n);
    assert(s.take(n) =~= userinfo);
    assert(s.skip(n + 1) =~= location);
    location.index_of_last_ensures('@');
}

proof fn lemma_reach_beyond(s: Seq<char>, c: char, n: int)
    requires
        0 <= n <= s.len(),
        forall|i: int| 0 <= i < n ==> s[i] != c,
    ensures
        n <= uri_serde::reach(s, c) <= s.len(),
        n == s.len() || s[n] == c ==> uri_serde::reach(s, c) == n,
{
    s.index_of_first_ensures(c);
    if n < s.len() && s[n] == c {
        lemma_first_is(s, c, n);
    }
}

proof fn lemma_path_end_is(s: Seq<char>, n: int)
    requires
        0 <= n <= s.len(),
        forall|i: int| 0 <= i < n ==> s[i] != '?' && s[i] != '#',
        n < s.len() ==> s[n] == '?' || s[n] == '#',
    ensures
        uri_serde::path_end(s) == n,
{
    lemma_reach_beyond(s, '?', n);
    lemma_reach_beyond(s, '#', n);
}

proof fn lemma_authority_end_is(s: Seq<char>, n: int)
    requires
        0 <= n <= s.len(),
        forall|i: int| 0 <= i < n ==> s[i] != '/' && s[i] != '?' && s[i] != '#',
        n < s.len() ==> s[n] == '/' || s[n] == '?' || s[n] == '#',
    ensures
        uri_serde::authority_end(s) == n,
{
    lemma_reach_beyond(s, '/', n);
    lemma_reach_beyond(s, '?', n);
    lemma_reach_beyond(s, '#', n);
}

proof fn lemma_tail_splits(query: Option<Seq<char>>, fragment: Option<Seq<char>>, tail: Seq<char>)
    requires
        query is Some ==> !query->Some_0.contains('#'),
        tail == (if query is Some { seq!['?'] + query->Some_0 } else { Seq::empty() })
            + (if fragment is Some { seq!['#'] + fragment->Some_0 } else { Seq::empty() }),
    ensures
        uri_serde::split_tail(tail) == (query, fragment),
        tail.len() > 0 ==> tail[0] == '?' || tail[0] == '#',
{
    if query is Some {
        let after = tail.skip(1);
        let n = query->Some_0.len() as int;
        assert forall|i: int| 0 <= i < n implies after[i] != '#' by {
            assert(after[i] == query->Some_0[i]);
        }
        lemma_reach_beyond(after, '#', n);
        assert(after.take(n) =~= query->Some_0);
        if fragment is Some {
            assert(after[n] == '#');
            assert(after.skip(n + 1) =~= fragment->Some_0);
        }
    } else if fragment is Some {
        assert(tail.skip(1) =~= fragment->Some_0);
    }
}

proof fn lemma_rest_splits(path: Seq<char>, tail: Seq<char>)
    requires
        !path.contains('?'),
        !path.contains('#'),
        tail.len() > 0 ==> tail[0] == '?' || tail[0] == '#',
    ensures
        uri_serde::path_end(path + tail) == path.len(),
        (path + tail).take(path.len() as int) == path,
        (path + tail).skip(path.len() as int) == tail,
{
    let rest = path + tail;
    assert forall|i: int| 0 <= i < path.len() implies rest[i] != '?' && rest[i] != '#' by {
        assert(rest[i] == path[i]);
    }
    lemma_path_end_is(rest, path.len() as int);
    assert(rest.take(path.len() as int) =~= path);
    assert(rest.skip(path.len() as int) =~= tail);
}

proof fn lemma_hier_splits(authority: Seq<char>, rest: Seq<char>)
    requires
        !authority.contains('/'),
        !authority.contains('?'),
        !authority.contains('#'),
        rest.len() > 0 ==> rest[0] == '/' || rest[0] == '?' || rest[0] == '#',
    ensures
        ({
            let hier = seq!['/', '/'] + authority + rest;
            &&& uri_serde::has_authority(hier)
            &&& hier.skip(2).take(uri_serde::authority_end(hier.skip(2))) == authority
            &&& uri_serde::after_authority(hier) == rest
        }),
{
    let hier = seq!['/', '/'] + authority + rest;
    let after = hier.skip(2);
    let n = authority.len() as int;
    assert(after =~= authority + rest);
    assert forall|i: int| 0 <= i < n implies after[i] != '/' && after[i] != '?' && after[i]
        != '#' by {
        assert(after[i] == authority[i]);
    }
    lemma_authority_end_is(after, n);
    assert(after.take(n) =~= authority);
    assert(after.skip(n) =~= rest);
}

proof fn lemma_authority_splits(authority: Option<Seq<char>>, path: Seq<char>, tail: Seq<char>)
    requires
        authority is Some ==> !authority->Some_0.contains('/') && !authority->Some_0.contains('?')
            && !authority->Some_0.contains('#') && (path.len() > 0 ==> path[0] == '/'),
        authority is None ==> !(path.len() >= 2 && path[0] == '/' && path[1] == '/'),
        tail.len() > 0 ==> tail[0] == '?' || tail[0] == '#',
    ensures
        ({
            let front = if authority is Some {
                seq!['/', '/'] + authority->Some_0
            } else {
                Seq::empty()
            };
            let hier = front + (path + tail);
            &&& uri_serde::has_authority(hier) <==> authority is Some
            &&& authority is Some ==> hier.skip(2).take(uri_serde::authority_end(hier.skip(2)))
                == authority->Some_0
            &&& uri_serde::after_authority(hier) == path + tail
        }),
{
    let rest = path + tail;
    if authority is Some {
        if rest.len() > 0 && path.len() == 0 {
            assert(rest[0] == tail[0]);
        }
        lemma_hier_splits(authority->Some_0, rest);
    } else {
        assert(Seq::empty() + rest =~= rest);
        if rest.len() >= 2 && path.len() < 2 {
            assert(rest[path.len() as int] == tail[0]);
        }
    }
}

proof fn lemma_scheme_splits(scheme: Option<Seq<char>>, hier: Seq<char>)
    requires
        scheme is Some ==> !scheme->Some_0.contains(':'),
        scheme is None ==> !hier.contains(':'),
    ensures
        ({
            let front = if scheme is Some {
                scheme->Some_0 + seq![':']
            } else {
                Seq::empty()
            };
            let text = front + hier;
            &&& uri_serde::after_scheme(text) == hier
            &&& scheme is None ==> text.index_of_first(':') is None
            &&& scheme is Some ==> text.index_of_first(':') == Some(scheme->Some_0.len() as int)
                && text.take(scheme->Some_0.len() as int) == scheme->Some_0
        }),
{
    if scheme is Some {
        let text = scheme->Some_0 + seq![':'] + hier;
        let n = scheme->Some_0.len() as int;
        assert forall|i: int| 0 <= i < n implies text[i] != ':' by {
            assert(text[i] == scheme->Some_0[i]);
        }
        lemma_first_is(text, ':', n);
        assert(text.take(n) =~= scheme->Some_0);
        assert(text.skip(n + 1) =~= hier);
    } else {
        assert(Seq::empty() + hier =~= hier);
        hier.index_of_first_ensures(':');
    }
}

proof fn lemma_five_in_a_row(
    a: Seq<char>,
    b: Seq<char>,
    c: Seq<char>,
    d: Seq<char>,
    e: Seq<char>,
)
    ensures
        a + b + c + d + e == a + (b + (c + (d + e))),
{
    assert(a + b + c + d + e =~= a + (b + (c + (d + e))));
}

/// A text is taken apart into the components that it is written from: a scheme and `:`,
/// `//` and an authority, a path, `?` and a query, `#` and a fragment, of which all but
/// the path may be missing.
pub proof fn law_components(parts: uri_serde::UriParts, text: Seq<char>)
    requires
        text == (if parts.scheme is Some { parts.scheme->Some_0 + seq![':'] } else { Seq::empty() })
            + (if parts.authority is Some { seq!['/', '/'] + parts.authority->Some_0 } else {
            Seq::empty()
        }) + parts.path + (if parts.query is Some { seq!['?'] + parts.query->Some_0 } else {
            Seq::empty()
        }) + (if parts.fragment is Some { seq!['#'] + parts.fragment->Some_0 } else {
            Seq::empty()
        }),
        parts.scheme is Some ==> !parts.scheme->Some_0.contains(':'),
        parts.scheme is None ==> !text.contains(':'),
        parts.authority is Some ==> !parts.authority->Some_0.contains('/')
            && !parts.authority->Some_0.contains('?') && !parts.authority->Some_0.contains('#') && (
        parts.path.len() > 0 ==> parts.path[0] == '/'),
        parts.authority is None ==> !(parts.path.len() >= 2 && parts.path[0] == '/' && parts.path[1]
            == '/'),
        !parts.path.contains('?'),
        !parts.path.contains('#'),
        parts.query is Some ==> !parts.query->Some_0.contains('#'),
    ensures
        uri_serde::uri_parts(text) == parts,
{
    let scheme = if parts.scheme is Some {
        parts.scheme->Some_0 + seq![':']
    } else {
        Seq::empty()
    };
    let authority = if parts.authority is Some {
        seq!['/', '/'] + parts.authority->Some_0
    } else {
        Seq::empty()
    };
    let query = if parts.query is Some {
        seq!['?'] + parts.query->Some_0
    } else {
        Seq::empty()
    };
    let fragment = if parts.fragment is Some {
        seq!['#'] + parts.fragment->Some_0
    } else {
        Seq::empty()
    };
    let tail = query + fragment;
    let hier = authority + (parts.path + tail);
    lemma_five_in_a_row(scheme, authority, parts.path, query, fragment);
    lemma_tail_splits(parts.query, parts.fragment, tail);
    lemma_rest_splits(parts.path, tail);
    lemma_authority_splits(parts.authority, parts.path, tail);
    if parts.scheme is None {
        assert(Seq::empty() + hier =~= hier);
    }
    lemma_scheme_splits(parts.scheme, hier);
}

/// The components are checked in the order in which they stand, and the first complaint
/// is the one about the URI. An empty text is no URI.
pub proof fn law_components_are_checked(s: Seq<char>)
    ensures
        uri_serde::uri_complaint(Seq::empty()) == Some("URI cannot be empty"@),
        s.len() > 0 ==> ({
            let parts = uri_serde::uri_parts(s);
            let scheme = parts.scheme is Some && uri_serde::scheme_complaint(
                parts.scheme->Some_0,
            ) is Some;
            let authority = parts.authority is Some && uri_serde::authority_complaint(
                parts.authority->Some_0,
            ) is Some;
            let path = uri_serde::path_complaint(parts.path) is Some;
            let query = parts.query is Some && uri_serde::query_or_fragment_complaint(
                parts.query->Some_0,
                "query"@,
            ) is Some;
            let fragment = parts.fragment is Some && uri_serde::query_or_fragment_complaint(
                parts.fragment->Some_0,
                "fragment"@,
            ) is Some;
            let complaint = uri_serde::uri_complaint(s);
            &&& scheme ==> complaint == uri_serde::scheme_complaint(parts.scheme->Some_0)
            &&& !scheme && authority ==> complaint == uri_serde::authority_complaint(
                parts.authority->Some_0,
            )
            &&& !scheme && !authority && path ==> complaint == uri_serde::path_complaint(parts.path)
            &&& !scheme && !authority && !path && query ==> complaint
                == uri_serde::query_or_fragment_complaint(parts.query->Some_0, "query"@)
            &&& !scheme && !authority && !path && !query && fragment ==> complaint
                == uri_serde::query_or_fragment_complaint(parts.fragment->Some_0, "fragment"@)
            &&& !scheme && !authority && !path && !query && !fragment ==> complaint is None
        }),
{
}

/// A path is accepted as a URI: a text that opens with one slash, not two, and holds ASCII
/// letters, digits and the marks `- . _ ~ ! $ & ' ( ) * + , ; = @ / %` only.
pub proof fn law_plain_path_is_accepted(s: Seq<char>)
    requires
        s.len() > 0,
        s[0] == '/',
        s.len() > 1 ==> s[1] != '/',
        forall|i: int|
            0 <= i < s.len() ==> {
                ||| 'a' <= #[trigger] s[i] <= 'z'
                ||| 'A' <= s[i] <= 'Z'
                ||| '0' <= s[i] <= '9'
                ||| s[i] == '-' || s[i] == '.' || s[i] == '_' || s[i] == '~' || s[i] == '!'
                ||| s[i] == '$' || s[i] == '&' || s[i] == '\'' || s[i] == '(' || s[i] == ')'
                ||| s[i] == '*' || s[i] == '+' || s[i] == ',' || s[i] == ';' || s[i] == '='
                ||| s[i] == '@' || s[i] == '/' || s[i] == '%'
            },
    ensures
        uri_serde::uri_complaint(s) is None,
{
    let parts = uri_serde::UriParts {
        scheme: None,
        authority: None,
        path: s,
        query: None,
        fragment: None,
    };
    assert(Seq::<char>::empty() + Seq::<char>::empty() + s + Seq::<char>::empty() + Seq::<
        char,
    >::empty() =~= s);
    law_components(parts, s);
    assert(uri_serde::all_in(s, CharClass::Path));
}

/// A path with a character that no path holds is refused under the first such character.
pub proof fn law_stray_in_path_is_named(good: Seq<char>, bad: char, rest: Seq<char>)
    requires
        good.len() > 0,
        good[0] == '/',
        forall|i: int| 0 <= i < good.len() ==> CharClass::Path.has(#[trigger] good[i]),
        !CharClass::Path.has(bad),
        ({
            let s = good + seq![bad] + rest;
            s[1] != '/' && !s.contains(':') && !s.contains('?') && !s.contains('#')
        }),
    ensures
        uri_serde::uri_complaint(good + seq![bad] + rest) == Some(
            "Invalid character '"@ + seq![bad] + "' in path"@,
        ),
{
    let s = good + seq![bad] + rest;
    let parts = uri_serde::UriParts {
        scheme: None,
        authority: None,
        path: s,
        query: None,
        fragment: None,
    };
    let none = Seq::<char>::empty();
    assert(none + none + s + none + none =~= s);
    law_components(parts, s);
    law_component_messages(good, bad, rest, none);
}

/// The text of the address of an HTTP service, taken apart and as it is shown: a path that
/// is missing is shown as a slash. Its base is the text without a slash at its end.
pub proof fn law_service_address(scheme: Seq<char>, authority: Seq<char>, path: Seq<char>)
    requires
        scheme == seq!['h', 't', 't', 'p'] || scheme == seq!['h', 't', 't', 'p', 's'],
        forall|i: int|
            0 <= i < authority.len() ==> #[trigger] authority[i] != '/' && authority[i] != '?'
                && authority[i] != '#',
        forall|i: int| 0 <= i < path.len() ==> #[trigger] path[i] != '?' && path[i] != '#',
        path.len() > 0 ==> path[0] == '/',
    ensures
        ({
            let s = scheme + seq![':', '/', '/'] + authority + path;
            &&& uri::address(s)
            &&& uri_serde::uri_parts(s).authority == Some(authority)
            &&& uri_serde::uri_parts(s).path == path
            &&& path.len() == 0 ==> uri::shown_plainly(s) == Some(s + seq!['/'])
                && route::base_of(s) == s
            &&& path.len() > 0 ==> uri::shown_plainly(s) == Some(s)
            &&& path.len() > 0 && path[path.len() - 1] == '/' ==> route::base_of(s) == s.take(
                s.len() - 1,
            )
            &&& path.len() > 0 && path[path.len() - 1] != '/' ==> route::base_of(s) == s
        }),
{
    reveal_strlit("http");
    reveal_strlit("https");
    let s = scheme + seq![':', '/', '/'] + authority + path;
    let parts = uri_serde::UriParts {
        scheme: Some(scheme),
        authority: Some(authority),
        path,
        query: None,
        fragment: None,
    };
    let none = Seq::<char>::empty();
    assert(scheme + seq![':'] + (seq!['/', '/'] + authority) + path + none + none =~= s);
    law_components(parts, s);
    assert("http"@ =~= seq!['h', 't', 't', 'p']);
    assert("https"@ =~= seq!['h', 't', 't', 'p', 's']);
    assert(s[0] == 'h');
    assert(s.push('/') =~= s + seq!['/']);
    if path.len() > 0 {
        assert(s.last() == path[path.len() - 1]);
        assert(s.drop_last() =~= s.take(s.len() - 1));
    }
}

/// The address of a service is accepted: `http` or `https`, a host name, a port number if
/// there is one, and a path of path characters.
pub proof fn law_service_address_is_accepted(
    scheme: Seq<char>,
    host: Seq<char>,
    port: Option<u16>,
    authority: Seq<char>,
    path: Seq<char>,
)
    requires
        port is Some ==> authority == host + seq![':'] + text::decimal_text(port->Some_0 as nat),
        port is None ==> authority == host,
        scheme == seq!['h', 't', 't', 'p'] || scheme == seq!['h', 't', 't', 'p', 's'],
        host.len() > 0,
        forall|i: int| 0 <= i < host.len() ==> CharClass::RegName.has(#[trigger] host[i]),
        forall|i: int| 0 <= i < path.len() ==> CharClass::Path.has(#[trigger] path[i]),
        path.len() > 0 ==> path[0] == '/',
    ensures
        uri_serde::uri_complaint(scheme + seq![':', '/', '/'] + authority + path) is None,
{
    let s = scheme + seq![':', '/', '/'] + authority + path;
    lemma_authority_is_accepted(host, port, authority);
    assert forall|i: int| 0 <= i < path.len() implies #[trigger] path[i] != '?' && path[i]
        != '#' by {
        assert(CharClass::Path.has(path[i]));
    }
    law_service_address(scheme, authority, path);
    let parts = uri_serde::UriParts {
        scheme: Some(scheme),
        authority: Some(authority),
        path,
        query: None,
        fragment: None,
    };
    let none = Seq::<char>::empty();
    assert(scheme + seq![':'] + (seq!['/', '/'] + authority) + path + none + none =~= s);
    law_components(parts, s);
    law_schemes('h', scheme.skip(1), 'h', none);
    assert(seq!['h'] + scheme.skip(1) =~= scheme);
}

proof fn lemma_authority_is_accepted(host: Seq<char>, port: Option<u16>, authority: Seq<char>)
    requires
        port is Some ==> authority == host + seq![':'] + text::decimal_text(port->Some_0 as nat),
        port is None ==> authority == host,
        host.len() > 0,
        forall|i: int| 0 <= i < host.len() ==> CharClass::RegName.has(#[trigger] host[i]),
    ensures
        uri_serde::authority_complaint(authority) is None,
        forall|i: int|
            0 <= i < authority.len() ==> #[trigger] authority[i] != '/' && authority[i] != '?'
                && authority[i] != '#',
{
    let none = Seq::<char>::empty();
    assert forall|i: int| 0 <= i < host.len() implies host[i] != ':' && host[i] != '@' && host[i]
        != '/' && host[i] != '?' && host[i] != '#' && host[i] != '[' by {
        assert(CharClass::RegName.has(host[i]));
    }
    law_hosts(none, host, 'h', none);
    match port {
        Some(port) => {
            let digits = text::decimal_text(port as nat);
            text::law_decimal_round_trip(port as nat);
            uri_serde::law_port_numbers_pass(port);
            assert forall|i: int| 0 <= i < authority.len() implies #[trigger] authority[i] != '/'
                && authority[i] != '?' && authority[i] != '#' && authority[i] != '@' by {
                if i < host.len() {
                    assert(authority[i] == host[i]);
                } else if i > host.len() {
                    assert(authority[i] == digits[i - host.len() - 1]);
                }
            }
            law_host_and_port(host, digits);
            law_authorities(none, authority);
        },
        None => {
            law_host_and_port(host, none);
            law_authorities(none, host);
        },
    }
}

/// A path without query and fragment, by its characters.
pub proof fn law_paths_alone(s: Seq<char>)
    ensures
        uri::path_alone(s) <==> s.len() > 0 && s[0] == '/' && forall|i: int|
            0 <= i < s.len() ==> #[trigger] s[i] != '?' && s[i] != '#',
        uri::path_alone(s) ==> uri::shown_plainly(s) == Some(s),
{
    if uri::path_alone(s) {
        assert forall|i: int| 0 <= i < s.len() implies #[trigger] s[i] != '?' && s[i] != '#' by {
            if s[i] == '?' {
                assert(s.contains('?'));
            }
            if s[i] == '#' {
                assert(s.contains('#'));
            }
        }
    }
}

/// The texts that are known to parse: a path of path characters, and the address of a
/// service under a host name with at most one colon, of up to 65534 characters.
pub proof fn law_plain_texts_parse(
    scheme: Seq<char>,
    authority: Seq<char>,
    path: Seq<char>,
)
    requires
        scheme == seq!['h', 't', 't', 'p'] || scheme == seq!['h', 't', 't', 'p', 's'],
        authority.len() > 0,
        forall|i: int|
            0 <= i < authority.len() ==> CharClass::Userinfo.has(#[trigger] authority[i])
                && authority[i] != '%',
        forall|i: int, j: int|
            0 <= i < j < authority.len() ==> !(#[trigger] authority[i] == ':'
                && #[trigger] authority[j] == ':'),
        path.len() > 0 ==> path[0] == '/',
        forall|i: int| 0 <= i < path.len() ==> CharClass::Path.has(#[trigger] path[i]),
        scheme.len() + 3 + authority.len() + path.len() <= 65534,
    ensures
        path.len() > 0 ==> uri::surely_parses(path),
        uri::surely_parses(scheme + seq![':', '/', '/'] + authority + path),
{
    assert forall|i: int| 0 <= i < path.len() implies #[trigger] path[i] != '?' && path[i]
        != '#' by {
        assert(CharClass::Path.has(path[i]));
    }
    law_paths_alone(path);
    assert forall|i: int| 0 <= i < authority.len() implies #[trigger] authority[i] != '/'
        && authority[i] != '?' && authority[i] != '#' by {
        assert(CharClass::Userinfo.has(authority[i]));
    }
    law_service_address(scheme, authority, path);
    assert forall|i: int| 0 <= i < authority.len() implies rfc3986::unreserved(
        #[trigger] authority[i],
    ) || rfc3986::sub_delim(authority[i]) || authority[i] == ':' by {
        assert(CharClass::Userinfo.has(authority[i]));
    }
    assert(uri::plain_authority(authority));
}

} // verus!
