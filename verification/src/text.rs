//! Text as sequences of characters: searching, splitting and decimal numbers.
//!
//! Positions count characters, not bytes.

use vstd::prelude::*;

verus! {

/// `String::push`: appends one character to the end of the string.
pub assume_specification[ String::push ](s: &mut String, ch: char)
    ensures
        final(s)@ == old(s)@.push(ch),
;

/// The pieces of `s` between occurrences of `sep`, in order. There is always
/// at least one piece, and a piece may be empty.
pub open spec fn pieces(s: Seq<char>, sep: char) -> Seq<Seq<char>>
    decreases s.len(),
{
    if s.len() == 0 {
        seq![Seq::empty()]
    } else {
        let front = pieces(s.drop_last(), sep);
        if s.last() == sep {
            front.push(Seq::empty())
        } else {
            front.update(front.len() - 1, front.last().push(s.last()))
        }
    }
}

/// `parts` written one after another with `sep` between neighbours.
pub open spec fn joined(parts: Seq<Seq<char>>, sep: char) -> Seq<char>
    decreases parts.len(),
{
    if parts.len() == 0 {
        Seq::empty()
    } else if parts.len() == 1 {
        parts[0]
    } else {
        joined(parts.drop_last(), sep).push(sep) + parts.last()
    }
}

/// Splitting a text loses nothing: its pieces contain no separator, and joining
/// them gives the text back.
pub proof fn law_pieces_join(s: Seq<char>, sep: char)
    ensures
        pieces(s, sep).len() >= 1,
        forall|i: int|
            0 <= i < pieces(s, sep).len() ==> !(#[trigger] pieces(s, sep)[i]).contains(sep),
        joined(pieces(s, sep), sep) == s,
    decreases s.len(),
{
    if s.len() == 0 {
    } else {
        let front = pieces(s.drop_last(), sep);
        let all = pieces(s, sep);
        law_pieces_join(s.drop_last(), sep);
        if s.last() == sep {
            assert(all.drop_last() =~= front);
            assert(joined(all, sep) =~= s);
        } else {
            assert(all.drop_last() =~= front.drop_last());
            assert forall|i: int| 0 <= i < all.len() implies !(#[trigger] all[i]).contains(sep) by {
                if i < all.len() - 1 {
                    assert(all[i] == front[i]);
                } else {
                    let grown = front.last().push(s.last());
                    assert(!front[front.len() - 1].contains(sep));
                    assert forall|j: int| 0 <= j < grown.len() implies grown[j] != sep by {
                        if j < grown.len() - 1 {
                            assert(grown[j] == front.last()[j]);
                        }
                    }
                }
            }
            assert(joined(all, sep) =~= joined(front, sep).push(s.last()));
            assert(s =~= s.drop_last().push(s.last()));
        }
    }
}

/// A text is joined from one part by itself, and from more by the separator and the
/// next part.
pub proof fn law_joined_part_by_part(parts: Seq<Seq<char>>, sep: char, part: Seq<char>)
    ensures
        joined(Seq::empty(), sep) == Seq::<char>::empty(),
        joined(seq![part], sep) == part,
        parts.len() > 0 ==> joined(parts.push(part), sep) == joined(parts, sep) + seq![sep] + part,
{
    assert(parts.push(part).drop_last() =~= parts);
    if parts.len() > 0 {
        assert(joined(parts, sep).push(sep) + part =~= joined(parts, sep) + seq![sep] + part);
    }
}

pub(crate) proof fn lemma_pieces_of_one(part: Seq<char>, sep: char)
    requires
        !part.contains(sep),
    ensures
        pieces(part, sep) == seq![part],
    decreases part.len(),
{
    if part.len() > 0 {
        let front = part.drop_last();
        assert(!front.contains(sep)) by {
            if front.contains(sep) {
                let i = choose|i: int| 0 <= i < front.len() && front[i] == sep;
                assert(part[i] == sep);
            }
        }
        assert(part[part.len() - 1] != sep);
        lemma_pieces_of_one(front, sep);
        assert(front.push(part.last()) =~= part);
        assert(pieces(part, sep) =~= seq![part]);
    } else {
        assert(part =~= Seq::empty());
    }
}

pub(crate) proof fn lemma_pieces_after_separator(s: Seq<char>, sep: char, part: Seq<char>)
    requires
        !part.contains(sep),
    ensures
        pieces(s + seq![sep] + part, sep) == pieces(s, sep).push(part),
    decreases part.len(),
{
    let all = s + seq![sep] + part;
    if part.len() == 0 {
        assert(all.drop_last() =~= s);
        assert(part =~= Seq::empty());
    } else {
        let front = part.drop_last();
        assert(!front.contains(sep)) by {
            if front.contains(sep) {
                let i = choose|i: int| 0 <= i < front.len() && front[i] == sep;
                assert(part[i] == sep);
            }
        }
        assert(part[part.len() - 1] != sep);
        lemma_pieces_after_separator(s, sep, front);
        assert(all.drop_last() =~= s + seq![sep] + front);
        assert(front.push(part.last()) =~= part);
        assert(pieces(all, sep) =~= pieces(s, sep).push(part));
    }
}

/// Joining parts that hold no separator and splitting the text gives the parts back.
pub proof fn law_join_pieces(parts: Seq<Seq<char>>, sep: char)
    requires
        parts.len() > 0,
        forall|i: int| 0 <= i < parts.len() ==> !(#[trigger] parts[i]).contains(sep),
    ensures
        pieces(joined(parts, sep), sep) == parts,
    decreases parts.len(),
{
    let last = parts.last();
    assert(!parts[parts.len() - 1].contains(sep));
    if parts.len() == 1 {
        lemma_pieces_of_one(last, sep);
        assert(seq![last] =~= parts);
    } else {
        let front = parts.drop_last();
        assert forall|i: int| 0 <= i < front.len() implies !(#[trigger] front[i]).contains(sep) by {
            assert(front[i] == parts[i]);
        }
        law_join_pieces(front, sep);
        lemma_pieces_after_separator(joined(front, sep), sep, last);
        assert(joined(parts, sep) =~= joined(front, sep) + seq![sep] + last);
        assert(front.push(last) =~= parts);
    }
}

/// The texts of a list of string slices are the texts of its items.
pub proof fn law_views_item_by_item(parts: Seq<&str>)
    ensures
        views(parts).len() == parts.len(),
        forall|i: int| 0 <= i < parts.len() ==> #[trigger] views(parts)[i] == parts[i]@,
{
}

/// Every character of a text is the separator or stands in one of the pieces.
pub(crate) proof fn lemma_in_piece(s: Seq<char>, sep: char, i: int)
    requires
        0 <= i < s.len(),
    ensures
        s[i] == sep || exists|k: int|
            0 <= k < pieces(s, sep).len() && (#[trigger] pieces(s, sep)[k]).contains(s[i]),
    decreases s.len(),
{
    let front = pieces(s.drop_last(), sep);
    let all = pieces(s, sep);
    law_pieces_join(s.drop_last(), sep);
    if i < s.len() - 1 {
        lemma_in_piece(s.drop_last(), sep, i);
        if s[i] != sep {
            let k = choose|k: int| 0 <= k < front.len() && (#[trigger] front[k]).contains(s[i]);
            let j = choose|j: int| 0 <= j < front[k].len() && front[k][j] == s[i];
            assert(all[k][j] == s[i]);
            assert(all[k].contains(s[i]));
        }
    } else if s[i] != sep {
        let last = all.last();
        assert(last[last.len() - 1] == s[i]);
        assert(all[all.len() - 1].contains(s[i]));
    }
}

/// The characters of `s`.
pub(crate) fn chars_of(s: &str) -> (chars: Vec<char>)
    ensures
        chars@ == s@,
{
    let mut chars: Vec<char> = Vec::new();
    for c in it: s.chars()
        invariant
            chars@ == it.seq().take(it.index()),
            it.seq() == s@,
    {
        chars.push(c);
    }
    chars
}

/// The position of the first `c` in `s`, if there is one.
pub(crate) fn find_first(s: &str, c: char) -> (found: Option<usize>)
    ensures
        match found {
            Some(i) => s@.index_of_first(c) == Some(i as int) && i < s@.len() <= usize::MAX,
            None => s@.index_of_first(c) is None,
        },
{
    let chars = chars_of(s);
    let mut i: usize = 0;
    while i < chars.len()
        invariant
            chars@ == s@,
            i <= s@.len(),
            forall|j: int| 0 <= j < i ==> s@[j] != c,
        decreases chars.len() - i,
    {
        if chars[i] == c {
            proof {
                s@.index_of_first_ensures(c);
                assert(s@.contains(c));
            }
            return Some(i);
        }
        i += 1;
    }
    proof {
        s@.index_of_first_ensures(c);
    }
    None
}

/// The position of the last `c` in `s`, if there is one.
pub(crate) fn find_last(s: &str, c: char) -> (found: Option<usize>)
    ensures
        match found {
            Some(i) => s@.index_of_last(c) == Some(i as int) && i < s@.len() <= usize::MAX,
            None => s@.index_of_last(c) is None,
        },
{
    let chars = chars_of(s);
    let mut i: usize = chars.len();
    while i > 0
        invariant
            chars@ == s@,
            i <= s@.len() <= usize::MAX,
            forall|j: int| i <= j < s@.len() ==> s@[j] != c,
        decreases i,
    {
        i -= 1;
        if chars[i] == c {
            proof {
                s@.index_of_last_ensures(c);
                assert(s@.contains(c));
            }
            return Some(i);
        }
    }
    proof {
        s@.index_of_last_ensures(c);
    }
    None
}

/// The first `n` characters of `s`.
pub(crate) fn take(s: &str, n: usize) -> (front: &str)
    requires
        n <= s@.len(),
    ensures
        front@ == s@.take(n as int),
{
    s.substring_char(0, n)
}

/// What follows the first `n` characters of `s`.
pub(crate) fn skip(s: &str, n: usize) -> (rest: &str)
    requires
        n <= s@.len(),
    ensures
        rest@ == s@.skip(n as int),
{
    s.substring_char(n, s.unicode_len())
}

/// Splits `s` at every `sep`.
pub(crate) fn split<'a>(s: &'a str, sep: char) -> (parts: Vec<&'a str>)
    ensures
        views(parts@) == pieces(s@, sep),
{
    let chars = chars_of(s);
    let mut parts: Vec<&'a str> = Vec::new();
    let mut start: usize = 0;
    let mut i: usize = 0;
    proof {
        assert(s@.take(0) =~= Seq::empty());
        assert(views(parts@).push(s@.subrange(0, 0)) =~= seq![Seq::<char>::empty()]);
    }
    while i < chars.len()
        invariant
            chars@ == s@,
            start <= i <= s@.len(),
            pieces(s@.take(i as int), sep) == views(parts@).push(
                s@.subrange(start as int, i as int),
            ),
        decreases chars.len() - i,
    {
        let ghost before = views(parts@);
        proof {
            assert(s@.take(i + 1).drop_last() =~= s@.take(i as int));
        }
        if chars[i] == sep {
            parts.push(s.substring_char(start, i));
            start = i + 1;
            proof {
                assert(views(parts@) =~= before.push(views(parts@).last()));
                assert(s@.subrange(start as int, i + 1) =~= Seq::empty());
            }
        } else {
            proof {
                assert(s@.subrange(start as int, i + 1) =~= s@.subrange(
                    start as int,
                    i as int,
                ).push(s@[i as int]));
                let grown = before.push(s@.subrange(start as int, i as int));
                assert(grown.update(grown.len() - 1, s@.subrange(start as int, i + 1))
                    =~= before.push(s@.subrange(start as int, i + 1)));
            }
        }
        i += 1;
    }
    let ghost before = views(parts@);
    parts.push(s.substring_char(start, i));
    proof {
        assert(s@.take(i as int) =~= s@);
        assert(views(parts@) =~= before.push(s@.subrange(start as int, i as int)));
    }
    parts
}

/// The texts that a sequence of string slices stands for.
pub open spec fn views(parts: Seq<&str>) -> Seq<Seq<char>> {
    parts.map_values(|part: &str| part@)
}

/// Whether `s` starts with `prefix`.
pub(crate) fn starts_with(s: &str, prefix: &str) -> (b: bool)
    ensures
        b == prefix@.is_prefix_of(s@),
{
    let chars = chars_of(s);
    let wanted = chars_of(prefix);
    if wanted.len() > chars.len() {
        return false;
    }
    let mut i: usize = 0;
    while i < wanted.len()
        invariant
            chars@ == s@,
            wanted@ == prefix@,
            i <= wanted@.len() <= chars@.len(),
            forall|j: int| 0 <= j < i ==> s@[j] == prefix@[j],
        decreases wanted.len() - i,
    {
        if chars[i] != wanted[i] {
            proof {
                assert(s@.subrange(0, prefix@.len() as int)[i as int] != prefix@[i as int]);
            }
            return false;
        }
        i += 1;
    }
    proof {
        assert(prefix@ =~= s@.subrange(0, prefix@.len() as int));
    }
    true
}

/// The digit that `c` stands for; meaningful for the characters `0` to `9`.
pub open spec fn digit_value(c: char) -> nat {
    (c as nat - '0' as nat) as nat
}

/// The number that a run of decimal digits stands for.
pub open spec fn decimal_value(digits: Seq<char>) -> nat
    decreases digits.len(),
{
    if digits.len() == 0 {
        0
    } else {
        10 * decimal_value(digits.drop_last()) + digit_value(digits.last())
    }
}

/// `n` in decimal, without leading zeros.
pub open spec fn decimal_text(n: nat) -> Seq<char>
    decreases n,
{
    if n < 10 {
        seq![('0' as nat + n) as char]
    } else {
        decimal_text(n / 10).push(('0' as nat + n % 10) as char)
    }
}

/// Each further digit of a number counts ten times what stands before it, and itself.
pub proof fn law_decimal_digit_by_digit(digits: Seq<char>, c: char)
    requires
        0x30 <= c as u32 <= 0x39,
    ensures
        decimal_value(Seq::empty()) == 0,
        decimal_value(digits.push(c)) == 10 * decimal_value(digits) + (c as u32 - 0x30),
{
    assert(digits.push(c).drop_last() =~= digits);
}

/// Writing a number in decimal and reading it back gives the number, and the
/// text holds digits only and no leading zeros.
pub proof fn law_decimal_round_trip(n: nat)
    ensures
        decimal_value(decimal_text(n)) == n,
        decimal_text(n).len() >= 1,
        forall|i: int|
            0 <= i < decimal_text(n).len() ==> '0' <= #[trigger] decimal_text(n)[i] <= '9',
        n > 0 ==> decimal_text(n)[0] != '0',
        n == 0 ==> decimal_text(n) == seq!['0'],
    decreases n,
{
    let text = decimal_text(n);
    if n < 10 {
        assert(text.drop_last() =~= Seq::empty());
        assert(decimal_value(Seq::<char>::empty()) == 0);
    } else {
        law_decimal_round_trip(n / 10);
        assert(text.drop_last() =~= decimal_text(n / 10));
        assert forall|i: int| 0 <= i < text.len() implies '0' <= #[trigger] text[i] <= '9' by {
            if i < text.len() - 1 {
                assert(text[i] == decimal_text(n / 10)[i]);
            }
        }
    }
}

/// A longer run of digits stands for a number at least as large.
pub(crate) proof fn lemma_decimal_value_grows(digits: Seq<char>, n: int)
    requires
        0 <= n <= digits.len(),
    ensures
        decimal_value(digits.take(n)) <= decimal_value(digits),
    decreases digits.len() - n,
{
    if n == digits.len() {
        assert(digits.take(n) =~= digits);
    } else {
        lemma_decimal_value_grows(digits, n + 1);
        assert(digits.take(n + 1).drop_last() =~= digits.take(n));
    }
}

/// Reads a run of decimal digits; `None` when the number exceeds `u32::MAX`.
pub(crate) fn parse_decimal(digits: &Vec<char>) -> (number: Option<u32>)
    requires
        forall|i: int| 0 <= i < digits@.len() ==> '0' <= #[trigger] digits@[i] <= '9',
    ensures
        match number {
            Some(n) => n == decimal_value(digits@),
            None => decimal_value(digits@) > u32::MAX,
        },
{
    let mut total: u64 = 0;
    let mut i: usize = 0;
    proof {
        assert(digits@.take(0) =~= Seq::empty());
    }
    while i < digits.len()
        invariant
            i <= digits@.len(),
            forall|j: int| 0 <= j < digits@.len() ==> '0' <= #[trigger] digits@[j] <= '9',
            total == decimal_value(digits@.take(i as int)),
            total <= u32::MAX,
        decreases digits.len() - i,
    {
        let c: char = digits[i];
        proof {
            assert(digits@.take(i + 1).drop_last() =~= digits@.take(i as int));
        }
        total = total * 10 + (c as u64 - '0' as u64);
        i += 1;
        if total > u32::MAX as u64 {
            proof {
                lemma_decimal_value_grows(digits@, i as int);
            }
            return None;
        }
    }
    proof {
        assert(digits@.take(i as int) =~= digits@);
    }
    Some(total as u32)
}

/// Writes `n` in decimal.
pub(crate) fn decimal(n: u16) -> (text: String)
    ensures
        text@ == decimal_text(n as nat),
    decreases n,
{
    let digit: u8 = (n % 10) as u8;
    let c: char = (48u8 + digit) as char;
    if n < 10 {
        let mut text = String::new();
        text.push(c);
        proof {
            assert(text@ =~= decimal_text(n as nat));
        }
        text
    } else {
        let mut text = decimal(n / 10);
        text.push(c);
        text
    }
}

} // verus!
