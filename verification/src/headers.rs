//! Header fields, and which of them the proxy passes on.

use crate::text::chars_of;
use vstd::prelude::*;

verus! {

/// A header field of a request or a reply.
pub struct Header {
    pub name: String,
    pub value: Vec<u8>,
}

/// A header field of a reply in the order in which a header map is taken apart:
/// a field without a name of its own repeats the name of the field before it.
pub struct ReceivedHeader {
    pub name: Option<String>,
    pub value: Vec<u8>,
}

pub ghost struct HeaderView {
    pub name: Seq<char>,
    pub value: Seq<u8>,
}

pub ghost struct ReceivedHeaderView {
    pub name: Option<Seq<char>>,
    pub value: Seq<u8>,
}

impl View for Header {
    type V = HeaderView;

    open spec fn view(&self) -> HeaderView {
        HeaderView { name: self.name@, value: self.value@ }
    }
}

impl View for ReceivedHeader {
    type V = ReceivedHeaderView;

    open spec fn view(&self) -> ReceivedHeaderView {
        ReceivedHeaderView {
            name: match self.name {
                Some(name) => Some(name@),
                None => None,
            },
            value: self.value@,
        }
    }
}

/// The fields that a list stands for.
pub open spec fn header_views(headers: Seq<Header>) -> Seq<HeaderView> {
    headers.map_values(|header: Header| header@)
}

/// The fields that a list stands for.
pub open spec fn received_views(headers: Seq<ReceivedHeader>) -> Seq<ReceivedHeaderView> {
    headers.map_values(|header: ReceivedHeader| header@)
}

/// The lower-case form of an ASCII letter; other characters stay.
pub open spec fn lower(c: char) -> char {
    if 'A' <= c <= 'Z' {
        (c as u32 + 32) as char
    } else {
        c
    }
}

/// Two names are the same but for the case of ASCII letters.
pub open spec fn same_name(a: Seq<char>, b: Seq<char>) -> bool {
    a.len() == b.len() && forall|i: int| 0 <= i < a.len() ==> lower(#[trigger] a[i]) == lower(b[i])
}

/// The fields of a request that are passed on: all but `host` and
/// `content-length`, which belong to the connection that they came over.
pub open spec fn passed_on(name: Seq<char>) -> bool {
    !same_name(name, "host"@) && !same_name(name, "content-length"@)
}

/// The fields to send on for the fields `headers` of a request, in order.
pub open spec fn forwarded(headers: Seq<HeaderView>) -> Seq<HeaderView>
    decreases headers.len(),
{
    if headers.len() == 0 {
        Seq::empty()
    } else {
        let front = forwarded(headers.drop_last());
        if passed_on(headers.last().name) {
            front.push(headers.last())
        } else {
            front
        }
    }
}

/// The last name that is given in `headers`.
pub open spec fn last_name(headers: Seq<ReceivedHeaderView>) -> Option<Seq<char>>
    decreases headers.len(),
{
    if headers.len() == 0 {
        None
    } else if headers.last().name is Some {
        headers.last().name
    } else {
        last_name(headers.drop_last())
    }
}

/// The fields to answer with for the fields `headers` of a reply, in order. A field
/// without a name of its own has the last name before it; without any, it is left out.
pub open spec fn returned(headers: Seq<ReceivedHeaderView>) -> Seq<HeaderView>
    decreases headers.len(),
{
    if headers.len() == 0 {
        Seq::empty()
    } else {
        let front = returned(headers.drop_last());
        match last_name(headers) {
            Some(name) => front.push(HeaderView { name, value: headers.last().value }),
            None => front,
        }
    }
}

/// How a header map is taken apart: a name that is the same as the one before it is
/// not given again.
pub open spec fn taken_apart(fields: Seq<HeaderView>) -> Seq<ReceivedHeaderView> {
    Seq::new(
        fields.len(),
        |i: int|
            ReceivedHeaderView {
                name: if i > 0 && fields[i - 1].name == fields[i].name {
                    None
                } else {
                    Some(fields[i].name)
                },
                value: fields[i].value,
            },
    )
}

fn lower_case(c: char) -> (l: char)
    ensures
        l == lower(c),
{
    if 'A' <= c && c <= 'Z' {
        (c as u8 + 32) as char
    } else {
        c
    }
}

/// Whether two names are the same but for the case of ASCII letters.
pub(crate) fn is_same_name(a: &str, b: &str) -> (same: bool)
    ensures
        same == same_name(a@, b@),
{
    let left = chars_of(a);
    let right = chars_of(b);
    if left.len() != right.len() {
        return false;
    }
    let mut i: usize = 0;
    while i < left.len()
        invariant
            left@ == a@,
            right@ == b@,
            left@.len() == right@.len(),
            i <= left@.len(),
            forall|j: int| 0 <= j < i ==> lower(#[trigger] a@[j]) == lower(b@[j]),
        decreases left.len() - i,
    {
        if lower_case(left[i]) != lower_case(right[i]) {
            return false;
        }
        i += 1;
    }
    true
}

/// Two names are the same if and only if they agree at every position, but for ASCII
/// letters that may be in either case.
pub proof fn law_same_name_by_code_point(a: Seq<char>, b: Seq<char>)
    ensures
        same_name(a, b) <==> a.len() == b.len() && forall|i: int|
            0 <= i < a.len() ==> {
                ||| #[trigger] a[i] == b[i]
                ||| 0x41 <= a[i] as u32 <= 0x5a && a[i] as u32 + 0x20 == b[i] as u32
                ||| 0x41 <= b[i] as u32 <= 0x5a && b[i] as u32 + 0x20 == a[i] as u32
            },
{
    if same_name(a, b) {
        assert forall|i: int| 0 <= i < a.len() implies {
            ||| #[trigger] a[i] == b[i]
            ||| 0x41 <= a[i] as u32 <= 0x5a && a[i] as u32 + 0x20 == b[i] as u32
            ||| 0x41 <= b[i] as u32 <= 0x5a && b[i] as u32 + 0x20 == a[i] as u32
        } by {
            assert(lower(a[i]) == lower(b[i]));
        }
    }
}

/// A field is sent on if its name differs, and not by case alone, from the text `host`
/// and from the text `content-length`.
pub proof fn law_other_fields_are_sent_on(headers: Seq<HeaderView>, i: int)
    requires
        0 <= i < headers.len(),
        headers[i].name.len() != 4 || exists|k: int|
            0 <= k < 4 && #[trigger] headers[i].name[k] != "host"@[k] && !(0x41
                <= headers[i].name[k] as u32 <= 0x5a && headers[i].name[k] as u32 + 0x20
                == "host"@[k] as u32),
        headers[i].name.len() != 14 || exists|k: int|
            0 <= k < 14 && #[trigger] headers[i].name[k] != "content-length"@[k] && !(0x41
                <= headers[i].name[k] as u32 <= 0x5a && headers[i].name[k] as u32 + 0x20
                == "content-length"@[k] as u32),
    ensures
        forwarded(headers).contains(headers[i]),
{
    reveal_strlit("host");
    reveal_strlit("content-length");
    let name = headers[i].name;
    law_same_name_by_code_point(name, "host"@);
    law_same_name_by_code_point(name, "content-length"@);
    law_forwarded_fields(headers, headers[i]);
}

/// A field whose name is `host` or `content-length`, in whatever case, is not sent on.
pub proof fn law_connection_fields_are_not_sent_on(headers: Seq<HeaderView>, header: HeaderView)
    requires
        ({
            ||| header.name.len() == 4 && forall|k: int|
                0 <= k < 4 ==> #[trigger] header.name[k] == "host"@[k] || (0x41
                    <= header.name[k] as u32 <= 0x5a && header.name[k] as u32 + 0x20
                    == "host"@[k] as u32)
            ||| header.name.len() == 14 && forall|k: int|
                0 <= k < 14 ==> #[trigger] header.name[k] == "content-length"@[k] || (0x41
                    <= header.name[k] as u32 <= 0x5a && header.name[k] as u32 + 0x20
                    == "content-length"@[k] as u32)
        }),
    ensures
        !forwarded(headers).contains(header),
{
    reveal_strlit("host");
    reveal_strlit("content-length");
    law_same_name_by_code_point(header.name, "host"@);
    law_same_name_by_code_point(header.name, "content-length"@);
    law_forwarded_fields(headers, header);
}

/// What is sent on of a field does not depend on the fields around it, the order stays,
/// and a field is sent on at most once.
pub proof fn law_forwarded_in_order(
    before: Seq<HeaderView>,
    header: HeaderView,
    after: Seq<HeaderView>,
)
    ensures
        forwarded(before + after) == forwarded(before) + forwarded(after),
        forwarded(seq![header]) == seq![header] || forwarded(seq![header])
            == Seq::<HeaderView>::empty(),
        forwarded(before + seq![header] + after) == forwarded(before) + forwarded(seq![header])
            + forwarded(after),
{
    reveal_with_fuel(forwarded, 2);
    assert(seq![header].drop_last() =~= Seq::empty());
    if passed_on(header.name) {
        assert(forwarded(seq![header]) =~= seq![header]);
    } else {
        assert(forwarded(seq![header]) =~= Seq::empty());
    }
    lemma_forwarded_concat(before, after);
    lemma_forwarded_concat(before, seq![header]);
    lemma_forwarded_concat(before + seq![header], after);
}

proof fn lemma_forwarded_concat(before: Seq<HeaderView>, after: Seq<HeaderView>)
    ensures
        forwarded(before + after) == forwarded(before) + forwarded(after),
    decreases after.len(),
{
    if after.len() == 0 {
        assert(before + after =~= before);
        assert(forwarded(before) + forwarded(after) =~= forwarded(before));
    } else {
        lemma_forwarded_concat(before, after.drop_last());
        assert((before + after).drop_last() =~= before + after.drop_last());
        assert(forwarded(before + after) =~= forwarded(before) + forwarded(after));
    }
}

/// A field of a reply with a name is answered with as it is; the fields without a name
/// that follow it, `more` of them and then one of value `value`, under the same name.
/// Fields before which no name is given are left out.
pub proof fn law_names_carry_on(
    front: Seq<ReceivedHeaderView>,
    named: HeaderView,
    more: Seq<ReceivedHeaderView>,
    value: Seq<u8>,
)
    requires
        forall|i: int| 0 <= i < more.len() ==> (#[trigger] more[i]).name is None,
    ensures
        ({
            let first = ReceivedHeaderView { name: Some(named.name), value: named.value };
            let next = ReceivedHeaderView { name: None, value };
            &&& returned(front + seq![first]) == returned(front) + seq![named]
            &&& returned(front + seq![first] + more + seq![next]) == returned(
                front + seq![first] + more,
            ) + seq![HeaderView { name: named.name, value }]
            &&& returned(more) == Seq::<HeaderView>::empty()
        }),
{
    let first = ReceivedHeaderView { name: Some(named.name), value: named.value };
    let next = ReceivedHeaderView { name: None, value };
    let opened = front + seq![first];
    assert(opened.drop_last() =~= front);
    assert(returned(opened) =~= returned(front) + seq![named]);
    lemma_last_name(opened, more);
    let run = opened + more;
    assert((run + seq![next]).drop_last() =~= run);
    assert(returned(run + seq![next]) =~= returned(run) + seq![
        HeaderView { name: named.name, value },
    ]);
    law_returned_fields(more, more.len());
    assert(returned(more) =~= Seq::empty());
}

proof fn lemma_last_name(front: Seq<ReceivedHeaderView>, more: Seq<ReceivedHeaderView>)
    requires
        forall|i: int| 0 <= i < more.len() ==> (#[trigger] more[i]).name is None,
    ensures
        last_name(front + more) == last_name(front),
    decreases more.len(),
{
    if more.len() == 0 {
        assert(front + more =~= front);
    } else {
        assert((front + more).drop_last() =~= front + more.drop_last());
        assert((front + more).last() == more[more.len() - 1]);
        lemma_last_name(front, more.drop_last());
    }
}

/// A field stands for its own name and value, and a list of fields for its fields, one
/// by one.
pub proof fn law_fields_stand_for_themselves(
    headers: Seq<Header>,
    received: Seq<ReceivedHeader>,
    i: int,
)
    ensures
        header_views(headers).len() == headers.len(),
        received_views(received).len() == received.len(),
        0 <= i < headers.len() ==> header_views(headers)[i].name == headers[i].name@
            && header_views(headers)[i].value == headers[i].value@,
        0 <= i < received.len() ==> received_views(received)[i].value == received[i].value@ && (
        received_views(received)[i].name is None <==> received[i].name is None) && (
        received[i].name is Some ==> received_views(received)[i].name == Some(
            received[i].name->Some_0@,
        )),
{
}

/// A field is sent on if and only if the request has it and its name is neither
/// `host` nor `content-length`.
pub proof fn law_forwarded_fields(headers: Seq<HeaderView>, header: HeaderView)
    ensures
        forwarded(headers).contains(header) <==> headers.contains(header) && passed_on(header.name),
    decreases headers.len(),
{
    if headers.len() > 0 {
        let front = headers.drop_last();
        let last = headers.last();
        law_forwarded_fields(front, header);
        assert(headers =~= front.push(last));
        lemma_contains_push(front, last, header);
        lemma_contains_push(forwarded(front), last, header);
    }
}

/// Every field with a name, its own or one before it, is answered with, in order, under
/// that name and with its value. Only the nameless fields that open a reply, of which
/// there are `nameless`, are left out.
pub proof fn law_returned_fields(headers: Seq<ReceivedHeaderView>, nameless: nat)
    requires
        nameless <= headers.len(),
        forall|i: int| 0 <= i < nameless ==> (#[trigger] headers[i]).name is None,
        nameless < headers.len() ==> headers[nameless as int].name is Some,
    ensures
        returned(headers).len() == headers.len() - nameless,
        forall|i: int|
            nameless <= i < headers.len() ==> last_name(#[trigger] headers.take(i + 1)) == Some(
                returned(headers)[i - nameless].name,
            ) && returned(headers)[i - nameless].value == headers[i].value,
        nameless == headers.len() ==> last_name(headers) is None,
        nameless < headers.len() ==> last_name(headers) is Some,
    decreases headers.len(),
{
    if headers.len() > 0 {
        let front = headers.drop_last();
        if nameless == headers.len() {
            law_returned_fields(front, (nameless - 1) as nat);
        } else {
            law_returned_fields(front, nameless);
            assert forall|i: int| nameless <= i < headers.len() implies last_name(
                #[trigger] headers.take(i + 1),
            ) == Some(returned(headers)[i - nameless].name) && returned(headers)[i - nameless].value
                == headers[i].value by {
                if i < headers.len() - 1 {
                    assert(headers.take(i + 1) =~= front.take(i + 1));
                    assert(front[i] == headers[i]);
                } else {
                    assert(headers.take(i + 1) =~= headers);
                }
            }
        }
    }
}

/// A header map is taken apart field by field: a field keeps its value, and goes without
/// a name exactly where the field before it has the same.
pub proof fn law_taken_apart_field_by_field(
    front: Seq<HeaderView>,
    last: HeaderView,
    next: HeaderView,
)
    ensures
        taken_apart(seq![last]) == seq![
            ReceivedHeaderView { name: Some(last.name), value: last.value },
        ],
        last.name == next.name ==> taken_apart(front + seq![last, next]) == taken_apart(
            front + seq![last],
        ) + seq![ReceivedHeaderView { name: None, value: next.value }],
        last.name != next.name ==> taken_apart(front + seq![last, next]) == taken_apart(
            front + seq![last],
        ) + seq![ReceivedHeaderView { name: Some(next.name), value: next.value }],
{
    let n = front.len() as int;
    let all = front + seq![last, next];
    assert(all[n] == last && all[n + 1] == next);
    let name = if last.name == next.name {
        None
    } else {
        Some(next.name)
    };
    assert(taken_apart(all) =~= taken_apart(front + seq![last]) + seq![
        ReceivedHeaderView { name, value: next.value },
    ]);
    assert(taken_apart(seq![last]) =~= seq![
        ReceivedHeaderView { name: Some(last.name), value: last.value },
    ]);
}

/// A reply's fields come back whole, repeated names included: taking a header map
/// apart and answering with what comes out gives its fields again.
pub proof fn law_fields_come_back(fields: Seq<HeaderView>)
    ensures
        returned(taken_apart(fields)) == fields,
        fields.len() > 0 ==> last_name(taken_apart(fields)) == Some(fields.last().name),
    decreases fields.len(),
{
    if fields.len() > 0 {
        let front = fields.drop_last();
        law_fields_come_back(front);
        assert(taken_apart(fields).drop_last() =~= taken_apart(front));
        assert(returned(taken_apart(fields)) =~= fields);
    } else {
        assert(returned(taken_apart(fields)) =~= fields);
    }
}

proof fn lemma_contains_push<A>(s: Seq<A>, last: A, a: A)
    ensures
        s.push(last).contains(a) <==> s.contains(a) || a == last,
{
    if s.contains(a) {
        let i = choose|i: int| 0 <= i < s.len() && s[i] == a;
        assert(s.push(last)[i] == a);
    }
    assert(s.push(last)[s.len() as int] == last);
}

/// Selects the fields of a request to send on.
pub fn forward_headers(headers: Vec<Header>) -> (sent: Vec<Header>)
    ensures
        header_views(sent@) == forwarded(header_views(headers@)),
{
    let ghost all = header_views(headers@);
    let mut sent: Vec<Header> = Vec::new();
    proof {
        assert(header_views(sent@) =~= forwarded(all.take(0)));
    }
    for header in it: headers
        invariant
            header_views(it.seq()) == all,
            header_views(sent@) == forwarded(all.take(it.index())),
    {
        let ghost before = header_views(sent@);
        proof {
            assert(all.take(it.index() + 1).drop_last() =~= all.take(it.index()));
            assert(all[it.index()] == header@);
        }
        if !is_same_name(header.name.as_str(), "host") && !is_same_name(
            header.name.as_str(),
            "content-length",
        ) {
            let ghost view = header@;
            sent.push(header);
            proof {
                assert(header_views(sent@) =~= before.push(view));
            }
        }
    }
    proof {
        assert(all.take(all.len() as int) =~= all);
    }
    sent
}

/// Gives the fields of a reply to answer with.
pub fn return_headers(headers: Vec<ReceivedHeader>) -> (answered: Vec<Header>)
    ensures
        header_views(answered@) == returned(received_views(headers@)),
{
    let ghost all = received_views(headers@);
    let mut answered: Vec<Header> = Vec::new();
    let mut current: Option<String> = None;
    proof {
        assert(header_views(answered@) =~= returned(all.take(0)));
    }
    for header in it: headers
        invariant
            received_views(it.seq()) == all,
            header_views(answered@) == returned(all.take(it.index())),
            match current {
                Some(name) => last_name(all.take(it.index())) == Some(name@),
                None => last_name(all.take(it.index())) is None,
            },
    {
        let ghost before = header_views(answered@);
        proof {
            assert(all.take(it.index() + 1).drop_last() =~= all.take(it.index()));
            assert(all[it.index()] == header@);
        }
        if header.name.is_some() {
            current = header.name;
        }
        match &current {
            Some(name) => {
                let kept = Header { name: name.clone(), value: header.value };
                answered.push(kept);
                proof {
                    assert(header_views(answered@) =~= before.push(kept@));
                }
            },
            None => {},
        }
    }
    proof {
        assert(all.take(all.len() as int) =~= all);
    }
    answered
}

} // verus!
