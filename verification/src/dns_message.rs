//! DNS messages: the questions that the resolver asks and the answers that it reads.
//!
//! A message is a header of twelve bytes, the questions and the answers. A name is a
//! row of labels, each with its length before it, that ends in an empty label or in a
//! pointer to another name of the message.
use crate::wire::{read_u16, write_u16};
use vstd::prelude::*;
use vstd::slice::slice_subrange;
use vstd::string::StringSliceAdditionalSpecFns;

verus! {

/// The longest message that is sent.
pub const MAX_MESSAGE: usize = 512;

/// An IPv4 address.
#[derive(Clone, Copy, Debug, PartialEq, Eq, Structural)]
pub struct Ipv4 {
    pub a: u8,
    pub b: u8,
    pub c: u8,
    pub d: u8,
}

/// The number in the two bytes from `at` on.
pub open spec fn number_at(m: Seq<u8>, at: int) -> int {
    m[at] * 256 + m[at + 1]
}

/// Where the name that begins at `at` ends; `None` where there is no whole name.
pub open spec fn name_end(m: Seq<u8>, at: int) -> Option<int>
    decreases m.len() - at,
{
    if at < 0 || at >= m.len() {
        None
    } else if m[at] == 0 {
        Some(at + 1)
    } else if m[at] >= 0xc0 {
        if at + 1 < m.len() {
            Some(at + 2)
        } else {
            None
        }
    } else if m[at] >= 0x40 || at + 1 + m[at] >= m.len() {
        None
    } else {
        name_end(m, at + 1 + m[at])
    }
}

/// Where the question that begins at `at` ends: a name, a type and a class.
pub open spec fn question_end(m: Seq<u8>, at: int) -> Option<int> {
    match name_end(m, at) {
        Some(e) if e + 4 <= m.len() => Some(e + 4),
        _ => None,
    }
}

/// Where `n` questions that begin at `at` end.
pub open spec fn questions_end(m: Seq<u8>, at: int, n: nat) -> Option<int>
    decreases n,
{
    if n == 0 {
        Some(at)
    } else {
        match question_end(m, at) {
            Some(e) => questions_end(m, e, (n - 1) as nat),
            None => None,
        }
    }
}

/// A resource record: its type, where its data begins and where it ends.
pub struct Record {
    pub kind: int,
    pub data: int,
    pub end: int,
}

/// The record that begins at `at`: a name, a type, a class, a time to live, a length and
/// that many bytes of data. An address record holds four bytes.
pub open spec fn record_at(m: Seq<u8>, at: int) -> Option<Record> {
    match name_end(m, at) {
        Some(e) if e + 10 <= m.len() => {
            let kind = number_at(m, e);
            let end = e + 10 + number_at(m, e + 8);
            if end > m.len() || (kind == 1 && number_at(m, e + 8) != 4) {
                None
            } else {
                Some(Record { kind, data: e + 10, end })
            }
        },
        _ => None,
    }
}

/// The address in the four bytes from `at` on.
pub open spec fn address_at(m: Seq<u8>, at: int) -> Ipv4 {
    Ipv4 { a: m[at], b: m[at + 1], c: m[at + 2], d: m[at + 3] }
}

/// The addresses that `n` records from `at` on hold, in order; `None` where there are
/// not as many whole records.
pub open spec fn addresses_from(m: Seq<u8>, at: int, n: nat) -> Option<Seq<Ipv4>>
    decreases n,
{
    if n == 0 {
        Some(Seq::empty())
    } else {
        match record_at(m, at) {
            Some(r) => match addresses_from(m, r.end, (n - 1) as nat) {
                Some(rest) => if r.kind == 1 {
                    Some(seq![address_at(m, r.data)] + rest)
                } else {
                    Some(rest)
                },
                None => None,
            },
            None => None,
        }
    }
}

/// The addresses in the answers of a message; `None` where it is no message.
pub open spec fn addresses(m: Seq<u8>) -> Option<Seq<Ipv4>> {
    if m.len() < 12 {
        None
    } else {
        match questions_end(m, 12, number_at(m, 4) as nat) {
            Some(e) => addresses_from(m, e, number_at(m, 6) as nat),
            None => None,
        }
    }
}

/// The number in the two bytes from `at` on.
fn read_at(m: &[u8], at: usize) -> (n: u16)
    requires
        at + 2 <= m.len(),
    ensures
        n == number_at(m@, at as int),
{
    read_u16(slice_subrange(m, at, at + 2))
}

/// Skips a name.
fn skip_name(m: &[u8], from: usize) -> (end: Option<usize>)
    ensures
        match end {
            Some(e) => name_end(m@, from as int) == Some(e as int) && from < e <= m@.len(),
            None => name_end(m@, from as int) is None,
        },
{
    let mut at: usize = from;
    while at < m.len()
        invariant
            from <= at,
            name_end(m@, from as int) == name_end(m@, at as int),
        decreases m@.len() - at,
    {
        let len: u8 = m[at];
        if len == 0 {
            return Some(at + 1);
        }
        if len >= 0xc0 {
            if m.len() - at > 1 {
                return Some(at + 2);
            }
            return None;
        }
        if len >= 0x40 {
            return None;
        }
        if m.len() - at - 1 <= len as usize {
            return None;
        }
        at = at + 1 + len as usize;
    }
    None
}

/// The addresses in the answers of a message.
pub fn dns_addresses(m: &[u8]) -> (found: Option<Vec<Ipv4>>)
    ensures
        match found {
            Some(list) => addresses(m@) == Some(list@),
            None => addresses(m@) is None,
        },
{
    if m.len() < 12 {
        return None;
    }
    let questions: u16 = read_at(m, 4);
    let answers: u16 = read_at(m, 6);
    let mut at: usize = 12;
    let mut left: u16 = questions;
    while left > 0
        invariant
            at <= m@.len(),
            questions_end(m@, 12, questions as nat) == questions_end(m@, at as int, left as nat),
            m@.len() >= 12,
            questions == number_at(m@, 4),
        decreases left,
    {
        match skip_name(m, at) {
            Some(e) => {
                if m.len() - e < 4 {
                    return None;
                }
                at = e + 4;
            },
            None => {
                return None;
            },
        }
        left = left - 1;
    }
    let ghost start = at as int;
    let mut list: Vec<Ipv4> = Vec::new();
    left = answers;
    assert(addresses(m@) == addresses_from(m@, start, answers as nat));
    proof {
        if let Some(all) = addresses_from(m@, start, answers as nat) {
            assert(list@ + all =~= all);
        }
    }
    while left > 0
        invariant
            at <= m@.len(),
            match addresses_from(m@, at as int, left as nat) {
                Some(rest) => addresses(m@) == Some(list@ + rest),
                None => addresses(m@) is None,
            },
        decreases left,
    {
        let e: usize = match skip_name(m, at) {
            Some(e) => e,
            None => {
                return None;
            },
        };
        if m.len() - e < 10 {
            return None;
        }
        let kind: u16 = read_at(m, e);
        let len: u16 = read_at(m, e + 8);
        if m.len() - e - 10 < len as usize || (kind == 1 && len != 4) {
            return None;
        }
        let ghost before = list@;
        let ghost rest = addresses_from(m@, e + 10 + len, (left - 1) as nat);
        if kind == 1 {
            let address = Ipv4 { a: m[e + 10], b: m[e + 11], c: m[e + 12], d: m[e + 13] };
            list.push(address);
            proof {
                if let Some(tail) = rest {
                    assert(before + (seq![address] + tail) =~= list@ + tail);
                }
            }
        }
        at = e + 10 + len as usize;
        left = left - 1;
    }
    assert(list@ + Seq::<Ipv4>::empty() =~= list@);
    Some(list)
}

/// The address that a reply of a name server gives: the first in its answers. `None`
/// where it gives none, or is no message.
pub fn dns_parse(m: &[u8]) -> (found: Option<Ipv4>)
    ensures
        found == first_address(m@),
{
    match dns_addresses(m) {
        Some(list) => if list.len() > 0 {
            Some(list[0])
        } else {
            None
        },
        None => None,
    }
}

/// The first address in the answers of a message.
pub open spec fn first_address(m: Seq<u8>) -> Option<Ipv4> {
    match addresses(m) {
        Some(list) if list.len() > 0 => Some(list[0]),
        _ => None,
    }
}

/// Where the label of a host name that begins at `from` ends: at the next dot, or with
/// the name.
pub open spec fn label_end(host: Seq<u8>, from: int) -> int
    decreases host.len() - from,
{
    if from >= host.len() || host[from] == 46 {
        from
    } else {
        label_end(host, from + 1)
    }
}

/// Every label of the host name from `from` on takes 1 to 63 bytes.
pub open spec fn labels_fit(host: Seq<u8>, from: int) -> bool
    decreases host.len() - from,
{
    let e = label_end(host, from);
    1 <= e - from <= 63 && (e < host.len() ==> from <= e && labels_fit(host, e + 1))
}

/// The labels of the host name from `from` on, each with its length before it.
pub open spec fn label_bytes(host: Seq<u8>, from: int) -> Seq<u8>
    decreases host.len() - from,
{
    let e = label_end(host, from);
    let label = seq![(e - from) as u8] + host.subrange(from, e);
    if from <= e < host.len() {
        label + label_bytes(host, e + 1)
    } else {
        label
    }
}

/// The host name can be asked for: its labels fit, and the message is not too long.
pub open spec fn can_ask(host: Seq<u8>) -> bool {
    labels_fit(host, 0) && host.len() + 18 <= MAX_MESSAGE
}

/// The question for the address of a host: its name, the type for addresses and the
/// class for the internet.
pub open spec fn question(host: Seq<u8>) -> Seq<u8> {
    label_bytes(host, 0) + seq![0u8, 0, 1, 0, 1]
}

/// The message that asks for the address of a host, under an id, and asks the server to
/// look further itself.
pub open spec fn query(id: u16, host: Seq<u8>) -> Seq<u8> {
    seq![(id / 256) as u8, (id % 256) as u8, 1, 0, 0, 1, 0, 0, 0, 0, 0, 0] + question(host)
}

/// The message with which a server answers such a query with one address.
pub open spec fn reply(id: u16, host: Seq<u8>, ttl: Seq<u8>, address: Ipv4) -> Seq<u8> {
    seq![(id / 256) as u8, (id % 256) as u8, 0x81, 0x80, 0, 1, 0, 1, 0, 0, 0, 0] + question(host)
        + seq![0xc0u8, 12, 0, 1, 0, 1] + ttl + seq![
        0u8,
        4,
        address.a,
        address.b,
        address.c,
        address.d,
    ]
}

/// Builds the message that asks for the address of a host. `None` where the host name
/// can not be asked for.
pub fn build_query(id: u16, host: &str) -> (message: Option<Vec<u8>>)
    ensures
        match message {
            Some(m) => can_ask(host.spec_bytes()) && m@ == query(id, host.spec_bytes()),
            None => !can_ask(host.spec_bytes()),
        },
{
    let name: &[u8] = host.as_bytes();
    if name.len() > MAX_MESSAGE - 18 {
        return None;
    }
    let head: [u8; 2] = write_u16(id);
    let mut out: Vec<u8> = vec![head[0], head[1], 1, 0, 0, 1, 0, 0, 0, 0, 0, 0];
    let ghost header = out@;
    assert(header =~= seq![(id / 256) as u8, (id % 256) as u8, 1, 0, 0, 1, 0, 0, 0, 0, 0, 0]);
    let mut from: usize = 0;
    loop
        invariant_except_break
            from <= name@.len(),
            labels_fit(name@, 0) == labels_fit(name@, from as int),
            header + label_bytes(name@, 0) == out@ + label_bytes(name@, from as int),
        invariant
            name.len() + 18 <= MAX_MESSAGE,
            name@ == host.spec_bytes(),
        ensures
            header + label_bytes(name@, 0) == out@,
            labels_fit(name@, 0),
        decreases name@.len() - from,
    {
        let mut e: usize = from;
        while e < name.len() && name[e] != 46
            invariant
                from <= e <= name@.len(),
                label_end(name@, from as int) == label_end(name@, e as int),
            decreases name@.len() - e,
        {
            e = e + 1;
        }
        if e == from || e - from > 63 {
            return None;
        }
        let ghost before = out@;
        let ghost label = seq![(e - from) as u8] + name@.subrange(from as int, e as int);
        out.push((e - from) as u8);
        let mut i: usize = from;
        while i < e
            invariant
                from <= i <= e <= name@.len(),
                out@ == before + seq![(e - from) as u8] + name@.subrange(from as int, i as int),
            decreases e - i,
        {
            out.push(name[i]);
            i = i + 1;
        }
        assert(out@ =~= before + label);
        if e == name.len() {
            break;
        }
        assert(before + (label + label_bytes(name@, e + 1)) =~= out@ + label_bytes(name@, e + 1));
        from = e + 1;
    }
    let ghost before = out@;
    out.push(0);
    out.push(0);
    out.push(1);
    out.push(0);
    out.push(1);
    assert(out@ =~= before + seq![0u8, 0, 1, 0, 1]);
    assert(out@ =~= header + (label_bytes(name@, 0) + seq![0u8, 0, 1, 0, 1]));
    Some(out)
}

/// A name that stands in a message as the labels of a host name, with an empty label
/// behind, ends behind that empty label.
proof fn lemma_name_end(m: Seq<u8>, at: int, host: Seq<u8>, from: int)
    requires
        0 <= from <= host.len(),
        labels_fit(host, from),
        0 <= at,
        at + label_bytes(host, from).len() < m.len(),
        m.subrange(at, at + label_bytes(host, from).len()) == label_bytes(host, from),
        m[at + label_bytes(host, from).len()] == 0,
    ensures
        label_bytes(host, from).len() == host.len() - from + 1,
        name_end(m, at) == Some(at + host.len() - from + 2),
    decreases host.len() - from,
{
    let e = label_end(host, from);
    let bytes = label_bytes(host, from);
    let label = seq![(e - from) as u8] + host.subrange(from, e);
    lemma_label_end(host, from);
    assert(label.len() == e - from + 1);
    assert(m[at] == m.subrange(at, at + bytes.len())[0]);
    assert(m[at] == e - from);
    if e < host.len() {
        let rest = label_bytes(host, e + 1);
        assert(bytes == label + rest);
        assert(m.subrange(at + label.len(), at + label.len() + rest.len()) =~= rest) by {
            assert(m.subrange(at, at + bytes.len()).subrange(label.len() as int, bytes.len() as int)
                =~= rest);
            assert(m.subrange(at, at + bytes.len()).subrange(label.len() as int, bytes.len() as int)
                =~= m.subrange(at + label.len(), at + bytes.len()));
        }
        lemma_name_end(m, at + label.len(), host, e + 1);
    } else {
        reveal_with_fuel(name_end, 2);
    }
}

proof fn lemma_label_end(host: Seq<u8>, from: int)
    requires
        0 <= from <= host.len(),
    ensures
        from <= label_end(host, from) <= host.len(),
    decreases host.len() - from,
{
    if from < host.len() && host[from] != 46 {
        lemma_label_end(host, from + 1);
    }
}

/// A message that opens with a header for one question and then asks for a host: its
/// question ends where it was written to the end.
proof fn lemma_question_end(m: Seq<u8>, host: Seq<u8>)
    requires
        can_ask(host),
        m.len() >= 12int + question(host).len(),
        m.subrange(12, 12int + question(host).len()) == question(host),
        number_at(m, 4) == 1,
    ensures
        questions_end(m, 12, 1) == Some(12int + question(host).len()),
        question(host).len() == host.len() + 6,
{
    let bytes = label_bytes(host, 0);
    let q = question(host);
    assert(m.subrange(12, 12int + bytes.len()) =~= bytes) by {
        assert(m.subrange(12, 12int + q.len()).subrange(0, bytes.len() as int) =~= bytes);
        assert(m.subrange(12, 12int + q.len()).subrange(0, bytes.len() as int) =~= m.subrange(
            12,
            12int + bytes.len(),
        ));
    }
    assert(m[12int + bytes.len()] == m.subrange(12, 12int + q.len())[bytes.len() as int]);
    lemma_name_end(m, 12, host, 0);
    reveal_with_fuel(questions_end, 2);
}

/// A query is a whole message, and there is no address in it.
pub proof fn law_query_has_no_address(id: u16, host: Seq<u8>)
    requires
        can_ask(host),
    ensures
        addresses(query(id, host)) == Some(Seq::<Ipv4>::empty()),
{
    let m = query(id, host);
    assert(m.subrange(12, 12int + question(host).len()) =~= question(host));
    assert(m[4] == 0 && m[5] == 1 && m[6] == 0 && m[7] == 0);
    lemma_question_end(m, host);
}

/// What a server answers to a query is what the resolver reads: the address in the
/// reply, for every host that can be asked for, every id and every time to live.
pub proof fn law_reply_gives_address(id: u16, host: Seq<u8>, ttl: Seq<u8>, address: Ipv4)
    requires
        can_ask(host),
        ttl.len() == 4,
    ensures
        addresses(reply(id, host, ttl, address)) == Some(seq![address]),
        first_address(reply(id, host, ttl, address)) == Some(address),
{
    let m = reply(id, host, ttl, address);
    let q = question(host);
    let e = 12int + q.len();
    assert(m.subrange(12, e) =~= q);
    assert(m[4] == 0 && m[5] == 1 && m[6] == 0 && m[7] == 1);
    lemma_question_end(m, host);
    assert(m[e] == 0xc0 && m[e + 1] == 12 && m[e + 2] == 0 && m[e + 3] == 1);
    assert(m[e + 10] == 0 && m[e + 11] == 4);
    assert(m.len() == e + 16);
    assert(name_end(m, e) == Some(e + 2));
    assert(record_at(m, e) == Some(Record { kind: 1, data: e + 12, end: e + 16 }));
    assert(address_at(m, e + 12) == address);
    reveal_with_fuel(addresses_from, 2);
    assert(seq![address] + Seq::<Ipv4>::empty() =~= seq![address]);
}

} // verus!
