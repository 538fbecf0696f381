//! What the resolver makes of the text of a `resolv.conf`, line by line and word by word, and
//! of the addresses that the system reports.
use crate::dns::{
    decimal, digit, google, inet_address, is_space, last_inet, line_end, server_in, servers_from,
    word_end, word_start, HostAddr,
};
use crate::dns_message::Ipv4;
use crate::error::Error;
use vstd::prelude::*;

verus! {

/// The text is white space alone.
pub open spec fn blank(s: Seq<char>) -> bool {
    forall|i: int| 0 <= i < s.len() ==> is_space(#[trigger] s[i])
}

/// The text is one word: something, and no white space in it.
pub open spec fn is_word(s: Seq<char>) -> bool {
    s.len() > 0 && forall|i: int| 0 <= i < s.len() ==> !is_space(#[trigger] s[i])
}

/// The text is empty or begins with white space, so that a word before it ends there.
pub open spec fn ends_word(s: Seq<char>) -> bool {
    s.len() > 0 ==> is_space(s[0])
}

/// The text is on one line.
pub open spec fn one_line(s: Seq<char>) -> bool {
    forall|i: int| 0 <= i < s.len() ==> #[trigger] s[i] != '\n'
}

/// White space is what Unicode counts as such: of the characters of ASCII the blank, and those
/// from the tab to the carriage return.
pub proof fn law_white_space(c: char)
    ensures
        (c as u32) < 0x80 ==> (is_space(c) <==> c == ' ' || c == '\t' || c == '\n' || c == '\r'
            || c as u32 == 0xb || c as u32 == 0xc),
        (c as u32) >= 0x80 ==> (is_space(c) <==> seq![
            0x85u32,
            0xa0,
            0x1680,
            0x2000,
            0x2001,
            0x2002,
            0x2003,
            0x2004,
            0x2005,
            0x2006,
            0x2007,
            0x2008,
            0x2009,
            0x200a,
            0x2028,
            0x2029,
            0x202f,
            0x205f,
            0x3000,
        ].contains(c as u32)),
{
    let n = c as u32;
    let all = seq![
        0x85u32,
        0xa0,
        0x1680,
        0x2000,
        0x2001,
        0x2002,
        0x2003,
        0x2004,
        0x2005,
        0x2006,
        0x2007,
        0x2008,
        0x2009,
        0x200a,
        0x2028,
        0x2029,
        0x202f,
        0x205f,
        0x3000,
    ];
    if n >= 0x80 && is_space(c) {
        let i: int = if n == 0x85 {
            0
        } else if n == 0xa0 {
            1
        } else if n == 0x1680 {
            2
        } else if n <= 0x200a {
            3 + n - 0x2000
        } else if n == 0x2028 {
            14
        } else if n == 0x2029 {
            15
        } else if n == 0x202f {
            16
        } else if n == 0x205f {
            17
        } else {
            18
        };
        assert(all[i] == n);
    }
    if n >= 0x80 && all.contains(n) {
        let i = choose|i: int| 0 <= i < all.len() && all[i] == n;
        assert(is_space(c));
    }
}

proof fn lemma_word_start(s: Seq<char>, at: int, to: int, end: int)
    requires
        0 <= at <= to <= end <= s.len(),
        forall|i: int| at <= i < to ==> is_space(s[i]),
        to == end || !is_space(s[to]),
    ensures
        word_start(s, at, end) == to,
    decreases to - at,
{
    if at < to {
        lemma_word_start(s, at + 1, to, end);
    }
}

proof fn lemma_word_end(s: Seq<char>, at: int, to: int, end: int)
    requires
        0 <= at <= to <= end <= s.len(),
        forall|i: int| at <= i < to ==> !is_space(s[i]),
        to == end || is_space(s[to]),
    ensures
        word_end(s, at, end) == to,
    decreases to - at,
{
    if at < to {
        lemma_word_end(s, at + 1, to, end);
    }
}

proof fn lemma_line_end(s: Seq<char>, at: int, to: int)
    requires
        0 <= at <= to <= s.len(),
        forall|i: int| at <= i < to ==> s[i] != '\n',
        to == s.len() || s[to] == '\n',
    ensures
        line_end(s, at) == to,
    decreases to - at,
{
    if at < to {
        lemma_line_end(s, at + 1, to);
    }
}

/// A line gives the name server that is its second word, where its first word begins with
/// `nameserver`; what comes behind does not matter.
pub proof fn law_line_gives_its_second_word(
    indent: Seq<char>,
    key: Seq<char>,
    gap: Seq<char>,
    server: Seq<char>,
    rest: Seq<char>,
)
    requires
        blank(indent),
        is_word(key),
        blank(gap),
        gap.len() > 0,
        is_word(server),
        ends_word(rest),
        one_line(indent + key + gap + server + rest),
        "nameserver"@.is_prefix_of(key),
    ensures
        servers_from(indent + key + gap + server + rest, 0) == seq![server],
{
    let s = indent + key + gap + server + rest;
    let n = s.len() as int;
    let a = indent.len() as int;
    let b = a + key.len();
    let c = b + gap.len();
    let d = c + server.len();
    lemma_line_end(s, 0, n);
    assert forall|i: int| 0 <= i < a implies is_space(s[i]) by {
        assert(s[i] == indent[i]);
    }
    assert forall|i: int| a <= i < b implies !is_space(s[i]) by {
        assert(s[i] == key[i - a]);
    }
    assert forall|i: int| b <= i < c implies is_space(s[i]) by {
        assert(s[i] == gap[i - b]);
    }
    assert forall|i: int| c <= i < d implies !is_space(s[i]) by {
        assert(s[i] == server[i - c]);
    }
    if d < n {
        assert(s[d] == rest[0]);
    }
    lemma_word_start(s, 0, a, n);
    lemma_word_end(s, a, b, n);
    lemma_word_start(s, b, c, n);
    lemma_word_end(s, c, d, n);
    assert(s.subrange(a, b) =~= key);
    assert(s.subrange(c, d) =~= server);
}

/// A line gives no name server where its first word does not begin with `nameserver`, or where
/// it has no second word.
pub proof fn law_other_lines_give_nothing(indent: Seq<char>, key: Seq<char>, rest: Seq<char>)
    requires
        blank(indent),
        is_word(key) || (key.len() == 0 && rest.len() == 0),
        ends_word(rest),
        one_line(indent + key + rest),
        !"nameserver"@.is_prefix_of(key) || blank(rest),
    ensures
        servers_from(indent + key + rest, 0) == Seq::<Seq<char>>::empty(),
{
    let s = indent + key + rest;
    let n = s.len() as int;
    let a = indent.len() as int;
    let b = a + key.len();
    lemma_line_end(s, 0, n);
    assert forall|i: int| 0 <= i < a implies is_space(s[i]) by {
        assert(s[i] == indent[i]);
    }
    assert forall|i: int| a <= i < b implies !is_space(s[i]) by {
        assert(s[i] == key[i - a]);
    }
    if b < n {
        assert(s[b] == rest[0]);
    }
    lemma_word_start(s, 0, a, n);
    lemma_word_end(s, a, b, n);
    assert(s.subrange(a, b) =~= key);
    if blank(rest) {
        assert forall|i: int| b <= i < n implies is_space(s[i]) by {
            assert(s[i] == rest[i - b]);
        }
        lemma_word_start(s, b, n, n);
    }
}

proof fn lemma_shifted_words(front: Seq<char>, s: Seq<char>, back: Seq<char>, at: int, end: int)
    requires
        0 <= at,
        end <= s.len(),
    ensures
        word_start(front + s + back, front.len() + at, front.len() + end) == front.len()
            + word_start(s, at, end),
        word_end(front + s + back, front.len() + at, front.len() + end) == front.len() + word_end(
            s,
            at,
            end,
        ),
        word_start(s, at, end) >= at,
        word_end(s, at, end) >= at,
        at <= end ==> word_start(s, at, end) <= end && word_end(s, at, end) <= end,
    decreases end - at,
{
    if at < end {
        assert((front + s + back)[front.len() + at] == s[at]);
        lemma_shifted_words(front, s, back, at + 1, end);
    }
}

proof fn lemma_shifted_server(front: Seq<char>, s: Seq<char>, back: Seq<char>, at: int, end: int)
    requires
        0 <= at <= end <= s.len(),
    ensures
        server_in(front + s + back, front.len() + at, front.len() + end) == server_in(s, at, end),
{
    let all = front + s + back;
    let k = front.len() as int;
    lemma_shifted_words(front, s, back, at, end);
    let a = word_start(s, at, end);
    lemma_shifted_words(front, s, back, a, end);
    let b = word_end(s, a, end);
    lemma_shifted_words(front, s, back, b, end);
    let c = word_start(s, b, end);
    lemma_shifted_words(front, s, back, c, end);
    let d = word_end(s, c, end);
    assert(all.subrange(k + a, k + b) =~= s.subrange(a, b));
    assert(all.subrange(k + c, k + d) =~= s.subrange(c, d));
}

proof fn lemma_line_end_bounds(s: Seq<char>, at: int)
    requires
        0 <= at <= s.len(),
    ensures
        at <= line_end(s, at) <= s.len(),
    decreases s.len() - at,
{
    if at < s.len() && s[at] != '\n' {
        lemma_line_end_bounds(s, at + 1);
    }
}

proof fn lemma_shifted_line(front: Seq<char>, s: Seq<char>, at: int)
    requires
        0 <= at <= s.len(),
    ensures
        line_end(front + s, front.len() + at) == front.len() + line_end(s, at),
    decreases s.len() - at,
{
    if at < s.len() {
        assert((front + s)[front.len() + at] == s[at]);
        if s[at] != '\n' {
            lemma_shifted_line(front, s, at + 1);
        }
    }
}

proof fn lemma_shifted_servers(front: Seq<char>, s: Seq<char>, at: int)
    requires
        0 <= at <= s.len(),
    ensures
        servers_from(front + s, front.len() + at) == servers_from(s, at),
    decreases s.len() - at,
{
    let e = line_end(s, at);
    lemma_line_end_bounds(s, at);
    lemma_shifted_line(front, s, at);
    lemma_shifted_server(front, s, Seq::empty(), at, e);
    assert(front + s + Seq::<char>::empty() =~= front + s);
    if e < s.len() {
        lemma_shifted_servers(front, s, e + 1);
    }
}

/// A text gives the servers of its first line, and then those of the lines behind it: each
/// line counts, in its order, whatever the others are.
pub proof fn law_servers_come_line_by_line(line: Seq<char>, rest: Seq<char>)
    requires
        one_line(line),
    ensures
        servers_from(line + seq!['\n'] + rest, 0) == servers_from(line, 0) + servers_from(rest, 0),
{
    let s = line + seq!['\n'] + rest;
    let n = line.len() as int;
    assert forall|i: int| 0 <= i < n implies s[i] != '\n' by {
        assert(s[i] == line[i]);
    }
    lemma_line_end(s, 0, n);
    lemma_line_end(line, 0, n);
    lemma_shifted_server(Seq::empty(), line, seq!['\n'] + rest, 0, n);
    assert(Seq::<char>::empty() + line + (seq!['\n'] + rest) =~= s);
    lemma_shifted_servers(line + seq!['\n'], rest, 0);
}

/// Where the system names no servers those of Google are asked.
pub proof fn law_google_is_asked_otherwise()
    ensures
        google() == seq!["8.8.8.8"@, "8.8.4.4"@],
{
}

/// An address that the system reports is a number whose lowest byte is the first part of the
/// address, and its highest the last.
pub proof fn law_reported_address_is_its_bytes(n: u32)
    ensures
        ({
            let x = inet_address(n);
            n == x.a + 256 * x.b + 65536 * x.c + 16777216 * x.d
        }),
{
    assert(n == (n & 255) as u8 + 256 * ((n >> 8u32) & 255) as u8 + 65536 * ((n >> 16u32) & 255) as u8
        + 16777216 * (n >> 24u32) as u8) by (bit_vector);
}

/// Of the addresses that the system reports the last one that is an IPv4 address is used, and
/// none where there is none.
pub proof fn law_last_reported_address_is_used(list: Seq<HostAddr>, k: int, n: u32)
    requires
        -1 <= k < list.len(),
        k >= 0 ==> list[k] == HostAddr::Inet(n),
        forall|i: int| k < i < list.len() ==> !(#[trigger] list[i] is Inet),
    ensures
        last_inet(list) == (if k >= 0 {
            Some(inet_address(n))
        } else {
            None::<Ipv4>
        }),
    decreases list.len(),
{
    if list.len() > 0 && k < list.len() - 1 {
        assert(!(list[list.len() - 1] is Inet));
        law_last_reported_address_is_used(list.drop_last(), k, n);
    }
}

/// The number that a row of digits stands for.
pub open spec fn number_of(s: Seq<char>) -> int
    decreases s.len(),
{
    if s.len() == 0 {
        0
    } else {
        10 * number_of(s.drop_last()) + (s.last() as u32 - 48)
    }
}

/// The text is digits alone, and does not begin with a zero unless it is one.
pub open spec fn is_number(s: Seq<char>) -> bool {
    &&& s.len() > 0
    &&& forall|i: int| 0 <= i < s.len() ==> '0' <= #[trigger] s[i] <= '9'
    &&& s.len() > 1 ==> s[0] != '0'
}

proof fn lemma_digit(n: int)
    requires
        0 <= n < 10,
    ensures
        digit(n).len() == 1,
        digit(n)[0] as u32 == 48 + n,
        '0' <= digit(n)[0] <= '9',
{
    reveal_strlit("0");
    reveal_strlit("1");
    reveal_strlit("2");
    reveal_strlit("3");
    reveal_strlit("4");
    reveal_strlit("5");
    reveal_strlit("6");
    reveal_strlit("7");
    reveal_strlit("8");
    reveal_strlit("9");
}

/// A number in decimal reads as that number, without leading zeros.
pub proof fn law_decimal_reads_as_the_number(n: int)
    requires
        n >= 0,
    ensures
        is_number(decimal(n)),
        number_of(decimal(n)) == n,
        n > 0 ==> decimal(n)[0] != '0',
    decreases n,
{
    let s = decimal(n);
    if n < 10 {
        lemma_digit(n);
        assert(s.drop_last() =~= Seq::empty());
        assert(number_of(s.drop_last()) == 0);
        assert(s.last() == s[0]);
    } else {
        law_decimal_reads_as_the_number(n / 10);
        lemma_digit(n % 10);
        let front = decimal(n / 10);
        assert(s == front + digit(n % 10));
        assert(s.drop_last() =~= front);
        assert(s.last() == digit(n % 10)[0]);
        assert forall|i: int| 0 <= i < s.len() implies '0' <= #[trigger] s[i] <= '9' by {
            if i < front.len() {
                assert(s[i] == front[i]);
            } else {
                assert(s[i] == digit(n % 10)[0]);
            }
        }
        assert(s[0] == front[0]);
    }
}

/// An address in words is its four parts as numbers, in their order, with dots between.
pub proof fn law_address_in_words_reads_as_its_parts(x: Ipv4)
    ensures
        exists|a: Seq<char>, b: Seq<char>, c: Seq<char>, d: Seq<char>|
            #![trigger a + seq!['.'] + b + seq!['.'] + c + seq!['.'] + d]
            {
                &&& x.text() == a + seq!['.'] + b + seq!['.'] + c + seq!['.'] + d
                &&& is_number(a) && number_of(a) == x.a
                &&& is_number(b) && number_of(b) == x.b
                &&& is_number(c) && number_of(c) == x.c
                &&& is_number(d) && number_of(d) == x.d
            },
{
    let (a, b, c, d) = (
        decimal(x.a as int),
        decimal(x.b as int),
        decimal(x.c as int),
        decimal(x.d as int),
    );
    law_decimal_reads_as_the_number(x.a as int);
    law_decimal_reads_as_the_number(x.b as int);
    law_decimal_reads_as_the_number(x.c as int);
    law_decimal_reads_as_the_number(x.d as int);
    reveal_strlit(".");
    assert("."@ =~= seq!['.']);
    assert(x.text() == a + seq!['.'] + b + seq!['.'] + c + seq!['.'] + d);
}

/// Each error says in words what the matter is.
pub proof fn law_errors_say_what_the_matter_is()
    ensures
        Error::SocketClosed.text() == "socket closed"@,
        Error::ReadTimeout.text() == "read timeout"@,
        Error::WriteTimeout.text() == "write timeout"@,
        Error::InvalidSocket.text() == "invalid socket"@,
        Error::NoSocket.text() == "no socket"@,
        Error::ListenRead.text() == "can not read on listen socket"@,
        Error::ListenWrite.text() == "can not write on listen socket"@,
        Error::ListenFlush.text() == "can not flush on listen socket"@,
        Error::NotListening.text() == "can not accept on non listen socket"@,
        Error::TlsFailure.text() == "tls failure"@,
        Error::EmptyDomain.text() == "empty domain"@,
        Error::BadHost.text() == "bad host name"@,
        Error::NoSpace.text() == "no space"@,
        Error::PollerExists.text() == "poller exists"@,
{
}

} // verus!
