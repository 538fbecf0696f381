//! The resolver: which name servers to ask, what to ask them, and the addresses that
//! the system's own resolver reports.
use crate::dns_message::{build_query, Ipv4};
use crate::error::Error;
use crate::wire::random_u16;
use vstd::prelude::*;
use vstd::string::{StrSliceExecFns, StringExecFns, StringSliceAdditionalSpecFns};

verus! {

/// A list of strings as text.
pub open spec fn texts(list: Seq<String>) -> Seq<Seq<char>> {
    list.map_values(|s: String| s@)
}

/// White space, as Unicode has it.
pub open spec fn is_space(c: char) -> bool {
    let n = c as u32;
    ||| 0x9 <= n <= 0xd
    ||| n == 0x20
    ||| n == 0x85
    ||| n == 0xa0
    ||| n == 0x1680
    ||| 0x2000 <= n <= 0x200a
    ||| n == 0x2028
    ||| n == 0x2029
    ||| n == 0x202f
    ||| n == 0x205f
    ||| n == 0x3000
}

/// Where the line that `at` is in ends: at the next line feed, or with the text.
pub open spec fn line_end(s: Seq<char>, at: int) -> int
    decreases s.len() - at,
{
    if at >= s.len() || s[at] == '\n' {
        at
    } else {
        line_end(s, at + 1)
    }
}

/// Where the first word of `s` from `at` on begins; `end` where there is none before it.
pub open spec fn word_start(s: Seq<char>, at: int, end: int) -> int
    decreases end - at,
{
    if at >= end || !is_space(s[at]) {
        at
    } else {
        word_start(s, at + 1, end)
    }
}

/// Where the word that `at` is in ends, at `end` at the latest.
pub open spec fn word_end(s: Seq<char>, at: int, end: int) -> int
    decreases end - at,
{
    if at >= end || is_space(s[at]) {
        at
    } else {
        word_end(s, at + 1, end)
    }
}

/// The name server that the line from `from` to `end` gives: the second word, where the
/// first one begins with `nameserver`.
pub open spec fn server_in(s: Seq<char>, from: int, end: int) -> Option<Seq<char>> {
    let a = word_start(s, from, end);
    let b = word_end(s, a, end);
    let c = word_start(s, b, end);
    let d = word_end(s, c, end);
    if "nameserver"@.is_prefix_of(s.subrange(a, b)) && c < end {
        Some(s.subrange(c, d))
    } else {
        None
    }
}

/// The name servers that the lines from `at` on give, in order.
pub open spec fn servers_from(s: Seq<char>, at: int) -> Seq<Seq<char>>
    decreases s.len() - at,
{
    let e = line_end(s, at);
    let here: Seq<Seq<char>> = match server_in(s, at, e) {
        Some(server) => seq![server],
        None => seq![],
    };
    if at <= e < s.len() {
        here + servers_from(s, e + 1)
    } else {
        here
    }
}

fn char_is_space(c: char) -> (yes: bool)
    ensures
        yes == is_space(c),
{
    let n: u32 = c as u32;
    (0x9 <= n && n <= 0xd) || n == 0x20 || n == 0x85 || n == 0xa0 || n == 0x1680 || (0x2000 <= n && n
        <= 0x200a) || n == 0x2028 || n == 0x2029 || n == 0x202f || n == 0x205f || n == 0x3000
}

/// The characters of a text.
fn chars_of(s: &str) -> (out: Vec<char>)
    ensures
        out@ == s@,
{
    let n: usize = s.unicode_len();
    let mut out: Vec<char> = Vec::new();
    let mut i: usize = 0;
    while i < n
        invariant
            i <= n,
            n == s@.len(),
            out@ == s@.subrange(0, i as int),
        decreases n - i,
    {
        out.push(s.get_char(i));
        i = i + 1;
    }
    assert(s@.subrange(0, n as int) =~= s@);
    out
}

fn find_word(s: &Vec<char>, from: usize, end: usize) -> (at: usize)
    requires
        from <= end <= s@.len(),
    ensures
        at == word_start(s@, from as int, end as int),
        from <= at <= end,
{
    let mut at: usize = from;
    while at < end && char_is_space(s[at])
        invariant
            from <= at <= end <= s@.len(),
            word_start(s@, from as int, end as int) == word_start(s@, at as int, end as int),
        decreases end - at,
    {
        at = at + 1;
    }
    at
}

fn skip_word(s: &Vec<char>, from: usize, end: usize) -> (at: usize)
    requires
        from <= end <= s@.len(),
    ensures
        at == word_end(s@, from as int, end as int),
        from <= at <= end,
{
    let mut at: usize = from;
    while at < end && !char_is_space(s[at])
        invariant
            from <= at <= end <= s@.len(),
            word_end(s@, from as int, end as int) == word_end(s@, at as int, end as int),
        decreases end - at,
    {
        at = at + 1;
    }
    at
}

/// The text from `from` to `end` begins with `prefix`.
fn begins_with(s: &Vec<char>, from: usize, end: usize, prefix: &Vec<char>) -> (yes: bool)
    requires
        from <= end <= s@.len(),
    ensures
        yes == prefix@.is_prefix_of(s@.subrange(from as int, end as int)),
{
    if prefix.len() > end - from {
        return false;
    }
    let mut i: usize = 0;
    while i < prefix.len()
        invariant
            i <= prefix@.len(),
            from <= end <= s@.len(),
            prefix@.len() <= end - from,
            forall|j: int| 0 <= j < i ==> #[trigger] prefix@[j] == s@[from + j],
        decreases prefix@.len() - i,
    {
        if s[from + i] != prefix[i] {
            assert(s@.subrange(from as int, end as int).subrange(0, prefix@.len() as int)[i as int]
                != prefix@[i as int]);
            return false;
        }
        i = i + 1;
    }
    assert(s@.subrange(from as int, end as int).subrange(0, prefix@.len() as int) =~= prefix@);
    true
}

/// The name servers that the text of a `resolv.conf` gives.
pub fn resolv_parse(text: &str) -> (servers: Vec<String>)
    ensures
        texts(servers@) == servers_from(text@, 0),
{
    let s: Vec<char> = chars_of(text);
    let keyword: Vec<char> = chars_of("nameserver");
    let mut out: Vec<String> = Vec::new();
    let mut at: usize = 0;
    assert(texts(out@) + servers_from(s@, 0) =~= servers_from(s@, 0));
    loop
        invariant_except_break
            at <= s@.len(),
            texts(out@) + servers_from(s@, at as int) == servers_from(s@, 0),
        invariant
            s@ == text@,
            keyword@ == "nameserver"@,
        ensures
            texts(out@) == servers_from(s@, 0),
        decreases s@.len() - at,
    {
        let mut e: usize = at;
        while e < s.len() && s[e] != '\n'
            invariant
                at <= e <= s@.len(),
                line_end(s@, at as int) == line_end(s@, e as int),
            decreases s@.len() - e,
        {
            e = e + 1;
        }
        let ghost before = texts(out@);
        let a: usize = find_word(&s, at, e);
        let b: usize = skip_word(&s, a, e);
        let ghost mut here: Seq<Seq<char>> = Seq::empty();
        if begins_with(&s, a, b, &keyword) {
            let c: usize = find_word(&s, b, e);
            if c < e {
                let d: usize = skip_word(&s, c, e);
                let server: String = text.substring_char(c, d).to_owned();
                proof {
                    here = seq![server@];
                }
                out.push(server);
            }
        }
        assert(texts(out@) =~= before + here);
        if e == s.len() {
            break;
        }
        assert(before + (here + servers_from(s@, e + 1)) =~= texts(out@) + servers_from(s@, e + 1));
        at = e + 1;
    }
    out
}

/// The name servers that are asked where the system names none.
pub open spec fn google() -> Seq<Seq<char>> {
    seq!["8.8.8.8"@, "8.8.4.4"@]
}

fn get_google() -> (servers: Vec<String>)
    ensures
        texts(servers@) == google(),
{
    let mut out: Vec<String> = Vec::new();
    out.push("8.8.8.8".to_owned());
    out.push("8.8.4.4".to_owned());
    assert(texts(out@) =~= google());
    out
}

/// The name servers to ask, given what `resolv.conf` holds: `None` where it could not be
/// read.
pub fn get_dns_servers(resolv_conf: Option<&str>) -> (servers: Vec<String>)
    ensures
        texts(servers@) == match resolv_conf {
            Some(text) => servers_from(text@, 0),
            None => google(),
        },
{
    match resolv_conf {
        Some(text) => resolv_parse(text),
        None => get_google(),
    }
}

/// The message that asks for the address of a host, under an id picked by chance.
/// `None` where the host name can not be asked for.
pub fn random_query(host: &str) -> (message: Option<Vec<u8>>)
    ensures
        message is Some <==> crate::dns_message::can_ask(host.spec_bytes()),
        message matches Some(m) ==> exists|id: u16|
            m@ == #[trigger] crate::dns_message::query(id, host.spec_bytes()),
{
    let id: u16 = random_u16();
    build_query(id, host)
}

/// What is sent to look a host up: the server and the message.
pub struct Request {
    pub server: String,
    pub message: Vec<u8>,
}

/// The resolver.
pub struct Dns {
    srvs: Vec<String>,
}

impl View for Dns {
    type V = Seq<Seq<char>>;

    /// The name servers.
    closed spec fn view(&self) -> Seq<Seq<char>> {
        texts(self.srvs@)
    }
}

impl Dns {
    /// A resolver that asks the servers which `resolv.conf` gives.
    pub fn new(resolv_conf: Option<&str>) -> (dns: Dns)
        ensures
            dns@ == match resolv_conf {
                Some(text) => servers_from(text@, 0),
                None => google(),
            },
    {
        Dns { srvs: get_dns_servers(resolv_conf) }
    }

    /// How many name servers there are.
    pub fn servers(&self) -> (n: usize)
        ensures
            n == self@.len(),
    {
        self.srvs.len()
    }

    /// A lookup that runs elsewhere and has come back, with the id and the generation it was
    /// started with. This resolver asks over a socket of the fiber, so there is none.
    pub fn check_result(&self) -> (found: Option<(u64, usize, Ipv4)>)
        ensures
            found is None,
    {
        None
    }

    /// Begin to look a host up: the first server is asked.
    pub fn start_lookup(&self, host: &str) -> (request: Result<Request, Error>)
        requires
            self@.len() > 0,
        ensures
            asks(request, self@[0], host.spec_bytes()),
    {
        self.lookup_on(0, host)
    }

    /// Ask again: each attempt asks another server, in turn.
    pub fn lookup_on(&self, attempt: usize, host: &str) -> (request: Result<Request, Error>)
        requires
            self@.len() > 0,
        ensures
            asks(request, self@[attempt as int % self@.len() as int], host.spec_bytes()),
    {
        match random_query(host) {
            Some(message) => {
                let server: String = self.srvs[attempt % self.srvs.len()].clone();
                Ok(Request { server, message })
            },
            None => Err(Error::BadHost),
        }
    }
}

/// `request` asks `server` for `host`, under some id; it is refused where the host name
/// can not be asked for.
pub open spec fn asks(request: Result<Request, Error>, server: Seq<char>, host: Seq<u8>) -> bool {
    match request {
        Ok(r) => {
            &&& crate::dns_message::can_ask(host)
            &&& r.server@ == server
            &&& exists|id: u16| r.message@ == #[trigger] crate::dns_message::query(id, host)
        },
        Err(e) => e == Error::BadHost && !crate::dns_message::can_ask(host),
    }
}

/// An address of a host as the system's own resolver reports it. An IPv4 address is a
/// number whose lowest byte is the first part of the address.
#[derive(Clone, Copy, Debug, PartialEq, Eq, Structural)]
pub enum HostAddr {
    Inet(u32),
    Inet6,
    Other,
}

/// The address that a number stands for.
pub open spec fn inet_address(n: u32) -> Ipv4 {
    Ipv4 {
        a: (n & 255) as u8,
        b: ((n >> 8u32) & 255) as u8,
        c: ((n >> 16u32) & 255) as u8,
        d: (n >> 24u32) as u8,
    }
}

/// The last IPv4 address among those that were reported.
pub open spec fn last_inet(list: Seq<HostAddr>) -> Option<Ipv4>
    decreases list.len(),
{
    if list.len() == 0 {
        None
    } else {
        match list.last() {
            HostAddr::Inet(n) => Some(inet_address(n)),
            _ => last_inet(list.drop_last()),
        }
    }
}

/// The address to use of those that were reported: the last IPv4 address.
pub fn host_address(list: &Vec<HostAddr>) -> (address: Option<Ipv4>)
    ensures
        address == last_inet(list@),
{
    let mut found: Option<Ipv4> = None;
    let mut i: usize = 0;
    while i < list.len()
        invariant
            i <= list@.len(),
            found == last_inet(list@.subrange(0, i as int)),
        decreases list@.len() - i,
    {
        assert(list@.subrange(0, i + 1).drop_last() =~= list@.subrange(0, i as int));
        match list[i] {
            HostAddr::Inet(n) => {
                found = Some(
                    Ipv4 {
                        a: (n & 255) as u8,
                        b: ((n >> 8u32) & 255) as u8,
                        c: ((n >> 16u32) & 255) as u8,
                        d: (n >> 24u32) as u8,
                    },
                );
            },
            _ => {},
        }
        i = i + 1;
    }
    assert(list@.subrange(0, i as int) =~= list@);
    found
}

/// A number below ten as its digit.
pub open spec fn digit(n: int) -> Seq<char> {
    if n == 0 {
        "0"@
    } else if n == 1 {
        "1"@
    } else if n == 2 {
        "2"@
    } else if n == 3 {
        "3"@
    } else if n == 4 {
        "4"@
    } else if n == 5 {
        "5"@
    } else if n == 6 {
        "6"@
    } else if n == 7 {
        "7"@
    } else if n == 8 {
        "8"@
    } else {
        "9"@
    }
}

/// A byte in decimal, without leading zeros.
pub open spec fn decimal(n: int) -> Seq<char>
    decreases n,
{
    if n < 10 {
        digit(n)
    } else {
        decimal(n / 10) + digit(n % 10)
    }
}

fn digit_text(n: u8) -> (text: &'static str)
    requires
        n < 10,
    ensures
        text@ == digit(n as int),
{
    match n {
        0 => "0",
        1 => "1",
        2 => "2",
        3 => "3",
        4 => "4",
        5 => "5",
        6 => "6",
        7 => "7",
        8 => "8",
        _ => "9",
    }
}

/// Appends a byte in decimal.
fn push_decimal(out: &mut String, n: u8)
    ensures
        final(out)@ == old(out)@ + decimal(n as int),
    decreases n,
{
    if n >= 10 {
        push_decimal(out, n / 10);
    }
    out.append(digit_text(n % 10));
    assert(n >= 10 ==> old(out)@ + decimal(n as int / 10) + digit(n as int % 10) =~= old(out)@
        + decimal(n as int));
}

impl Ipv4 {
    /// The address in words: its four parts in decimal with dots between.
    pub open spec fn text(self) -> Seq<char> {
        decimal(self.a as int) + "."@ + decimal(self.b as int) + "."@ + decimal(self.c as int) + "."@
            + decimal(self.d as int)
    }

    /// The address in words: its four parts in decimal with dots between.
    pub fn to_text(&self) -> (out: String)
        ensures
            out@ == self.text(),
    {
        let mut out: String = String::new();
        push_decimal(&mut out, self.a);
        out.append(".");
        push_decimal(&mut out, self.b);
        out.append(".");
        push_decimal(&mut out, self.c);
        out.append(".");
        push_decimal(&mut out, self.d);
        assert(out@ =~= self.text());
        out
    }
}

} // verus!
