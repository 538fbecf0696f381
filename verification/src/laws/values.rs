//! What comes of calls on plain values: messages, names of servers, spans of time, ids,
//! settings, sockets by their kind, and the timers of a wheel.
use crate::builder::Builder;
use crate::dns::{texts, Dns, HostAddr, Request};
use crate::dns_message::Ipv4;
use crate::duration::Duration;
use crate::error::{Error, ErrorKind};
use crate::ids::MAX_RUNNERS;
use crate::laws::messages::{address_list, counted, joined, two_bytes, Message};
use crate::poller::{Fired, Lookup, Poller};
use crate::runner::table::RunnerTable;
use crate::runner::Runner;
use crate::slot::FiberSock;
use crate::wheel::{Timer, Token, Wheel};
use vstd::prelude::*;
use vstd::string::StringSliceAdditionalSpecFns;

verus! {

/// What is read of a reply is the address in its first address record, however many answers
/// there are; all addresses are read, in their order; and nothing where no answer is one.
pub proof fn law_call_of_dns_parse(
    message: Message,
    m: &[u8],
    found: Option<Ipv4>,
    all: Option<Vec<Ipv4>>,
    k: int,
)
    requires
        message.formed(),
        message.sized(),
        m@ == message.bytes(),
        0 <= k <= message.answers.len(),
        forall|i: int| 0 <= i < k ==> !(#[trigger] message.answers[i]).is_address(),
        k < message.answers.len() ==> message.answers[k].is_address(),
        call_ensures(crate::dns_message::dns_parse, (m,), found),
        call_ensures(crate::dns_message::dns_addresses, (m,), all),
    ensures
        k < message.answers.len() ==> {
            let data = message.answers[k].data;
            found == Some(Ipv4 { a: data[0], b: data[1], c: data[2], d: data[3] })
        },
        k == message.answers.len() ==> found is None,
        all matches Some(list) && list@ == address_list(message.answers),
{
    crate::laws::messages::law_reply_gives_all_its_addresses(message);
    if k < message.answers.len() {
        crate::laws::messages::law_reply_gives_its_first_address(message, k);
    } else {
        crate::laws::messages::law_reply_without_an_address_gives_none(message);
    }
}

/// A reply that is cut off, or in which an address record is no address, gives nothing.
pub proof fn law_call_of_dns_parse_on_a_broken_reply(
    message: Message,
    n: int,
    m: &[u8],
    found: Option<Ipv4>,
    all: Option<Vec<Ipv4>>,
)
    requires
        message.formed(),
        0 <= n <= message.bytes().len(),
        n < message.front().len() || !message.sized(),
        m@ == message.bytes().subrange(0, n),
        call_ensures(crate::dns_message::dns_parse, (m,), found),
        call_ensures(crate::dns_message::dns_addresses, (m,), all),
    ensures
        found is None,
        all is None,
{
    crate::laws::messages::law_broken_reply_gives_none(message, n);
}

/// The message that asks for a host has the id that was given, one question, and in it the
/// labels of the host; a host whose labels or whose message would be too long is not asked for.
pub proof fn law_call_of_build_query(
    id: u16,
    host: &str,
    labels: Seq<Seq<u8>>,
    message: Option<Vec<u8>>,
)
    requires
        labels.len() > 0,
        forall|i: int, j: int|
            0 <= i < labels.len() && 0 <= j < labels[i].len() ==> #[trigger] labels[i][j] != 46,
        host.spec_bytes() == joined(labels),
        call_ensures(crate::dns_message::build_query, (id, host), message),
    ensures
        ({
            let bytes = two_bytes(id as int) + two_bytes(0x100) + two_bytes(1) + two_bytes(0)
                + two_bytes(0) + two_bytes(0) + counted(labels) + seq![0u8] + two_bytes(1)
                + two_bytes(1);
            let fits = bytes.len() <= 512 && forall|i: int|
                0 <= i < labels.len() ==> 1 <= (#[trigger] labels[i]).len() <= 63;
            &&& fits ==> (message matches Some(m) && m@ == bytes)
            &&& !fits ==> message is None
        }),
{
    crate::laws::messages::law_query_asks_for_the_host(id, labels);
}

/// Each attempt at a lookup asks another server, in turn, for the same host: the first asks
/// the first, and after as many attempts as there are servers it is the first's turn again. A
/// host that can not be asked for is refused.
pub proof fn law_attempts_ask_the_servers_in_turn(
    dns: &Dns,
    host: &str,
    attempt: usize,
    request: Result<Request, Error>,
    first: Result<Request, Error>,
    query: Option<Vec<u8>>,
)
    requires
        dns@.len() > 0,
        call_ensures(Dns::lookup_on, (dns, attempt, host), request),
        call_ensures(Dns::start_lookup, (dns, host), first),
        call_ensures(crate::dns::random_query, (host,), query),
    ensures
        crate::dns_message::can_ask(host.spec_bytes()) ==> {
            &&& request matches Ok(r) && r.server@ == dns@[attempt as int % dns@.len() as int]
                && exists|id: u16|
                r.message@ == #[trigger] crate::dns_message::query(id, host.spec_bytes())
            &&& first matches Ok(r) && r.server@ == dns@[0] && exists|id: u16|
                r.message@ == #[trigger] crate::dns_message::query(id, host.spec_bytes())
            &&& query matches Some(m) && exists|id: u16|
                m@ == #[trigger] crate::dns_message::query(id, host.spec_bytes())
        },
        !crate::dns_message::can_ask(host.spec_bytes()) ==> {
            &&& request matches Err(e) && e == Error::BadHost
            &&& first matches Err(e) && e == Error::BadHost
            &&& query is None
        },
{
}

/// A resolver has the servers that the text names, line by line, and those of Google where
/// there is no text.
pub proof fn law_resolver_has_the_servers_of_the_text(
    text: &'static str,
    parsed: Vec<String>,
    given: Dns,
    none: Dns,
    n: usize,
    servers: Vec<String>,
)
    requires
        call_ensures(crate::dns::resolv_parse, (text,), parsed),
        call_ensures(Dns::new, (Some(text),), given),
        call_ensures(Dns::new, (None,), none),
        call_ensures(Dns::servers, (&given,), n),
        call_ensures(crate::dns::get_dns_servers, (Some(text),), servers),
    ensures
        texts(parsed@) == crate::dns::servers_from(text@, 0),
        texts(servers@) == texts(parsed@),
        given@ == texts(parsed@),
        n == given@.len(),
        none@ == seq!["8.8.8.8"@, "8.8.4.4"@],
{
}

/// The address to use is the last IPv4 address that was reported, part by part; and an address
/// in words is its parts in decimal with dots between.
pub proof fn law_reported_address_is_used_as_it_is(
    list: &Vec<HostAddr>,
    k: int,
    n: u32,
    address: Option<Ipv4>,
    x: &Ipv4,
    words: String,
)
    requires
        -1 <= k < list@.len(),
        k >= 0 ==> list@[k] == HostAddr::Inet(n),
        forall|i: int| k < i < list@.len() ==> !(#[trigger] list@[i] is Inet),
        call_ensures(crate::dns::host_address, (list,), address),
        call_ensures(Ipv4::to_text, (x,), words),
    ensures
        k < 0 ==> address is None,
        k >= 0 ==> (address matches Some(y) && n == y.a + 256 * y.b + 65536 * y.c + 16777216 * y.d),
        words@ == x.text(),
{
    crate::laws::resolver::law_last_reported_address_is_used(list@, k, n);
    crate::laws::resolver::law_reported_address_is_its_bytes(n);
}

/// A span of time is as long as what it was made of, and whole milliseconds are rounded down.
pub proof fn law_spans_are_as_long_as_asked(
    millis: u64,
    a: Duration,
    nanos: u128,
    b: Duration,
    d: &Duration,
    n: u128,
    ms: u128,
)
    requires
        call_ensures(Duration::from_millis, (millis,), a),
        call_ensures(Duration::from_nanos, (nanos,), b),
        call_ensures(Duration::as_nanos, (d,), n),
        call_ensures(Duration::as_millis, (d,), ms),
    ensures
        a.secs * 1_000_000_000 + a.nanos == millis * 1_000_000,
        b.secs * 1_000_000_000 + b.nanos == nanos,
        a.nanos < 1_000_000_000,
        b.nanos < 1_000_000_000,
        n == d.secs * 1_000_000_000 + d.nanos,
        ms * 1_000_000 <= n < (ms + 1) * 1_000_000,
{
}

/// An id names the runner and the slot that it was made of.
pub proof fn law_ids_name_what_they_were_made_of(
    runner: i8,
    pos: usize,
    id: u64,
    parts: (usize, usize),
)
    requires
        0 <= runner < MAX_RUNNERS,
        pos <= 0xffff_ffff,
        call_ensures(crate::ids::fiber_id, (runner, pos), id),
        call_ensures(crate::ids::split_id, (id,), parts),
    ensures
        parts == (runner as usize, pos),
{
    crate::ids::law_id_round_trip(runner, pos);
}

/// Errors say their kind and what the matter is.
pub proof fn law_call_of_error(e: &Error, kind: ErrorKind, text: &'static str)
    requires
        call_ensures(Error::kind, (e,), kind),
        call_ensures(Error::message, (e,), text),
    ensures
        kind == e.spec_kind(),
        text@ == e.text(),
{
}

/// What a socket can do goes by its kind.
pub proof fn law_sockets_do_what_they_can(
    s: &FiberSock,
    empty: bool,
    evented: Result<(), Error>,
    accepts: Result<(), Error>,
    reads: Result<(), Error>,
    writes: Result<(), Error>,
    flushes: Result<(), Error>,
)
    requires
        call_ensures(FiberSock::is_empty, (s,), empty),
        call_ensures(FiberSock::evented, (s,), evented),
        call_ensures(FiberSock::accept_tcp, (s,), accepts),
        call_ensures(FiberSock::read, (s,), reads),
        call_ensures(FiberSock::write, (s,), writes),
        call_ensures(FiberSock::flush, (s,), flushes),
    ensures
        empty <==> *s == FiberSock::Empty,
        evented == (if empty {
            Err::<(), Error>(Error::NoSocket)
        } else {
            Ok::<(), Error>(())
        }),
        accepts == (if *s == FiberSock::Listener {
            Ok::<(), Error>(())
        } else {
            Err::<(), Error>(Error::NotListening)
        }),
        *s == FiberSock::Tcp || *s == FiberSock::Udp || *s == FiberSock::Tls ==> reads is Ok
            && writes is Ok && flushes is Ok,
        *s == FiberSock::Listener ==> reads == Err::<(), Error>(Error::ListenRead) && writes
            == Err::<(), Error>(Error::ListenWrite) && flushes == Err::<(), Error>(
            Error::ListenFlush,
        ),
        *s == FiberSock::TlsTemp || empty ==> reads == Err::<(), Error>(Error::NoSocket) && writes
            == Err::<(), Error>(Error::NoSocket) && flushes == Err::<(), Error>(Error::NoSocket),
{
}

/// Each setter sets its own setting, and no other.
pub proof fn law_setters_set_their_own(
    b: Builder,
    d: Duration,
    n: usize,
    fresh: Builder,
    tick: Builder,
    slots: Builder,
    initial: Builder,
    max: Builder,
    timeout: Builder,
    channel: Builder,
)
    requires
        call_ensures(Builder::new, (), fresh),
        call_ensures(Builder::tick_duration, (b, d), tick),
        call_ensures(Builder::num_slots, (b, n), slots),
        call_ensures(Builder::initial_capacity, (b, n), initial),
        call_ensures(Builder::max_capacity, (b, n), max),
        call_ensures(Builder::max_timeout, (b, d), timeout),
        call_ensures(Builder::channel_capacity, (b, n), channel),
    ensures
        fresh@ == crate::builder::Settings::none(),
        tick@ == (crate::builder::Settings { tick_duration: Some(d), ..b@ }),
        slots@ == (crate::builder::Settings { num_slots: Some(n), ..b@ }),
        initial@ == (crate::builder::Settings { initial_capacity: Some(n), ..b@ }),
        max@ == (crate::builder::Settings { max_capacity: Some(n), ..b@ }),
        timeout@ == (crate::builder::Settings { max_timeout: Some(d), ..b@ }),
        channel@ == (crate::builder::Settings { channel_capacity: Some(n), ..b@ }),
{
}

/// Each getter gives what was set, or the default.
pub proof fn law_getters_give_what_was_set(
    b: &Builder,
    tick: Duration,
    slots: usize,
    initial: usize,
    max: usize,
    timeout: Duration,
    channel: usize,
)
    requires
        call_ensures(Builder::get_tick_duration, (b,), tick),
        call_ensures(Builder::get_num_slots, (b,), slots),
        call_ensures(Builder::get_initial_capacity, (b,), initial),
        call_ensures(Builder::get_max_capacity, (b,), max),
        call_ensures(Builder::get_max_timeout, (b,), timeout),
        call_ensures(Builder::get_channel_capacity, (b,), channel),
    ensures
        b@.tick_duration matches Some(d) ==> tick == d,
        b@.tick_duration is None ==> tick@ == 100 * 1_000_000,
        b@.num_slots matches Some(n) ==> slots == n,
        b@.num_slots is None ==> slots == 4096,
        b@.channel_capacity matches Some(n) ==> channel == n,
        b@.channel_capacity is None ==> channel == 128,
        b@.max_capacity matches Some(n) ==> max == n,
        b@.max_capacity is None ==> max == 4194304,
        initial >= channel,
        b@.initial_capacity matches Some(n) ==> initial >= n && (initial == n || initial
            == channel),
        b@.initial_capacity is None ==> initial >= 128 && (initial == 128 || initial == channel),
        b@.max_timeout matches Some(d) ==> timeout == d,
        b@.max_timeout is None ==> timeout@ == tick@ * slots,
{
}

/// A wheel is made as its settings say. A timer is to be had while it holds fewer than it
/// takes; it is armed for its time, and taken out when it is cancelled.
pub proof fn law_calls_of_the_wheel(
    b: &Builder,
    made: Wheel,
    w: &mut Wheel,
    token: Option<Token>,
    x: &mut Wheel,
    t: Token,
    at: u128,
    id: u64,
    y: &mut Wheel,
)
    requires
        call_ensures(Wheel::new, (b,), made),
        call_ensures(Wheel::reserve, (w,), token),
        call_ensures(Wheel::set_timeout, (x, t, at, id), ()),
        call_ensures(Wheel::cancel, (y, t), ()),
    ensures
        made@.timers == Map::<Token, Option<Timer>>::empty(),
        made@.tick == 0,
        made@.tick_nanos == b@.tick_nanos(),
        made@.capacity == b@.max(),
        token is None <==> old(w)@.timers.dom().len() >= old(w)@.capacity || old(w)@.serial
            == u64::MAX,
        token is None ==> final(w)@ == old(w)@,
        token matches Some(s) ==> {
            &&& !old(w)@.timers.contains_key(s)
            &&& s.serial == old(w)@.serial
            &&& final(w)@.serial == old(w)@.serial + 1
            &&& final(w)@.timers == old(w)@.timers.insert(s, None)
            &&& final(w)@.tick == old(w)@.tick
            &&& final(w)@.tick_nanos == old(w)@.tick_nanos
            &&& final(w)@.capacity == old(w)@.capacity
        },
        final(x)@ == (crate::wheel::WheelView {
            timers: old(x)@.timers.insert(t, Some(Timer { due: old(x)@.due(at as nat), id })),
            ..old(x)@
        }),
        final(y)@ == (crate::wheel::WheelView { timers: old(y)@.timers.remove(t), ..old(y)@ }),
{
}

/// A wheel that is polled reports a timer that is due, with the id that it was armed with, and
/// none that another is due before; and nothing exactly where no timer is due.
pub proof fn law_call_of_wheel_poll(w: &mut Wheel, now: u128, fired: Option<(Token, u64)>)
    requires
        old(w)@.tick_nanos > 0,
        call_ensures(Wheel::poll, (w, now), fired),
    ensures
        fired matches Some((t, id)) ==> {
            &&& old(w)@.timers.contains_key(t)
            &&& old(w)@.timers[t] matches Some(timer) && timer.id == id && timer.due
                * old(w)@.tick_nanos <= now
            &&& old(w)@.earliest(t)
            &&& final(w)@ == old(w)@.reported(t)
        },
        fired is None ==> final(w)@ == old(w)@.turned(now as nat) && forall|t: Token| #[trigger]
            old(w)@.timers.contains_key(t) ==> (old(w)@.timers[t] matches Some(timer) ==> timer.due
                * old(w)@.tick_nanos > now),
{
    if let Some((t, _)) = fired {
        crate::laws::pollers::law_timer_is_due_on_its_tick(old(w)@, 0, t, now as nat);
    } else {
        assert forall|t: Token| #[trigger] old(w)@.timers.contains_key(t) implies (
        old(w)@.timers[t] matches Some(timer) ==> timer.due * old(w)@.tick_nanos > now) by {
            crate::laws::pollers::law_timer_is_due_on_its_tick(old(w)@, 0, t, now as nat);
            assert(!old(w)@.expired(t, now as nat));
        }
    }
}

/// What is queued for a runner is taken in its order, one at a time, and nothing where nothing
/// is queued.
pub proof fn law_queues_are_taken_from_the_front(
    runner: usize,
    pos: usize,
    a: &mut Poller,
    b: &mut Poller,
    fiber: Option<usize>,
    c: &mut Poller,
    fired: Option<Fired>,
    d: &mut Poller,
    found: Option<Lookup>,
    e: &Poller,
    pending: bool,
)
    requires
        call_ensures(Poller::toexec_push, (a, runner, pos), ()),
        call_ensures(Poller::toexec_pop, (b, runner), fiber),
        call_ensures(Poller::timedout_pop, (c, runner), fired),
        call_ensures(Poller::dns_check, (d, runner), found),
        call_ensures(Poller::pending, (e,), pending),
    ensures
        final(a)@ == old(a)@.exec_pushed(runner as int, pos),
        fiber is None <==> old(b)@.toexec[runner as int].len() == 0,
        fiber matches Some(x) ==> x == old(b)@.toexec[runner as int][0] && final(b)@
            == old(b)@.exec_popped(runner as int, 1),
        fiber is None ==> final(b)@ == old(b)@,
        fired is None <==> old(c)@.timedout[runner as int].len() == 0,
        fired matches Some(x) ==> x == old(c)@.timedout[runner as int][0] && final(c)@
            == old(c)@.timedout_popped(runner as int, 1),
        fired is None ==> final(c)@ == old(c)@,
        found is None <==> old(d)@.lookups[runner as int].len() == 0,
        found matches Some(x) ==> x == old(d)@.lookups[runner as int][0] && final(d)@
            == old(d)@.lookups_popped(runner as int, 1),
        found is None ==> final(d)@ == old(d)@,
        pending <==> exists|r: int| 0 <= r < e@.toexec.len() && (#[trigger] e@.toexec[r]).len() > 0,
{
}

/// A runner gets a number that no other has, the lowest, while there is one, and has no fibers.
/// A number that was given back can be had again.
pub proof fn law_call_of_new_runner<P, R>(
    table: &mut RunnerTable,
    runner: Result<Runner<P, R>, Error>,
    other: &mut RunnerTable,
    pos: i8,
)
    requires
        0 <= pos < old(other)@.len(),
        call_ensures(Runner::<P, R>::new, (table,), runner),
        call_ensures(RunnerTable::release, (other, pos), ()),
    ensures
        runner is Err <==> forall|i: int| 0 <= i < old(table)@.len() ==> #[trigger] old(table)@[i],
        runner matches Err(e) ==> e == Error::NoSpace && final(table)@ == old(table)@,
        runner matches Ok(r) ==> {
            &&& 0 <= r@.pos < old(table)@.len()
            &&& !old(table)@[r@.pos as int]
            &&& forall|i: int| 0 <= i < r@.pos ==> #[trigger] old(table)@[i]
            &&& final(table)@ == old(table)@.update(r@.pos as int, true)
            &&& r@.fibers.len() == 0
            &&& r@.free.len() == 0
            &&& r@.tomain.len() == 0
            &&& r@.results.len() == 0
        },
        final(other)@ == old(other)@.update(pos as int, false),
{
}

/// There can be 20 runners on a thread, and none is there at first.
pub proof fn law_call_of_new_table(table: RunnerTable)
    requires
        call_ensures(RunnerTable::new, (), table),
    ensures
        table@.len() == 20,
        MAX_RUNNERS == 20,
        forall|i: int| 0 <= i < 20 ==> !#[trigger] table@[i],
{
}

/// A poller tells its servers, how many stacks there are, and whether what is queued for a
/// runner refers to its slots.
pub proof fn law_poller_tells_the_truth(
    p: &Poller,
    dns: &Dns,
    stacks: usize,
    runner: usize,
    slots: usize,
    refers: bool,
)
    requires
        call_ensures(Poller::dns, (p,), dns),
        call_ensures(Poller::stack_count, (p,), stacks),
        call_ensures(Poller::refers_to, (p, runner, slots), refers),
    ensures
        dns@ == p@.servers,
        stacks == p@.stacks,
        refers == p@.refers_to(runner as int, slots as int),
{
}

} // verus!
