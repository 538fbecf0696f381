//! DNS messages as they are written down: what is read of a reply that was put together from
//! its parts, and what a query is made of.
use crate::dns_message::{
    address_at, addresses, addresses_from, can_ask, first_address, label_bytes, label_end,
    labels_fit, name_end, number_at, query, question_end, questions_end, record_at, Ipv4, Record,
};
use vstd::prelude::*;

verus! {

/// A number in two bytes, the high one first.
pub open spec fn two_bytes(n: int) -> Seq<u8> {
    seq![(n / 256) as u8, (n % 256) as u8]
}

/// The bytes are those of one name: labels of 1 to 63 bytes, each with its length before it,
/// and then an empty label or a pointer.
pub open spec fn is_name(b: Seq<u8>) -> bool
    decreases b.len(),
{
    ||| b.len() == 1 && b[0] == 0
    ||| b.len() == 2 && b[0] >= 0xc0
    ||| b.len() > 0 && 1 <= b[0] <= 63 && b.len() > 1 + b[0] && is_name(b.skip(1 + b[0]))
}

/// A question of a message.
pub struct Question {
    pub name: Seq<u8>,
    pub kind: u16,
    pub class: u16,
}

/// An answer of a message.
pub struct Answer {
    pub name: Seq<u8>,
    pub kind: u16,
    pub class: u16,
    pub ttl: Seq<u8>,
    pub data: Seq<u8>,
}

impl Question {
    pub open spec fn bytes(self) -> Seq<u8> {
        self.name + (two_bytes(self.kind as int) + two_bytes(self.class as int))
    }
}

impl Answer {
    pub open spec fn bytes(self) -> Seq<u8> {
        self.name + (two_bytes(self.kind as int) + two_bytes(self.class as int) + self.ttl
            + two_bytes(self.data.len() as int) + self.data)
    }

    /// The answer can be written down.
    pub open spec fn formed(self) -> bool {
        is_name(self.name) && self.ttl.len() == 4 && self.data.len() < 0x1_0000
    }

    /// The answer is an address record.
    pub open spec fn is_address(self) -> bool {
        self.kind == 1
    }

    /// The address in the data of an address record.
    pub open spec fn address(self) -> Ipv4 {
        Ipv4 { a: self.data[0], b: self.data[1], c: self.data[2], d: self.data[3] }
    }
}

pub open spec fn question_bytes(questions: Seq<Question>) -> Seq<u8>
    decreases questions.len(),
{
    if questions.len() == 0 {
        Seq::empty()
    } else {
        questions[0].bytes() + question_bytes(questions.skip(1))
    }
}

pub open spec fn answer_bytes(answers: Seq<Answer>) -> Seq<u8>
    decreases answers.len(),
{
    if answers.len() == 0 {
        Seq::empty()
    } else {
        answers[0].bytes() + answer_bytes(answers.skip(1))
    }
}

/// The addresses of the address records among the answers, in order.
pub open spec fn address_list(answers: Seq<Answer>) -> Seq<Ipv4>
    decreases answers.len(),
{
    if answers.len() == 0 {
        Seq::empty()
    } else if answers[0].is_address() {
        seq![answers[0].address()] + address_list(answers.skip(1))
    } else {
        address_list(answers.skip(1))
    }
}

/// A message: an id and flags, how many questions and answers there are, how much else there
/// is, and then all of these.
pub struct Message {
    pub head: Seq<u8>,
    pub counts: Seq<u8>,
    pub questions: Seq<Question>,
    pub answers: Seq<Answer>,
    pub rest: Seq<u8>,
}

impl Message {
    /// The message without what comes behind the answers.
    pub open spec fn front(self) -> Seq<u8> {
        self.head + two_bytes(self.questions.len() as int) + two_bytes(self.answers.len() as int)
            + self.counts + question_bytes(self.questions) + answer_bytes(self.answers)
    }

    pub open spec fn bytes(self) -> Seq<u8> {
        self.front() + self.rest
    }

    /// The message can be written down.
    pub open spec fn formed(self) -> bool {
        &&& self.head.len() == 4
        &&& self.counts.len() == 4
        &&& self.questions.len() < 0x1_0000
        &&& self.answers.len() < 0x1_0000
        &&& forall|i: int|
            0 <= i < self.questions.len() ==> is_name((#[trigger] self.questions[i]).name)
        &&& forall|i: int| 0 <= i < self.answers.len() ==> (#[trigger] self.answers[i]).formed()
    }

    /// Every address record holds four bytes.
    pub open spec fn sized(self) -> bool {
        forall|i: int|
            0 <= i < self.answers.len() && (#[trigger] self.answers[i]).is_address()
                ==> self.answers[i].data.len() == 4
    }
}

/// From `at` on the message holds the bytes `b`, as far as it goes.
spec fn holds(m: Seq<u8>, at: int, b: Seq<u8>) -> bool {
    forall|i: int| 0 <= i < b.len() && at + i < m.len() ==> m[at + i] == #[trigger] b[i]
}

proof fn lemma_holds_both(m: Seq<u8>, at: int, a: Seq<u8>, b: Seq<u8>)
    requires
        holds(m, at, a + b),
    ensures
        holds(m, at, a),
        holds(m, at + a.len(), b),
{
    assert forall|i: int| 0 <= i < a.len() && at + i < m.len() implies m[at + i]
        == #[trigger] a[i] by {
        assert((a + b)[i] == a[i]);
    }
    assert forall|i: int| 0 <= i < b.len() && at + a.len() + i < m.len() implies m[at + a.len() + i]
        == #[trigger] b[i] by {
        assert((a + b)[a.len() + i] == b[i]);
    }
}

proof fn lemma_number(m: Seq<u8>, at: int, n: int)
    requires
        0 <= n < 0x1_0000,
        0 <= at,
        at + 2 <= m.len(),
        holds(m, at, two_bytes(n)),
    ensures
        number_at(m, at) == n,
{
    assert(m[at + 0] == two_bytes(n)[0]);
    assert(m[at + 1] == two_bytes(n)[1]);
}

proof fn lemma_name(m: Seq<u8>, at: int, name: Seq<u8>)
    requires
        is_name(name),
        0 <= at,
        holds(m, at, name),
    ensures
        at + name.len() <= m.len() ==> name_end(m, at) == Some(at + name.len()),
        at + name.len() > m.len() ==> name_end(m, at) is None,
    decreases name.len(),
{
    if at < m.len() {
        assert(m[at + 0] == name[0]);
        if 1 <= name[0] <= 63 {
            let tail = name.skip(1 + name[0]);
            assert forall|i: int| 0 <= i < tail.len() && at + 1 + name[0] + i < m.len() implies m[at
                + 1 + name[0] + i] == #[trigger] tail[i] by {
                assert(tail[i] == name[1 + name[0] + i]);
            }
            lemma_name(m, at + 1 + name[0], tail);
        }
    }
}

proof fn lemma_question(m: Seq<u8>, at: int, q: Question)
    requires
        is_name(q.name),
        0 <= at,
        holds(m, at, q.bytes()),
    ensures
        at + q.bytes().len() <= m.len() ==> question_end(m, at) == Some(at + q.bytes().len()),
        at + q.bytes().len() > m.len() ==> question_end(m, at) is None,
{
    lemma_holds_both(m, at, q.name, two_bytes(q.kind as int) + two_bytes(q.class as int));
    lemma_name(m, at, q.name);
}

proof fn lemma_questions(m: Seq<u8>, at: int, questions: Seq<Question>)
    requires
        0 <= at <= m.len(),
        forall|i: int| 0 <= i < questions.len() ==> is_name((#[trigger] questions[i]).name),
        holds(m, at, question_bytes(questions)),
    ensures
        at + question_bytes(questions).len() <= m.len() ==> questions_end(m, at, questions.len())
            == Some(at + question_bytes(questions).len()),
        at + question_bytes(questions).len() > m.len() ==> questions_end(m, at, questions.len()) is None,
    decreases questions.len(),
{
    if questions.len() > 0 {
        let q = questions[0];
        let tail = questions.skip(1);
        lemma_holds_both(m, at, q.bytes(), question_bytes(tail));
        lemma_question(m, at, q);
        assert forall|i: int| 0 <= i < tail.len() implies is_name((#[trigger] tail[i]).name) by {
            assert(tail[i] == questions[i + 1]);
        }
        if at + q.bytes().len() <= m.len() {
            lemma_questions(m, at + q.bytes().len(), tail);
        }
    }
}

proof fn lemma_record(m: Seq<u8>, at: int, a: Answer)
    requires
        a.formed(),
        0 <= at,
        holds(m, at, a.bytes()),
    ensures
        ({
            let end = at + a.bytes().len();
            let fits = end <= m.len() && (a.is_address() ==> a.data.len() == 4);
            &&& fits ==> record_at(m, at) == Some(
                Record { kind: a.kind as int, data: at + a.name.len() + 10, end },
            )
            &&& fits && a.is_address() ==> address_at(m, at + a.name.len() + 10) == a.address()
            &&& !fits ==> record_at(m, at) is None
        }),
{
    let kind = two_bytes(a.kind as int);
    let class = two_bytes(a.class as int);
    let len = two_bytes(a.data.len() as int);
    let e = at + a.name.len();
    lemma_holds_both(m, at, a.name, kind + class + a.ttl + len + a.data);
    lemma_holds_both(m, e, kind + class + a.ttl + len, a.data);
    lemma_holds_both(m, e, kind + class + a.ttl, len);
    lemma_holds_both(m, e, kind + class, a.ttl);
    lemma_holds_both(m, e, kind, class);
    lemma_name(m, at, a.name);
    if e + 10 <= m.len() {
        lemma_number(m, e, a.kind as int);
        lemma_number(m, e + 8, a.data.len() as int);
        if at + a.bytes().len() <= m.len() && a.data.len() == 4 {
            assert(m[e + 10 + 0] == a.data[0]);
            assert(m[e + 10 + 1] == a.data[1]);
            assert(m[e + 10 + 2] == a.data[2]);
            assert(m[e + 10 + 3] == a.data[3]);
        }
    }
}

proof fn lemma_answers(m: Seq<u8>, at: int, answers: Seq<Answer>)
    requires
        0 <= at <= m.len(),
        forall|i: int| 0 <= i < answers.len() ==> (#[trigger] answers[i]).formed(),
        holds(m, at, answer_bytes(answers)),
    ensures
        ({
            let fits = at + answer_bytes(answers).len() <= m.len() && forall|i: int|
                0 <= i < answers.len() && (#[trigger] answers[i]).is_address()
                    ==> answers[i].data.len() == 4;
            &&& fits ==> addresses_from(m, at, answers.len()) == Some(address_list(answers))
            &&& !fits ==> addresses_from(m, at, answers.len()) is None
        }),
    decreases answers.len(),
{
    if answers.len() > 0 {
        let a = answers[0];
        let tail = answers.skip(1);
        lemma_holds_both(m, at, a.bytes(), answer_bytes(tail));
        lemma_record(m, at, a);
        assert forall|i: int| 0 <= i < tail.len() implies (#[trigger] tail[i]).formed() by {
            assert(tail[i] == answers[i + 1]);
        }
        if at + a.bytes().len() <= m.len() {
            lemma_answers(m, at + a.bytes().len(), tail);
        }
        let sized = forall|i: int|
            0 <= i < answers.len() && (#[trigger] answers[i]).is_address()
                ==> answers[i].data.len() == 4;
        let tail_sized = forall|i: int|
            0 <= i < tail.len() && (#[trigger] tail[i]).is_address() ==> tail[i].data.len() == 4;
        if sized {
            assert forall|i: int|
                0 <= i < tail.len() && (
                #[trigger] tail[i]).is_address() implies tail[i].data.len() == 4 by {
                assert(tail[i] == answers[i + 1]);
            }
        }
        if tail_sized && (a.is_address() ==> a.data.len() == 4) {
            assert forall|i: int|
                0 <= i < answers.len() && (
                #[trigger] answers[i]).is_address() implies answers[i].data.len() == 4 by {
                if i > 0 {
                    assert(answers[i] == tail[i - 1]);
                }
            }
        }
    }
}

/// What is read of the first bytes of a message.
proof fn lemma_message(message: Message, m: Seq<u8>)
    requires
        message.formed(),
        m.len() <= message.bytes().len(),
        m == message.bytes().subrange(0, m.len() as int),
    ensures
        m.len() >= message.front().len() && message.sized() ==> addresses(m) == Some(
            address_list(message.answers),
        ),
        m.len() < message.front().len() || !message.sized() ==> addresses(m) is None,
{
    let q = two_bytes(message.questions.len() as int);
    let a = two_bytes(message.answers.len() as int);
    let qs = question_bytes(message.questions);
    let ans = answer_bytes(message.answers);
    let header = message.head + q + a + message.counts;
    assert(message.bytes() =~= header + (qs + ans) + message.rest);
    assert(holds(m, 0, header + (qs + ans) + message.rest)) by {
        assert forall|i: int| 0 <= i < message.bytes().len() && 0 + i < m.len() implies m[0 + i]
            == #[trigger] message.bytes()[i] by {
            assert(m[i] == message.bytes().subrange(0, m.len() as int)[i]);
        }
    }
    lemma_holds_both(m, 0, header + (qs + ans), message.rest);
    lemma_holds_both(m, 0, header, qs + ans);
    lemma_holds_both(m, 12, qs, ans);
    lemma_holds_both(m, 0, message.head + q + a, message.counts);
    lemma_holds_both(m, 0, message.head + q, a);
    lemma_holds_both(m, 0, message.head, q);
    if m.len() >= 12 {
        lemma_number(m, 4, message.questions.len() as int);
        lemma_number(m, 6, message.answers.len() as int);
        lemma_questions(m, 12, message.questions);
        if 12 + qs.len() <= m.len() {
            lemma_answers(m, 12int + qs.len(), message.answers);
        }
    }
}

proof fn lemma_first_in_list(answers: Seq<Answer>, k: int)
    requires
        0 <= k <= answers.len(),
        forall|i: int| 0 <= i < k ==> !(#[trigger] answers[i]).is_address(),
        k < answers.len() ==> answers[k].is_address(),
    ensures
        k < answers.len() ==> address_list(answers).len() > 0 && address_list(answers)[0]
            == answers[k].address(),
        k == answers.len() ==> address_list(answers).len() == 0,
    decreases k,
{
    if k > 0 {
        let tail = answers.skip(1);
        assert(!answers[0].is_address());
        assert forall|i: int| 0 <= i < k - 1 implies !(#[trigger] tail[i]).is_address() by {
            assert(tail[i] == answers[i + 1]);
        }
        if k < answers.len() {
            assert(tail[k - 1] == answers[k]);
        }
        lemma_first_in_list(tail, k - 1);
    }
}

/// Of a whole message the address is that of the first address record among its answers,
/// however many questions and answers there are, whatever comes before that record and
/// behind it, and whatever the names and the other records are.
pub proof fn law_reply_gives_its_first_address(message: Message, k: int)
    requires
        message.formed(),
        message.sized(),
        0 <= k < message.answers.len(),
        message.answers[k].is_address(),
        forall|i: int| 0 <= i < k ==> !(#[trigger] message.answers[i]).is_address(),
    ensures
        ({
            let data = message.answers[k].data;
            first_address(message.bytes()) == Some(
                Ipv4 { a: data[0], b: data[1], c: data[2], d: data[3] },
            )
        }),
{
    assert(message.bytes().subrange(0, message.bytes().len() as int) =~= message.bytes());
    lemma_message(message, message.bytes());
    lemma_first_in_list(message.answers, k);
}

/// A whole message in which no answer is an address record gives no address.
pub proof fn law_reply_without_an_address_gives_none(message: Message)
    requires
        message.formed(),
        forall|i: int|
            0 <= i < message.answers.len() ==> !(#[trigger] message.answers[i]).is_address(),
    ensures
        first_address(message.bytes()) is None,
        addresses(message.bytes()) == Some(Seq::<Ipv4>::empty()),
{
    assert(message.bytes().subrange(0, message.bytes().len() as int) =~= message.bytes());
    lemma_message(message, message.bytes());
    lemma_first_in_list(message.answers, message.answers.len() as int);
    assert(address_list(message.answers) =~= Seq::empty());
}

/// All addresses of a whole message are read, in the order in which its address records stand.
pub proof fn law_reply_gives_all_its_addresses(message: Message)
    requires
        message.formed(),
        message.sized(),
    ensures
        addresses(message.bytes()) == Some(address_list(message.answers)),
{
    assert(message.bytes().subrange(0, message.bytes().len() as int) =~= message.bytes());
    lemma_message(message, message.bytes());
}

/// A message that is cut off before its last answer ends, or that holds an address record
/// which is no address, gives none.
pub proof fn law_broken_reply_gives_none(message: Message, n: int)
    requires
        message.formed(),
        0 <= n <= message.bytes().len(),
        n < message.front().len() || !message.sized(),
    ensures
        addresses(message.bytes().subrange(0, n)) is None,
        first_address(message.bytes().subrange(0, n)) is None,
{
    let m = message.bytes().subrange(0, n);
    lemma_message(message, m);
}

/// The labels of a host name with dots between.
pub open spec fn joined(labels: Seq<Seq<u8>>) -> Seq<u8>
    decreases labels.len(),
{
    if labels.len() == 0 {
        Seq::empty()
    } else if labels.len() == 1 {
        labels[0]
    } else {
        labels[0] + seq![46u8] + joined(labels.skip(1))
    }
}

/// The labels, each with its length before it.
pub open spec fn counted(labels: Seq<Seq<u8>>) -> Seq<u8>
    decreases labels.len(),
{
    if labels.len() == 0 {
        Seq::empty()
    } else {
        seq![labels[0].len() as u8] + labels[0] + counted(labels.skip(1))
    }
}

proof fn lemma_label_runs(host: Seq<u8>, from: int, to: int)
    requires
        0 <= from <= to <= host.len(),
        forall|i: int| from <= i < to ==> host[i] != 46,
        to == host.len() || host[to] == 46,
    ensures
        label_end(host, from) == to,
    decreases to - from,
{
    if from < to {
        lemma_label_runs(host, from + 1, to);
    }
}

proof fn lemma_labels(front: Seq<u8>, labels: Seq<Seq<u8>>)
    requires
        labels.len() > 0,
        forall|i: int, j: int|
            0 <= i < labels.len() && 0 <= j < labels[i].len() ==> #[trigger] labels[i][j] != 46,
    ensures
        ({
            let host = front + joined(labels);
            let fit = forall|i: int|
                0 <= i < labels.len() ==> 1 <= (#[trigger] labels[i]).len() <= 63;
            &&& labels_fit(host, front.len() as int) <==> fit
            &&& label_bytes(host, front.len() as int) == counted(labels)
        }),
    decreases labels.len(),
{
    let host = front + joined(labels);
    let from = front.len() as int;
    let first = labels[0];
    let to = from + first.len();
    let tail = labels.skip(1);
    assert forall|i: int| from <= i < to implies host[i] != 46 by {
        assert(host[i] == labels[0][i - from]);
    }
    if labels.len() > 1 {
        assert(host[to] == 46);
    }
    lemma_label_runs(host, from, to);
    assert(host.subrange(from, to) =~= first);
    if labels.len() > 1 {
        let longer = front + first + seq![46u8];
        assert(host =~= longer + joined(tail));
        assert forall|i: int, j: int|
            0 <= i < tail.len() && 0 <= j < tail[i].len() implies #[trigger] tail[i][j] != 46 by {
            assert(tail[i][j] == labels[i + 1][j]);
        }
        lemma_labels(longer, tail);
        assert(longer.len() == to + 1);
        let fit = forall|i: int|
            0 <= i < labels.len() ==> 1 <= (#[trigger] labels[i]).len() <= 63;
        let tail_fit = forall|i: int| 0 <= i < tail.len() ==> 1 <= (#[trigger] tail[i]).len() <= 63;
        if fit {
            assert(1 <= labels[0].len() <= 63);
            assert forall|i: int| 0 <= i < tail.len() implies 1 <= (
            #[trigger] tail[i]).len() <= 63 by {
                assert(tail[i] == labels[i + 1]);
            }
        }
        if tail_fit && 1 <= first.len() <= 63 {
            assert forall|i: int| 0 <= i < labels.len() implies 1 <= (
            #[trigger] labels[i]).len() <= 63 by {
                if i > 0 {
                    assert(labels[i] == tail[i - 1]);
                }
            }
        }
    } else {
        assert(tail.len() == 0);
        assert(counted(tail) =~= Seq::empty());
        assert(counted(labels) =~= seq![first.len() as u8] + first);
        if 1 <= first.len() <= 63 {
            assert forall|i: int| 0 <= i < labels.len() implies 1 <= (
            #[trigger] labels[i]).len() <= 63 by {}
        } else {
            assert(labels[0].len() == first.len());
        }
    }
}

/// A query for a host is a message with one question and nothing else, under the id that was
/// given, which asks the server to look further: the question is for the address, on the
/// internet, of the name whose labels are those of the host. A host can be asked for where
/// each of its labels has 1 to 63 bytes and the message has 512 at most.
pub proof fn law_query_asks_for_the_host(id: u16, labels: Seq<Seq<u8>>)
    requires
        labels.len() > 0,
        forall|i: int, j: int|
            0 <= i < labels.len() && 0 <= j < labels[i].len() ==> #[trigger] labels[i][j] != 46,
    ensures
        query(id, joined(labels)) == two_bytes(id as int) + two_bytes(0x100) + two_bytes(1)
            + two_bytes(0) + two_bytes(0) + two_bytes(0) + counted(labels) + seq![0u8]
            + two_bytes(1) + two_bytes(1),
        can_ask(joined(labels)) <==> query(id, joined(labels)).len() <= 512 && forall|i: int|
            0 <= i < labels.len() ==> 1 <= (#[trigger] labels[i]).len() <= 63,
{
    lemma_labels(Seq::empty(), labels);
    assert(Seq::<u8>::empty() + joined(labels) =~= joined(labels));
    lemma_counted_len(labels);
    assert(query(id, joined(labels)) =~= two_bytes(id as int) + two_bytes(0x100) + two_bytes(1)
        + two_bytes(0) + two_bytes(0) + two_bytes(0) + counted(labels) + seq![0u8] + two_bytes(1)
        + two_bytes(1));
}

proof fn lemma_counted_len(labels: Seq<Seq<u8>>)
    requires
        labels.len() > 0,
    ensures
        counted(labels).len() == joined(labels).len() + 1,
    decreases labels.len(),
{
    if labels.len() > 1 {
        lemma_counted_len(labels.skip(1));
    } else {
        assert(counted(labels.skip(1)) =~= Seq::empty());
    }
}

} // verus!
