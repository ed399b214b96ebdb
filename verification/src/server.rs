//! The server future: what it does with the events and the bytes that reach
//! it, and the client that it serves.
use vstd::prelude::*;
use vstd::utf8::*;

verus! {

/// The token under which the server's listener is registered.
pub const SERVER: usize = 0;

/// The token under which the client's stream is registered.
pub const CLIENT: usize = 1;

/// How many events the server takes in one poll.
pub const SERVER_EVENTS: usize = 1;

/// How many events the client takes in one poll.
pub const CLIENT_EVENTS: usize = 128;

/// How long one poll of the server waits for events, in milliseconds.
pub const SERVER_WAIT_MILLIS: u64 = 200;

/// How many bytes the server reads at a time.
pub const BUFFER_LEN: usize = 1024;

/// An event of a poll: whose it is, and what it is ready for.
#[derive(Debug, Clone, Copy)]
pub struct Readiness {
    pub token: usize,
    pub readable: bool,
    pub writable: bool,
}

impl Readiness {
    /// A connection waits at the server's listener.
    pub open spec fn is_for_server(self) -> bool {
        self.token == SERVER && self.readable
    }
}

/// What a read of the stream gave.
#[derive(Debug, Clone, Copy)]
pub enum ReadOutcome {
    /// This many bytes now stand at the front of the buffer; 0 at the end of
    /// the stream.
    Count(usize),
    /// The read failed.
    Failed,
}

/// What the server future does next.
pub enum ServerStep {
    /// Accept the connection that waits at the listener.
    Accept,
    /// Read from the stream.
    Read,
    /// The future is done, with this output.
    Ready(String),
    /// Wake the task at once, so that it is polled again, and give way.
    Pending,
}

/// A server step as its contracts see it.
pub enum ServerStepView {
    Accept,
    Read,
    Ready(Seq<char>),
    Pending,
}

impl View for ServerStep {
    type V = ServerStepView;

    open spec fn view(&self) -> ServerStepView {
        match self {
            ServerStep::Accept => ServerStepView::Accept,
            ServerStep::Read => ServerStepView::Read,
            ServerStep::Ready(text) => ServerStepView::Ready(text@),
            ServerStep::Pending => ServerStepView::Pending,
        }
    }
}

/// What `String::from_utf8_lossy` makes of bytes that are not UTF-8.
pub uninterp spec fn lossy_text(bytes: Seq<u8>) -> Seq<char>;

/// The text that bytes stand for.
pub open spec fn text_of(bytes: Seq<u8>) -> Seq<char> {
    if valid_utf8(bytes) {
        decode_utf8(bytes)
    } else {
        lossy_text(bytes)
    }
}

/// Bytes that do not begin with a character can be passed over to go on
/// decoding after `n` of them: one byte, or more with continuation bytes behind
/// the first, and no more than three.
pub open spec fn undecodable(bytes: Seq<u8>, n: int) -> bool {
    &&& 1 <= n <= 3
    &&& n <= bytes.len()
    &&& forall|i: int| 1 <= i < n ==> is_continuation_byte(#[trigger] bytes[i])
}

/// Bytes read as a text, from the front to the end: where they begin with a
/// character the text has that character, and where they do not it has U+FFFD
/// in the place of an undecodable stretch.
pub open spec fn reads_as(bytes: Seq<u8>, text: Seq<char>) -> bool
    decreases bytes.len(),
{
    if bytes.len() == 0 {
        text.len() == 0
    } else if valid_first_scalar(bytes) {
        &&& text.len() > 0
        &&& text[0] == decode_first_scalar(bytes) as char
        &&& reads_as(pop_first_scalar(bytes), text.drop_first())
    } else {
        &&& text.len() > 0
        &&& text[0] == '\u{fffd}'
        &&& exists|n: int| #[trigger]
            undecodable(bytes, n) && reads_as(bytes.skip(n), text.drop_first())
    }
}

/// Calls `String::from_utf8_lossy`: it decodes bytes that are UTF-8. In other
/// bytes it puts one U+FFFD in the place of each sequence that it cannot decode
/// and decodes what stands before and behind it. Such a sequence is one byte to
/// three, the first and continuation bytes behind it; how many of those it
/// takes together is only named.
#[verifier::external_body]
fn from_utf8_lossy(bytes: &[u8]) -> (text: String)
    ensures
        text@ == if valid_utf8(bytes@) {
            decode_utf8(bytes@)
        } else {
            lossy_text(bytes@)
        },
        !valid_utf8(bytes@) ==> text@.contains('\u{fffd}'),
        reads_as(bytes@, text@),
{
    String::from_utf8_lossy(bytes).to_string()
}

/// What the server does about the events of a poll.
pub open spec fn events_step(events: Seq<Readiness>) -> ServerStepView {
    if exists|i: int| 0 <= i < events.len() && (#[trigger] events[i]).is_for_server() {
        ServerStepView::Accept
    } else {
        ServerStepView::Pending
    }
}

/// Decides about the events of a poll: a connection that waits at the listener
/// is accepted; without one the server gives way.
pub fn on_events(events: &Vec<Readiness>) -> (step: ServerStep)
    ensures
        step@ == events_step(events@),
        step@ is Accept == exists|i: int|
            0 <= i < events@.len() && (#[trigger] events@[i]).token == SERVER
                && events@[i].readable,
        step@ is Accept || step@ is Pending,
{
    for i in 0..events.len()
        invariant
            forall|j: int| 0 <= j < i ==> !(#[trigger] events@[j]).is_for_server(),
    {
        let event = events[i];
        if event.token == SERVER && event.readable {
            assert(events@[i as int].is_for_server());
            return ServerStep::Accept;
        }
    }
    ServerStep::Pending
}

/// What the server does when a connection gives no more than `received`.
pub open spec fn conclusion(received: Seq<u8>) -> ServerStepView {
    if received.len() > 0 {
        ServerStepView::Ready(text_of(received))
    } else {
        ServerStepView::Pending
    }
}

/// What has been received after a read, and what the server does next.
pub open spec fn read_step(received: Seq<u8>, buffer: Seq<u8>, outcome: ReadOutcome) -> (
    Seq<u8>,
    ServerStepView,
) {
    match outcome {
        ReadOutcome::Count(n) => if n > 0 {
            (received + buffer.take(n as int), ServerStepView::Read)
        } else {
            (received, conclusion(received))
        },
        ReadOutcome::Failed => (received, conclusion(received)),
    }
}

/// What one connection has sent so far.
pub struct Reception {
    received: Vec<u8>,
}

impl View for Reception {
    type V = Seq<u8>;

    closed spec fn view(&self) -> Seq<u8> {
        self.received@
    }
}

impl Reception {
    /// A connection from which nothing was read yet.
    pub fn new() -> (reception: Reception)
        ensures
            reception@ == Seq::<u8>::empty(),
    {
        Reception { received: Vec::new() }
    }

    /// Takes in what a read into `buffer` gave, and decides what to do next.
    /// The server reads on until the stream ends or fails; then it is done if
    /// anything was received, and gives way otherwise. The output has what can
    /// be decoded in its place, and a mark where bytes cannot be decoded.
    pub fn on_read(&mut self, buffer: &[u8], outcome: ReadOutcome) -> (step: ServerStep)
        requires
            outcome matches ReadOutcome::Count(n) ==> n <= buffer@.len(),
        ensures
            (final(self)@, step@) == read_step(old(self)@, buffer@, outcome),
            outcome matches ReadOutcome::Count(n) ==> n > 0 ==> final(self)@ == old(self)@
                + buffer@.take(n as int) && step@ is Read,
            (outcome matches ReadOutcome::Count(n) ==> n == 0) ==> final(self)@ == old(self)@
                && step@ is Ready == (old(self)@.len() > 0) && step@ is Pending == (old(self)@.len()
                == 0),
            step@ matches ServerStepView::Ready(text) ==> reads_as(final(self)@, text),
            step@ matches ServerStepView::Ready(text) ==> text == if valid_utf8(final(self)@) {
                decode_utf8(final(self)@)
            } else {
                lossy_text(final(self)@)
            },
            step@ matches ServerStepView::Ready(text) ==> forall|
                before: Seq<u8>,
                byte: u8,
                behind: Seq<u8>,
            |
                final(self)@ == #[trigger] (before + seq![byte] + behind) && valid_utf8(before)
                    && valid_utf8(behind) && byte >= 0x80 && (behind.len() > 0
                    ==> !is_continuation_byte(behind[0])) ==> text == decode_utf8(before)
                    + seq!['\u{fffd}'] + decode_utf8(behind),
            step@ matches ServerStepView::Ready(text) ==> valid_utf8(final(self)@)
                || text.contains('\u{fffd}'),
    {
        let count: usize = match outcome {
            ReadOutcome::Count(n) => n,
            ReadOutcome::Failed => 0,
        };
        if count > 0 {
            self.received.extend_from_slice(&buffer[0..count]);
            assert(self@ =~= old(self)@ + buffer@.take(count as int));
            ServerStep::Read
        } else if self.received.is_empty() {
            ServerStep::Pending
        } else {
            let text = from_utf8_lossy(self.received.as_slice());
            assert forall|before: Seq<u8>, byte: u8, behind: Seq<u8>|
                self@ == #[trigger] (before + seq![byte] + behind) && valid_utf8(before)
                    && valid_utf8(behind) && byte >= 0x80 && (behind.len() > 0
                    ==> !is_continuation_byte(behind[0])) implies text@ == decode_utf8(before)
                + seq!['\u{fffd}'] + decode_utf8(behind) by {
                law_undecodable_byte_leaves_one_mark(before, byte, behind, text@);
            }
            ServerStep::Ready(text)
        }
    }
}

/// What the client writes once it can.
pub fn client_message() -> (message: &'static str)
    ensures
        message@ == "that's so dingo!\n"@,
{
    "that's so dingo!\n"
}

/// Whether an event calls on the client to write its message.
pub fn client_writes(event: &Readiness) -> (writes: bool)
    ensures
        writes == (event.token == CLIENT && event.writable),
{
    event.token == CLIENT && event.writable
}

/// A read of the stream: the buffer after it, and what it gave.
pub struct ReadEvent {
    pub buffer: Seq<u8>,
    pub outcome: ReadOutcome,
}

impl ReadEvent {
    /// The read brought bytes.
    pub open spec fn is_data(self) -> bool {
        self.outcome matches ReadOutcome::Count(n) && 0 < n <= self.buffer.len()
    }

    /// The read found the end of the stream, or failed.
    pub open spec fn is_end(self) -> bool {
        self.outcome matches ReadOutcome::Count(n) ==> n == 0
    }

    /// The bytes that the read brought.
    pub open spec fn bytes(self) -> Seq<u8> {
        match self.outcome {
            ReadOutcome::Count(n) => self.buffer.take(n as int),
            ReadOutcome::Failed => Seq::empty(),
        }
    }
}

/// The bytes that reads brought, one after the other.
pub open spec fn arrived(reads: Seq<ReadEvent>) -> Seq<u8>
    decreases reads.len(),
{
    if reads.len() == 0 {
        Seq::empty()
    } else {
        arrived(reads.drop_last()) + reads.last().bytes()
    }
}

/// What a new reception has received after reads, and what the server does
/// then. Nothing is read once the server is done reading.
pub open spec fn reception_after(reads: Seq<ReadEvent>) -> (Seq<u8>, ServerStepView)
    decreases reads.len(),
{
    if reads.len() == 0 {
        (Seq::empty(), ServerStepView::Read)
    } else {
        let (received, step) = reception_after(reads.drop_last());
        if step is Read {
            read_step(received, reads.last().buffer, reads.last().outcome)
        } else {
            (received, step)
        }
    }
}

/// What one poll of the server future comes to, when it gets `events`, and
/// `reads` from the connection if it accepts one.
pub open spec fn poll_outcome(events: Seq<Readiness>, reads: Seq<ReadEvent>) -> ServerStepView {
    if events_step(events) is Accept {
        reception_after(reads).1
    } else {
        events_step(events)
    }
}

proof fn lemma_reception_gathers(data: Seq<ReadEvent>)
    requires
        forall|i: int| 0 <= i < data.len() ==> (#[trigger] data[i]).is_data(),
    ensures
        reception_after(data) == (arrived(data), ServerStepView::Read),
    decreases data.len(),
{
    if data.len() > 0 {
        let fewer = data.drop_last();
        assert forall|i: int| 0 <= i < fewer.len() implies (#[trigger] fewer[i]).is_data() by {
            assert(fewer[i] == data[i]);
        }
        lemma_reception_gathers(fewer);
        assert(data[data.len() - 1].is_data());
    }
}

/// The server keeps every byte that arrives, in the order of arrival, until
/// the stream ends; then it decides by those bytes alone.
pub proof fn law_reception_keeps_every_byte(data: Seq<ReadEvent>, end: ReadEvent)
    requires
        forall|i: int| 0 <= i < data.len() ==> (#[trigger] data[i]).is_data(),
        end.is_end(),
    ensures
        reception_after(data.push(end)) == (arrived(data), conclusion(arrived(data))),
{
    lemma_reception_gathers(data);
    assert(data.push(end).drop_last() =~= data);
}

/// It does not matter in which pieces bytes arrive, nor whether the stream
/// then ends or fails: the same bytes give the same outcome.
pub proof fn law_pieces_do_not_matter(
    one: Seq<ReadEvent>,
    one_end: ReadEvent,
    other: Seq<ReadEvent>,
    other_end: ReadEvent,
)
    requires
        forall|i: int| 0 <= i < one.len() ==> (#[trigger] one[i]).is_data(),
        forall|i: int| 0 <= i < other.len() ==> (#[trigger] other[i]).is_data(),
        one_end.is_end(),
        other_end.is_end(),
        arrived(one) == arrived(other),
    ensures
        reception_after(one.push(one_end)) == reception_after(other.push(other_end)),
{
    law_reception_keeps_every_byte(one, one_end);
    law_reception_keeps_every_byte(other, other_end);
}

/// What the client writes is what the server gives: a text that is written to
/// the stream as UTF-8 comes out of the server future unchanged, in whatever
/// pieces it arrives.
pub proof fn law_server_gives_what_was_written(
    events: Seq<Readiness>,
    message: Seq<char>,
    data: Seq<ReadEvent>,
    end: ReadEvent,
)
    requires
        events_step(events) is Accept,
        message.len() > 0,
        forall|i: int| 0 <= i < data.len() ==> (#[trigger] data[i]).is_data(),
        arrived(data) == encode_utf8(message),
        end.is_end(),
    ensures
        poll_outcome(events, data.push(end)) == ServerStepView::Ready(message),
{
    law_reception_keeps_every_byte(data, end);
    encode_utf8_valid_utf8(message);
    encode_utf8_decode_utf8(message);
    assert(encode_scalar(message[0] as u32).len() > 0);
}

/// A poll is done exactly when it accepts a connection and bytes arrive on it;
/// in every other case the future wakes its task and gives way.
pub proof fn law_done_exactly_when_bytes_arrive(
    events: Seq<Readiness>,
    data: Seq<ReadEvent>,
    end: ReadEvent,
)
    requires
        forall|i: int| 0 <= i < data.len() ==> (#[trigger] data[i]).is_data(),
        end.is_end(),
    ensures
        poll_outcome(events, data.push(end)) is Ready <==> events_step(events) is Accept
            && data.len() > 0,
        poll_outcome(events, data.push(end)) !is Ready ==> poll_outcome(events, data.push(end))
            is Pending,
{
    law_reception_keeps_every_byte(data, end);
    if data.len() > 0 {
        assert(data[data.len() - 1].is_data());
        assert(data.last().bytes().len() > 0);
    }
}

/// A character at the front does not depend on what stands behind its bytes.
proof fn lemma_first_scalar_stands_alone(bytes: Seq<u8>, behind: Seq<u8>)
    requires
        valid_first_scalar(bytes),
    ensures
        valid_first_scalar(bytes + behind),
        decode_first_scalar(bytes + behind) == decode_first_scalar(bytes),
        pop_first_scalar(bytes + behind) == pop_first_scalar(bytes) + behind,
{
    let whole = bytes + behind;
    assert(forall|i: int| 0 <= i < bytes.len() ==> whole[i] == bytes[i]);
    assert(length_of_first_scalar(whole) == length_of_first_scalar(bytes));
    assert(pop_first_scalar(whole) =~= pop_first_scalar(bytes) + behind);
}

/// Bytes are read piece by piece. Where a piece ends and the next does not
/// begin with a continuation byte, the text of both is the text of the first
/// and then the text of the next, whatever the pieces hold.
pub proof fn law_pieces_are_read_in_their_place(
    first: Seq<u8>,
    next: Seq<u8>,
    text: Seq<char>,
) -> (split: int)
    requires
        reads_as(first + next, text),
        next.len() > 0 ==> !is_continuation_byte(next[0]),
    ensures
        0 <= split <= text.len(),
        reads_as(first, text.take(split)),
        reads_as(next, text.skip(split)),
    decreases first.len(),
{
    let whole = first + next;
    assert(forall|i: int| 0 <= i < first.len() ==> whole[i] == first[i]);
    assert(next.len() > 0 ==> whole[first.len() as int] == next[0]);
    if first.len() == 0 {
        assert(whole =~= next);
        assert(text.skip(0) =~= text);
        0
    } else {
        let rest = text.drop_first();
        let n: int = if valid_first_scalar(whole) {
            length_of_first_scalar(whole)
        } else {
            choose|n: int| #[trigger] undecodable(whole, n) && reads_as(whole.skip(n), rest)
        };
        let fewer = first.skip(n);
        if valid_first_scalar(whole) {
            assert(valid_first_scalar(first));
            lemma_first_scalar_stands_alone(first, next);
            assert(pop_first_scalar(first) =~= fewer);
        } else {
            if valid_first_scalar(first) {
                lemma_first_scalar_stands_alone(first, next);
            }
            assert(n <= first.len()) by {
                if n > first.len() {
                    assert(is_continuation_byte(whole[first.len() as int]));
                }
            }
            assert(whole.skip(n) =~= fewer + next);
            assert(undecodable(first, n)) by {
                assert forall|i: int| 1 <= i < n implies is_continuation_byte(
                    #[trigger] first[i],
                ) by {
                    assert(is_continuation_byte(whole[i]));
                }
            }
        }
        let split = law_pieces_are_read_in_their_place(fewer, next, rest);
        assert(text.take(split + 1).drop_first() =~= rest.take(split));
        assert(text.skip(split + 1) =~= rest.skip(split));
        split + 1
    }
}

/// Bytes that are UTF-8 read as the characters that they encode, and as nothing
/// else: U+FFFD comes only where it was encoded or bytes cannot be decoded.
pub proof fn law_what_can_be_decoded_is_decoded(bytes: Seq<u8>, text: Seq<char>)
    requires
        valid_utf8(bytes),
        reads_as(bytes, text),
    ensures
        text == decode_utf8(bytes),
    decreases bytes.len(),
{
    if bytes.len() > 0 {
        law_what_can_be_decoded_is_decoded(pop_first_scalar(bytes), text.drop_first());
        assert(text =~= seq![text[0]] + text.drop_first());
    } else {
        assert(text =~= decode_utf8(bytes));
    }
}

/// What can be decoded at the front stands at the front of the text, decoded,
/// whatever follows; what follows is read as if it stood alone.
pub proof fn law_front_is_decoded_whatever_follows(
    before: Seq<u8>,
    rest: Seq<u8>,
    text: Seq<char>,
)
    requires
        valid_utf8(before),
        reads_as(before + rest, text),
    ensures
        decode_utf8(before).is_prefix_of(text),
        reads_as(rest, text.skip(decode_utf8(before).len() as int)),
    decreases before.len(),
{
    if before.len() == 0 {
        assert(before + rest =~= rest);
        assert(text.skip(0) =~= text);
    } else {
        lemma_first_scalar_stands_alone(before, rest);
        let fewer = pop_first_scalar(before);
        law_front_is_decoded_whatever_follows(fewer, rest, text.drop_first());
        let decoded = decode_utf8(fewer);
        assert(decode_utf8(before) =~= seq![text[0]] + decoded);
        assert(text.drop_first().skip(decoded.len() as int) =~= text.skip(
            decode_utf8(before).len() as int,
        ));
        assert forall|i: int| 0 <= i < decode_utf8(before).len() implies decode_utf8(before)[i]
            == text[i] by {
            if i > 0 {
                assert(decoded[i - 1] == text.drop_first()[i - 1]);
            }
        }
    }
}

/// One byte that cannot be decoded, between stretches that can, leaves exactly
/// one U+FFFD in the text, in its place: what stands before the byte and what
/// stands behind it are there, decoded.
pub proof fn law_undecodable_byte_leaves_one_mark(
    before: Seq<u8>,
    byte: u8,
    behind: Seq<u8>,
    text: Seq<char>,
)
    requires
        valid_utf8(before),
        byte >= 0x80,
        valid_utf8(behind),
        behind.len() > 0 ==> !is_continuation_byte(behind[0]),
        reads_as(before + seq![byte] + behind, text),
    ensures
        text == decode_utf8(before) + seq!['\u{fffd}'] + decode_utf8(behind),
{
    let tail = seq![byte] + behind;
    let front = decode_utf8(before);
    assert(before + seq![byte] + behind =~= before + tail);
    law_front_is_decoded_whatever_follows(before, tail, text);
    let rest = text.skip(front.len() as int);
    assert(tail[0] == byte);
    assert(behind.len() > 0 ==> tail[1] == behind[0]);
    assert(!valid_first_scalar(tail));
    let n = choose|n: int| #[trigger]
        undecodable(tail, n) && reads_as(tail.skip(n), rest.drop_first());
    assert(n == 1) by {
        if n > 1 {
            assert(is_continuation_byte(tail[1]));
        }
    }
    assert(tail.skip(1) =~= behind);
    law_what_can_be_decoded_is_decoded(behind, rest.drop_first());
    assert(text =~= front + seq!['\u{fffd}'] + decode_utf8(behind));
}

/// The output for received bytes with one byte that cannot be decoded is what
/// stands before it, decoded, then one U+FFFD, then what stands behind it,
/// decoded, whether the stream ended or failed.
pub proof fn law_output_keeps_what_can_be_decoded(
    reception: &mut Reception,
    buffer: &[u8],
    outcome: ReadOutcome,
    step: ServerStep,
    before: Seq<u8>,
    byte: u8,
    behind: Seq<u8>,
)
    requires
        call_ensures(Reception::on_read, (reception, buffer, outcome), step),
        outcome matches ReadOutcome::Count(n) ==> n == 0,
        old(reception)@ == before + seq![byte] + behind,
        valid_utf8(before),
        byte >= 0x80,
        valid_utf8(behind),
        behind.len() > 0 ==> !is_continuation_byte(behind[0]),
    ensures
        step@ == ServerStepView::Ready(
            decode_utf8(before) + seq!['\u{fffd}'] + decode_utf8(behind),
        ),
{
}

/// The output is made of the outputs of its pieces: where received bytes are
/// `first` and then `next`, and `next` does not begin with a continuation byte,
/// the output is what `first` reads as and then what `next` reads as. Of a piece
/// that is UTF-8 that is the text it encodes.
pub proof fn law_output_is_made_of_its_pieces(
    reception: &mut Reception,
    buffer: &[u8],
    outcome: ReadOutcome,
    step: ServerStep,
    first: Seq<u8>,
    next: Seq<u8>,
) -> (texts: (Seq<char>, Seq<char>))
    requires
        call_ensures(Reception::on_read, (reception, buffer, outcome), step),
        outcome matches ReadOutcome::Count(n) ==> n == 0,
        old(reception)@ == first + next,
        old(reception)@.len() > 0,
        next.len() > 0 ==> !is_continuation_byte(next[0]),
    ensures
        step@ == ServerStepView::Ready(texts.0 + texts.1),
        reads_as(first, texts.0),
        reads_as(next, texts.1),
        valid_utf8(first) ==> texts.0 == decode_utf8(first),
        valid_utf8(next) ==> texts.1 == decode_utf8(next),
{
    let text = step@->Ready_0;
    let split = law_pieces_are_read_in_their_place(first, next, text);
    let texts = (text.take(split), text.skip(split));
    assert(text =~= texts.0 + texts.1);
    if valid_utf8(first) {
        law_what_can_be_decoded_is_decoded(first, texts.0);
    }
    if valid_utf8(next) {
        law_what_can_be_decoded_is_decoded(next, texts.1);
    }
    texts
}

/// What a read brings is kept behind what was received before, and the server
/// reads on.
pub proof fn law_read_bytes_are_kept(
    reception: &mut Reception,
    buffer: &[u8],
    count: usize,
    step: ServerStep,
)
    requires
        call_ensures(Reception::on_read, (reception, buffer, ReadOutcome::Count(count)), step),
        0 < count <= buffer@.len(),
    ensures
        step@ == ServerStepView::Read,
        final(reception)@.len() == old(reception)@.len() + count,
        forall|i: int|
            0 <= i < old(reception)@.len() ==> #[trigger] final(reception)@[i] == old(
                reception,
            )@[i],
        forall|i: int|
            0 <= i < count ==> final(reception)@[old(reception)@.len() + i]
                == #[trigger] buffer@[i],
{
}

} // verus!
