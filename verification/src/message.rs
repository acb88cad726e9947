//! Messages: bytes with the descriptors that accompany them, and what they are
//! on the wire.

use vstd::prelude::*;

verus! {

/// One thing that travels over a stream socket: a byte, or a descriptor that
/// was attached to the bytes that follow it.
pub enum Item<Fd> {
    Handle(Fd),
    Byte(u8),
}

/// What a message holds, as mathematical sequences.
pub struct MessageView<Fd> {
    pub fds: Seq<Fd>,
    pub bytes: Seq<u8>,
}

impl<Fd> MessageView<Fd> {
    /// The message as the peer sees it arrive: first its descriptors, then
    /// its bytes, each in order.
    pub open spec fn wire(self) -> Seq<Item<Fd>> {
        self.fds.map_values(|fd: Fd| Item::Handle(fd)) + self.bytes.map_values(
            |b: u8| Item::Byte(b),
        )
    }

    /// What has reached the peer once it accepted the first `sent` bytes of
    /// one send of this message: every descriptor, and those bytes.
    pub open spec fn accepted(self, sent: int) -> Seq<Item<Fd>> {
        self.fds.map_values(|fd: Fd| Item::Handle(fd)) + self.bytes.take(sent).map_values(
            |b: u8| Item::Byte(b),
        )
    }

    /// What is still owed to the peer after it accepted the first `sent`
    /// bytes: the other bytes, and no descriptor.
    pub open spec fn remainder(self, sent: int) -> MessageView<Fd> {
        MessageView { fds: Seq::empty(), bytes: self.bytes.skip(sent) }
    }
}

/// The items of a queue of messages, front first.
pub open spec fn wire_of<Fd>(queue: Seq<MessageView<Fd>>) -> Seq<Item<Fd>>
    decreases queue.len(),
{
    if queue.len() == 0 {
        Seq::empty()
    } else {
        queue[0].wire() + wire_of(queue.skip(1))
    }
}

/// The views of the messages of a queue, front first.
pub open spec fn views_of<Fd>(queue: Seq<BufferedMessage<Fd>>) -> Seq<MessageView<Fd>> {
    queue.map_values(|m: BufferedMessage<Fd>| m@)
}

/// A partial send splits a message in two without loss: what the peer
/// accepted, followed by the remainder, is the message.
pub proof fn lemma_partial_send_splits<Fd>(m: MessageView<Fd>, sent: int)
    requires
        0 <= sent <= m.bytes.len(),
    ensures
        m.accepted(sent) + m.remainder(sent).wire() == m.wire(),
        m.accepted(m.bytes.len() as int) == m.wire(),
{
}

/// The items of a queue with one more message in front.
pub proof fn lemma_wire_of_push_front<Fd>(m: MessageView<Fd>, queue: Seq<MessageView<Fd>>)
    ensures
        wire_of(seq![m] + queue) == m.wire() + wire_of(queue),
{
    assert((seq![m] + queue).skip(1) =~= queue);
}

/// The items of a queue with one more message at the back.
pub proof fn lemma_wire_of_push_back<Fd>(queue: Seq<MessageView<Fd>>, m: MessageView<Fd>)
    ensures
        wire_of(queue.push(m)) == wire_of(queue) + m.wire(),
    decreases queue.len(),
{
    if queue.len() == 0 {
        assert(wire_of(queue.push(m).skip(1)) =~= Seq::empty());
    } else {
        lemma_wire_of_push_back(queue.skip(1), m);
        assert(queue.push(m).skip(1) =~= queue.skip(1).push(m));
    }
}

/// Data that was taken from one endpoint and has not yet been accepted by the
/// other, together with the descriptors that must accompany it. The message
/// owns its descriptors: they leave it only by being moved.
#[derive(Debug)]
pub struct BufferedMessage<Fd> {
    pub fds: Vec<Fd>,
    pub bytes: Vec<u8>,
}

impl<Fd> View for BufferedMessage<Fd> {
    type V = MessageView<Fd>;

    open spec fn view(&self) -> MessageView<Fd> {
        MessageView { fds: self.fds@, bytes: self.bytes@ }
    }
}

impl<Fd> BufferedMessage<Fd> {
    /// A message that carries `bytes` and passes `fds` along with them.
    pub fn new(fds: Vec<Fd>, bytes: Vec<u8>) -> (msg: Self)
        ensures
            msg@ == (MessageView { fds: fds@, bytes: bytes@ }),
    {
        BufferedMessage { fds, bytes }
    }

    /// The number of bytes that the message carries.
    pub fn len(&self) -> (n: usize)
        ensures
            n == self@.bytes.len(),
    {
        self.bytes.len()
    }

    /// Whether the message carries no byte.
    pub fn is_empty(&self) -> (empty: bool)
        ensures
            empty == (self@.bytes.len() == 0),
    {
        self.bytes.len() == 0
    }

    /// What is left to send after the peer accepted the first `sent` bytes.
    /// The descriptors went with those bytes, so the remainder has none, and
    /// the ones held here are released.
    pub fn into_remainder(self, sent: usize) -> (rest: Self)
        requires
            sent <= self@.bytes.len(),
        ensures
            rest@ == self@.remainder(sent as int),
    {
        let BufferedMessage { fds, mut bytes } = self;
        let tail = bytes.split_off(sent);
        BufferedMessage { fds: Vec::new(), bytes: tail }
    }
}

} // verus!
