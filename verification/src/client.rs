//! The session-level client: the receive-buffer manager and the
//! request builders over it.
//!
//! The transport is left to the caller: the [`Connection`] here owns
//! the receive buffer and decides, step by step, whether a packet is
//! complete, more bytes are needed, the buffer must grow, or the data
//! is in error. The caller performs the reads and writes and hands the
//! bytes in.

pub mod connect;
pub mod error;

use vstd::prelude::*;
use vstd::slice::slice_index_get;

use crate::protocol::types::EncodedStr;
use crate::protocol::v5::connect::{connack_parse, ConnAck};
use crate::protocol::v5::publish::{publish_parse, Publish, PublishView};
use crate::protocol::v5::{suback_parse, SubAck, Subscribe, TopicFilter};
use crate::protocol::wire::ParseFailure;
use crate::protocol::{qos::QoS, ParseError};

pub use self::connect::Connect;
pub use self::error::Error;

verus! {

/// One step of the receive loop, telling the caller what to do next.
#[derive(Debug)]
pub enum PollOutcome<T> {
    /// A whole packet was parsed; its bytes are marked consumed.
    Received(T),
    /// The buffered bytes are only a prefix of a packet: read more
    /// bytes into the free region and poll again.
    NeedRead,
    /// The buffered bytes violate the protocol; the connection must be
    /// discarded.
    Protocol,
    /// The buffer is full, cannot grow, and holds no whole packet.
    InsufficientBufferSize,
}

/// By how much a growable buffer of capacity `c` grows: twice the
/// capacity, clamped into `[32, 8192]`.
pub open spec fn grow_step(c: int) -> int {
    if 2 * c < 32 {
        32
    } else if 2 * c > 8192 {
        8192
    } else {
        2 * c
    }
}

/// The receive side of a connection: a single reusable buffer that
/// feeds the incremental parser.
///
/// `filled` counts the valid bytes from offset 0. `consumed`, when
/// set, marks the end of the last parsed packet: those bytes are only
/// reclaimed by [`Connection::begin_receive`], *after* the caller is
/// done with the packet that borrowed conceptually into them.
#[derive(Debug)]
pub struct Connection {
    rx_buffer: Vec<u8>,
    size: usize,
    position: Option<usize>,
    growable: bool,
}

impl Connection {
    /// The buffer's capacity in bytes.
    pub closed spec fn capacity(self) -> int {
        self.rx_buffer@.len() as int
    }

    /// How many bytes from offset 0 hold received data.
    pub closed spec fn filled(self) -> int {
        self.size as int
    }

    /// The offset up to which data belongs to the last parsed packet.
    pub closed spec fn consumed(self) -> Option<int> {
        match self.position {
            Some(p) => Some(p as int),
            None => None,
        }
    }

    /// The valid bytes: what has been received and not yet reclaimed.
    pub closed spec fn contents(self) -> Seq<u8> {
        self.rx_buffer@.subrange(0, self.size as int)
    }

    /// Whether the buffer may grow when it runs full.
    pub closed spec fn is_growable(self) -> bool {
        self.growable
    }

    /// The buffer invariant: `consumed <= filled <= capacity`.
    pub closed spec fn wf(self) -> bool {
        &&& self.size <= self.rx_buffer@.len()
        &&& match self.position {
            Some(p) => p <= self.size,
            None => true,
        }
    }

    /// A connection over a fresh receive buffer. The buffer's length
    /// is its capacity; `growable` says whether it may be enlarged
    /// when a packet does not fit.
    pub fn new(rx_buffer: Vec<u8>, growable: bool) -> (r: Self)
        ensures
            r.wf(),
            r.capacity() == rx_buffer@.len(),
            r.filled() == 0,
            r.contents() == Seq::<u8>::empty(),
            r.consumed() is None,
            r.is_growable() == growable,
    {
        let c = Connection { rx_buffer, size: 0, position: None, growable };
        proof {
            assert(c.contents() =~= Seq::<u8>::empty());
        }
        c
    }

    /// The buffer invariant, spelled out for callers: the contents are
    /// exactly the filled bytes, and the consumed mark never runs past
    /// them.
    pub proof fn lemma_wf_bounds(self)
        requires
            self.wf(),
        ensures
            self.contents().len() == self.filled(),
            0 <= self.filled() <= self.capacity(),
            self.consumed() matches Some(p) ==> 0 <= p <= self.filled(),
    {
    }

    /// Reclaims the bytes of the previously parsed packet: the bytes
    /// in `consumed..filled` move to offset 0 and `consumed` clears.
    ///
    /// This runs at the *start* of a receive, not at its end, because
    /// the packet parsed last may still be in use by the caller.
    pub fn begin_receive(&mut self)
        requires
            old(self).wf(),
        ensures
            final(self).wf(),
            final(self).capacity() == old(self).capacity(),
            final(self).is_growable() == old(self).is_growable(),
            final(self).consumed() is None,
            match old(self).consumed() {
                Some(p) => {
                    &&& final(self).filled() == old(self).filled() - p
                    &&& final(self).contents() == old(self).contents().subrange(
                        p,
                        old(self).filled(),
                    )
                },
                None => {
                    &&& final(self).filled() == old(self).filled()
                    &&& final(self).contents() == old(self).contents()
                },
            },
    {
        match self.position {
            None => {},
            Some(p) => {
                let count = self.size - p;
                let mut i: usize = 0;
                while i < count
                    invariant
                        count == self.size - p,
                        p <= self.size <= self.rx_buffer@.len(),
                        i <= count,
                        self.size == old(self).size,
                        self.position == old(self).position,
                        self.growable == old(self).growable,
                        old(self).position == Some(p),
                        self.rx_buffer@.len() == old(self).rx_buffer@.len(),
                        forall|j: int|
                            0 <= j < i ==> self.rx_buffer@[j] == old(self).rx_buffer@[p + j],
                        forall|j: int|
                            i <= j < self.rx_buffer@.len() ==> self.rx_buffer@[j] == old(
                                self,
                            ).rx_buffer@[j],
                    decreases count - i,
                {
                    let b = *vstd::std_specs::vec::vec_index(&self.rx_buffer, p + i);
                    proof {
                        assert(self.rx_buffer@[p + i] == old(self).rx_buffer@[p + i]);
                    }
                    *vstd::std_specs::vec::vec_index_mut(&mut self.rx_buffer, i) = b;
                    i = i + 1;
                }
                self.size = count;
                self.position = None;
                proof {
                    assert(final(self).contents() =~= old(self).contents().subrange(
                        p as int,
                        old(self).filled(),
                    ));
                }
            },
        }
    }

    /// The number of free bytes after the filled region.
    pub fn free_len(&self) -> (r: usize)
        requires
            self.wf(),
        ensures
            r == self.capacity() - self.filled(),
    {
        self.rx_buffer.len() - self.size
    }

    /// Appends bytes the caller read from the transport into the free
    /// region.
    pub fn fill(&mut self, chunk: &[u8])
        requires
            old(self).wf(),
            chunk@.len() <= old(self).capacity() - old(self).filled(),
        ensures
            final(self).wf(),
            final(self).capacity() == old(self).capacity(),
            final(self).is_growable() == old(self).is_growable(),
            final(self).consumed() == old(self).consumed(),
            final(self).filled() == old(self).filled() + chunk@.len(),
            final(self).contents() == old(self).contents() + chunk@,
    {
        let count = chunk.len();
        let cap = self.rx_buffer.len();
        let mut i: usize = 0;
        while i < count
            invariant
                count == chunk@.len(),
                self.rx_buffer@.len() == cap,
                self.size + count <= self.rx_buffer@.len(),
                i <= count,
                self.size == old(self).size,
                self.position == old(self).position,
                self.growable == old(self).growable,
                self.rx_buffer@.len() == old(self).rx_buffer@.len(),
                forall|j: int|
                    0 <= j < self.size ==> self.rx_buffer@[j] == old(self).rx_buffer@[j],
                forall|j: int|
                    0 <= j < i ==> self.rx_buffer@[self.size + j] == chunk@[j],
            decreases count - i,
        {
            let b = *slice_index_get(chunk, i);
            *vstd::std_specs::vec::vec_index_mut(&mut self.rx_buffer, self.size + i) = b;
            i = i + 1;
        }
        self.size = self.size + count;
        proof {
            assert(final(self).contents() =~= old(self).contents() + chunk@);
        }
    }

    /// Grows a growable buffer by the clamped doubling policy. Returns
    /// false, changing nothing, when the buffer may not or can no
    /// longer grow.
    fn try_grow(&mut self) -> (r: bool)
        requires
            old(self).wf(),
        ensures
            final(self).wf(),
            final(self).is_growable() == old(self).is_growable(),
            final(self).consumed() == old(self).consumed(),
            final(self).filled() == old(self).filled(),
            final(self).contents() == old(self).contents(),
            r ==> old(self).is_growable() && final(self).capacity() == old(self).capacity()
                + grow_step(old(self).capacity()),
            !r ==> final(self).capacity() == old(self).capacity() && (!old(self).is_growable()
                || old(self).capacity() + grow_step(old(self).capacity()) > usize::MAX),
    {
        if !self.growable {
            return false;
        }
        let len = self.rx_buffer.len();
        let step: usize = if len < 16 {
            32
        } else if len > 4096 {
            8192
        } else {
            2 * len
        };
        if len > usize::MAX - step {
            return false;
        }
        let mut i: usize = 0;
        while i < step
            invariant
                i <= step,
                self.size == old(self).size,
                self.position == old(self).position,
                self.growable == old(self).growable,
                self.rx_buffer@.len() == old(self).rx_buffer@.len() + i,
                self.rx_buffer@.subrange(0, old(self).rx_buffer@.len() as int) == old(self).rx_buffer@,
                self.size <= self.rx_buffer@.len(),
            decreases step - i,
        {
            self.rx_buffer.push(0);
            proof {
                assert(self.rx_buffer@.subrange(0, old(self).rx_buffer@.len() as int) =~= old(self).rx_buffer@);
            }
            i = i + 1;
        }
        proof {
            assert(final(self).contents() =~= old(self).contents());
        }
        true
    }

    /// What the receive loop does when the buffered bytes are only a
    /// prefix: read more when there is or can be made room, else
    /// report the buffer too small.
    fn handle_not_enough(&mut self) -> (r: PollOutcome<()>)
        requires
            old(self).wf(),
        ensures
            final(self).wf(),
            final(self).is_growable() == old(self).is_growable(),
            final(self).consumed() == old(self).consumed(),
            final(self).filled() == old(self).filled(),
            final(self).contents() == old(self).contents(),
            final(self).capacity() >= old(self).capacity(),
            !old(self).is_growable() ==> final(self).capacity() == old(self).capacity(),
            match r {
                PollOutcome::NeedRead => final(self).filled() < final(self).capacity(),
                PollOutcome::InsufficientBufferSize => {
                    &&& final(self).capacity() == old(self).capacity()
                    &&& old(self).filled() == old(self).capacity()
                    &&& !old(self).is_growable() || old(self).capacity() + grow_step(
                        old(self).capacity(),
                    ) > usize::MAX
                },
                _ => false,
            },
    {
        if self.size < self.rx_buffer.len() {
            return PollOutcome::NeedRead;
        }
        if self.try_grow() {
            PollOutcome::NeedRead
        } else {
            PollOutcome::InsufficientBufferSize
        }
    }

    /// Attempts to parse a CONNACK from the buffered bytes.
    pub fn poll_connack(&mut self) -> (r: PollOutcome<ConnAck>)
        requires
            old(self).wf(),
            old(self).consumed() is None,
        ensures
            final(self).wf(),
            final(self).is_growable() == old(self).is_growable(),
            final(self).contents() == old(self).contents(),
            final(self).filled() == old(self).filled(),
            final(self).capacity() >= old(self).capacity(),
            !old(self).is_growable() ==> final(self).capacity() == old(self).capacity(),
            match r {
                PollOutcome::Received(p) => {
                    &&& connack_parse(old(self).contents()) matches Ok((n, v)) && v == (
                    p.session_present,
                    p.reason,
                    ) && final(self).consumed() == Some(n)
                    &&& final(self).capacity() == old(self).capacity()
                },
                PollOutcome::NeedRead => {
                    &&& connack_parse(old(self).contents()) == Err::<
                        (int, (bool, crate::protocol::v5::ConnAckReason)),
                        ParseFailure,
                    >(ParseFailure::TooShort)
                    &&& final(self).consumed() is None
                    &&& final(self).filled() < final(self).capacity()
                },
                PollOutcome::Protocol => {
                    &&& connack_parse(old(self).contents()) == Err::<
                        (int, (bool, crate::protocol::v5::ConnAckReason)),
                        ParseFailure,
                    >(ParseFailure::Malformed)
                    &&& final(self).consumed() is None
                },
                PollOutcome::InsufficientBufferSize => {
                    &&& connack_parse(old(self).contents()) == Err::<
                        (int, (bool, crate::protocol::v5::ConnAckReason)),
                        ParseFailure,
                    >(ParseFailure::TooShort)
                    &&& old(self).filled() == old(self).capacity()
                    &&& !old(self).is_growable() || old(self).capacity() + grow_step(
                        old(self).capacity(),
                    ) > usize::MAX
                    &&& final(self).consumed() is None
                },
            },
    {
        let data = vstd::slice::slice_subrange(self.rx_buffer.as_slice(), 0, self.size);
        proof {
            assert(data@ =~= self.contents());
        }
        match ConnAck::parse(data) {
            Ok((used, packet)) => {
                self.position = Some(used);
                PollOutcome::Received(packet)
            },
            Err(ParseError::NotEnoughData) => {
                match self.handle_not_enough() {
                    PollOutcome::NeedRead => PollOutcome::NeedRead,
                    _ => PollOutcome::InsufficientBufferSize,
                }
            },
            Err(ParseError::Error(_)) => PollOutcome::Protocol,
        }
    }

    /// Attempts to parse a SUBACK from the buffered bytes.
    pub fn poll_suback(&mut self) -> (r: PollOutcome<SubAck>)
        requires
            old(self).wf(),
            old(self).consumed() is None,
        ensures
            final(self).wf(),
            final(self).is_growable() == old(self).is_growable(),
            final(self).contents() == old(self).contents(),
            final(self).filled() == old(self).filled(),
            final(self).capacity() >= old(self).capacity(),
            !old(self).is_growable() ==> final(self).capacity() == old(self).capacity(),
            match r {
                PollOutcome::Received(p) => {
                    &&& suback_parse(old(self).contents()) matches Ok((n, v)) && final(self).consumed() == Some(n)
                    &&& final(self).capacity() == old(self).capacity()
                },
                PollOutcome::NeedRead => {
                    &&& suback_parse(old(self).contents()) == Err::<(int, ()), ParseFailure>(
                        ParseFailure::TooShort,
                    )
                    &&& final(self).consumed() is None
                    &&& final(self).filled() < final(self).capacity()
                },
                PollOutcome::Protocol => {
                    &&& suback_parse(old(self).contents()) == Err::<(int, ()), ParseFailure>(
                        ParseFailure::Malformed,
                    )
                    &&& final(self).consumed() is None
                },
                PollOutcome::InsufficientBufferSize => {
                    &&& suback_parse(old(self).contents()) == Err::<(int, ()), ParseFailure>(
                        ParseFailure::TooShort,
                    )
                    &&& old(self).filled() == old(self).capacity()
                    &&& !old(self).is_growable() || old(self).capacity() + grow_step(
                        old(self).capacity(),
                    ) > usize::MAX
                    &&& final(self).consumed() is None
                },
            },
    {
        let data = vstd::slice::slice_subrange(self.rx_buffer.as_slice(), 0, self.size);
        proof {
            assert(data@ =~= self.contents());
        }
        match SubAck::parse(data) {
            Ok((used, packet)) => {
                self.position = Some(used);
                PollOutcome::Received(packet)
            },
            Err(ParseError::NotEnoughData) => {
                match self.handle_not_enough() {
                    PollOutcome::NeedRead => PollOutcome::NeedRead,
                    _ => PollOutcome::InsufficientBufferSize,
                }
            },
            Err(ParseError::Error(_)) => PollOutcome::Protocol,
        }
    }

    /// Attempts to parse a PUBLISH from the buffered bytes.
    pub fn poll_publish(&mut self) -> (r: PollOutcome<Publish>)
        requires
            old(self).wf(),
            old(self).consumed() is None,
        ensures
            final(self).wf(),
            final(self).is_growable() == old(self).is_growable(),
            final(self).contents() == old(self).contents(),
            final(self).filled() == old(self).filled(),
            final(self).capacity() >= old(self).capacity(),
            !old(self).is_growable() ==> final(self).capacity() == old(self).capacity(),
            match r {
                PollOutcome::Received(p) => {
                    &&& publish_parse(old(self).contents()) matches Ok((n, v)) && v == p@ && final(self).consumed() == Some(n)
                    &&& p.wf()
                    &&& final(self).capacity() == old(self).capacity()
                },
                PollOutcome::NeedRead => {
                    &&& publish_parse(old(self).contents()) == Err::<
                        (int, PublishView),
                        ParseFailure,
                    >(ParseFailure::TooShort)
                    &&& final(self).consumed() is None
                    &&& final(self).filled() < final(self).capacity()
                },
                PollOutcome::Protocol => {
                    &&& publish_parse(old(self).contents()) == Err::<
                        (int, PublishView),
                        ParseFailure,
                    >(ParseFailure::Malformed)
                    &&& final(self).consumed() is None
                },
                PollOutcome::InsufficientBufferSize => {
                    &&& publish_parse(old(self).contents()) == Err::<
                        (int, PublishView),
                        ParseFailure,
                    >(ParseFailure::TooShort)
                    &&& old(self).filled() == old(self).capacity()
                    &&& !old(self).is_growable() || old(self).capacity() + grow_step(
                        old(self).capacity(),
                    ) > usize::MAX
                    &&& final(self).consumed() is None
                },
            },
    {
        let data = vstd::slice::slice_subrange(self.rx_buffer.as_slice(), 0, self.size);
        proof {
            assert(data@ =~= self.contents());
        }
        match Publish::parse(data) {
            Ok((used, packet)) => {
                self.position = Some(used);
                PollOutcome::Received(packet)
            },
            Err(ParseError::NotEnoughData) => {
                match self.handle_not_enough() {
                    PollOutcome::NeedRead => PollOutcome::NeedRead,
                    _ => PollOutcome::InsufficientBufferSize,
                }
            },
            Err(ParseError::Error(_)) => PollOutcome::Protocol,
        }
    }
}

/// The MQTT client: owns the connection state and the packet
/// identifier counter, and builds the requests that the caller sends.
#[derive(Debug)]
pub struct Client {
    connection: Connection,
    identifier: u16,
}

impl Client {
    /// The next packet identifier to allocate.
    pub closed spec fn identifier_spec(self) -> int {
        self.identifier as int
    }

    pub closed spec fn connection_spec(self) -> Connection {
        self.connection
    }

    /// A client over a connection; the identifier counter starts at
    /// 20 000 to avoid colliding with low broker-assigned identifiers.
    pub fn new(connection: Connection) -> (r: Self)
        ensures
            r.identifier_spec() == 20_000,
            r.connection_spec() == connection,
    {
        Client { connection, identifier: 20_000 }
    }

    /// Borrows the connection so the caller can drive a receive.
    pub fn connection(&mut self) -> (r: &mut Connection)
        ensures
            *r == old(self).connection_spec(),
            final(self).connection_spec() == *final(r),
            final(self).identifier_spec() == old(self).identifier_spec(),
    {
        &mut self.connection
    }

    /// Allocates the next packet identifier: the counter increases by
    /// one and wraps.
    pub fn next_identifier(&mut self) -> (r: u16)
        ensures
            r as int == old(self).identifier_spec(),
            final(self).identifier_spec() == (old(self).identifier_spec() + 1) % 0x1_0000,
            final(self).connection_spec() == old(self).connection_spec(),
    {
        let id = self.identifier;
        if self.identifier == 0xFFFF {
            self.identifier = 0;
        } else {
            self.identifier = self.identifier + 1;
        }
        id
    }

    /// Builds the SUBSCRIBE request for one topic: a fresh identifier
    /// and a single filter with the default options.
    pub fn subscribe_request(&mut self, topic: EncodedStr) -> (r: Subscribe)
        ensures
            r.identifier as int == old(self).identifier_spec(),
            final(self).identifier_spec() == (old(self).identifier_spec() + 1) % 0x1_0000,
            final(self).connection_spec() == old(self).connection_spec(),
            r.topics@.len() == 1,
            r.topics@[0] == (TopicFilter {
                name: topic,
                qos: QoS::AtMostOnce,
                no_local: false,
                retain_as_published: false,
                retain: crate::protocol::v5::RetainHandling::SendRetained,
            }),
    {
        let identifier = self.next_identifier();
        let filter = TopicFilter {
            name: topic,
            qos: QoS::AtMostOnce,
            no_local: false,
            retain_as_published: false,
            retain: crate::protocol::v5::RetainHandling::SendRetained,
        };
        let mut topics: Vec<TopicFilter> = Vec::new();
        topics.push(filter);
        Subscribe { identifier, topics }
    }
}

} // verus!
