//! The replica side of replication: the upstream primary's address, and
//! the handshake a replica drives against it.
//!
//! The handshake itself is strictly sequential: send `PING`, then the
//! listening port, then the capabilities, then `PSYNC`, each after the
//! previous reply arrived; then take the raw snapshot frame and fall
//! into the command stream. The state machine here decides each step
//! and spells each message; the connection driver around the library
//! performs the sends, awaits the replies, and feeds the streamed
//! commands back through the dispatcher.

use vstd::prelude::*;

use crate::connection::w_fullresync;
use crate::digits::dec_rep;
use crate::digits::u64_to_dec;
use crate::parse::CommandV;
use crate::parse::Expiry;
use crate::parse::ParseError;
use crate::parse::command_args;
use crate::parse::command_wf;
use crate::parse::lemma_command_wire_round_trip;
use crate::parse::spec_parse_command;
use crate::parse::w_ping;
use crate::parse::w_psync;
use crate::parse::w_replconf;
use crate::parse::with_deadline;
use crate::resp::Frame;
use crate::resp::FrameV;
use crate::resp::MAX_MESSAGE_SIZE;
use crate::resp::StepV;
use crate::resp::bytes_view;
use crate::resp::emit_array;
use crate::resp::encode_array;
use crate::resp::spec_decode_at;

verus! {

/// The upstream primary a replica follows.
pub struct Replica {
    pub _id: u64,
    pub address: String,
    pub port: u16,
}

impl Replica {
    pub fn new(id: u64, address: String, port: u16) -> (r: Replica)
        ensures
            r.address@ == address@,
            r.port == port,
    {
        Replica { _id: id, address, port }
    }
}

/// The ASCII bytes of `listening-port`.
pub open spec fn w_listening_port() -> Seq<u8> {
    seq![
        108u8,
        105u8,
        115u8,
        116u8,
        101u8,
        110u8,
        105u8,
        110u8,
        103u8,
        45u8,
        112u8,
        111u8,
        114u8,
        116u8,
    ]
}

/// The ASCII bytes of `capa`.
pub open spec fn w_capa() -> Seq<u8> {
    seq![99u8, 97u8, 112u8, 97u8]
}

/// The ASCII bytes of `psync2`.
pub open spec fn w_psync2() -> Seq<u8> {
    seq![112u8, 115u8, 121u8, 110u8, 99u8, 50u8]
}

/// The first handshake message: `PING`.
pub open spec fn msg_ping() -> Seq<u8> {
    encode_array(seq![w_ping()])
}

/// The second: `REPLCONF listening-port <port>`.
pub open spec fn msg_listening_port(port: u16) -> Seq<u8> {
    encode_array(seq![w_replconf(), w_listening_port(), dec_rep(port as nat)])
}

/// The third: `REPLCONF capa psync2`.
pub open spec fn msg_capa() -> Seq<u8> {
    encode_array(seq![w_replconf(), w_capa(), w_psync2()])
}

/// The fourth: `PSYNC ? -1`.
pub open spec fn msg_psync() -> Seq<u8> {
    encode_array(seq![w_psync(), seq![63u8], seq![45u8, 49u8]])
}

/// Where the handshake stands. Each sending state moves on only after
/// the driver has awaited the reply to what was sent.
#[derive(Clone, Copy, Debug, PartialEq, Eq, Structural)]
pub enum HandshakeState {
    /// Nothing sent yet.
    Start,
    /// `PING` sent; a reply is awaited.
    PingSent,
    /// The listening port sent; a reply is awaited.
    PortSent,
    /// The capabilities sent; a reply is awaited.
    CapaSent,
    /// `PSYNC` sent; the `FULLRESYNC` reply is awaited.
    PsyncSent,
    /// `FULLRESYNC` seen; the raw snapshot frame is awaited.
    SnapshotExpected,
    /// The snapshot is in; what follows is the command stream.
    Streaming,
}

/// The replica-side handshake state machine.
pub struct Handshake {
    pub state: HandshakeState,
    pub port: u16,
}

impl Handshake {
    /// A handshake about to begin, announcing `port` as this replica's
    /// listening port.
    pub fn new(port: u16) -> (r: Handshake)
        ensures
            r.state == HandshakeState::Start,
            r.port == port,
    {
        Handshake { state: HandshakeState::Start, port }
    }

    /// Takes the next step, once the reply to the previous message has
    /// arrived, and says what to send — nothing, once everything is
    /// sent and the snapshot and command stream are being received.
    pub fn advance(&mut self) -> (r: Option<Vec<u8>>)
        ensures
            final(self).port == old(self).port,
            old(self).state == HandshakeState::Start ==> (r matches Some(m) && m@ == msg_ping()
                && final(self).state == HandshakeState::PingSent),
            old(self).state == HandshakeState::PingSent ==> (r matches Some(m) && m@
                == msg_listening_port(old(self).port) && final(self).state
                == HandshakeState::PortSent),
            old(self).state == HandshakeState::PortSent ==> (r matches Some(m) && m@ == msg_capa()
                && final(self).state == HandshakeState::CapaSent),
            old(self).state == HandshakeState::CapaSent ==> (r matches Some(m) && m@ == msg_psync()
                && final(self).state == HandshakeState::PsyncSent),
            old(self).state == HandshakeState::PsyncSent ==> (final(self).state
                == HandshakeState::SnapshotExpected && r is None),
            old(self).state == HandshakeState::SnapshotExpected ==> (final(self).state
                == HandshakeState::Streaming && r is None),
            old(self).state == HandshakeState::Streaming ==> (final(self).state
                == HandshakeState::Streaming && r is None),
    {
        match self.state {
            HandshakeState::Start => {
                self.state = HandshakeState::PingSent;
                let mut parts: Vec<Vec<u8>> = Vec::new();
                parts.push(vec![80u8, 73u8, 78u8, 71u8]);
                proof {
                    assert(bytes_view(parts@) =~= seq![w_ping()]);
                }
                Some(emit_array(&parts))
            },
            HandshakeState::PingSent => {
                self.state = HandshakeState::PortSent;
                let mut parts: Vec<Vec<u8>> = Vec::new();
                parts.push(vec![82u8, 69u8, 80u8, 76u8, 67u8, 79u8, 78u8, 70u8]);
                parts.push(
                    vec![
                        108u8,
                        105u8,
                        115u8,
                        116u8,
                        101u8,
                        110u8,
                        105u8,
                        110u8,
                        103u8,
                        45u8,
                        112u8,
                        111u8,
                        114u8,
                        116u8,
                    ],
                );
                parts.push(u64_to_dec(self.port as u64));
                proof {
                    assert(bytes_view(parts@) =~= seq![
                        w_replconf(),
                        w_listening_port(),
                        dec_rep(self.port as nat),
                    ]);
                }
                Some(emit_array(&parts))
            },
            HandshakeState::PortSent => {
                self.state = HandshakeState::CapaSent;
                let mut parts: Vec<Vec<u8>> = Vec::new();
                parts.push(vec![82u8, 69u8, 80u8, 76u8, 67u8, 79u8, 78u8, 70u8]);
                parts.push(vec![99u8, 97u8, 112u8, 97u8]);
                parts.push(vec![112u8, 115u8, 121u8, 110u8, 99u8, 50u8]);
                proof {
                    assert(bytes_view(parts@) =~= seq![w_replconf(), w_capa(), w_psync2()]);
                }
                Some(emit_array(&parts))
            },
            HandshakeState::CapaSent => {
                self.state = HandshakeState::PsyncSent;
                let mut parts: Vec<Vec<u8>> = Vec::new();
                parts.push(vec![80u8, 83u8, 89u8, 78u8, 67u8]);
                parts.push(vec![63u8]);
                parts.push(vec![45u8, 49u8]);
                proof {
                    assert(bytes_view(parts@) =~~= seq![w_psync(), seq![63u8], seq![45u8, 49u8]]);
                }
                Some(emit_array(&parts))
            },
            HandshakeState::PsyncSent => {
                self.state = HandshakeState::SnapshotExpected;
                None
            },
            HandshakeState::SnapshotExpected => {
                self.state = HandshakeState::Streaming;
                None
            },
            HandshakeState::Streaming => {
                None
            },
        }
    }
}

/// Whether a reply frame is the primary's `FULLRESYNC` authorisation:
/// a simple string opening with that word.
pub fn is_fullresync(f: &Frame) -> (r: bool)
    ensures
        r == (f@ matches FrameV::Simple(p) && p.len() >= 10 && p.subrange(0, 10)
            == w_fullresync()),
{
    match f {
        Frame::Simple(p) => {
            if p.len() < 10 {
                return false;
            }
            let ok = p[0] == 70 && p[1] == 85 && p[2] == 76 && p[3] == 76 && p[4] == 82 && p[5]
                == 69 && p[6] == 83 && p[7] == 89 && p[8] == 78 && p[9] == 67;
            proof {
                if ok {
                    assert(p@.subrange(0, 10) =~= w_fullresync());
                } else {
                    if p@.subrange(0, 10) == w_fullresync() {
                        assert(p@[0] == p@.subrange(0, 10)[0]);
                        assert(p@[1] == p@.subrange(0, 10)[1]);
                        assert(p@[2] == p@.subrange(0, 10)[2]);
                        assert(p@[3] == p@.subrange(0, 10)[3]);
                        assert(p@[4] == p@.subrange(0, 10)[4]);
                        assert(p@[5] == p@.subrange(0, 10)[5]);
                        assert(p@[6] == p@.subrange(0, 10)[6]);
                        assert(p@[7] == p@.subrange(0, 10)[7]);
                        assert(p@[8] == p@.subrange(0, 10)[8]);
                        assert(p@[9] == p@.subrange(0, 10)[9]);
                    }
                }
            }
            ok
        },
        _ => false,
    }
}

/// Fan-out preservation, one hop: the frame a primary fans out for a
/// `SET` reads back on the replica as exactly that command's argument
/// strings — whatever bytes of later commands follow it in the stream,
/// so consecutive fanned-out commands are read in the order they were
/// enqueued — and parsing those arguments on the replica yields the
/// same `SET`, its deadline re-anchored at the replica's clock.
pub proof fn lemma_propagated_set_applies(
    k: Seq<u8>,
    v: Seq<u8>,
    e: Option<Expiry>,
    now: u64,
    tail: Seq<u8>,
)
    requires
        k.len() <= MAX_MESSAGE_SIZE,
        v.len() <= MAX_MESSAGE_SIZE,
        e matches Some(x) ==> now + x.px_ms <= u64::MAX,
    ensures
        ({
            let c = CommandV::Put(k, v, e);
            let wire = encode_array(command_args(c));
            &&& spec_decode_at(wire + tail, 0) == StepV::Frame(
                FrameV::Array(command_args(c)),
                wire.len() as int,
            )
            &&& spec_parse_command(command_args(c), now) == Ok::<CommandV, ParseError>(
                with_deadline(c, now),
            )
        }),
{
    let c = CommandV::Put(k, v, e);
    assert(command_wf(c));
    lemma_command_wire_round_trip(c, now, tail);
}

} // verus!
