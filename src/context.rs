//! What a node's `main` works with: its place in the network, and the requests
//! and replies of each step.
//!
//! A step is a request frame written to the switch and a reply frame read back.
//! The context builds the request, counts the step, and reads the reply; the
//! program around it moves the bytes.
use vstd::prelude::*;
use crate::config::NodeConfig;
use crate::config::inner_ifname;
use crate::config::inner_name;
use crate::message::DecodeError;
use crate::message::EncodeError;
use crate::message::IpcMessage;
use crate::message::MessageView;
use crate::message::body;
use crate::message::decode;
use crate::message::encode;
use crate::message::frame;
use crate::message::lemma_frame_round_trip;
use crate::message::parse_frame;
use crate::message::payloads_view;
use crate::message::MAX_MESSAGE_SIZE;
use crate::broker::ActionView;
use crate::broker::copy_bytes;
use crate::broker::BrokerError;
use crate::broker::StateView;
use crate::rounds::idle;
use crate::rounds::is_order;
use crate::rounds::lemma_broadcast_all_round;
use crate::rounds::run;

verus! {

/// Why a step failed on the node's side.
#[derive(Clone, Copy, Debug, PartialEq, Eq, Structural)]
pub enum ClientError {
    /// The reply is not a whole frame.
    NoResponse,
    /// The reply is a message of the wrong kind for the request.
    InvalidResponse,
    /// The reply frame was refused.
    Decode(DecodeError),
    /// The request could not be framed.
    Encode(EncodeError),
    /// A received string is not UTF-8.
    InvalidString,
}

/// Names what `String::from_utf8` makes of bytes: the characters they encode,
/// or nothing when they are not UTF-8.
pub uninterp spec fn utf8_decode(b: Seq<u8>) -> Option<Seq<char>>;

/// Relies on `str::as_bytes`: the UTF-8 encoding of `s`, which decodes back to `s`.
#[verifier::external_body]
fn utf8_bytes(s: &str) -> (r: Vec<u8>)
    ensures
        utf8_decode(r@) == Some(s@),
{
    s.as_bytes().to_vec()
}

/// Relies on `String::from_utf8`: the string that `b` encodes, if `b` is UTF-8.
#[verifier::external_body]
fn string_from_utf8(b: Vec<u8>) -> (r: Option<String>)
    ensures
        match r {
            Some(s) => utf8_decode(b@) == Some(s@),
            None => utf8_decode(b@) is None,
        },
{
    String::from_utf8(b).ok()
}

/// The reply that a whole buffer holds, if it is exactly one frame.
pub open spec fn reply_of(reply: Seq<u8>) -> Result<MessageView, ClientError> {
    match parse_frame(reply) {
        Ok(Some((m, n))) => if n == reply.len() {
            Ok(m)
        } else {
            Err(ClientError::InvalidResponse)
        },
        Ok(None) => Err(ClientError::NoResponse),
        Err(e) => Err(ClientError::Decode(e)),
    }
}

/// A reply that the switch frames reads back as the same message: a payload
/// handed to a receiver, or the payload list of a broadcast-all step, arrives
/// as it was sent, and a string payload then reads back as the sent string.
pub proof fn lemma_reply_round_trip(m: MessageView)
    requires
        body(m).len() <= MAX_MESSAGE_SIZE,
    ensures
        reply_of(frame(m)) == Ok::<MessageView, ClientError>(m),
{
    lemma_frame_round_trip(m, Seq::empty());
    assert(frame(m) + Seq::<u8>::empty() =~= frame(m));
}

/// Strings travel unchanged through a broadcast-all step: when node `i` sends
/// a payload that encodes string `ss[i]`, in any order of arrival, every node is
/// handed a reply frame that reads back as the list of all payloads, and
/// position `i` of that list reads back as `ss[i]`.
pub proof fn lemma_broadcast_all_strings(ss: Seq<Seq<char>>, ps: Seq<Seq<u8>>, order: Seq<int>)
    requires
        ps.len() == ss.len(),
        ps.len() >= 1,
        forall|i: int| 0 <= i < ps.len() ==> utf8_decode(#[trigger] ps[i]) == Some(ss[i]),
        body(MessageView::BroadcastAllRecv(ps)).len() <= MAX_MESSAGE_SIZE,
        is_order(order, ps.len()),
    ensures
        run(
            idle(ps.len()),
            Seq::new(
                ps.len(),
                |k: int| (order[k], MessageView::BroadcastAllSend(ps[order[k]])),
            ),
        ) == Ok::<(Seq<StateView>, Seq<ActionView>), BrokerError>(
            (
                idle(ps.len()),
                Seq::new(
                    ps.len(),
                    |j: int| ActionView::Reply(j, MessageView::BroadcastAllRecv(ps)),
                ),
            ),
        ),
        reply_of(frame(MessageView::BroadcastAllRecv(ps))) == Ok::<MessageView, ClientError>(
            MessageView::BroadcastAllRecv(ps),
        ),
        forall|i: int| 0 <= i < ps.len() ==> utf8_decode(#[trigger] ps[i]) == Some(ss[i]),
{
    lemma_broadcast_all_round(ps, order);
    lemma_reply_round_trip(MessageView::BroadcastAllRecv(ps));
}

/// Strings travel unchanged through a broadcast-one step: a payload that
/// encodes `s`, handed by the switch to a receiver, reads back as the payload,
/// and so as `s`.
pub proof fn lemma_send_string_round_trip(p: Seq<u8>, s: Seq<char>)
    requires
        utf8_decode(p) == Some(s),
        body(MessageView::Send(p)).len() <= MAX_MESSAGE_SIZE,
    ensures
        reply_of(frame(MessageView::Send(p))) == Ok::<MessageView, ClientError>(MessageView::Send(p)),
        utf8_decode(p) == Some(s),
{
    lemma_reply_round_trip(MessageView::Send(p));
}

fn read_reply(reply: &[u8]) -> (r: Result<IpcMessage, ClientError>)
    ensures
        match r {
            Ok(m) => reply_of(reply@) == Ok::<MessageView, ClientError>(m@),
            Err(e) => reply_of(reply@) == Err::<MessageView, ClientError>(e),
        },
{
    match decode(reply) {
        Ok(Some((m, n))) => if n == reply.len() {
            Ok(m)
        } else {
            Err(ClientError::InvalidResponse)
        },
        Ok(None) => Err(ClientError::NoResponse),
        Err(e) => Err(ClientError::Decode(e)),
    }
}

/// Reads the reply to a broadcast-all request: every node's payload, by node.
pub fn broadcast_all_reply(reply: &[u8]) -> (r: Result<Vec<Vec<u8>>, ClientError>)
    ensures
        match reply_of(reply@) {
            Ok(MessageView::BroadcastAllRecv(ps)) => r matches Ok(v) && payloads_view(v@) == ps,
            Ok(_) => r == Err::<Vec<Vec<u8>>, ClientError>(ClientError::InvalidResponse),
            Err(e) => r == Err::<Vec<Vec<u8>>, ClientError>(e),
        },
{
    match read_reply(reply) {
        Ok(IpcMessage::BroadcastAllRecv(ps)) => Ok(ps),
        Ok(_) => Err(ClientError::InvalidResponse),
        Err(e) => Err(e),
    }
}

/// Reads the reply to a broadcast-one receive: the sender's payload.
pub fn receive_reply(reply: &[u8]) -> (r: Result<Vec<u8>, ClientError>)
    ensures
        match reply_of(reply@) {
            Ok(MessageView::Send(p)) => r matches Ok(v) && v@ == p,
            Ok(_) => r == Err::<Vec<u8>, ClientError>(ClientError::InvalidResponse),
            Err(e) => r == Err::<Vec<u8>, ClientError>(e),
        },
{
    match read_reply(reply) {
        Ok(IpcMessage::Send(p)) => Ok(p),
        Ok(_) => Err(ClientError::InvalidResponse),
        Err(e) => Err(e),
    }
}

/// Reads the reply to a broadcast-one send or wait, which must be `Wait`.
pub fn wait_reply(reply: &[u8]) -> (r: Result<(), ClientError>)
    ensures
        match reply_of(reply@) {
            Ok(MessageView::Wait) => r is Ok,
            Ok(_) => r == Err::<(), ClientError>(ClientError::InvalidResponse),
            Err(e) => r == Err::<(), ClientError>(e),
        },
{
    match read_reply(reply) {
        Ok(IpcMessage::Wait) => Ok(()),
        Ok(_) => Err(ClientError::InvalidResponse),
        Err(e) => Err(e),
    }
}

/// Reads a received payload as a string.
pub fn payload_string(p: Vec<u8>) -> (r: Result<String, ClientError>)
    ensures
        match utf8_decode(p@) {
            Some(s) => r matches Ok(t) && t@ == s,
            None => r == Err::<String, ClientError>(ClientError::InvalidString),
        },
{
    match string_from_utf8(p) {
        Some(s) => Ok(s),
        None => Err(ClientError::InvalidString),
    }
}

/// Reads received payloads as strings, in order.
pub fn payload_strings(ps: Vec<Vec<u8>>) -> (r: Result<Vec<String>, ClientError>)
    ensures
        match r {
            Ok(v) => v@.len() == ps@.len() && forall|i: int|
                0 <= i < v@.len() ==> utf8_decode(#[trigger] ps@[i]@) == Some(v@[i]@),
            Err(e) => e == ClientError::InvalidString && exists|i: int|
                0 <= i < ps@.len() && utf8_decode(#[trigger] ps@[i]@) is None,
        },
{
    let mut out: Vec<String> = Vec::new();
    let mut i: usize = 0;
    while i < ps.len()
        invariant
            i <= ps@.len(),
            out@.len() == i,
            forall|j: int| 0 <= j < i ==> utf8_decode(#[trigger] ps@[j]@) == Some(out@[j]@),
        decreases ps@.len() - i,
    {
        let p = copy_bytes(&ps[i]);
        match string_from_utf8(p) {
            Some(s) => out.push(s),
            None => {
                return Err(ClientError::InvalidString);
            },
        }
        i = i + 1;
    }
    Ok(out)
}

/// Frames a request; requests without a payload always fit.
fn request_frame(m: IpcMessage) -> (r: Result<Vec<u8>, EncodeError>)
    ensures
        match r {
            Ok(v) => v@ == frame(m@) && body(m@).len() <= MAX_MESSAGE_SIZE,
            Err(_) => body(m@).len() > MAX_MESSAGE_SIZE,
        },
        (m is Receive || m is Wait) ==> r is Ok,
{
    encode(&m)
}


/// A node's execution context: which node it is, the configuration of all
/// nodes, and the step it has reached.
pub struct Context {
    node_index: usize,
    nodes: Vec<NodeConfig>,
    step_name: Option<String>,
    step: u64,
    ifname: String,
}

/// The step counter after one more step; it stops at its largest value.
pub open spec fn next_step(step: u64) -> u64 {
    if step < u64::MAX {
        (step + 1) as u64
    } else {
        step
    }
}

/// The log line for a named step: `step "<name>": ok` or `step "<name>": failed`.
pub open spec fn step_line(name: Seq<char>, ok: bool) -> Seq<char> {
    seq!['s', 't', 'e', 'p', ' ', '"'] + name + seq!['"', ':', ' '] + if ok {
        seq!['o', 'k']
    } else {
        seq!['f', 'a', 'i', 'l', 'e', 'd']
    }
}

impl Context {
    pub closed spec fn index_spec(&self) -> int {
        self.node_index as int
    }

    pub closed spec fn nodes_spec(&self) -> Seq<NodeConfig> {
        self.nodes@
    }

    pub closed spec fn step_spec(&self) -> u64 {
        self.step
    }

    pub closed spec fn step_name_spec(&self) -> Option<Seq<char>> {
        match self.step_name {
            Some(n) => Some(n@),
            None => None,
        }
    }

    pub closed spec fn ifname_spec(&self) -> Seq<char> {
        self.ifname@
    }

    /// The node's index is one of the nodes, and its interface is `veth<index>`.
    pub closed spec fn wf(&self) -> bool {
        &&& self.node_index < self.nodes@.len()
        &&& self.ifname@ == inner_name(self.node_index as nat)
    }

    /// The context of node `node_index` among `nodes`, before its first step.
    pub fn new(node_index: usize, nodes: Vec<NodeConfig>) -> (r: Context)
        requires
            node_index < nodes@.len(),
        ensures
            r.wf(),
            r.index_spec() == node_index,
            r.nodes_spec() == nodes@,
            r.step_spec() == 0,
            r.step_name_spec() is None,
    {
        Context { node_index, nodes, step_name: None, step: 0, ifname: inner_ifname(node_index) }
    }

    /// Current network node index.
    pub fn current_node_index(&self) -> (r: usize)
        ensures
            r == self.index_spec(),
    {
        self.node_index
    }

    /// Current network node name, which is also its host name.
    pub fn current_node_name(&self) -> (r: &str)
        requires
            self.wf(),
        ensures
            r@ == self.nodes_spec()[self.index_spec()].name@,
    {
        self.nodes[self.node_index].name.as_str()
    }

    /// Current node's network interface name.
    pub fn current_node_ifname(&self) -> (r: &str)
        requires
            self.wf(),
        ensures
            r@ == inner_name(self.index_spec() as nat),
    {
        self.ifname.as_str()
    }

    /// Current node's configuration.
    pub fn current_node(&self) -> (r: &NodeConfig)
        requires
            self.wf(),
        ensures
            *r == self.nodes_spec()[self.index_spec()],
    {
        &self.nodes[self.node_index]
    }

    /// Configuration of all the nodes in the network.
    pub fn nodes(&self) -> (r: &[NodeConfig])
        ensures
            r@ == self.nodes_spec(),
    {
        self.nodes.as_slice()
    }

    /// Number of steps begun so far.
    pub fn step_count(&self) -> (r: u64)
        ensures
            r == self.step_spec(),
    {
        self.step
    }

    /// Names the next step, for the log line that reports how it ended.
    pub fn step(&mut self, name: &str)
        ensures
            final(self).step_name_spec() == Some(name@),
            final(self).step_spec() == old(self).step_spec(),
            final(self).index_spec() == old(self).index_spec(),
            final(self).nodes_spec() == old(self).nodes_spec(),
            final(self).wf() == old(self).wf(),
    {
        self.step_name = Some(String::from_str(name));
    }

    fn begin_step(&mut self)
        ensures
            final(self).step_spec() == next_step(old(self).step_spec()),
            final(self).step_name_spec() == old(self).step_name_spec(),
            final(self).index_spec() == old(self).index_spec(),
            final(self).nodes_spec() == old(self).nodes_spec(),
            final(self).wf() == old(self).wf(),
    {
        if self.step < u64::MAX {
            self.step = self.step + 1;
        }
    }

    /// Ends the named step, if any: clears its name and returns its log line.
    pub fn finish_step(&mut self, ok: bool) -> (r: Option<String>)
        ensures
            match old(self).step_name_spec() {
                Some(n) => r matches Some(l) && l@ == step_line(n, ok),
                None => r is None,
            },
            final(self).step_name_spec() is None,
            final(self).step_spec() == old(self).step_spec(),
            final(self).index_spec() == old(self).index_spec(),
            final(self).nodes_spec() == old(self).nodes_spec(),
            final(self).wf() == old(self).wf(),
    {
        match self.step_name.take() {
            Some(n) => {
                let mut l = String::from_str("step \"");
                l.append(n.as_str());
                if ok {
                    l.append("\": ok");
                } else {
                    l.append("\": failed");
                }
                proof {
                    reveal_strlit("step \"");
                    reveal_strlit("\": ok");
                    reveal_strlit("\": failed");
                }
                assert(l@ =~= step_line(n@, ok));
                Some(l)
            },
            None => None,
        }
    }

    /// Begins a broadcast-all step with this node's payload: the request frame.
    pub fn broadcast_all_request(&mut self, data: Vec<u8>) -> (r: Result<Vec<u8>, ClientError>)
        ensures
            final(self).step_spec() == next_step(old(self).step_spec()),
            match r {
                Ok(v) => v@ == frame(MessageView::BroadcastAllSend(data@)) && body(
                    MessageView::BroadcastAllSend(data@),
                ).len() <= MAX_MESSAGE_SIZE,
                Err(e) => e == ClientError::Encode(EncodeError::TooLarge) && body(
                    MessageView::BroadcastAllSend(data@),
                ).len() > MAX_MESSAGE_SIZE,
            },
            final(self).step_name_spec() == old(self).step_name_spec(),
            final(self).index_spec() == old(self).index_spec(),
            final(self).nodes_spec() == old(self).nodes_spec(),
            final(self).wf() == old(self).wf(),
    {
        self.begin_step();
        match request_frame(IpcMessage::BroadcastAllSend(data)) {
            Ok(v) => Ok(v),
            Err(e) => Err(ClientError::Encode(e)),
        }
    }

    /// Begins a broadcast-all step with a string: the request frame, whose
    /// payload decodes back to `data`.
    pub fn broadcast_all_string_request(&mut self, data: &str) -> (r: Result<Vec<u8>, ClientError>)
        ensures
            final(self).step_spec() == next_step(old(self).step_spec()),
            match r {
                Ok(v) => exists|p: Seq<u8>|
                    utf8_decode(p) == Some(data@) && v@ == frame(MessageView::BroadcastAllSend(p)) && body(
                        MessageView::BroadcastAllSend(p),
                    ).len() <= MAX_MESSAGE_SIZE,
                Err(e) => e == ClientError::Encode(EncodeError::TooLarge) && exists|p: Seq<u8>|
                    utf8_decode(p) == Some(data@) && body(MessageView::BroadcastAllSend(p)).len()
                        > MAX_MESSAGE_SIZE,
            },
            final(self).step_name_spec() == old(self).step_name_spec(),
            final(self).index_spec() == old(self).index_spec(),
            final(self).nodes_spec() == old(self).nodes_spec(),
            final(self).wf() == old(self).wf(),
    {
        let p = utf8_bytes(data);
        self.broadcast_all_request(p)
    }

    /// Begins a broadcast-one step as its sender: the request frame.
    pub fn send_request(&mut self, data: Vec<u8>) -> (r: Result<Vec<u8>, ClientError>)
        ensures
            final(self).step_spec() == next_step(old(self).step_spec()),
            match r {
                Ok(v) => v@ == frame(MessageView::Send(data@)) && body(
                    MessageView::Send(data@),
                ).len() <= MAX_MESSAGE_SIZE,
                Err(e) => e == ClientError::Encode(EncodeError::TooLarge) && body(
                    MessageView::Send(data@),
                ).len() > MAX_MESSAGE_SIZE,
            },
            final(self).step_name_spec() == old(self).step_name_spec(),
            final(self).index_spec() == old(self).index_spec(),
            final(self).nodes_spec() == old(self).nodes_spec(),
            final(self).wf() == old(self).wf(),
    {
        self.begin_step();
        match request_frame(IpcMessage::Send(data)) {
            Ok(v) => Ok(v),
            Err(e) => Err(ClientError::Encode(e)),
        }
    }

    /// Begins a broadcast-one step as its sender of a string: the request frame,
    /// whose payload decodes back to `data`.
    pub fn send_string_request(&mut self, data: &str) -> (r: Result<Vec<u8>, ClientError>)
        ensures
            final(self).step_spec() == next_step(old(self).step_spec()),
            match r {
                Ok(v) => exists|p: Seq<u8>|
                    utf8_decode(p) == Some(data@) && v@ == frame(MessageView::Send(p)) && body(
                        MessageView::Send(p),
                    ).len() <= MAX_MESSAGE_SIZE,
                Err(e) => e == ClientError::Encode(EncodeError::TooLarge) && exists|p: Seq<u8>|
                    utf8_decode(p) == Some(data@) && body(MessageView::Send(p)).len()
                        > MAX_MESSAGE_SIZE,
            },
            final(self).step_name_spec() == old(self).step_name_spec(),
            final(self).index_spec() == old(self).index_spec(),
            final(self).nodes_spec() == old(self).nodes_spec(),
            final(self).wf() == old(self).wf(),
    {
        let p = utf8_bytes(data);
        self.send_request(p)
    }

    /// Begins a broadcast-one step as a receiver: the request frame.
    pub fn receive_request(&mut self) -> (r: Vec<u8>)
        ensures
            final(self).step_spec() == next_step(old(self).step_spec()),
            r@ == frame(MessageView::Receive),
            final(self).step_name_spec() == old(self).step_name_spec(),
            final(self).index_spec() == old(self).index_spec(),
            final(self).nodes_spec() == old(self).nodes_spec(),
            final(self).wf() == old(self).wf(),
    {
        self.begin_step();
        match request_frame(IpcMessage::Receive) {
            Ok(v) => v,
            Err(_) => Vec::new(),
        }
    }

    /// Begins a broadcast-one step as a waiter: the request frame.
    pub fn wait_request(&mut self) -> (r: Vec<u8>)
        ensures
            final(self).step_spec() == next_step(old(self).step_spec()),
            r@ == frame(MessageView::Wait),
            final(self).step_name_spec() == old(self).step_name_spec(),
            final(self).index_spec() == old(self).index_spec(),
            final(self).nodes_spec() == old(self).nodes_spec(),
            final(self).wf() == old(self).wf(),
    {
        self.begin_step();
        match request_frame(IpcMessage::Wait) {
            Ok(v) => v,
            Err(_) => Vec::new(),
        }
    }
}

} // verus!
