//! Framed, little-endian wire format of the messages between a node and the switch.
use vstd::prelude::*;
use vstd::slice::slice_subrange;
use vstd::slice::slice_to_vec;

verus! {

/// Largest body, in bytes, that a frame may declare.
pub const MAX_MESSAGE_SIZE: usize = 65536;

/// A message exchanged between a node and the switch.
#[derive(Clone, Debug, PartialEq, Eq)]
pub enum IpcMessage {
    /// Broadcast-one payload: a request from the sender, a reply to each receiver.
    Send(Vec<u8>),
    /// Broadcast-one request of a receiver.
    Receive,
    /// Broadcast-one request of a waiter, and the reply to the sender and waiters.
    Wait,
    /// Broadcast-all request with this node's payload.
    BroadcastAllSend(Vec<u8>),
    /// Broadcast-all reply: every node's payload, indexed by node.
    BroadcastAllRecv(Vec<Vec<u8>>),
}

/// Mathematical model of an [`IpcMessage`].
pub enum MessageView {
    Send(Seq<u8>),
    Receive,
    Wait,
    BroadcastAllSend(Seq<u8>),
    BroadcastAllRecv(Seq<Seq<u8>>),
}

pub open spec fn payloads_view(ps: Seq<Vec<u8>>) -> Seq<Seq<u8>> {
    ps.map_values(|p: Vec<u8>| p@)
}

impl View for IpcMessage {
    type V = MessageView;

    open spec fn view(&self) -> MessageView {
        match self {
            IpcMessage::Send(p) => MessageView::Send(p@),
            IpcMessage::Receive => MessageView::Receive,
            IpcMessage::Wait => MessageView::Wait,
            IpcMessage::BroadcastAllSend(p) => MessageView::BroadcastAllSend(p@),
            IpcMessage::BroadcastAllRecv(ps) => MessageView::BroadcastAllRecv(payloads_view(ps@)),
        }
    }
}

/// Why a buffer does not start with a valid frame.
#[derive(Clone, Copy, Debug, PartialEq, Eq, Structural)]
pub enum DecodeError {
    /// The frame declares a body longer than [`MAX_MESSAGE_SIZE`].
    TooLarge,
    /// The body is not the encoding of any message.
    Malformed,
}

/// Why a message cannot be framed.
#[derive(Clone, Copy, Debug, PartialEq, Eq, Structural)]
pub enum EncodeError {
    /// The body would be longer than [`MAX_MESSAGE_SIZE`].
    TooLarge,
}

/// Four little-endian bytes of `x`.
pub open spec fn le32(x: u32) -> Seq<u8> {
    seq![
        (x & 0xff) as u8,
        ((x >> 8u32) & 0xff) as u8,
        ((x >> 16u32) & 0xff) as u8,
        ((x >> 24u32) & 0xff) as u8,
    ]
}

/// The integer that the first four bytes of `s` hold, little-endian.
pub open spec fn u32_le(s: Seq<u8>) -> u32 {
    (s[0] as u32) | ((s[1] as u32) << 8u32) | ((s[2] as u32) << 16u32) | ((s[3] as u32) << 24u32)
}

/// A byte string: its length in four bytes, then its bytes.
pub open spec fn enc_bytes(p: Seq<u8>) -> Seq<u8> {
    le32(p.len() as u32) + p
}

/// Byte strings one after another.
pub open spec fn enc_list(ps: Seq<Seq<u8>>) -> Seq<u8>
    decreases ps.len(),
{
    if ps.len() == 0 {
        Seq::empty()
    } else {
        enc_bytes(ps[0]) + enc_list(ps.skip(1))
    }
}

/// The tag of each kind of message.
pub open spec fn tag_of(m: MessageView) -> u32 {
    match m {
        MessageView::Send(_) => 0,
        MessageView::Receive => 1,
        MessageView::Wait => 2,
        MessageView::BroadcastAllSend(_) => 3,
        MessageView::BroadcastAllRecv(_) => 4,
    }
}

/// The body of a frame: the tag, then the fields.
pub open spec fn body(m: MessageView) -> Seq<u8> {
    le32(tag_of(m)) + match m {
        MessageView::Send(p) => enc_bytes(p),
        MessageView::Receive => Seq::empty(),
        MessageView::Wait => Seq::empty(),
        MessageView::BroadcastAllSend(p) => enc_bytes(p),
        MessageView::BroadcastAllRecv(ps) => le32(ps.len() as u32) + enc_list(ps),
    }
}

/// A whole frame: the body's length in four bytes, then the body.
pub open spec fn frame(m: MessageView) -> Seq<u8> {
    le32(body(m).len() as u32) + body(m)
}

/// Reads a byte string from the start of `s`, with the number of bytes it took.
pub open spec fn parse_bytes(s: Seq<u8>) -> Option<(Seq<u8>, int)> {
    if s.len() < 4 {
        None
    } else {
        let n = u32_le(s) as int;
        if s.len() < 4 + n {
            None
        } else {
            Some((s.subrange(4, 4 + n), 4 + n))
        }
    }
}

/// Reads `count` byte strings from the start of `s`, with the number of bytes they took.
pub open spec fn parse_list(s: Seq<u8>, count: nat) -> Option<(Seq<Seq<u8>>, int)>
    decreases count,
{
    if count == 0 {
        Some((Seq::empty(), 0))
    } else {
        match parse_bytes(s) {
            None => None,
            Some((p, n)) => match parse_list(s.skip(n), (count - 1) as nat) {
                None => None,
                Some((ps, m)) => Some((seq![p] + ps, n + m)),
            },
        }
    }
}

/// Reads the payload of a message that carries one byte string: all of `s`.
pub open spec fn parse_payload(s: Seq<u8>) -> Option<Seq<u8>> {
    match parse_bytes(s) {
        Some((p, n)) => if n == s.len() {
            Some(p)
        } else {
            None
        },
        None => None,
    }
}

/// The message whose body is exactly `b`, if there is one.
pub open spec fn parse_body(b: Seq<u8>) -> Option<MessageView> {
    if b.len() < 4 {
        None
    } else {
        let tag = u32_le(b);
        let rest = b.skip(4);
        if tag == 0 {
            match parse_payload(rest) {
                Some(p) => Some(MessageView::Send(p)),
                None => None,
            }
        } else if tag == 1 {
            if rest.len() == 0 {
                Some(MessageView::Receive)
            } else {
                None
            }
        } else if tag == 2 {
            if rest.len() == 0 {
                Some(MessageView::Wait)
            } else {
                None
            }
        } else if tag == 3 {
            match parse_payload(rest) {
                Some(p) => Some(MessageView::BroadcastAllSend(p)),
                None => None,
            }
        } else if tag == 4 {
            if rest.len() < 4 {
                None
            } else {
                match parse_list(rest.skip(4), u32_le(rest) as nat) {
                    Some((ps, n)) => if n == rest.len() - 4 {
                        Some(MessageView::BroadcastAllRecv(ps))
                    } else {
                        None
                    },
                    None => None,
                }
            }
        } else {
            None
        }
    }
}

/// What the start of a buffer holds: a whole frame and its length, not yet a whole
/// frame (`Ok(None)`), or a frame that is refused.
pub open spec fn parse_frame(s: Seq<u8>) -> Result<Option<(MessageView, int)>, DecodeError> {
    if s.len() < 4 {
        Ok(None)
    } else {
        let n = u32_le(s) as int;
        if n > MAX_MESSAGE_SIZE {
            Err(DecodeError::TooLarge)
        } else if s.len() < 4 + n {
            Ok(None)
        } else {
            match parse_body(s.subrange(4, 4 + n)) {
                Some(m) => Ok(Some((m, 4 + n))),
                None => Err(DecodeError::Malformed),
            }
        }
    }
}

proof fn lemma_le32_round_trip(x: u32)
    ensures
        u32_le(le32(x)) == x,
        le32(x).len() == 4,
{
    let b0 = (x & 0xff) as u8;
    let b1 = ((x >> 8u32) & 0xff) as u8;
    let b2 = ((x >> 16u32) & 0xff) as u8;
    let b3 = ((x >> 24u32) & 0xff) as u8;
    assert((b0 as u32) | ((b1 as u32) << 8u32) | ((b2 as u32) << 16u32) | ((b3 as u32) << 24u32)
        == x) by (bit_vector)
        requires
            b0 == (x & 0xff) as u8,
            b1 == ((x >> 8u32) & 0xff) as u8,
            b2 == ((x >> 16u32) & 0xff) as u8,
            b3 == ((x >> 24u32) & 0xff) as u8,
    ;
}


/// Appends the four little-endian bytes of `x`.
fn push_u32(out: &mut Vec<u8>, x: u32)
    ensures
        final(out)@ == old(out)@ + le32(x),
{
    out.push((x & 0xff) as u8);
    out.push(((x >> 8u32) & 0xff) as u8);
    out.push(((x >> 16u32) & 0xff) as u8);
    out.push(((x >> 24u32) & 0xff) as u8);
    assert(final(out)@ =~= old(out)@ + le32(x));
}

/// The little-endian integer in `buf[pos..pos + 4]`.
fn read_u32(buf: &[u8], pos: usize) -> (r: u32)
    requires
        pos + 4 <= buf@.len(),
    ensures
        r == u32_le(buf@.subrange(pos as int, pos + 4)),
{
    (buf[pos] as u32) | ((buf[pos + 1] as u32) << 8u32) | ((buf[pos + 2] as u32) << 16u32) | ((
    buf[pos + 3] as u32) << 24u32)
}

/// Appends a byte string with its length.
fn push_bytes(out: &mut Vec<u8>, p: &Vec<u8>)
    requires
        p@.len() <= u32::MAX,
    ensures
        final(out)@ == old(out)@ + enc_bytes(p@),
{
    push_u32(out, p.len() as u32);
    let mut i: usize = 0;
    while i < p.len()
        invariant
            i <= p@.len(),
            out@ == old(out)@ + le32(p@.len() as u32) + p@.take(i as int),
        decreases p@.len() - i,
    {
        out.push(p[i]);
        i = i + 1;
        assert(out@ =~= old(out)@ + le32(p@.len() as u32) + p@.take(i as int));
    }
    assert(p@.take(i as int) =~= p@);
}

proof fn lemma_enc_list_split(ps: Seq<Seq<u8>>, j: int)
    requires
        0 <= j <= ps.len(),
    ensures
        enc_list(ps) == enc_list(ps.take(j)) + enc_list(ps.skip(j)),
    decreases j,
{
    if j == 0 {
        assert(ps.take(0) =~= Seq::<Seq<u8>>::empty());
        assert(ps.skip(0) =~= ps);
        assert(enc_list(ps) =~= Seq::<u8>::empty() + enc_list(ps));
    } else {
        lemma_enc_list_split(ps.skip(1), j - 1);
        assert(ps.take(j).skip(1) =~= ps.skip(1).take(j - 1));
        assert(ps.skip(1).skip(j - 1) =~= ps.skip(j));
        assert(ps.take(j)[0] == ps[0]);
        assert(enc_list(ps) =~= enc_list(ps.take(j)) + enc_list(ps.skip(j)));
    }
}

proof fn lemma_enc_list_one(p: Seq<u8>)
    ensures
        enc_list(seq![p]) == enc_bytes(p),
{
    assert(seq![p].skip(1) =~= Seq::<Seq<u8>>::empty());
    assert(enc_list(Seq::<Seq<u8>>::empty()) == Seq::<u8>::empty());
    assert(enc_list(seq![p]) =~= enc_bytes(p) + Seq::<u8>::empty());
}

proof fn lemma_enc_list_len(ps: Seq<Seq<u8>>)
    ensures
        enc_list(ps).len() >= 4 * ps.len(),
    decreases ps.len(),
{
    if ps.len() > 0 {
        lemma_enc_list_len(ps.skip(1));
    }
}

/// Frames `msg`: its body's length in four little-endian bytes, then the body.
///
/// A message whose body would exceed [`MAX_MESSAGE_SIZE`] is refused here, as
/// the receiving side would refuse it.
pub fn encode(msg: &IpcMessage) -> (r: Result<Vec<u8>, EncodeError>)
    ensures
        match r {
            Ok(v) => v@ == frame(msg@) && body(msg@).len() <= MAX_MESSAGE_SIZE,
            Err(_) => body(msg@).len() > MAX_MESSAGE_SIZE,
        },
{
    let mut b: Vec<u8> = Vec::new();
    match msg {
        IpcMessage::Send(p) => {
            if p.len() > MAX_MESSAGE_SIZE - 8 {
                return Err(EncodeError::TooLarge);
            }
            push_u32(&mut b, 0);
            push_bytes(&mut b, p);
        },
        IpcMessage::Receive => {
            push_u32(&mut b, 1);
        },
        IpcMessage::Wait => {
            push_u32(&mut b, 2);
        },
        IpcMessage::BroadcastAllSend(p) => {
            if p.len() > MAX_MESSAGE_SIZE - 8 {
                return Err(EncodeError::TooLarge);
            }
            push_u32(&mut b, 3);
            push_bytes(&mut b, p);
        },
        IpcMessage::BroadcastAllRecv(ps) => {
            let ghost pv = payloads_view(ps@);
            assert(msg@ == MessageView::BroadcastAllRecv(pv));
            proof {
                lemma_enc_list_len(pv);
            }
            if ps.len() > (MAX_MESSAGE_SIZE - 8) / 4 {
                return Err(EncodeError::TooLarge);
            }
            push_u32(&mut b, 4);
            push_u32(&mut b, ps.len() as u32);
            let mut k: usize = 0;
            while k < ps.len()
                invariant
                    k <= ps@.len(),
                    pv == payloads_view(ps@),
                    msg@ == MessageView::BroadcastAllRecv(pv),
                    ps@.len() <= (MAX_MESSAGE_SIZE - 8) / 4,
                    b@ == le32(4) + le32(ps@.len() as u32) + enc_list(pv.take(k as int)),
                    b@.len() <= MAX_MESSAGE_SIZE,
                decreases ps@.len() - k,
            {
                let p = &ps[k];
                proof {
                    lemma_enc_list_split(pv.take(k + 1), k as int);
                    assert(pv.take(k + 1).take(k as int) =~= pv.take(k as int));
                    assert(pv.take(k + 1).skip(k as int) =~= seq![p@]);
                    lemma_enc_list_one(p@);
                    lemma_enc_list_split(pv, k + 1);
                    assert(body(msg@) =~= le32(4) + le32(ps@.len() as u32) + enc_list(pv));
                }
                if p.len() > MAX_MESSAGE_SIZE - b.len() || MAX_MESSAGE_SIZE - b.len() - p.len() < 4 {
                    return Err(EncodeError::TooLarge);
                }
                push_bytes(&mut b, p);
                k = k + 1;
            }
            assert(pv.take(k as int) =~= pv);
        },
    }
    assert(b@ =~= body(msg@));
    let mut out: Vec<u8> = Vec::new();
    push_u32(&mut out, b.len() as u32);
    out.append(&mut b);
    Ok(out)
}


/// The model of what [`decode`] returns.
pub open spec fn decoded_view(r: Result<Option<(IpcMessage, usize)>, DecodeError>) -> Result<
    Option<(MessageView, int)>,
    DecodeError,
> {
    match r {
        Ok(Some((m, n))) => Ok(Some((m@, n as int))),
        Ok(None) => Ok(None),
        Err(e) => Err(e),
    }
}

/// Reads the byte string at the start of `buf[pos..end]`, with where it ends.
fn read_bytes(buf: &[u8], pos: usize, end: usize) -> (r: Option<(Vec<u8>, usize)>)
    requires
        pos <= end <= buf@.len(),
    ensures
        match r {
            Some((p, next)) => pos <= next <= end && parse_bytes(buf@.subrange(pos as int, end as int))
                == Some((p@, next - pos)),
            None => parse_bytes(buf@.subrange(pos as int, end as int)) is None,
        },
{
    let ghost s = buf@.subrange(pos as int, end as int);
    if end - pos < 4 {
        return None;
    }
    let n = read_u32(buf, pos);
    assert(n == u32_le(s));
    if end - pos - 4 < n as usize {
        return None;
    }
    let next = pos + 4 + n as usize;
    let p = slice_to_vec(slice_subrange(buf, pos + 4, next));
    assert(p@ =~= s.subrange(4, 4 + n));
    Some((p, next))
}

/// Reads a message that carries one byte string filling `buf[pos..end]`.
fn read_payload(buf: &[u8], pos: usize, end: usize) -> (r: Option<Vec<u8>>)
    requires
        pos <= end <= buf@.len(),
    ensures
        match r {
            Some(p) => parse_payload(buf@.subrange(pos as int, end as int)) == Some(p@),
            None => parse_payload(buf@.subrange(pos as int, end as int)) is None,
        },
{
    match read_bytes(buf, pos, end) {
        Some((p, next)) => if next == end {
            Some(p)
        } else {
            None
        },
        None => None,
    }
}

/// Reads `count` byte strings that fill `buf[start..end]`.
fn read_list(buf: &[u8], start: usize, end: usize, count: u32) -> (r: Option<Vec<Vec<u8>>>)
    requires
        start <= end <= buf@.len(),
    ensures
        match r {
            Some(ps) => parse_list(buf@.subrange(start as int, end as int), count as nat) == Some(
                (payloads_view(ps@), end - start),
            ),
            None => match parse_list(buf@.subrange(start as int, end as int), count as nat) {
                Some((_, n)) => n != end - start,
                None => true,
            },
        },
{
    let ghost whole = buf@.subrange(start as int, end as int);
    let mut items: Vec<Vec<u8>> = Vec::new();
    let mut pos = start;
    let mut k: u32 = 0;
    while k < count
        invariant
            start <= pos <= end <= buf@.len(),
            k <= count,
            whole == buf@.subrange(start as int, end as int),
            parse_list(whole, count as nat) == match parse_list(
                buf@.subrange(pos as int, end as int),
                (count - k) as nat,
            ) {
                Some((rest, m)) => Some((payloads_view(items@) + rest, (pos - start) + m)),
                None => None::<(Seq<Seq<u8>>, int)>,
            },
        decreases count - k,
    {
        let ghost sub = buf@.subrange(pos as int, end as int);
        match read_bytes(buf, pos, end) {
            Some((p, next)) => {
                assert(sub.skip(next - pos) =~= buf@.subrange(next as int, end as int));
                let ghost old_items = payloads_view(items@);
                items.push(p);
                assert(payloads_view(items@) =~= old_items.push(p@));
                proof {
                    match parse_list(buf@.subrange(next as int, end as int), (count - k - 1) as nat) {
                        Some((rest, m)) => {
                            assert(old_items + (seq![p@] + rest) =~= payloads_view(items@) + rest);
                        },
                        None => {},
                    }
                }
                pos = next;
                k = k + 1;
            },
            None => {
                return None;
            },
        }
    }
    assert(payloads_view(items@) + Seq::<Seq<u8>>::empty() =~= payloads_view(items@));
    if pos == end {
        Some(items)
    } else {
        None
    }
}

/// Reads the message whose body is exactly `buf[start..end]`.
fn read_body(buf: &[u8], start: usize, end: usize) -> (r: Option<IpcMessage>)
    requires
        start <= end <= buf@.len(),
    ensures
        match r {
            Some(m) => parse_body(buf@.subrange(start as int, end as int)) == Some(m@),
            None => parse_body(buf@.subrange(start as int, end as int)) is None,
        },
{
    let ghost b = buf@.subrange(start as int, end as int);
    if end - start < 4 {
        return None;
    }
    let tag = read_u32(buf, start);
    assert(tag == u32_le(b));
    assert(b.skip(4) =~= buf@.subrange(start + 4, end as int));
    if tag == 0 {
        match read_payload(buf, start + 4, end) {
            Some(p) => Some(IpcMessage::Send(p)),
            None => None,
        }
    } else if tag == 1 {
        if end == start + 4 {
            Some(IpcMessage::Receive)
        } else {
            None
        }
    } else if tag == 2 {
        if end == start + 4 {
            Some(IpcMessage::Wait)
        } else {
            None
        }
    } else if tag == 3 {
        match read_payload(buf, start + 4, end) {
            Some(p) => Some(IpcMessage::BroadcastAllSend(p)),
            None => None,
        }
    } else if tag == 4 {
        if end - start < 8 {
            return None;
        }
        let count = read_u32(buf, start + 4);
        assert(count == u32_le(b.skip(4)));
        assert(b.skip(4).skip(4) =~= buf@.subrange(start + 8, end as int));
        match read_list(buf, start + 8, end, count) {
            Some(ps) => Some(IpcMessage::BroadcastAllRecv(ps)),
            None => None,
        }
    } else {
        None
    }
}

/// Reads the frame at the start of `buf`.
///
/// Returns the message and the number of bytes its frame takes; `Ok(None)` when
/// `buf` does not hold a whole frame yet; an error when the frame declares a body
/// over [`MAX_MESSAGE_SIZE`] or its body encodes no message.
pub fn decode(buf: &[u8]) -> (r: Result<Option<(IpcMessage, usize)>, DecodeError>)
    ensures
        decoded_view(r) == parse_frame(buf@),
{
    if buf.len() < 4 {
        return Ok(None);
    }
    let n = read_u32(buf, 0);
    assert(n == u32_le(buf@)) by {
        assert(buf@.subrange(0, 4)[0] == buf@[0]);
    };
    if n as usize > MAX_MESSAGE_SIZE {
        return Err(DecodeError::TooLarge);
    }
    if buf.len() - 4 < n as usize {
        return Ok(None);
    }
    let end = 4 + n as usize;
    match read_body(buf, 4, end) {
        Some(m) => Ok(Some((m, end))),
        None => Err(DecodeError::Malformed),
    }
}


proof fn lemma_parse_bytes(p: Seq<u8>, rest: Seq<u8>)
    requires
        p.len() <= MAX_MESSAGE_SIZE,
    ensures
        parse_bytes(enc_bytes(p) + rest) == Some((p, 4 + p.len() as int)),
{
    lemma_le32_round_trip(p.len() as u32);
    let s = enc_bytes(p) + rest;
    assert(s.subrange(4, 4 + p.len() as int) =~= p);
    assert(u32_le(s) == u32_le(le32(p.len() as u32)));
}

proof fn lemma_parse_list_step(s: Seq<u8>, count: nat, p: Seq<u8>, n: int, ps: Seq<Seq<u8>>, m: int)
    requires
        count > 0,
        parse_bytes(s) == Some((p, n)),
        parse_list(s.skip(n), (count - 1) as nat) == Some((ps, m)),
    ensures
        parse_list(s, count) == Some((seq![p] + ps, n + m)),
{
}

proof fn lemma_concat_assoc(a: Seq<u8>, b: Seq<u8>, c: Seq<u8>)
    ensures
        (a + b) + c == a + (b + c),
{
    assert((a + b) + c =~= a + (b + c));
}

proof fn lemma_skip_prefix(a: Seq<u8>, b: Seq<u8>)
    ensures
        (a + b).skip(a.len() as int) == b,
{
    assert((a + b).skip(a.len() as int) =~= b);
}

proof fn lemma_enc_list_unfold(ps: Seq<Seq<u8>>)
    requires
        ps.len() > 0,
    ensures
        enc_list(ps) == enc_bytes(ps[0]) + enc_list(ps.skip(1)),
        enc_bytes(ps[0]).len() == 4 + ps[0].len(),
        seq![ps[0]] + ps.skip(1) == ps,
{
    assert(seq![ps[0]] + ps.skip(1) =~= ps);
}

#[verifier::spinoff_prover]
proof fn lemma_parse_list(ps: Seq<Seq<u8>>, rest: Seq<u8>)
    requires
        enc_list(ps).len() <= MAX_MESSAGE_SIZE,
    ensures
        parse_list(enc_list(ps) + rest, ps.len()) == Some((ps, enc_list(ps).len() as int)),
    decreases ps.len(),
{
    if ps.len() == 0 {
        assert(ps =~= Seq::<Seq<u8>>::empty());
    } else {
        let tl = ps.skip(1);
        let head = enc_bytes(ps[0]);
        let tail = enc_list(tl) + rest;
        let s = enc_list(ps) + rest;
        lemma_enc_list_unfold(ps);
        lemma_concat_assoc(head, enc_list(tl), rest);
        let n = 4 + ps[0].len() as int;
        lemma_parse_bytes(ps[0], tail);
        lemma_skip_prefix(head, tail);
        assert(s.skip(n) == tail);
        lemma_parse_list(tl, rest);
        let m = enc_list(tl).len() as int;
        lemma_parse_list_step(s, ps.len(), ps[0], n, tl, m);
    }
}

proof fn lemma_parse_payload(p: Seq<u8>)
    requires
        p.len() <= MAX_MESSAGE_SIZE,
    ensures
        parse_payload(enc_bytes(p)) == Some(p),
{
    lemma_parse_bytes(p, Seq::empty());
    assert(enc_bytes(p) + Seq::<u8>::empty() =~= enc_bytes(p));
}

/// Decoding undoes encoding: a buffer that starts with the frame of a message
/// whose body fits [`MAX_MESSAGE_SIZE`] decodes to that message, and the frame's
/// length is what is consumed, whatever follows it.
pub proof fn lemma_frame_round_trip(m: MessageView, rest: Seq<u8>)
    requires
        body(m).len() <= MAX_MESSAGE_SIZE,
    ensures
        parse_frame(frame(m) + rest) == Ok::<Option<(MessageView, int)>, DecodeError>(
            Some((m, frame(m).len() as int)),
        ),
{
    let b = body(m);
    let s = frame(m) + rest;
    lemma_le32_round_trip(b.len() as u32);
    lemma_le32_round_trip(tag_of(m));
    assert(u32_le(s) == u32_le(le32(b.len() as u32)));
    assert(s.subrange(4, 4 + b.len() as int) =~= b);
    assert(u32_le(b) == u32_le(le32(tag_of(m))));
    let fields = b.skip(4);
    match m {
        MessageView::Send(p) => {
            assert(fields =~= enc_bytes(p));
            lemma_parse_payload(p);
        },
        MessageView::Receive => {
            assert(fields.len() == 0);
        },
        MessageView::Wait => {
            assert(fields.len() == 0);
        },
        MessageView::BroadcastAllSend(p) => {
            assert(fields =~= enc_bytes(p));
            lemma_parse_payload(p);
        },
        MessageView::BroadcastAllRecv(ps) => {
            lemma_enc_list_len(ps);
            lemma_le32_round_trip(ps.len() as u32);
            assert(fields =~= le32(ps.len() as u32) + enc_list(ps));
            assert(u32_le(fields) == u32_le(le32(ps.len() as u32)));
            assert(fields.skip(4) =~= enc_list(ps) + Seq::<u8>::empty());
            lemma_parse_list(ps, Seq::empty());
        },
    }
}

} // verus!
