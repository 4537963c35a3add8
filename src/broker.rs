//! The switch's broadcast state machine.
//!
//! Each node is in one [`NodeState`]. A node's request moves it out of `Idle`;
//! once the step that the requests make up is complete, the broker answers
//! every participant and they return to `Idle`. A node that exits or is cut off
//! stops counting, and a participant whose step can no longer complete is cut
//! off in turn, so that it sees an error instead of waiting forever.
use vstd::prelude::*;
use crate::message::IpcMessage;
use crate::message::MessageView;
use crate::message::payloads_view;
use crate::message::body;
use crate::message::encode;
use crate::message::MAX_MESSAGE_SIZE;

verus! {

/// Where a node stands in the current step, as the switch sees it.
#[derive(Debug, PartialEq, Eq)]
pub enum NodeState {
    /// No request pending.
    Idle,
    /// Broadcast-one sender, with its payload.
    OneSender(Vec<u8>),
    /// Broadcast-one receiver.
    OneReceiver,
    /// Broadcast-one waiter.
    OneWaiter,
    /// Broadcast-all participant, with its payload.
    AllSender(Vec<u8>),
    /// Cut off by the switch: its pipes are closed and it is expected to exit.
    Closed,
    /// Exited.
    Dead,
}

/// Mathematical model of a [`NodeState`].
pub enum StateView {
    Idle,
    OneSender(Seq<u8>),
    OneReceiver,
    OneWaiter,
    AllSender(Seq<u8>),
    Closed,
    Dead,
}

impl View for NodeState {
    type V = StateView;

    open spec fn view(&self) -> StateView {
        match self {
            NodeState::Idle => StateView::Idle,
            NodeState::OneSender(p) => StateView::OneSender(p@),
            NodeState::OneReceiver => StateView::OneReceiver,
            NodeState::OneWaiter => StateView::OneWaiter,
            NodeState::AllSender(p) => StateView::AllSender(p@),
            NodeState::Closed => StateView::Closed,
            NodeState::Dead => StateView::Dead,
        }
    }
}

/// What the switch must do, in the order given.
#[derive(Debug, PartialEq, Eq)]
pub enum Action {
    /// Write this message to the node.
    Reply(usize, IpcMessage),
    /// Close the node's pipes.
    Close(usize),
}

/// Mathematical model of an [`Action`].
pub enum ActionView {
    Reply(int, MessageView),
    Close(int),
}

impl View for Action {
    type V = ActionView;

    open spec fn view(&self) -> ActionView {
        match self {
            Action::Reply(i, m) => ActionView::Reply(*i as int, m@),
            Action::Close(i) => ActionView::Close(*i as int),
        }
    }
}

pub open spec fn actions_view(a: Seq<Action>) -> Seq<ActionView> {
    a.map_values(|x: Action| x@)
}

/// A fault that ends the whole network.
#[derive(Clone, Copy, Debug, PartialEq, Eq, Structural)]
pub enum BrokerError {
    /// A second node asked to send in a broadcast-one step.
    MultipleSenders,
}

/// The switch's view of every node, indexed by node.
pub struct Broker {
    states: Vec<NodeState>,
}

impl View for Broker {
    type V = Seq<StateView>;

    closed spec fn view(&self) -> Seq<StateView> {
        self.states@.map_values(|st: NodeState| st@)
    }
}

pub open spec fn is_live(st: StateView) -> bool {
    !(st is Closed || st is Dead)
}

pub open spec fn is_one(st: StateView) -> bool {
    st is OneSender || st is OneReceiver || st is OneWaiter
}

pub open spec fn payload_of(st: StateView) -> Seq<u8> {
    match st {
        StateView::OneSender(p) => p,
        StateView::AllSender(p) => p,
        _ => Seq::empty(),
    }
}

/// Some node has exited or been cut off.
pub open spec fn any_down(s: Seq<StateView>) -> bool {
    exists|k: int| 0 <= k < s.len() && !is_live(#[trigger] s[k])
}

/// At most one node is a broadcast-one sender.
pub open spec fn at_most_one_sender(s: Seq<StateView>) -> bool {
    forall|i: int, j: int|
        0 <= i < s.len() && 0 <= j < s.len() && (#[trigger] s[i]) is OneSender && (#[trigger] s[j]) is OneSender
            ==> i == j
}

pub open spec fn has_sender(s: Seq<StateView>) -> bool {
    exists|k: int| 0 <= k < s.len() && (#[trigger] s[k]) is OneSender
}

pub open spec fn has_receiver(s: Seq<StateView>) -> bool {
    exists|k: int| 0 <= k < s.len() && (#[trigger] s[k]) is OneReceiver
}

/// The payload of the broadcast-one sender, if there is one.
pub open spec fn sender_payload(s: Seq<StateView>) -> Seq<u8> {
    payload_of(s[choose|k: int| 0 <= k < s.len() && (#[trigger] s[k]) is OneSender])
}

/// Every node has sent its broadcast-all payload.
pub open spec fn all_sent(s: Seq<StateView>) -> bool {
    s.len() > 0 && forall|k: int| 0 <= k < s.len() ==> (#[trigger] s[k]) is AllSender
}

/// Every node that still counts is in a broadcast-one step.
pub open spec fn one_ready(s: Seq<StateView>) -> bool {
    forall|k: int| 0 <= k < s.len() && is_live(#[trigger] s[k]) ==> is_one(s[k])
}

/// The payloads of a complete broadcast-all step, indexed by node.
pub open spec fn all_payloads(s: Seq<StateView>) -> Seq<Seq<u8>> {
    Seq::new(s.len(), |k: int| payload_of(s[k]))
}

/// A broadcast-all participant that waits for a node that will never send.
pub open spec fn doomed(s: Seq<StateView>, k: int) -> bool {
    s[k] is AllSender && any_down(s)
}

/// `Close` for each doomed node below `k`, in order.
pub open spec fn doomed_closes(s: Seq<StateView>, k: int) -> Seq<ActionView>
    decreases k,
{
    if k <= 0 {
        Seq::empty()
    } else {
        doomed_closes(s, k - 1) + if doomed(s, k - 1) {
            seq![ActionView::Close(k - 1)]
        } else {
            Seq::empty()
        }
    }
}

/// The broadcast-all reply for each node below `k`, in order.
pub open spec fn all_replies(s: Seq<StateView>, k: int) -> Seq<ActionView>
    decreases k,
{
    if k <= 0 {
        Seq::empty()
    } else {
        all_replies(s, k - 1) + seq![
            ActionView::Reply(k - 1, MessageView::BroadcastAllRecv(all_payloads(s))),
        ]
    }
}

/// The payload for each broadcast-one receiver below `k`, in order.
pub open spec fn receiver_replies(s: Seq<StateView>, p: Seq<u8>, k: int) -> Seq<ActionView>
    decreases k,
{
    if k <= 0 {
        Seq::empty()
    } else {
        receiver_replies(s, p, k - 1) + if s[k - 1] is OneReceiver {
            seq![ActionView::Reply(k - 1, MessageView::Send(p))]
        } else {
            Seq::empty()
        }
    }
}

/// `Wait` for the broadcast-one sender and each waiter below `k`, in order.
pub open spec fn waiter_replies(s: Seq<StateView>, k: int) -> Seq<ActionView>
    decreases k,
{
    if k <= 0 {
        Seq::empty()
    } else {
        waiter_replies(s, k - 1) + if s[k - 1] is OneSender || s[k - 1] is OneWaiter {
            seq![ActionView::Reply(k - 1, MessageView::Wait)]
        } else {
            Seq::empty()
        }
    }
}

/// `Close` for each broadcast-one participant below `k`, in order.
pub open spec fn one_closes(s: Seq<StateView>, k: int) -> Seq<ActionView>
    decreases k,
{
    if k <= 0 {
        Seq::empty()
    } else {
        one_closes(s, k - 1) + if is_one(s[k - 1]) {
            seq![ActionView::Close(k - 1)]
        } else {
            Seq::empty()
        }
    }
}

/// Cuts off the broadcast-all participants once some node is down.
pub open spec fn close_doomed(s: Seq<StateView>) -> (Seq<StateView>, Seq<ActionView>) {
    (
        Seq::new(s.len(), |k: int| if doomed(s, k) { StateView::Closed } else { s[k] }),
        doomed_closes(s, s.len() as int),
    )
}

/// `Close` for each node below `k`, in order.
pub open spec fn all_closes(k: int) -> Seq<ActionView> {
    Seq::new(k as nat, |j: int| ActionView::Close(j))
}

/// The gathered payloads of a complete broadcast-all step fit in one frame.
pub open spec fn gathered_fits(s: Seq<StateView>) -> bool {
    body(MessageView::BroadcastAllRecv(all_payloads(s))).len() <= MAX_MESSAGE_SIZE
}

/// Completes the step when it can, or cuts off its participants when it never can.
///
/// A broadcast-all step completes when every node has sent: its reply holds one
/// payload per node, at the node's position, and a node that is down has none to
/// give, so once some node is down the step can never complete (see
/// [`close_doomed`]). When the gathered payloads do not fit in one frame, no node
/// can be answered, and every participant is cut off. A broadcast-one step
/// completes when every node that counts has made a broadcast-one request and
/// there is a sender, or there is no receiver; with receivers and no sender it can
/// never complete.
pub open spec fn resolve(s: Seq<StateView>) -> (Seq<StateView>, Seq<ActionView>) {
    if all_sent(s) {
        if gathered_fits(s) {
            (Seq::new(s.len(), |k: int| StateView::Idle), all_replies(s, s.len() as int))
        } else {
            (Seq::new(s.len(), |k: int| StateView::Closed), all_closes(s.len() as int))
        }
    } else if one_ready(s) && (has_sender(s) || !has_receiver(s)) {
        (
            Seq::new(s.len(), |k: int| if is_one(s[k]) { StateView::Idle } else { s[k] }),
            receiver_replies(s, sender_payload(s), s.len() as int) + waiter_replies(
                s,
                s.len() as int,
            ),
        )
    } else if one_ready(s) {
        (
            Seq::new(s.len(), |k: int| if is_one(s[k]) { StateView::Closed } else { s[k] }),
            one_closes(s, s.len() as int),
        )
    } else {
        (s, Seq::empty())
    }
}

/// What the broker does after any change of a node's state.
pub open spec fn settle(s: Seq<StateView>) -> (Seq<StateView>, Seq<ActionView>) {
    let (s1, a1) = close_doomed(s);
    let (s2, a2) = resolve(s1);
    (s2, a1 + a2)
}


/// The state that a request puts an idle node in.
pub open spec fn request_state(m: MessageView) -> StateView {
    match m {
        MessageView::Send(p) => StateView::OneSender(p),
        MessageView::Receive => StateView::OneReceiver,
        MessageView::Wait => StateView::OneWaiter,
        MessageView::BroadcastAllSend(p) => StateView::AllSender(p),
        MessageView::BroadcastAllRecv(_) => StateView::Closed,
    }
}

/// Cuts node `i` off, then settles.
pub open spec fn cut_off(s: Seq<StateView>, i: int) -> (Seq<StateView>, Seq<ActionView>) {
    let (s2, a2) = settle(s.update(i, StateView::Closed));
    (s2, seq![ActionView::Close(i)] + a2)
}

/// Node `i` sends request `m`.
///
/// A node that no longer counts is ignored. A node that asks twice in one step,
/// or sends a reply instead of a request, is cut off. A second broadcast-one
/// sender is a fault of the whole network.
pub open spec fn request_step(s: Seq<StateView>, i: int, m: MessageView) -> Result<
    (Seq<StateView>, Seq<ActionView>),
    BrokerError,
> {
    if !is_live(s[i]) {
        Ok((s, Seq::empty()))
    } else if !(s[i] is Idle) || m is BroadcastAllRecv {
        Ok(cut_off(s, i))
    } else if m is Send && has_sender(s) {
        Err(BrokerError::MultipleSenders)
    } else {
        Ok(settle(s.update(i, request_state(m))))
    }
}

/// Node `i` broke the protocol (its frame was refused).
pub open spec fn failure_step(s: Seq<StateView>, i: int) -> (Seq<StateView>, Seq<ActionView>) {
    if !is_live(s[i]) {
        (s, Seq::empty())
    } else {
        cut_off(s, i)
    }
}

/// Node `i` exited.
pub open spec fn exit_step(s: Seq<StateView>, i: int) -> (Seq<StateView>, Seq<ActionView>) {
    settle(s.update(i, StateView::Dead))
}

/// A copy of a byte string.
pub(crate) fn copy_bytes(p: &Vec<u8>) -> (r: Vec<u8>)
    ensures
        r@ == p@,
{
    let mut r: Vec<u8> = Vec::new();
    let mut i: usize = 0;
    while i < p.len()
        invariant
            i <= p@.len(),
            r@ == p@.take(i as int),
        decreases p@.len() - i,
    {
        r.push(p[i]);
        i = i + 1;
        assert(r@ =~= p@.take(i as int));
    }
    assert(p@.take(i as int) =~= p@);
    r
}

/// A copy of a list of byte strings.
fn copy_payloads(ps: &Vec<Vec<u8>>) -> (r: Vec<Vec<u8>>)
    ensures
        payloads_view(r@) == payloads_view(ps@),
{
    let mut r: Vec<Vec<u8>> = Vec::new();
    let mut i: usize = 0;
    while i < ps.len()
        invariant
            i <= ps@.len(),
            payloads_view(r@) == payloads_view(ps@).take(i as int),
        decreases ps@.len() - i,
    {
        let c = copy_bytes(&ps[i]);
        let ghost before = payloads_view(r@);
        r.push(c);
        i = i + 1;
        assert(payloads_view(r@) =~= before.push(c@));
        assert(payloads_view(r@) =~= payloads_view(ps@).take(i as int));
    }
    assert(payloads_view(ps@).take(i as int) =~= payloads_view(ps@));
    r
}

/// A copy of the payload that a state carries.
fn payload_copy(st: &NodeState) -> (r: Vec<u8>)
    ensures
        r@ == payload_of(st@),
{
    match st {
        NodeState::OneSender(p) => copy_bytes(p),
        NodeState::AllSender(p) => copy_bytes(p),
        _ => Vec::new(),
    }
}

impl Broker {
    /// The broker holds at most one broadcast-one sender.
    pub open spec fn wf(&self) -> bool {
        at_most_one_sender(self@)
    }

    /// A broker for `n` nodes, all idle.
    pub fn new(n: usize) -> (r: Broker)
        ensures
            r@ == Seq::new(n as nat, |k: int| StateView::Idle),
            r.wf(),
    {
        let mut states: Vec<NodeState> = Vec::new();
        let mut i: usize = 0;
        while i < n
            invariant
                i <= n,
                states@.len() == i,
                forall|k: int| 0 <= k < i ==> (#[trigger] states@[k])@ == StateView::Idle,
            decreases n - i,
        {
            states.push(NodeState::Idle);
            i = i + 1;
        }
        let r = Broker { states };
        assert(r@ =~= Seq::new(n as nat, |k: int| StateView::Idle));
        r
    }

    /// Number of nodes.
    pub fn len(&self) -> (r: usize)
        ensures
            r == self@.len(),
    {
        self.states.len()
    }

    /// Whether node `i` still counts: it has neither exited nor been cut off.
    pub fn is_live(&self, i: usize) -> (r: bool)
        requires
            i < self@.len(),
        ensures
            r == is_live(self@[i as int]),
    {
        assert(self@[i as int] == self.states@[i as int]@);
        !matches!(self.states[i], NodeState::Closed | NodeState::Dead)
    }

    /// Whether every node has exited.
    pub fn is_finished(&self) -> (r: bool)
        ensures
            r == forall|k: int| 0 <= k < self@.len() ==> (#[trigger] self@[k]) is Dead,
    {
        let mut i: usize = 0;
        while i < self.states.len()
            invariant
                i <= self@.len(),
                forall|k: int| 0 <= k < i ==> (#[trigger] self@[k]) is Dead,
            decreases self@.len() - i,
        {
            assert(self@[i as int] == self.states@[i as int]@);
            if !matches!(self.states[i], NodeState::Dead) {
                return false;
            }
            i = i + 1;
        }
        true
    }

    fn set_state(&mut self, i: usize, st: NodeState)
        requires
            i < old(self)@.len(),
        ensures
            final(self)@ == old(self)@.update(i as int, st@),
    {
        self.states.set(i, st);
        assert(self@ =~= old(self)@.update(i as int, st@));
    }

    fn check_any_down(&self) -> (r: bool)
        ensures
            r == any_down(self@),
    {
        let mut i: usize = 0;
        while i < self.states.len()
            invariant
                i <= self@.len(),
                forall|k: int| 0 <= k < i ==> is_live(#[trigger] self@[k]),
            decreases self@.len() - i,
        {
            if !self.is_live(i) {
                return true;
            }
            i = i + 1;
        }
        false
    }

    fn close_doomed(&mut self, actions: &mut Vec<Action>)
        requires
            old(self).wf(),
        ensures
            final(self)@ == close_doomed(old(self)@).0,
            actions_view(final(actions)@) == actions_view(old(actions)@) + close_doomed(old(self)@).1,
            final(self).wf(),
    {
        let ghost s = self@;
        let down = self.check_any_down();
        let n = self.states.len();
        let mut j: usize = 0;
        while j < n
            invariant
                j <= n == s.len(),
                self@.len() == n,
                down == any_down(s),
                forall|k: int| 0 <= k < j ==> (#[trigger] self@[k]) == (if doomed(s, k) {
                    StateView::Closed
                } else {
                    s[k]
                }),
                forall|k: int| j <= k < n ==> (#[trigger] self@[k]) == s[k],
                actions_view(actions@) == actions_view(old(actions)@) + doomed_closes(s, j as int),
            decreases n - j,
        {
            let ghost before = actions_view(actions@);
            assert(self@[j as int] == self.states@[j as int]@);
            if down && matches!(self.states[j], NodeState::AllSender(_)) {
                self.set_state(j, NodeState::Closed);
                actions.push(Action::Close(j));
                assert(actions_view(actions@) =~= before.push(ActionView::Close(j as int)));
            } else {
                assert(actions_view(actions@) =~= before + Seq::<ActionView>::empty());
            }
            j = j + 1;
        }
        assert(self@ =~= close_doomed(s).0);
    }

    fn check_all_sent(&self) -> (r: bool)
        ensures
            r == all_sent(self@),
    {
        if self.states.len() == 0 {
            return false;
        }
        let mut i: usize = 0;
        while i < self.states.len()
            invariant
                i <= self@.len(),
                forall|k: int| 0 <= k < i ==> (#[trigger] self@[k]) is AllSender,
            decreases self@.len() - i,
        {
            assert(self@[i as int] == self.states@[i as int]@);
            if !matches!(self.states[i], NodeState::AllSender(_)) {
                return false;
            }
            i = i + 1;
        }
        true
    }

    /// Whether every live node is in a broadcast-one step, the sender if any,
    /// and whether there is a receiver.
    fn scan_one(&self) -> (r: (bool, Option<usize>, bool))
        ensures
            r.0 == one_ready(self@),
            match r.1 {
                Some(k) => k < self@.len() && self@[k as int] is OneSender,
                None => !has_sender(self@),
            },
            r.2 == has_receiver(self@),
    {
        let mut ready = true;
        let mut sender: Option<usize> = None;
        let mut receiver = false;
        let mut i: usize = 0;
        while i < self.states.len()
            invariant
                i <= self@.len(),
                ready == forall|k: int| 0 <= k < i && is_live(#[trigger] self@[k]) ==> is_one(self@[k]),
                match sender {
                    Some(k) => k < self@.len() && self@[k as int] is OneSender,
                    None => forall|k: int| 0 <= k < i ==> !((#[trigger] self@[k]) is OneSender),
                },
                receiver == exists|k: int| 0 <= k < i && (#[trigger] self@[k]) is OneReceiver,
            decreases self@.len() - i,
        {
            assert(self@[i as int] == self.states@[i as int]@);
            match &self.states[i] {
                NodeState::OneSender(_) => {
                    sender = Some(i);
                },
                NodeState::OneReceiver => {
                    receiver = true;
                },
                NodeState::OneWaiter => {},
                NodeState::Closed => {},
                NodeState::Dead => {},
                _ => {
                    ready = false;
                },
            }
            i = i + 1;
        }
        (ready, sender, receiver)
    }

    fn resolve(&mut self, actions: &mut Vec<Action>)
        requires
            old(self).wf(),
        ensures
            final(self)@ == resolve(old(self)@).0,
            actions_view(final(actions)@) == actions_view(old(actions)@) + resolve(old(self)@).1,
            final(self).wf(),
    {
        let ghost s = self@;
        let ghost a0 = actions_view(actions@);
        let n = self.states.len();
        if self.check_all_sent() {
            let mut list: Vec<Vec<u8>> = Vec::new();
            let mut j: usize = 0;
            while j < n
                invariant
                    j <= n == s.len(),
                    self@ == s,
                    payloads_view(list@) == all_payloads(s).take(j as int),
                decreases n - j,
            {
                let p = payload_copy(&self.states[j]);
                assert(self@[j as int] == self.states@[j as int]@);
                let ghost before = payloads_view(list@);
                list.push(p);
                j = j + 1;
                assert(payloads_view(list@) =~= before.push(p@));
                assert(payloads_view(list@) =~= all_payloads(s).take(j as int));
            }
            assert(all_payloads(s).take(n as int) =~= all_payloads(s));
            let fits = match encode(&IpcMessage::BroadcastAllRecv(copy_payloads(&list))) {
                Ok(_) => true,
                Err(_) => false,
            };
            if !fits {
                let mut j: usize = 0;
                while j < n
                    invariant
                        j <= n == s.len(),
                        self@.len() == n,
                        forall|k: int| 0 <= k < j ==> (#[trigger] self@[k]) == StateView::Closed,
                        forall|k: int| j <= k < n ==> (#[trigger] self@[k]) == s[k],
                        actions_view(actions@) == a0 + all_closes(j as int),
                    decreases n - j,
                {
                    let ghost before = actions_view(actions@);
                    self.set_state(j, NodeState::Closed);
                    actions.push(Action::Close(j));
                    assert(actions_view(actions@) =~= before.push(ActionView::Close(j as int)));
                    assert(all_closes(j + 1) =~= all_closes(j as int).push(ActionView::Close(j as int)));
                    j = j + 1;
                    assert(actions_view(actions@) =~= a0 + all_closes(j as int));
                }
                assert(self@ =~= resolve(s).0);
                return;
            }
            let mut j: usize = 0;
            while j < n
                invariant
                    j <= n == s.len(),
                    self@ == s,
                    payloads_view(list@) == all_payloads(s),
                    actions_view(actions@) == a0 + all_replies(s, j as int),
                decreases n - j,
            {
                let ghost before = actions_view(actions@);
                let c = copy_payloads(&list);
                actions.push(Action::Reply(j, IpcMessage::BroadcastAllRecv(c)));
                assert(actions_view(actions@) =~= before.push(
                    ActionView::Reply(j as int, MessageView::BroadcastAllRecv(all_payloads(s))),
                ));
                j = j + 1;
                assert(actions_view(actions@) =~= a0 + all_replies(s, j as int));
            }
            let mut j: usize = 0;
            while j < n
                invariant
                    j <= n == s.len(),
                    self@.len() == n,
                    forall|k: int| 0 <= k < j ==> (#[trigger] self@[k]) == StateView::Idle,
                    forall|k: int| j <= k < n ==> (#[trigger] self@[k]) == s[k],
                decreases n - j,
            {
                self.set_state(j, NodeState::Idle);
                j = j + 1;
            }
            assert(self@ =~= resolve(s).0);
            return;
        }
        let (ready, sender, receiver) = self.scan_one();
        if !ready {
            assert(actions_view(actions@) =~= a0 + Seq::<ActionView>::empty());
            return;
        }
        if sender.is_some() || !receiver {
            let p = match sender {
                Some(k) => payload_copy(&self.states[k]),
                None => Vec::new(),
            };
            proof {
                if let Some(k) = sender {
                    assert(self@[k as int] == self.states@[k as int]@);
                    let c = choose|c: int| 0 <= c < s.len() && (#[trigger] s[c]) is OneSender;
                    assert(s[c] is OneSender && s[k as int] is OneSender);
                }
            }
            let mut j: usize = 0;
            while j < n
                invariant
                    j <= n == s.len(),
                    self@ == s,
                    has_receiver(s) ==> p@ == sender_payload(s),
                    actions_view(actions@) == a0 + receiver_replies(s, sender_payload(s), j as int),
                decreases n - j,
            {
                let ghost before = actions_view(actions@);
                assert(self@[j as int] == self.states@[j as int]@);
                if matches!(self.states[j], NodeState::OneReceiver) {
                    let c = copy_bytes(&p);
                    actions.push(Action::Reply(j, IpcMessage::Send(c)));
                    assert(actions_view(actions@) =~= before.push(
                        ActionView::Reply(j as int, MessageView::Send(sender_payload(s))),
                    ));
                } else {
                    assert(actions_view(actions@) =~= before + Seq::<ActionView>::empty());
                }
                j = j + 1;
                assert(actions_view(actions@) =~= a0 + receiver_replies(
                    s,
                    sender_payload(s),
                    j as int,
                ));
            }
            let ghost a1 = actions_view(actions@);
            let mut j: usize = 0;
            while j < n
                invariant
                    j <= n == s.len(),
                    self@ == s,
                    actions_view(actions@) == a1 + waiter_replies(s, j as int),
                decreases n - j,
            {
                let ghost before = actions_view(actions@);
                assert(self@[j as int] == self.states@[j as int]@);
                if matches!(self.states[j], NodeState::OneSender(_) | NodeState::OneWaiter) {
                    actions.push(Action::Reply(j, IpcMessage::Wait));
                    assert(actions_view(actions@) =~= before.push(
                        ActionView::Reply(j as int, MessageView::Wait),
                    ));
                } else {
                    assert(actions_view(actions@) =~= before + Seq::<ActionView>::empty());
                }
                j = j + 1;
                assert(actions_view(actions@) =~= a1 + waiter_replies(s, j as int));
            }
            let mut j: usize = 0;
            while j < n
                invariant
                    j <= n == s.len(),
                    self@.len() == n,
                    forall|k: int| 0 <= k < j ==> (#[trigger] self@[k]) == (if is_one(s[k]) {
                        StateView::Idle
                    } else {
                        s[k]
                    }),
                    forall|k: int| j <= k < n ==> (#[trigger] self@[k]) == s[k],
                decreases n - j,
            {
                assert(self@[j as int] == self.states@[j as int]@);
                if matches!(
                    self.states[j],
                    NodeState::OneSender(_) | NodeState::OneReceiver | NodeState::OneWaiter
                ) {
                    self.set_state(j, NodeState::Idle);
                }
                j = j + 1;
            }
            assert(self@ =~= resolve(s).0);
            assert(actions_view(actions@) =~= a0 + resolve(s).1);
        } else {
            let mut j: usize = 0;
            while j < n
                invariant
                    j <= n == s.len(),
                    self@.len() == n,
                    forall|k: int| 0 <= k < j ==> (#[trigger] self@[k]) == (if is_one(s[k]) {
                        StateView::Closed
                    } else {
                        s[k]
                    }),
                    forall|k: int| j <= k < n ==> (#[trigger] self@[k]) == s[k],
                    actions_view(actions@) == a0 + one_closes(s, j as int),
                decreases n - j,
            {
                let ghost before = actions_view(actions@);
                assert(self@[j as int] == self.states@[j as int]@);
                if matches!(
                    self.states[j],
                    NodeState::OneSender(_) | NodeState::OneReceiver | NodeState::OneWaiter
                ) {
                    self.set_state(j, NodeState::Closed);
                    actions.push(Action::Close(j));
                    assert(actions_view(actions@) =~= before.push(ActionView::Close(j as int)));
                } else {
                    assert(actions_view(actions@) =~= before + Seq::<ActionView>::empty());
                }
                j = j + 1;
            }
            assert(self@ =~= resolve(s).0);
        }
    }

    fn settle(&mut self) -> (r: Vec<Action>)
        requires
            old(self).wf(),
        ensures
            final(self)@ == settle(old(self)@).0,
            actions_view(r@) == settle(old(self)@).1,
            final(self).wf(),
    {
        let mut actions: Vec<Action> = Vec::new();
        assert(actions_view(actions@) =~= Seq::<ActionView>::empty());
        self.close_doomed(&mut actions);
        self.resolve(&mut actions);
        actions
    }

    fn cut_off(&mut self, i: usize) -> (r: Vec<Action>)
        requires
            old(self).wf(),
            i < old(self)@.len(),
        ensures
            final(self)@ == cut_off(old(self)@, i as int).0,
            actions_view(r@) == cut_off(old(self)@, i as int).1,
            final(self).wf(),
    {
        let ghost s = self@;
        self.set_state(i, NodeState::Closed);
        let rest = self.settle();
        let mut r: Vec<Action> = Vec::new();
        r.push(Action::Close(i));
        let ghost head = actions_view(r@);
        assert(head =~= seq![ActionView::Close(i as int)]);
        let mut rest = rest;
        r.append(&mut rest);
        assert(actions_view(r@) =~= head + settle(s.update(i as int, StateView::Closed)).1);
        r
    }

    /// Takes node `i`'s request and returns what to do.
    pub fn on_request(&mut self, i: usize, msg: IpcMessage) -> (r: Result<Vec<Action>, BrokerError>)
        requires
            old(self).wf(),
            i < old(self)@.len(),
        ensures
            final(self).wf(),
            match r {
                Ok(a) => request_step(old(self)@, i as int, msg@) == Ok::<
                    (Seq<StateView>, Seq<ActionView>),
                    BrokerError,
                >((final(self)@, actions_view(a@))),
                Err(e) => request_step(old(self)@, i as int, msg@) == Err::<
                    (Seq<StateView>, Seq<ActionView>),
                    BrokerError,
                >(e) && final(self)@ == old(self)@,
            },
    {
        if !self.is_live(i) {
            let r: Vec<Action> = Vec::new();
            assert(actions_view(r@) =~= Seq::<ActionView>::empty());
            return Ok(r);
        }
        assert(self@[i as int] == self.states@[i as int]@);
        if !matches!(self.states[i], NodeState::Idle) || matches!(msg, IpcMessage::BroadcastAllRecv(_)) {
            return Ok(self.cut_off(i));
        }
        let st = match msg {
            IpcMessage::Send(p) => {
                let (_, sender, _) = self.scan_one();
                if sender.is_some() {
                    return Err(BrokerError::MultipleSenders);
                }
                NodeState::OneSender(p)
            },
            IpcMessage::Receive => NodeState::OneReceiver,
            IpcMessage::Wait => NodeState::OneWaiter,
            IpcMessage::BroadcastAllSend(p) => NodeState::AllSender(p),
            IpcMessage::BroadcastAllRecv(_) => NodeState::Closed,
        };
        assert(st@ == request_state(msg@));
        self.set_state(i, st);
        Ok(self.settle())
    }

    /// Node `i` broke the protocol: cuts it off and returns what to do.
    pub fn on_failure(&mut self, i: usize) -> (r: Vec<Action>)
        requires
            old(self).wf(),
            i < old(self)@.len(),
        ensures
            final(self).wf(),
            (final(self)@, actions_view(r@)) == failure_step(old(self)@, i as int),
    {
        if !self.is_live(i) {
            let r: Vec<Action> = Vec::new();
            assert(actions_view(r@) =~= Seq::<ActionView>::empty());
            return r;
        }
        self.cut_off(i)
    }

    /// Node `i` exited: returns what to do.
    pub fn on_exit(&mut self, i: usize) -> (r: Vec<Action>)
        requires
            old(self).wf(),
            i < old(self)@.len(),
        ensures
            final(self).wf(),
            (final(self)@, actions_view(r@)) == exit_step(old(self)@, i as int),
    {
        self.set_state(i, NodeState::Dead);
        self.settle()
    }
}

} // verus!
