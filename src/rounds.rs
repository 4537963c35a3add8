//! What a whole step does: every node sends its request once, in any order.
use vstd::prelude::*;
use crate::broker::ActionView;
use crate::broker::BrokerError;
use crate::broker::StateView;
use crate::broker::any_down;
use crate::broker::at_most_one_sender;
use crate::broker::close_doomed;
use crate::broker::doomed_closes;
use crate::broker::has_sender;
use crate::broker::is_live;
use crate::broker::is_one;
use crate::broker::one_ready;
use crate::broker::all_sent;
use crate::broker::doomed;
use crate::broker::exit_step;
use crate::broker::has_receiver;
use crate::broker::one_closes;
use crate::broker::all_payloads;
use crate::broker::all_replies;
use crate::broker::receiver_replies;
use crate::broker::waiter_replies;
use crate::broker::sender_payload;
use crate::broker::request_state;
use crate::broker::request_step;
use crate::broker::resolve;
use crate::broker::settle;
use crate::message::MessageView;
use crate::message::body;
use crate::message::MAX_MESSAGE_SIZE;
use crate::broker::gathered_fits;
use crate::broker::all_closes;
use crate::broker::failure_step;

verus! {

/// Requests in arrival order, each taken by [`request_step`]; the actions of
/// every request, one after another.
pub open spec fn run(s: Seq<StateView>, reqs: Seq<(int, MessageView)>) -> Result<
    (Seq<StateView>, Seq<ActionView>),
    BrokerError,
>
    decreases reqs.len(),
{
    if reqs.len() == 0 {
        Ok((s, Seq::empty()))
    } else {
        match run(s, reqs.drop_last()) {
            Err(e) => Err(e),
            Ok((s1, a1)) => match request_step(s1, reqs.last().0, reqs.last().1) {
                Err(e) => Err(e),
                Ok((s2, a2)) => Ok((s2, a1 + a2)),
            },
        }
    }
}

/// `n` idle nodes.
pub open spec fn idle(n: nat) -> Seq<StateView> {
    Seq::new(n, |k: int| StateView::Idle)
}

/// `order` names each of the nodes `0..n` exactly once.
pub open spec fn is_order(order: Seq<int>, n: nat) -> bool {
    &&& order.len() == n
    &&& order.no_duplicates()
    &&& forall|k: int| 0 <= k < n ==> 0 <= #[trigger] order[k] < n
    &&& forall|j: int| 0 <= j < n ==> #[trigger] order.contains(j)
}

/// The request that puts an idle node in state `st`.
pub open spec fn request_of(st: StateView) -> MessageView {
    match st {
        StateView::OneSender(p) => MessageView::Send(p),
        StateView::OneReceiver => MessageView::Receive,
        StateView::OneWaiter => MessageView::Wait,
        StateView::AllSender(p) => MessageView::BroadcastAllSend(p),
        _ => MessageView::Wait,
    }
}

/// Node `order[k]` asks for what puts it in state `t[order[k]]`.
pub open spec fn round(t: Seq<StateView>, order: Seq<int>) -> Seq<(int, MessageView)> {
    Seq::new(order.len(), |k: int| (order[k], request_of(t[order[k]])))
}

/// Every node has a request pending, at most one of them a broadcast-one send.
pub open spec fn pending_all(t: Seq<StateView>) -> bool {
    &&& forall|j: int|
        0 <= j < t.len() ==> is_one(#[trigger] t[j]) || t[j] is AllSender
    &&& at_most_one_sender(t)
}

/// The nodes among the first `k` of `order` in their state of `t`, the others idle.
pub open spec fn partial(t: Seq<StateView>, order: Seq<int>, k: int) -> Seq<StateView> {
    Seq::new(
        t.len(),
        |j: int|
            if order.take(k).contains(j) {
                t[j]
            } else {
                StateView::Idle
            },
    )
}

proof fn lemma_push_contains(s: Seq<int>, x: int, j: int)
    ensures
        s.push(x).contains(j) == (s.contains(j) || j == x),
{
    if s.contains(j) {
        let c = choose|c: int| 0 <= c < s.len() && s[c] == j;
        assert(s.push(x)[c] == j);
    }
    if j == x {
        assert(s.push(x)[s.len() as int] == x);
    }
    if s.push(x).contains(j) {
        let c = choose|c: int| 0 <= c < s.len() + 1 && s.push(x)[c] == j;
        if c < s.len() {
            assert(s[c] == j);
        }
    }
}

proof fn lemma_no_doomed(s: Seq<StateView>, k: int)
    requires
        !any_down(s),
        k <= s.len(),
    ensures
        doomed_closes(s, k) == Seq::<ActionView>::empty(),
    decreases k,
{
    if k > 0 {
        lemma_no_doomed(s, k - 1);
        assert(doomed_closes(s, k) =~= Seq::<ActionView>::empty());
    }
}

proof fn lemma_settle_all_live(s: Seq<StateView>)
    requires
        forall|j: int| 0 <= j < s.len() ==> is_live(#[trigger] s[j]),
    ensures
        settle(s) == resolve(s),
{
    lemma_no_doomed(s, s.len() as int);
    assert(close_doomed(s).0 =~= s);
    assert(resolve(s).1 =~= Seq::<ActionView>::empty() + resolve(s).1);
}

proof fn lemma_round_prefix(t: Seq<StateView>, order: Seq<int>, k: int)
    requires
        pending_all(t),
        is_order(order, t.len()),
        0 <= k < t.len(),
    ensures
        run(idle(t.len()), round(t, order).take(k)) == Ok::<
            (Seq<StateView>, Seq<ActionView>),
            BrokerError,
        >((partial(t, order, k), Seq::empty())),
    decreases k,
{
    let n = t.len();
    let reqs = round(t, order);
    if k == 0 {
        assert(reqs.take(0) =~= Seq::<(int, MessageView)>::empty());
        assert(partial(t, order, 0) =~= idle(n));
    } else {
        lemma_round_prefix(t, order, k - 1);
        assert(reqs.take(k).drop_last() =~= reqs.take(k - 1));
        let o = order[k - 1];
        let s1 = partial(t, order, k - 1);
        assert(!order.take(k - 1).contains(o)) by {
            if order.take(k - 1).contains(o) {
                let c = choose|c: int| 0 <= c < k - 1 && (#[trigger] order.take(k - 1)[c]) == o;
                assert(order[c] == order[k - 1]);
            }
        };
        assert(s1[o] is Idle);
        let s2 = s1.update(o, t[o]);
        assert(order.take(k) =~= order.take(k - 1).push(o));
        assert forall|j: int| 0 <= j < n implies s2[j] == partial(t, order, k)[j] by {
            lemma_push_contains(order.take(k - 1), o, j);
        };
        assert(s2 =~= partial(t, order, k));
        if request_of(t[o]) is Send {
            assert(!has_sender(s1)) by {
                if has_sender(s1) {
                    let c = choose|c: int| 0 <= c < s1.len() && (#[trigger] s1[c]) is OneSender;
                    assert(t[c] is OneSender);
                }
            };
        }
        assert(request_state(request_of(t[o])) == t[o]);
        lemma_settle_all_live(s2);
        let last = order[n - 1];
        assert(!order.take(k).contains(last)) by {
            if order.take(k).contains(last) {
                let c = choose|c: int| 0 <= c < k && (#[trigger] order.take(k)[c]) == last;
                assert(order[c] == order[n - 1]);
            }
        };
        assert(s2[last] is Idle);
        assert(!all_sent(s2));
        assert(order.take(k)[0] == order[0]);
        assert(order.take(k).contains(order[0]));
        assert(!one_ready(s2)) by {
            assert(is_live(s2[order[0]]) && !is_one(s2[order[0]]) || is_one(t[order[0]]));
            if is_one(t[order[0]]) {
                assert(is_live(s2[last]) && !is_one(s2[last]));
            }
        };
        assert(Seq::<ActionView>::empty() + Seq::<ActionView>::empty() =~= Seq::<ActionView>::empty());
    }
}

/// A whole step, in any order of arrival, ends as `settle` says of the state in
/// which every request is pending.
proof fn lemma_round(t: Seq<StateView>, order: Seq<int>)
    requires
        pending_all(t),
        is_order(order, t.len()),
        t.len() >= 1,
    ensures
        run(idle(t.len()), round(t, order)) == Ok::<(Seq<StateView>, Seq<ActionView>), BrokerError>(
            settle(t),
        ),
{
    let n = t.len();
    let reqs = round(t, order);
    lemma_round_prefix(t, order, n - 1);
    assert(reqs.drop_last() =~= reqs.take(n - 1));
    let o = order[n - 1];
    let s1 = partial(t, order, n - 1);
    assert(!order.take(n - 1).contains(o)) by {
        if order.take(n - 1).contains(o) {
            let c = choose|c: int| 0 <= c < n - 1 && (#[trigger] order.take(n - 1)[c]) == o;
            assert(order[c] == order[n - 1]);
        }
    };
    assert(order.take(n as int) =~= order);
    assert(order =~= order.take(n - 1).push(o));
    assert forall|j: int| 0 <= j < n && j != o implies #[trigger] order.take(n - 1).contains(j) by {
        assert(order.contains(j));
        let c = choose|c: int| 0 <= c < n && order[c] == j;
        assert(c != n - 1);
        assert(order.take(n - 1)[c] == j);
    };
    assert(s1.update(o, t[o]) =~= t);
    if request_of(t[o]) is Send {
        assert(!has_sender(s1)) by {
            if has_sender(s1) {
                let c = choose|c: int| 0 <= c < s1.len() && (#[trigger] s1[c]) is OneSender;
                assert(t[c] is OneSender);
            }
        };
    }
    assert(request_state(request_of(t[o])) == t[o]);
    assert(Seq::<ActionView>::empty() + settle(t).1 =~= settle(t).1);
}


proof fn lemma_all_replies(s: Seq<StateView>, k: int)
    requires
        0 <= k,
    ensures
        all_replies(s, k) == Seq::new(
            k as nat,
            |j: int| ActionView::Reply(j, MessageView::BroadcastAllRecv(all_payloads(s))),
        ),
    decreases k,
{
    if k > 0 {
        lemma_all_replies(s, k - 1);
        assert(all_replies(s, k) =~= Seq::new(
            k as nat,
            |j: int| ActionView::Reply(j, MessageView::BroadcastAllRecv(all_payloads(s))),
        ));
    }
}

proof fn lemma_receiver_reply_in(s: Seq<StateView>, p: Seq<u8>, k: int, j: int)
    requires
        0 <= j < k <= s.len(),
        s[j] is OneReceiver,
    ensures
        receiver_replies(s, p, k).contains(ActionView::Reply(j, MessageView::Send(p))),
    decreases k,
{
    let x = ActionView::Reply(j, MessageView::Send(p));
    if j == k - 1 {
        let a = receiver_replies(s, p, k - 1);
        assert(receiver_replies(s, p, k) == a.push(x));
        assert(a.push(x)[a.len() as int] == x);
    } else {
        lemma_receiver_reply_in(s, p, k - 1, j);
        let a = receiver_replies(s, p, k - 1);
        let c = choose|c: int| 0 <= c < a.len() && a[c] == x;
        assert(receiver_replies(s, p, k)[c] == x);
    }
}

proof fn lemma_waiter_reply_in(s: Seq<StateView>, k: int, j: int)
    requires
        0 <= j < k <= s.len(),
        s[j] is OneSender || s[j] is OneWaiter,
    ensures
        waiter_replies(s, k).contains(ActionView::Reply(j, MessageView::Wait)),
    decreases k,
{
    let x = ActionView::Reply(j, MessageView::Wait);
    if j == k - 1 {
        let a = waiter_replies(s, k - 1);
        assert(waiter_replies(s, k) == a.push(x));
        assert(a.push(x)[a.len() as int] == x);
    } else {
        lemma_waiter_reply_in(s, k - 1, j);
        let a = waiter_replies(s, k - 1);
        let c = choose|c: int| 0 <= c < a.len() && a[c] == x;
        assert(waiter_replies(s, k)[c] == x);
    }
}

/// A broadcast-all step: when every node `i` of `n >= 1` sends its payload
/// `ps[i]`, in any order of arrival, and the list fits in one frame, every node
/// is answered with the whole list `ps`, position `i` holding node `i`'s payload,
/// and all nodes are idle again.
pub proof fn lemma_broadcast_all_round(ps: Seq<Seq<u8>>, order: Seq<int>)
    requires
        ps.len() >= 1,
        is_order(order, ps.len()),
        body(MessageView::BroadcastAllRecv(ps)).len() <= MAX_MESSAGE_SIZE,
    ensures
        run(
            idle(ps.len()),
            Seq::new(
                ps.len(),
                |k: int| (order[k], MessageView::BroadcastAllSend(ps[order[k]])),
            ),
        ) == Ok::<(Seq<StateView>, Seq<ActionView>), BrokerError>(
            (
                idle(ps.len()),
                Seq::new(
                    ps.len(),
                    |j: int| ActionView::Reply(j, MessageView::BroadcastAllRecv(ps)),
                ),
            ),
        ),
{
    let n = ps.len();
    let t = Seq::new(n, |j: int| StateView::AllSender(ps[j]));
    assert(pending_all(t));
    lemma_round(t, order);
    assert(round(t, order) =~= Seq::new(
        n,
        |k: int| (order[k], MessageView::BroadcastAllSend(ps[order[k]])),
    ));
    lemma_settle_all_live(t);
    assert(all_sent(t));
    assert(all_payloads(t) =~= ps);
    assert(gathered_fits(t));
    lemma_all_replies(t, n as int);
    assert(resolve(t).0 =~= idle(n));
}

/// A broadcast-one step: node `src` sends `p` and every other node receives or
/// waits, in any order of arrival. Each receiver is handed exactly `p`, the
/// sender and the waiters are answered `Wait`, every payload goes out before
/// any `Wait`, and all nodes are idle again.
pub proof fn lemma_broadcast_one_round(t: Seq<StateView>, src: int, p: Seq<u8>, order: Seq<int>)
    requires
        0 <= src < t.len(),
        t[src] == StateView::OneSender(p),
        forall|j: int| 0 <= j < t.len() && j != src ==> (#[trigger] t[j]) is OneReceiver || t[j] is OneWaiter,
        is_order(order, t.len()),
    ensures
        run(idle(t.len()), round(t, order)) == Ok::<
            (Seq<StateView>, Seq<ActionView>),
            BrokerError,
        >((idle(t.len()), receiver_replies(t, p, t.len() as int) + waiter_replies(t, t.len() as int))),
        forall|j: int|
            0 <= j < t.len() && (#[trigger] t[j]) is OneReceiver ==> receiver_replies(t, p, t.len() as int).contains(
                ActionView::Reply(j, MessageView::Send(p)),
            ),
        forall|j: int|
            0 <= j < t.len() && !(#[trigger] t[j] is OneReceiver) ==> waiter_replies(t, t.len() as int).contains(
                ActionView::Reply(j, MessageView::Wait),
            ),
{
    let n = t.len();
    assert(pending_all(t));
    lemma_round(t, order);
    lemma_settle_all_live(t);
    assert(!all_sent(t));
    assert(one_ready(t));
    assert(has_sender(t));
    let c = choose|c: int| 0 <= c < t.len() && (#[trigger] t[c]) is OneSender;
    assert(c == src);
    assert(sender_payload(t) == p);
    assert(resolve(t).0 =~= idle(n));
    assert forall|j: int| 0 <= j < t.len() && (#[trigger] t[j]) is OneReceiver implies receiver_replies(
        t,
        p,
        t.len() as int,
    ).contains(ActionView::Reply(j, MessageView::Send(p))) by {
        lemma_receiver_reply_in(t, p, n as int, j);
    };
    assert forall|j: int| 0 <= j < t.len() && !(#[trigger] t[j] is OneReceiver) implies waiter_replies(
        t,
        t.len() as int,
    ).contains(ActionView::Reply(j, MessageView::Wait)) by {
        lemma_waiter_reply_in(t, n as int, j);
    };
}


proof fn lemma_doomed_close_in(s: Seq<StateView>, k: int, j: int)
    requires
        0 <= j < k <= s.len(),
        doomed(s, j),
    ensures
        doomed_closes(s, k).contains(ActionView::Close(j)),
    decreases k,
{
    let x = ActionView::Close(j);
    if j == k - 1 {
        let a = doomed_closes(s, k - 1);
        assert(doomed_closes(s, k) == a.push(x));
        assert(a.push(x)[a.len() as int] == x);
    } else {
        lemma_doomed_close_in(s, k - 1, j);
        let a = doomed_closes(s, k - 1);
        let c = choose|c: int| 0 <= c < a.len() && a[c] == x;
        assert(doomed_closes(s, k)[c] == x);
    }
}

proof fn lemma_one_close_in(s: Seq<StateView>, k: int, j: int)
    requires
        0 <= j < k <= s.len(),
        is_one(s[j]),
    ensures
        one_closes(s, k).contains(ActionView::Close(j)),
    decreases k,
{
    let x = ActionView::Close(j);
    if j == k - 1 {
        let a = one_closes(s, k - 1);
        assert(one_closes(s, k) == a.push(x));
        assert(a.push(x)[a.len() as int] == x);
    } else {
        lemma_one_close_in(s, k - 1, j);
        let a = one_closes(s, k - 1);
        let c = choose|c: int| 0 <= c < a.len() && a[c] == x;
        assert(one_closes(s, k)[c] == x);
    }
}

proof fn lemma_no_doomed_closes(s: Seq<StateView>, k: int)
    requires
        k <= s.len(),
        forall|j: int| 0 <= j < s.len() ==> !(#[trigger] s[j] is AllSender),
    ensures
        doomed_closes(s, k) == Seq::<ActionView>::empty(),
    decreases k,
{
    if k > 0 {
        lemma_no_doomed_closes(s, k - 1);
        assert(!doomed(s, k - 1));
        assert(doomed_closes(s, k) =~= Seq::<ActionView>::empty());
    }
}

proof fn lemma_resolve_keeps_closed(s: Seq<StateView>, j: int)
    requires
        0 <= j < s.len(),
        s[j] is Closed,
    ensures
        resolve(s).0[j] is Closed,
{
}

/// When a node exits, no other node is left waiting in a broadcast-all step:
/// each node that had sent its payload is cut off, so that its pending read
/// fails instead of blocking.
pub proof fn lemma_exit_cuts_off_broadcast_all(s: Seq<StateView>, d: int)
    requires
        at_most_one_sender(s),
        0 <= d < s.len(),
    ensures
        forall|j: int|
            0 <= j < s.len() && j != d && (#[trigger] s[j]) is AllSender ==> exit_step(s, d).0[j] is Closed
                && exit_step(s, d).1.contains(ActionView::Close(j)),
{
    let s1 = s.update(d, StateView::Dead);
    assert(!is_live(s1[d]));
    assert(any_down(s1));
    let s2 = close_doomed(s1).0;
    let a1 = close_doomed(s1).1;
    assert forall|j: int|
        0 <= j < s.len() && j != d && (#[trigger] s[j]) is AllSender implies exit_step(s, d).0[j] is Closed
            && exit_step(s, d).1.contains(ActionView::Close(j)) by {
        assert(doomed(s1, j));
        assert(s2[j] is Closed);
        lemma_resolve_keeps_closed(s2, j);
        lemma_doomed_close_in(s1, s1.len() as int, j);
        let c = choose|c: int| 0 <= c < a1.len() && a1[c] == ActionView::Close(j);
        assert((a1 + resolve(s2).1)[c] == ActionView::Close(j));
    };
}

/// When the sender of a broadcast-one step exits after every other node that
/// still counts has joined the step, and some of them receive, every one of
/// them is cut off, so that its pending read fails instead of blocking.
pub proof fn lemma_exit_of_sender_cuts_off_broadcast_one(s: Seq<StateView>, d: int)
    requires
        at_most_one_sender(s),
        0 <= d < s.len(),
        s[d] is OneSender,
        forall|j: int| 0 <= j < s.len() && j != d && is_live(#[trigger] s[j]) ==> is_one(s[j]),
        exists|j: int| 0 <= j < s.len() && (#[trigger] s[j]) is OneReceiver,
    ensures
        forall|j: int|
            0 <= j < s.len() && j != d && is_one(#[trigger] s[j]) ==> exit_step(s, d).0[j] is Closed
                && exit_step(s, d).1.contains(ActionView::Close(j)),
{
    let s1 = s.update(d, StateView::Dead);
    let n = s.len();
    assert forall|j: int| 0 <= j < n implies !(#[trigger] s1[j] is AllSender) by {
        if j != d {
            assert(is_live(s[j]) ==> is_one(s[j]));
        }
    };
    lemma_no_doomed_closes(s1, n as int);
    assert(close_doomed(s1).0 =~= s1);
    assert(!all_sent(s1)) by {
        assert(!(s1[d] is AllSender));
    };
    assert(one_ready(s1));
    assert(!has_sender(s1)) by {
        if has_sender(s1) {
            let c = choose|c: int| 0 <= c < n && (#[trigger] s1[c]) is OneSender;
            assert(s[c] is OneSender && s[d] is OneSender);
        }
    };
    let r = choose|j: int| 0 <= j < s.len() && (#[trigger] s[j]) is OneReceiver;
    assert(s1[r] is OneReceiver);
    assert(has_receiver(s1));
    assert forall|j: int|
        0 <= j < s.len() && j != d && is_one(#[trigger] s[j]) implies exit_step(s, d).0[j] is Closed
            && exit_step(s, d).1.contains(ActionView::Close(j)) by {
        assert(is_one(s1[j]));
        lemma_one_close_in(s1, n as int, j);
        let a = one_closes(s1, n as int);
        let c = choose|c: int| 0 <= c < a.len() && a[c] == ActionView::Close(j);
        assert((Seq::<ActionView>::empty() + a)[c] == ActionView::Close(j));
    };
}


/// The action hands some node a broadcast-one payload.
pub open spec fn carries_payload(a: ActionView) -> bool {
    a matches ActionView::Reply(_, MessageView::Send(_))
}

/// None of the actions hands a node a broadcast-one payload.
pub open spec fn no_payload(a: Seq<ActionView>) -> bool {
    forall|k: int| 0 <= k < a.len() ==> !carries_payload(#[trigger] a[k])
}

proof fn lemma_no_payload_concat(a: Seq<ActionView>, b: Seq<ActionView>)
    requires
        no_payload(a),
        no_payload(b),
    ensures
        no_payload(a + b),
{
    assert forall|k: int| 0 <= k < (a + b).len() implies !carries_payload(#[trigger] (a + b)[k]) by {
        if k < a.len() {
            assert((a + b)[k] == a[k]);
        } else {
            assert((a + b)[k] == b[k - a.len()]);
        }
    };
}

proof fn lemma_np_doomed(s: Seq<StateView>, k: int)
    ensures
        no_payload(doomed_closes(s, k)),
    decreases k,
{
    if k > 0 {
        lemma_np_doomed(s, k - 1);
        let tail = if doomed(s, k - 1) {
            seq![ActionView::Close(k - 1)]
        } else {
            Seq::empty()
        };
        assert(no_payload(tail));
        lemma_no_payload_concat(doomed_closes(s, k - 1), tail);
    }
}

proof fn lemma_np_one_closes(s: Seq<StateView>, k: int)
    ensures
        no_payload(one_closes(s, k)),
    decreases k,
{
    if k > 0 {
        lemma_np_one_closes(s, k - 1);
        let tail = if is_one(s[k - 1]) {
            seq![ActionView::Close(k - 1)]
        } else {
            Seq::empty()
        };
        assert(no_payload(tail));
        lemma_no_payload_concat(one_closes(s, k - 1), tail);
    }
}

proof fn lemma_np_waiters(s: Seq<StateView>, k: int)
    ensures
        no_payload(waiter_replies(s, k)),
    decreases k,
{
    if k > 0 {
        lemma_np_waiters(s, k - 1);
        let tail = if s[k - 1] is OneSender || s[k - 1] is OneWaiter {
            seq![ActionView::Reply(k - 1, MessageView::Wait)]
        } else {
            Seq::empty()
        };
        assert(no_payload(tail));
        lemma_no_payload_concat(waiter_replies(s, k - 1), tail);
    }
}

proof fn lemma_no_receivers(s: Seq<StateView>, p: Seq<u8>, k: int)
    requires
        k <= s.len(),
        !has_receiver(s),
    ensures
        receiver_replies(s, p, k) == Seq::<ActionView>::empty(),
    decreases k,
{
    if k > 0 {
        lemma_no_receivers(s, p, k - 1);
        assert(!(s[k - 1] is OneReceiver));
        assert(receiver_replies(s, p, k) =~= Seq::<ActionView>::empty());
    }
}

proof fn lemma_settle_no_payload(t: Seq<StateView>)
    requires
        !has_sender(t),
    ensures
        no_payload(settle(t).1),
{
    let n = t.len() as int;
    let t1 = close_doomed(t).0;
    lemma_np_doomed(t, n);
    assert(!has_sender(t1)) by {
        if has_sender(t1) {
            let c = choose|c: int| 0 <= c < t1.len() && (#[trigger] t1[c]) is OneSender;
            assert(t[c] is OneSender);
        }
    };
    let a2 = resolve(t1).1;
    if all_sent(t1) {
        if gathered_fits(t1) {
            lemma_all_replies(t1, n);
        } else {
            assert(a2 == all_closes(n));
        }
    } else if one_ready(t1) && (has_sender(t1) || !has_receiver(t1)) {
        lemma_no_receivers(t1, sender_payload(t1), n);
        lemma_np_waiters(t1, n);
        assert(receiver_replies(t1, sender_payload(t1), n) + waiter_replies(t1, n) =~= waiter_replies(t1, n));
    } else if one_ready(t1) {
        lemma_np_one_closes(t1, n);
    }
    assert(no_payload(a2));
    lemma_no_payload_concat(doomed_closes(t, n), a2);
}

/// Without a broadcast-one sender (none has asked yet, or the sender has
/// exited), nothing but a new send hands any node a payload: a node's exit, a
/// refused frame, or any other request leaves every waiting receiver either
/// waiting or cut off, so a receiver's pending read never returns data that no
/// node sent.
pub proof fn lemma_no_payload_without_sender(s: Seq<StateView>, i: int, m: MessageView)
    requires
        !has_sender(s),
        0 <= i < s.len(),
        !(m is Send),
    ensures
        request_step(s, i, m) matches Ok((_, a)) && no_payload(a),
        no_payload(exit_step(s, i).1),
        no_payload(failure_step(s, i).1),
{
    let closed = s.update(i, StateView::Closed);
    assert(!has_sender(closed)) by {
        if has_sender(closed) {
            let c = choose|c: int| 0 <= c < closed.len() && (#[trigger] closed[c]) is OneSender;
            assert(s[c] is OneSender);
        }
    };
    lemma_settle_no_payload(closed);
    assert(no_payload(seq![ActionView::Close(i)]));
    lemma_no_payload_concat(seq![ActionView::Close(i)], settle(closed).1);
    let dead = s.update(i, StateView::Dead);
    assert(!has_sender(dead)) by {
        if has_sender(dead) {
            let c = choose|c: int| 0 <= c < dead.len() && (#[trigger] dead[c]) is OneSender;
            assert(s[c] is OneSender);
        }
    };
    lemma_settle_no_payload(dead);
    let joined = s.update(i, request_state(m));
    assert(!has_sender(joined)) by {
        if has_sender(joined) {
            let c = choose|c: int| 0 <= c < joined.len() && (#[trigger] joined[c]) is OneSender;
            assert(s[c] is OneSender || c == i);
        }
    };
    lemma_settle_no_payload(joined);
    assert(no_payload(Seq::<ActionView>::empty()));
}

} // verus!
