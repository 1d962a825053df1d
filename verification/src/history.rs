//! What holds after any sequence of events handled by the application
//! actor, starting from the state that `Application::new` builds.

use crate::application::{
    after_relay, after_request, answer_on, awaits, awaits_other, initial_model, known_content,
    proposed_block, relay_answers, request_answers, step,
    step_answers, waiting_for, waiting_for_others, AppModel, Event, Waiter,
};
use crate::block::{block_digest, BlockModel};
use crate::hashing::sha256_of;
use crate::ledger::{genesis_balance_map, VerifyError};
use crate::validation::verify_outcome;
use vstd::prelude::*;

verus! {

/// The state after handling `events` in order, starting from `m`.
pub open spec fn state_after<W>(m: AppModel<W>, events: Seq<Event<W>>) -> AppModel<W>
    decreases events.len(),
{
    if events.len() == 0 {
        m
    } else {
        step(state_after(m, events.drop_last()), events.last())
    }
}

/// The answers given while handling `events[j]`, after `events[..j]`.
pub open spec fn answers_at<W>(m: AppModel<W>, events: Seq<Event<W>>, j: int) -> Seq<
    (W, Result<BlockModel, VerifyError>),
> {
    step_answers(state_after(m, events.take(j)), events[j])
}

/// The invariant of every reachable actor state: the balances are the
/// genesis balances, no request waits for a block whose content was
/// relayed, and every pending block is kept under the SHA-256 of its bytes.
pub open spec fn app_invariant<W>(m: AppModel<W>) -> bool {
    &&& m.balances == genesis_balance_map()
    &&& forall|i: int| 0 <= i < m.waiters.len() ==> !m.seen.contains_key(#[trigger] m.waiters[i].digest@)
    &&& forall|d: Seq<u8>| #[trigger] m.pending.contains_key(d) ==> d == sha256_of(m.pending[d])
}

/// No two verification requests among `events` share a handle.
pub open spec fn handles_distinct<W>(events: Seq<Event<W>>) -> bool {
    forall|i: int, j: int|
        #![trigger events[i], events[j]]
        0 <= i < events.len() && 0 <= j < events.len() && i != j && events[i] is Verify
            && events[j] is Verify ==> events[i]->Verify_handle != events[j]->Verify_handle
}

/// The event `e` relays the content of the block `d`.
pub open spec fn relays<W>(e: Event<W>, d: Seq<u8>) -> bool {
    e is Relay && e->Relay_digest@ == d
}

/// The first index from `j` on at which the content of block `d` is
/// relayed; `events.len()` when it never is.
pub open spec fn first_relay_from<W>(events: Seq<Event<W>>, j: int, d: Seq<u8>) -> int
    decreases events.len() - j,
{
    if j >= events.len() || j < 0 {
        events.len() as int
    } else if relays(events[j], d) {
        j
    } else {
        first_relay_from(events, j + 1, d)
    }
}

/// The index of the event at which the request `events[k]` is answered:
/// the request itself when the content of its block is known then,
/// otherwise the first later relay of that content (`events.len()` if
/// none comes).
pub open spec fn answer_step<W>(m: AppModel<W>, events: Seq<Event<W>>, k: int) -> int {
    if known_content(state_after(m, events.take(k)), events[k]->Verify_payload@) is Some {
        k
    } else {
        first_relay_from(events, k + 1, events[k]->Verify_payload@)
    }
}

/// The content that the request `events[k]` is checked against: the one
/// known at the request, otherwise the first content relayed after it.
pub open spec fn answer_content<W>(m: AppModel<W>, events: Seq<Event<W>>, k: int) -> Seq<u8> {
    match known_content(state_after(m, events.take(k)), events[k]->Verify_payload@) {
        Some(content) => content,
        None => events[answer_step(m, events, k)]->Relay_data,
    }
}

/// An answer goes to `h`.
pub open spec fn answer_to<W>(h: W) -> spec_fn((W, Result<BlockModel, VerifyError>)) -> bool {
    |a: (W, Result<BlockModel, VerifyError>)| a.0 == h
}

/// A waiter answers through `h`.
pub open spec fn waiter_with<W>(h: W) -> spec_fn(Waiter<W>) -> bool {
    |w: Waiter<W>| w.handle == h
}

proof fn lemma_filter_empty<A>(p: spec_fn(A) -> bool)
    ensures
        Seq::<A>::empty().filter(p) == Seq::<A>::empty(),
{
    reveal(Seq::filter);
}

proof fn lemma_filter_single<A>(x: A, p: spec_fn(A) -> bool)
    ensures
        seq![x].filter(p) == (if p(x) {
            seq![x]
        } else {
            Seq::<A>::empty()
        }),
{
    reveal_with_fuel(Seq::filter, 2);
    assert(seq![x].drop_last() =~= Seq::<A>::empty());
}

proof fn lemma_filter_push<A>(s: Seq<A>, x: A, p: spec_fn(A) -> bool)
    ensures
        s.push(x).filter(p) == (if p(x) {
            s.filter(p).push(x)
        } else {
            s.filter(p)
        }),
{
    reveal_with_fuel(Seq::filter, 1);
    assert(s.push(x).drop_last() =~= s);
}

/// Two filters commute.
proof fn lemma_filters_commute<A>(s: Seq<A>, p: spec_fn(A) -> bool, q: spec_fn(A) -> bool)
    ensures
        s.filter(p).filter(q) == s.filter(q).filter(p),
    decreases s.len(),
{
    if s.len() == 0 {
        lemma_filter_empty(p);
        lemma_filter_empty(q);
    } else {
        let init = s.drop_last();
        let x = s.last();
        assert(init.push(x) =~= s);
        lemma_filters_commute(init, p, q);
        lemma_filter_push(init, x, p);
        lemma_filter_push(init, x, q);
        if p(x) {
            lemma_filter_push(init.filter(p), x, q);
        }
        if q(x) {
            lemma_filter_push(init.filter(q), x, p);
        }
    }
}

/// Filtering after a map is mapping after the matching filter.
proof fn lemma_map_filter<A, B>(
    s: Seq<A>,
    f: spec_fn(A) -> B,
    q: spec_fn(B) -> bool,
    r: spec_fn(A) -> bool,
)
    requires
        forall|x: A| #[trigger] r(x) == q(f(x)),
    ensures
        s.map_values(f).filter(q) == s.filter(r).map_values(f),
    decreases s.len(),
{
    if s.len() == 0 {
        lemma_filter_empty(q);
        lemma_filter_empty(r);
        assert(s.map_values(f) =~= Seq::<B>::empty());
        assert(Seq::<A>::empty().map_values(f) =~= Seq::<B>::empty());
    } else {
        let init = s.drop_last();
        let x = s.last();
        assert(init.push(x) =~= s);
        lemma_map_filter(init, f, q, r);
        assert(s.map_values(f) =~= init.map_values(f).push(f(x)));
        lemma_filter_push(init.map_values(f), f(x), q);
        lemma_filter_push(init, x, r);
        if r(x) {
            assert(init.filter(r).push(x).map_values(f) =~= init.filter(r).map_values(f).push(
                f(x),
            ));
        }
    }
}

/// Every element of a filtered sequence is an element of the sequence that
/// meets the filter.
proof fn lemma_filter_elements<A>(s: Seq<A>, p: spec_fn(A) -> bool, i: int)
    requires
        0 <= i < s.filter(p).len(),
    ensures
        p(s.filter(p)[i]),
        exists|j: int| 0 <= j < s.len() && s[j] == s.filter(p)[i],
{
    s.lemma_filter_pred(p, i);
    assert(s.filter(p).contains(s.filter(p)[i]));
    s.lemma_filter_contains_rev(p, s.filter(p)[i]);
}

/// Handling events never changes the balances or the validator index.
pub proof fn lemma_state_after_fixed<W>(m: AppModel<W>, events: Seq<Event<W>>)
    ensures
        state_after(m, events).balances == m.balances,
        state_after(m, events).my_index == m.my_index,
    decreases events.len(),
{
    if events.len() > 0 {
        lemma_state_after_fixed(m, events.drop_last());
    }
}

/// The state after the first `n + 1` events is one step after the state
/// after the first `n`.
proof fn lemma_state_after_take<W>(m: AppModel<W>, events: Seq<Event<W>>, n: int)
    requires
        0 <= n < events.len(),
    ensures
        state_after(m, events.take(n + 1)) == step(state_after(m, events.take(n)), events[n]),
{
    assert(events.take(n + 1).drop_last() =~= events.take(n));
}

/// Handling one event keeps the invariant.
pub proof fn lemma_step_keeps_invariant<W>(m: AppModel<W>, e: Event<W>)
    requires
        app_invariant(m),
    ensures
        app_invariant(step(m, e)),
{
    let n = step(m, e);
    match e {
        Event::Propose { view, parent } => {
            let b = proposed_block(m.my_index, view, parent@);
            assert forall|d: Seq<u8>| #[trigger] n.pending.contains_key(d) implies d == sha256_of(
                n.pending[d],
            ) by {
                if d != block_digest(b) {
                    assert(m.pending.contains_key(d));
                }
            }
        },
        Event::Verify { view, parent, payload, handle } => {
            if known_content(m, payload@) is None {
                assert forall|i: int| 0 <= i < n.waiters.len() implies !n.seen.contains_key(
                    #[trigger] n.waiters[i].digest@,
                ) by {
                    if i < m.waiters.len() {
                        assert(n.waiters[i] == m.waiters[i]);
                    }
                }
            }
        },
        Event::Certify => {},
        Event::Broadcast { payload } => {
            assert forall|d: Seq<u8>| #[trigger] n.pending.contains_key(d) implies d == sha256_of(
                n.pending[d],
            ) by {
                assert(m.pending.contains_key(d));
            }
        },
        Event::Relay { digest, data } => {
            assert forall|i: int| 0 <= i < n.waiters.len() implies !n.seen.contains_key(
                #[trigger] n.waiters[i].digest@,
            ) by {
                lemma_filter_elements(m.waiters, awaits_other::<W>(digest@), i);
                let j = choose|j: int|
                    0 <= j < m.waiters.len() && m.waiters[j] == waiting_for_others(
                        m.waiters,
                        digest@,
                    )[i];
                assert(!m.seen.contains_key(m.waiters[j].digest@));
            }
        },
    }
}

/// Law: after any sequence of handled events, starting from the state that
/// `new` builds, the balances are still the genesis balances, no request
/// waits for a block whose content was relayed, and every pending block is
/// kept under the SHA-256 of its bytes.
pub proof fn lemma_invariant_after_events<W>(my_index: u8, events: Seq<Event<W>>)
    ensures
        app_invariant(state_after(initial_model::<W>(my_index), events)),
    decreases events.len(),
{
    if events.len() > 0 {
        lemma_invariant_after_events(my_index, events.drop_last());
        lemma_step_keeps_invariant(
            state_after(initial_model::<W>(my_index), events.drop_last()),
            events.last(),
        );
    }
}

/// Law: a verification request is checked at once against the relayed
/// content of its block when there is one, else against this validator's
/// own pending block, leaving the state as it was; when neither is known it
/// gets no answer yet and waits, after the requests that already wait, with
/// nothing else changed.
pub proof fn lemma_request_source<W>(
    m: AppModel<W>,
    view: u64,
    parent: [u8; 32],
    payload: [u8; 32],
    handle: W,
)
    ensures
        m.seen.contains_key(payload@) ==> {
            &&& request_answers(m, view, parent, payload, handle) == seq![
                (handle, verify_outcome(m.balances, view, parent@, payload@, m.seen[payload@])),
            ]
            &&& after_request(m, view, parent, payload, handle) == m
        },
        !m.seen.contains_key(payload@) && m.pending.contains_key(payload@) ==> {
            &&& request_answers(m, view, parent, payload, handle) == seq![
                (handle, verify_outcome(m.balances, view, parent@, payload@, m.pending[payload@])),
            ]
            &&& after_request(m, view, parent, payload, handle) == m
        },
        !m.seen.contains_key(payload@) && !m.pending.contains_key(payload@) ==> {
            let after = after_request(m, view, parent, payload, handle);
            &&& request_answers(m, view, parent, payload, handle).len() == 0
            &&& after.waiters == m.waiters.push(Waiter { digest: payload, view, parent, handle })
            &&& after.seen == m.seen
            &&& after.pending == m.pending
            &&& after.balances == m.balances
        },
{
}

/// Law: when the block `d` arrives, every request that waits for it gets
/// the verdict on the arrived content, and exactly the requests that wait
/// for other blocks keep waiting.
pub proof fn lemma_relay_answers_waiters<W>(m: AppModel<W>, d: Seq<u8>, data: Seq<u8>)
    ensures
        forall|i: int|
            0 <= i < m.waiters.len() && (#[trigger] m.waiters[i]).digest@ == d
                ==> relay_answers(m, d, data).contains(
                (
                    m.waiters[i].handle,
                    verify_outcome(m.balances, m.waiters[i].view, m.waiters[i].parent@, d, data),
                ),
            ),
        forall|i: int|
            0 <= i < m.waiters.len() && (#[trigger] m.waiters[i]).digest@ != d ==> after_relay(
                m,
                d,
                data,
            ).waiters.contains(m.waiters[i]),
        forall|j: int|
            0 <= j < after_relay(m, d, data).waiters.len() ==> {
                &&& (#[trigger] after_relay(m, d, data).waiters[j]).digest@ != d
                &&& m.waiters.contains(after_relay(m, d, data).waiters[j])
            },
{
    let ws = m.waiters;
    let f = answer_on::<W>(m.balances, d, data);
    let mine = waiting_for(ws, d);
    let answers = relay_answers(m, d, data);
    assert(answers == mine.map_values(f));
    assert forall|i: int| 0 <= i < ws.len() && (#[trigger] ws[i]).digest@ == d implies answers.contains(
        (ws[i].handle, verify_outcome(m.balances, ws[i].view, ws[i].parent@, d, data)),
    ) by {
        ws.lemma_filter_contains(awaits::<W>(d), i);
        let k = choose|k: int| 0 <= k < mine.len() && mine[k] == ws[i];
        assert(answers[k] == f(mine[k]));
    }
    let rest = waiting_for_others(ws, d);
    assert forall|i: int| 0 <= i < ws.len() && (#[trigger] ws[i]).digest@ != d implies rest.contains(
        ws[i],
    ) by {
        ws.lemma_filter_contains(awaits_other::<W>(d), i);
    }
    assert forall|j: int| 0 <= j < rest.len() implies {
        &&& (#[trigger] rest[j]).digest@ != d
        &&& ws.contains(rest[j])
    } by {
        lemma_filter_elements(ws, awaits_other::<W>(d), j);
    }
}

/// The `j`-th answer when the block `d` arrives goes to the `j`-th waiter
/// for `d`, a waiter of the state, with the verdict on the arrived content.
proof fn lemma_relay_answer_at<W>(m: AppModel<W>, d: Seq<u8>, data: Seq<u8>, j: int)
    requires
        0 <= j < relay_answers(m, d, data).len(),
    ensures
        m.waiters.contains(waiting_for(m.waiters, d)[j]),
        waiting_for(m.waiters, d)[j].digest@ == d,
        relay_answers(m, d, data)[j] == (
            waiting_for(m.waiters, d)[j].handle,
            verify_outcome(
                m.balances,
                waiting_for(m.waiters, d)[j].view,
                waiting_for(m.waiters, d)[j].parent@,
                d,
                data,
            ),
        ),
{
    lemma_filter_elements(m.waiters, awaits::<W>(d), j);
}

/// Law: every answer given when the block `d` arrives goes to a request of
/// the state that waits for `d`, with the verdict on the arrived content;
/// there are as many answers as such requests.
pub proof fn lemma_relay_answers_to_waiters<W>(m: AppModel<W>, d: Seq<u8>, data: Seq<u8>)
    ensures
        relay_answers(m, d, data).len() == waiting_for(m.waiters, d).len(),
        forall|j: int|
            0 <= j < relay_answers(m, d, data).len() ==> #[trigger] answer_from_waiter(
                m,
                d,
                data,
                relay_answers(m, d, data)[j],
            ),
{
    assert forall|j: int| 0 <= j < relay_answers(m, d, data).len() implies #[trigger] answer_from_waiter(
        m,
        d,
        data,
        relay_answers(m, d, data)[j],
    ) by {
        lemma_relay_answer_at(m, d, data, j);
        let w = waiting_for(m.waiters, d)[j];
        let i = choose|i: int| 0 <= i < m.waiters.len() && m.waiters[i] == w;
        assert(m.waiters[i] == w);
        assert(answer_from_waiter_at(m, d, data, relay_answers(m, d, data)[j], i));
    }
}

/// The answer `a` goes to the `i`-th waiter of the state, which waits for
/// `d`, with the verdict on `data`.
pub open spec fn answer_from_waiter_at<W>(
    m: AppModel<W>,
    d: Seq<u8>,
    data: Seq<u8>,
    a: (W, Result<BlockModel, VerifyError>),
    i: int,
) -> bool {
    &&& 0 <= i < m.waiters.len()
    &&& m.waiters[i].digest@ == d
    &&& a == (
        m.waiters[i].handle,
        verify_outcome(m.balances, m.waiters[i].view, m.waiters[i].parent@, d, data),
    )
}

/// The answer `a` goes to some waiter of the state that waits for `d`, with
/// the verdict on `data`.
pub open spec fn answer_from_waiter<W>(
    m: AppModel<W>,
    d: Seq<u8>,
    data: Seq<u8>,
    a: (W, Result<BlockModel, VerifyError>),
) -> bool {
    exists|i: int| #[trigger] answer_from_waiter_at(m, d, data, a, i)
}

/// Two answers go, in this order, to two waiters of the state that wait for
/// `d`, the first having arrived before the second.
pub open spec fn answers_in_arrival_order<W>(
    m: AppModel<W>,
    d: Seq<u8>,
    data: Seq<u8>,
    a1: (W, Result<BlockModel, VerifyError>),
    a2: (W, Result<BlockModel, VerifyError>),
) -> bool {
    exists|i1: int, i2: int|
        #![trigger answer_from_waiter_at(m, d, data, a1, i1), answer_from_waiter_at(m, d, data, a2, i2)]
        i1 < i2 && answer_from_waiter_at(m, d, data, a1, i1) && answer_from_waiter_at(
            m,
            d,
            data,
            a2,
            i2,
        )
}

/// A filter keeps the order of the elements it keeps.
proof fn lemma_filter_order<A>(s: Seq<A>, p: spec_fn(A) -> bool, j1: int, j2: int)
    requires
        0 <= j1 < j2 < s.filter(p).len(),
    ensures
        exists|i1: int, i2: int|
            0 <= i1 < i2 < s.len() && s[i1] == s.filter(p)[j1] && s[i2] == s.filter(p)[j2],
    decreases s.len(),
{
    let init = s.drop_last();
    let x = s.last();
    assert(init.push(x) =~= s);
    lemma_filter_push(init, x, p);
    if j2 < init.filter(p).len() {
        lemma_filter_order(init, p, j1, j2);
        let (i1, i2) = choose|i1: int, i2: int|
            0 <= i1 < i2 < init.len() && init[i1] == init.filter(p)[j1] && init[i2]
                == init.filter(p)[j2];
        assert(s[i1] == init[i1] && s[i2] == init[i2]);
    } else {
        lemma_filter_elements(init, p, j1);
        let i1 = choose|i1: int| 0 <= i1 < init.len() && init[i1] == init.filter(p)[j1];
        assert(s[i1] == init[i1]);
        assert(s[s.len() - 1] == s.filter(p)[j2]);
    }
}

/// Law: the answers given when the block `d` arrives follow the order in
/// which the requests arrived.
pub proof fn lemma_relay_answers_in_order<W>(m: AppModel<W>, d: Seq<u8>, data: Seq<u8>)
    ensures
        forall|j1: int, j2: int|
            0 <= j1 < j2 < relay_answers(m, d, data).len() ==> #[trigger] answers_in_arrival_order(
                m,
                d,
                data,
                relay_answers(m, d, data)[j1],
                relay_answers(m, d, data)[j2],
            ),
{
    assert forall|j1: int, j2: int|
        0 <= j1 < j2 < relay_answers(m, d, data).len() implies #[trigger] answers_in_arrival_order(
        m,
        d,
        data,
        relay_answers(m, d, data)[j1],
        relay_answers(m, d, data)[j2],
    ) by {
        let ws = m.waiters;
        let mine = waiting_for(ws, d);
        lemma_filter_order(ws, awaits::<W>(d), j1, j2);
        let (i1, i2) = choose|i1: int, i2: int|
            0 <= i1 < i2 < ws.len() && ws[i1] == mine[j1] && ws[i2] == mine[j2];
        lemma_relay_answer_at(m, d, data, j1);
        lemma_relay_answer_at(m, d, data, j2);
        assert(answer_from_waiter_at(m, d, data, relay_answers(m, d, data)[j1], i1));
        assert(answer_from_waiter_at(m, d, data, relay_answers(m, d, data)[j2], i2));
    }
}

/// Where the first relay of `d` from `j` on stands.
proof fn lemma_first_relay<W>(events: Seq<Event<W>>, j: int, d: Seq<u8>)
    requires
        0 <= j <= events.len(),
    ensures
        j <= first_relay_from(events, j, d) <= events.len(),
        first_relay_from(events, j, d) < events.len() ==> relays(
            events[first_relay_from(events, j, d)],
            d,
        ),
        forall|i: int| j <= i < first_relay_from(events, j, d) ==> !relays(#[trigger] events[i], d),
    decreases events.len() - j,
{
    if j < events.len() && !relays(events[j], d) {
        lemma_first_relay(events, j + 1, d);
    }
}

/// The waiter that the request `events[k]` becomes while its block's
/// content is unknown.
pub open spec fn request_waiter<W>(events: Seq<Event<W>>, k: int) -> Waiter<W> {
    Waiter {
        digest: events[k]->Verify_payload,
        view: events[k]->Verify_view,
        parent: events[k]->Verify_parent,
        handle: events[k]->Verify_handle,
    }
}

/// While the request `events[k]` waits (after it and up to its answer),
/// exactly one waiter answers through its handle, the request itself;
/// before and after that, none does.
proof fn lemma_request_status<W>(my_index: u8, events: Seq<Event<W>>, k: int, n: int)
    requires
        0 <= k < events.len(),
        events[k] is Verify,
        handles_distinct(events),
        0 <= n <= events.len(),
    ensures
        ({
            let m0 = initial_model::<W>(my_index);
            let h = events[k]->Verify_handle;
            state_after(m0, events.take(n)).waiters.filter(waiter_with(h)) == if k < n
                <= answer_step(m0, events, k) {
                seq![request_waiter(events, k)]
            } else {
                Seq::<Waiter<W>>::empty()
            }
        }),
    decreases n,
{
    let m0 = initial_model::<W>(my_index);
    let h = events[k]->Verify_handle;
    let payload = events[k]->Verify_payload;
    let wh = request_waiter(events, k);
    let a = answer_step(m0, events, k);
    lemma_first_relay(events, k + 1, payload@);
    if n == 0 {
        assert(events.take(0) =~= Seq::<Event<W>>::empty());
        lemma_filter_empty(waiter_with(h));
    } else {
        lemma_request_status(my_index, events, k, n - 1);
        lemma_state_after_take(m0, events, n - 1);
        let prev = state_after(m0, events.take(n - 1));
        let hprev = prev.waiters.filter(waiter_with(h));
        let e = events[n - 1];
        match e {
            Event::Verify { view, parent, payload: p, handle } => {
                if n - 1 == k {
                    if known_content(prev, p@) is None {
                        lemma_filter_push(prev.waiters, wh, waiter_with(h));
                        assert(Seq::<Waiter<W>>::empty().push(wh) =~= seq![wh]);
                    }
                } else {
                    assert(handle != h);
                    if known_content(prev, p@) is None {
                        lemma_filter_push(
                            prev.waiters,
                            Waiter { digest: p, view, parent, handle },
                            waiter_with(h),
                        );
                    }
                }
            },
            Event::Relay { digest, data } => {
                lemma_filters_commute(prev.waiters, awaits_other::<W>(digest@), waiter_with(h));
                if k < n - 1 <= a {
                    lemma_filter_single(wh, awaits_other::<W>(digest@));
                } else {
                    lemma_filter_empty(awaits_other::<W>(digest@));
                }
            },
            _ => {},
        }
    }
}

/// What handling `events[j]` answers through the handle of the request
/// `events[k]`: its verdict at its answer step, nothing at any other step.
proof fn lemma_request_answer_at<W>(my_index: u8, events: Seq<Event<W>>, k: int, j: int)
    requires
        0 <= k < events.len(),
        events[k] is Verify,
        handles_distinct(events),
        0 <= j < events.len(),
    ensures
        ({
            let m0 = initial_model::<W>(my_index);
            let h = events[k]->Verify_handle;
            answers_at(m0, events, j).filter(answer_to(h)) == if j == answer_step(m0, events, k) {
                seq![
                    (h, verify_outcome(
                        genesis_balance_map(),
                        events[k]->Verify_view,
                        events[k]->Verify_parent@,
                        events[k]->Verify_payload@,
                        answer_content(m0, events, k),
                    )),
                ]
            } else {
                Seq::empty()
            }
        }),
{
    let m0 = initial_model::<W>(my_index);
    let h = events[k]->Verify_handle;
    let payload = events[k]->Verify_payload;
    let wh = request_waiter(events, k);
    let a = answer_step(m0, events, k);
    lemma_first_relay(events, k + 1, payload@);
    lemma_request_status(my_index, events, k, j);
    let prev = state_after(m0, events.take(j));
    lemma_state_after_fixed(m0, events.take(j));
    let e = events[j];
    match e {
        Event::Verify { view, parent, payload: p, handle } => {
            match known_content(prev, p@) {
                Some(c) => {
                    lemma_filter_single(
                        (handle, verify_outcome(prev.balances, view, parent@, p@, c)),
                        answer_to(h),
                    );
                    if j != k {
                        assert(handle != h);
                    }
                },
                None => {
                    lemma_filter_empty(answer_to(h));
                },
            }
        },
        Event::Relay { digest, data } => {
            let f = answer_on::<W>(prev.balances, digest@, data);
            let ws = waiting_for(prev.waiters, digest@);
            lemma_map_filter(ws, f, answer_to(h), waiter_with(h));
            lemma_filters_commute(prev.waiters, awaits::<W>(digest@), waiter_with(h));
            if k < j <= a {
                lemma_filter_single(wh, awaits::<W>(digest@));
                if wh.digest@ == digest@ {
                    assert(seq![wh].map_values(f) =~= seq![f(wh)]);
                } else {
                    assert(Seq::<Waiter<W>>::empty().map_values(f) =~= Seq::<
                        (W, Result<BlockModel, VerifyError>),
                    >::empty());
                }
            } else {
                lemma_filter_empty(awaits::<W>(digest@));
                assert(Seq::<Waiter<W>>::empty().map_values(f) =~= Seq::<
                    (W, Result<BlockModel, VerifyError>),
                >::empty());
            }
        },
        _ => {
            lemma_filter_empty(answer_to(h));
        },
    }
}

/// Law: in any sequence of handled events that starts from the state `new`
/// builds and gives each verification request its own handle, a request is
/// answered at most once. It is answered when it is handled if its block's
/// content is known then, and otherwise at the first later arrival of that
/// content, never earlier; the answer is the verdict on that content.
/// When the content never arrives, the request is never answered.
pub proof fn lemma_request_answered_once<W>(my_index: u8, events: Seq<Event<W>>, k: int)
    requires
        0 <= k < events.len(),
        events[k] is Verify,
        handles_distinct(events),
    ensures
        ({
            let m0 = initial_model::<W>(my_index);
            let a = answer_step(m0, events, k);
            let payload = events[k]->Verify_payload@;
            let h = events[k]->Verify_handle;
            &&& k <= a <= events.len()
            &&& (a == k <==> known_content(state_after(m0, events.take(k)), payload) is Some)
            &&& k < a < events.len() ==> relays(events[a], payload)
            &&& forall|i: int| k < i < a ==> !relays(#[trigger] events[i], payload)
            &&& forall|j: int|
                0 <= j < events.len() ==> #[trigger] answers_at(m0, events, j).filter(
                    answer_to(h),
                ) == if j == a {
                    seq![
                        (h, verify_outcome(
                            genesis_balance_map(),
                            events[k]->Verify_view,
                            events[k]->Verify_parent@,
                            payload,
                            answer_content(m0, events, k),
                        )),
                    ]
                } else {
                    Seq::empty()
                }
        }),
{
    let m0 = initial_model::<W>(my_index);
    lemma_first_relay(events, k + 1, events[k]->Verify_payload@);
    assert forall|j: int| 0 <= j < events.len() implies #[trigger] answers_at(
        m0,
        events,
        j,
    ).filter(answer_to(events[k]->Verify_handle)) == if j == answer_step(m0, events, k) {
        seq![
            (events[k]->Verify_handle, verify_outcome(
                genesis_balance_map(),
                events[k]->Verify_view,
                events[k]->Verify_parent@,
                events[k]->Verify_payload@,
                answer_content(m0, events, k),
            )),
        ]
    } else {
        Seq::empty()
    } by {
        lemma_request_answer_at(my_index, events, k, j);
    }
}

} // verus!
