//! How the global window is distributed to the streams.

use vstd::prelude::*;

use super::stream::StreamHandle;
use std::collections::HashMap;

verus! {

broadcast use vstd::std_specs::hash::group_hash_axioms;

/// Requests for some of the global window: the identifier of the stream and the amount.
pub type WindowReqs = Seq<(u32, i32)>;

/// The outcome of distributing the global window: what is granted, in order, what is left of the
/// window and which requests have to wait.
#[verifier::ext_equal]
pub struct Distribution {
    pub grants: WindowReqs,
    pub window: i32,
    pub waiting: WindowReqs,
}

/// Whether a request is worth to be granted.
pub open spec fn is_live(streams: Map<u32, StreamHandle>, req: (u32, i32)) -> bool {
    req.1 > 0 && streams.contains_key(req.0)
}

/// Distributes a window to requests in the order in which they came. Requests of streams which do
/// no longer exist, or which do not ask for anything, are dropped. The last request which is
/// granted may be granted only in part.
pub open spec fn distributed(
    streams: Map<u32, StreamHandle>,
    window: i32,
    reqs: WindowReqs,
) -> Distribution
    decreases reqs.len(),
{
    if window <= 0 || reqs.len() == 0 {
        Distribution { grants: Seq::empty(), window, waiting: reqs }
    } else {
        let (id, amount) = reqs[0];
        let rest = reqs.skip(1);
        if !is_live(streams, reqs[0]) {
            distributed(streams, window, rest)
        } else if window >= amount {
            let next = distributed(streams, (window - amount) as i32, rest);
            Distribution { grants: seq![(id, amount)] + next.grants, ..next }
        } else {
            Distribution {
                grants: seq![(id, window)],
                window: 0,
                waiting: seq![(id, (amount - window) as i32)] + rest,
            }
        }
    }
}

/// Distributes the available global window to all streams waiting for some window becoming
/// available. It gets distributed by the FIFO principle. Returns the amount for each stream which
/// gets some.
pub fn distribute(
    streams: &HashMap<u32, StreamHandle>,
    window: &mut i32,
    reqs: &mut Vec<(u32, i32)>,
) -> (grants: Vec<(u32, i32)>)
    ensures
        distributed(streams@, *old(window), old(reqs)@) == (Distribution {
            grants: grants@,
            window: *final(window),
            waiting: final(reqs)@,
        }),
{
    let ghost expected = distributed(streams@, *window, reqs@);
    let mut grants: Vec<(u32, i32)> = Vec::new();
    proof {
        assert(expected.grants =~= grants@ + expected.grants);
    }
    while *window > 0 && reqs.len() > 0
        invariant
            ({
                let rest = distributed(streams@, *window, reqs@);
                &&& expected.grants == grants@ + rest.grants
                &&& expected.window == rest.window
                &&& expected.waiting == rest.waiting
            }),
        decreases
            reqs@.len() + if *window > 0 {
                1int
            } else {
                0
            },
    {
        let ghost before = reqs@;
        let ghost granted = grants@;
        let ghost rest = distributed(streams@, *window, reqs@);
        let (id, amount): (u32, i32) = reqs[0];
        proof {
            assert(before[0] == (id, amount));
            assert(before.remove(0) =~= before.skip(1));
        }
        if 0 >= amount || !streams.contains_key(&id) {
            reqs.remove(0);
            continue ;
        }
        // Find out how much we can give, and how much remains.
        if *window >= amount {
            grants.push((id, amount));
            *window = *window - amount;
            reqs.remove(0);
            proof {
                let next = distributed(streams@, *window, reqs@);
                assert(rest.grants =~= seq![(id, amount)] + next.grants);
                assert(granted + rest.grants =~= grants@ + next.grants);
            }
        } else {
            grants.push((id, *window));
            reqs[0] = (id, amount - *window);
            proof {
                assert(reqs@ =~= rest.waiting);
                assert(granted + rest.grants =~= grants@);
                assert(grants@ + Seq::<(u32, i32)>::empty() =~= grants@);
            }
            *window = 0;
        }
    }
    proof {
        assert(grants@ + Seq::<(u32, i32)>::empty() =~= grants@);
    }

    grants
}

/// The sum of all amounts.
pub open spec fn total(reqs: WindowReqs) -> int
    decreases reqs.len(),
{
    if reqs.len() == 0 {
        0
    } else {
        reqs[0].1 + total(reqs.skip(1))
    }
}

/// The sum of the amounts which a stream asks for, as far as they are worth to be granted.
pub open spec fn total_of(streams: Map<u32, StreamHandle>, id: u32, reqs: WindowReqs) -> int
    decreases reqs.len(),
{
    if reqs.len() == 0 {
        0
    } else {
        (if reqs[0].0 == id && is_live(streams, reqs[0]) {
            reqs[0].1 as int
        } else {
            0
        }) + total_of(streams, id, reqs.skip(1))
    }
}

/// The requests which are worth to be granted, in order.
pub open spec fn live(streams: Map<u32, StreamHandle>, reqs: WindowReqs) -> WindowReqs
    decreases reqs.len(),
{
    if reqs.len() == 0 {
        Seq::empty()
    } else {
        (if is_live(streams, reqs[0]) {
            seq![reqs[0]]
        } else {
            Seq::empty()
        }) + live(streams, reqs.skip(1))
    }
}

proof fn lemma_total_front(req: (u32, i32), reqs: WindowReqs)
    ensures
        total(seq![req] + reqs) == req.1 + total(reqs),
{
    assert((seq![req] + reqs).skip(1) =~= reqs);
}

proof fn lemma_total_of_front(
    streams: Map<u32, StreamHandle>,
    id: u32,
    req: (u32, i32),
    reqs: WindowReqs,
)
    ensures
        total_of(streams, id, seq![req] + reqs) == (if req.0 == id && is_live(streams, req) {
            req.1 as int
        } else {
            0
        }) + total_of(streams, id, reqs),
{
    assert((seq![req] + reqs).skip(1) =~= reqs);
}

/// Nothing of the global window gets lost or comes from nowhere: what is granted and what is left is
/// what there was. The window does not become negative, and no stream gets an amount which is not
/// positive.
pub proof fn law_window_is_conserved(
    streams: Map<u32, StreamHandle>,
    window: i32,
    reqs: WindowReqs,
)
    ensures
        ({
            let d = distributed(streams, window, reqs);
            &&& total(d.grants) + d.window == window
            &&& window >= 0 ==> d.window >= 0
            &&& forall|i: int| 0 <= i < d.grants.len() ==> is_live(streams, #[trigger] d.grants[i])
        }),
    decreases reqs.len(),
{
    if window > 0 && reqs.len() > 0 {
        let (id, amount) = reqs[0];
        if !is_live(streams, reqs[0]) {
            law_window_is_conserved(streams, window, reqs.skip(1));
        } else if window >= amount {
            law_window_is_conserved(streams, (window - amount) as i32, reqs.skip(1));
            let next = distributed(streams, (window - amount) as i32, reqs.skip(1));
            lemma_total_front((id, amount), next.grants);
        } else {
            lemma_total_front((id, window), Seq::empty());
            assert(seq![(id, window)] + Seq::<(u32, i32)>::empty() =~= seq![(id, window)]);
        }
    }
}

/// Each stream gets what it asks for, sooner or later: what is granted to it and what it still waits
/// for is what it asked for.
pub proof fn law_requests_are_kept(
    streams: Map<u32, StreamHandle>,
    window: i32,
    reqs: WindowReqs,
    id: u32,
)
    ensures
        ({
            let d = distributed(streams, window, reqs);
            total_of(streams, id, d.grants) + total_of(streams, id, d.waiting) == total_of(
                streams,
                id,
                reqs,
            )
        }),
    decreases reqs.len(),
{
    if window > 0 && reqs.len() > 0 {
        let (first, amount) = reqs[0];
        let rest = reqs.skip(1);
        if !is_live(streams, reqs[0]) {
            law_requests_are_kept(streams, window, rest, id);
        } else if window >= amount {
            law_requests_are_kept(streams, (window - amount) as i32, rest, id);
            let next = distributed(streams, (window - amount) as i32, rest);
            lemma_total_of_front(streams, id, (first, amount), next.grants);
        } else {
            assert(seq![(first, window)] + Seq::<(u32, i32)>::empty() =~= seq![(first, window)]);
            lemma_total_of_front(streams, id, (first, window), Seq::empty());
            lemma_total_of_front(streams, id, (first, (amount - window) as i32), rest);
        }
    }
}

/// The window is distributed by the FIFO principle: the streams are served in the order of their
/// requests, every request in front of the last one which is granted is granted in full, and a
/// request only waits if nothing of the window is left.
pub proof fn law_first_in_first_out(streams: Map<u32, StreamHandle>, window: i32, reqs: WindowReqs)
    ensures
        ({
            let d = distributed(streams, window, reqs);
            let asked = live(streams, reqs);
            let n = d.grants.len();
            &&& n <= asked.len()
            &&& forall|i: int|
                0 <= i < n ==> (#[trigger] d.grants[i]).0 == asked[i].0 && d.grants[i].1
                    <= asked[i].1
            &&& forall|i: int| 0 <= i < n - 1 ==> #[trigger] d.grants[i] == asked[i]
            &&& d.window > 0 ==> d.waiting.len() == 0 && d.grants == asked
        }),
    decreases reqs.len(),
{
    if reqs.len() > 0 && window > 0 {
        let (id, amount) = reqs[0];
        let rest = reqs.skip(1);
        if !is_live(streams, reqs[0]) {
            law_first_in_first_out(streams, window, rest);
            assert(live(streams, reqs) =~= live(streams, rest));
        } else if window >= amount {
            law_first_in_first_out(streams, (window - amount) as i32, rest);
            let next = distributed(streams, (window - amount) as i32, rest);
            let d = distributed(streams, window, reqs);
            let asked = live(streams, reqs);
            assert(asked =~= seq![reqs[0]] + live(streams, rest));
            assert forall|i: int| 0 <= i < d.grants.len() implies (#[trigger] d.grants[i]).0
                == asked[i].0 && d.grants[i].1 <= asked[i].1 by {
                if i > 0 {
                    assert(d.grants[i] == next.grants[i - 1]);
                    assert(asked[i] == live(streams, rest)[i - 1]);
                }
            }
            assert forall|i: int| 0 <= i < d.grants.len() - 1 implies #[trigger] d.grants[i]
                == asked[i] by {
                if i > 0 {
                    assert(d.grants[i] == next.grants[i - 1]);
                    assert(asked[i] == live(streams, rest)[i - 1]);
                }
            }
        } else {
            assert(live(streams, reqs)[0] == reqs[0]);
        }
    } else if reqs.len() == 0 {
        assert(live(streams, reqs) =~= Seq::empty());
    }
}

/// The sum of the positive amounts next to an identifier.
pub open spec fn asked_by(id: u32, reqs: WindowReqs) -> int
    decreases reqs.len(),
{
    if reqs.len() == 0 {
        0
    } else {
        (if reqs[0].0 == id && reqs[0].1 > 0 {
            reqs[0].1 as int
        } else {
            0
        }) + asked_by(id, reqs.skip(1))
    }
}

proof fn lemma_asked_by(streams: Map<u32, StreamHandle>, id: u32, reqs: WindowReqs)
    requires
        streams.contains_key(id),
    ensures
        asked_by(id, reqs) == total_of(streams, id, reqs),
        asked_by(id, reqs) >= 0,
    decreases reqs.len(),
{
    if reqs.len() > 0 {
        lemma_asked_by(streams, id, reqs.skip(1));
    }
}

/// Each stream which is known gets everything that it asked for while there is some window left,
/// and what it does not get it still waits for. Nobody else gets anything, and nothing is given
/// away while there is no window.
pub proof fn law_known_streams_are_served(
    streams: Map<u32, StreamHandle>,
    window: i32,
    reqs: WindowReqs,
    id: u32,
)
    ensures
        ({
            let d = distributed(streams, window, reqs);
            &&& streams.contains_key(id) ==> asked_by(id, d.grants) + asked_by(id, d.waiting)
                == asked_by(id, reqs)
            &&& streams.contains_key(id) && d.window > 0 ==> asked_by(id, d.grants) == asked_by(
                id,
                reqs,
            )
            &&& forall|i: int|
                0 <= i < d.grants.len() ==> (#[trigger] d.grants[i]).1 > 0 && streams.contains_key(
                    d.grants[i].0,
                )
            &&& window <= 0 ==> d.grants.len() == 0 && d.window == window && d.waiting == reqs
        }),
{
    let d = distributed(streams, window, reqs);
    law_window_is_conserved(streams, window, reqs);
    law_first_in_first_out(streams, window, reqs);
    if streams.contains_key(id) {
        law_requests_are_kept(streams, window, reqs, id);
        lemma_asked_by(streams, id, d.grants);
        lemma_asked_by(streams, id, d.waiting);
        lemma_asked_by(streams, id, reqs);
    }
    assert forall|i: int| 0 <= i < d.grants.len() implies (#[trigger] d.grants[i]).1 > 0
        && streams.contains_key(d.grants[i].0) by {
        assert(is_live(streams, d.grants[i]));
    }
}

/// A stream which is known and alone in asking for window gets as much of it as there is, at once.
pub proof fn law_lone_request_is_served(
    streams: Map<u32, StreamHandle>,
    window: i32,
    id: u32,
    amount: i32,
)
    requires
        streams.contains_key(id),
        amount > 0,
        window > 0,
    ensures
        ({
            let d = distributed(streams, window, seq![(id, amount)]);
            let granted = if amount <= window {
                amount
            } else {
                window
            };
            &&& d.grants == seq![(id, granted)]
            &&& d.window == window - granted
            &&& if amount <= window {
                d.waiting.len() == 0
            } else {
                d.waiting == seq![(id, (amount - window) as i32)]
            }
        }),
{
    let reqs = seq![(id, amount)];
    assert(reqs.skip(1) =~= Seq::empty());
    let d = distributed(streams, window, reqs);
    if window >= amount {
        let rest = distributed(streams, (window - amount) as i32, Seq::empty());
        assert(rest.grants =~= Seq::empty());
        assert(d.grants =~= seq![(id, amount)]);
    } else {
        assert(d.waiting =~= seq![(id, (amount - window) as i32)]);
    }
}

} // verus!
