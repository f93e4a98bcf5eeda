//! Sequences of requests to an arena: what they leave of it, where each is
//! answered, and which is the first that is refused.

use crate::arena::{Arena, ArenaState, Span};
use crate::layout::{lemma_round_up_bounds, round_up, span_end};
use crate::plain::lemma_splice;
use vstd::prelude::*;

verus! {

/// A request for `count` elements of `size` bytes, aligned to `align`.
pub struct Request {
    pub align: nat,
    pub size: nat,
    pub count: nat,
}

/// The state after `requests` were made in order, each one served if it fits
/// and refused without effect if it does not.
pub open spec fn serve(state: ArenaState, requests: Seq<Request>) -> ArenaState
    decreases requests.len(),
{
    if requests.len() == 0 {
        state
    } else {
        let last = requests.last();
        serve(state, requests.drop_last()).reserve(last.align, last.size, last.count)
    }
}

/// Where the cursor stands after `requests` when they are laid out from
/// `start` with no limit on the room: the cumulative aligned size.
pub open spec fn cumulative(start: nat, requests: Seq<Request>) -> nat
    decreases requests.len(),
{
    if requests.len() == 0 {
        start
    } else {
        let last = requests.last();
        span_end(cumulative(start, requests.drop_last()), last.align, last.size, last.count)
    }
}

/// Serving requests never moves the limit or the generation, never touches a
/// byte, and keeps the cursor within the region.
pub proof fn lemma_serve_keeps_region(state: ArenaState, requests: Seq<Request>)
    requires
        state.wf(),
    ensures
        serve(state, requests).bytes == state.bytes,
        serve(state, requests).generation == state.generation,
        serve(state, requests).wf(),
    decreases requests.len(),
{
    if requests.len() > 0 {
        lemma_serve_keeps_region(state, requests.drop_last());
    }
}

/// The cumulative aligned size only grows along a sequence of requests.
pub proof fn lemma_cumulative_grows(start: nat, requests: Seq<Request>, k: int)
    requires
        0 <= k <= requests.len(),
        forall|i: int| 0 <= i < requests.len() ==> (#[trigger] requests[i]).align > 0,
    ensures
        start <= cumulative(start, requests.take(k)) <= cumulative(start, requests),
    decreases requests.len(),
{
    if requests.len() == 0 {
        assert(requests.take(k) =~= requests);
    } else if k == requests.len() {
        assert(requests.take(k) =~= requests);
        lemma_cumulative_grows(start, requests.drop_last(), 0);
        assert(requests.drop_last().take(0) =~= Seq::<Request>::empty());
        let last = requests.last();
        lemma_round_up_bounds(
            cumulative(start, requests.drop_last()),
            last.align,
        );
        assert(last.count * last.size >= 0) by (nonlinear_arith);
    } else {
        lemma_cumulative_grows(start, requests.drop_last(), k);
        assert(requests.drop_last().take(k) =~= requests.take(k));
        let last = requests.last();
        lemma_round_up_bounds(
            cumulative(start, requests.drop_last()),
            last.align,
        );
        assert(last.count * last.size >= 0) by (nonlinear_arith);
    }
}

/// Capacity conservation: when the cumulative aligned size of a sequence of
/// requests does not exceed the capacity, every request is served, and the
/// bytes taken in the end are exactly the cumulative aligned size.
pub proof fn lemma_capacity_conservation(state: ArenaState, requests: Seq<Request>)
    requires
        state.wf(),
        forall|i: int| 0 <= i < requests.len() ==> (#[trigger] requests[i]).align > 0,
        cumulative(state.occupied, requests) <= state.capacity(),
    ensures
        serve(state, requests).occupied == cumulative(state.occupied, requests),
        forall|k: int|
            0 <= k < requests.len() ==> (#[trigger] serve(state, requests.take(k))).fits(
                requests[k].align,
                requests[k].size,
                requests[k].count,
            ),
    decreases requests.len(),
{
    if requests.len() > 0 {
        let front = requests.drop_last();
        let last = requests.last();
        lemma_cumulative_grows(state.occupied, requests, requests.len() - 1);
        assert(requests.take(requests.len() - 1) =~= front);
        lemma_capacity_conservation(state, front);
        lemma_serve_keeps_region(state, front);
        assert forall|k: int| 0 <= k < requests.len() implies (#[trigger] serve(
            state,
            requests.take(k),
        )).fits(requests[k].align, requests[k].size, requests[k].count) by {
            if k < front.len() {
                assert(front.take(k) =~= requests.take(k));
                assert(serve(state, front.take(k)).fits(
                    front[k].align,
                    front[k].size,
                    front[k].count,
                ));
            }
        }
    }
}

/// A call that reserves a run of elements and may write into it: a request,
/// and the bytes that are written into the run if the request is served.
pub struct Call {
    pub request: Request,
    pub image: Option<Seq<u8>>,
}

impl Call {
    /// The alignment is positive, and what is written fills the run exactly.
    pub open spec fn wf(self) -> bool {
        &&& self.request.align > 0
        &&& self.image matches Some(image) ==> image.len() == self.request.count
            * self.request.size
    }
}

/// The state after one call: the run is reserved and written if it fits,
/// and nothing changes if it does not.
pub open spec fn perform_one(state: ArenaState, call: Call) -> ArenaState {
    let request = call.request;
    if state.fits(request.align, request.size, request.count) {
        let reserved = state.reserve(request.align, request.size, request.count);
        match call.image {
            Some(image) => reserved.write(round_up(state.occupied, request.align), image),
            None => reserved,
        }
    } else {
        state
    }
}

/// The state after `calls` were made in order.
pub open spec fn perform(state: ArenaState, calls: Seq<Call>) -> ArenaState
    decreases calls.len(),
{
    if calls.len() == 0 {
        state
    } else {
        perform_one(perform(state, calls.drop_last()), calls.last())
    }
}

/// The requests of `calls`.
pub open spec fn requests_in(calls: Seq<Call>) -> Seq<Request> {
    Seq::new(calls.len(), |i: int| calls[i].request)
}

/// Calls move the cursor as their requests alone do, whatever they write,
/// and leave the limit and the generation alone.
pub proof fn lemma_perform_moves_cursor_like_serve(state: ArenaState, calls: Seq<Call>)
    requires
        state.wf(),
        forall|i: int| 0 <= i < calls.len() ==> (#[trigger] calls[i]).wf(),
    ensures
        perform(state, calls).occupied == serve(state, requests_in(calls)).occupied,
        perform(state, calls).capacity() == state.capacity(),
        perform(state, calls).generation == state.generation,
        perform(state, calls).wf(),
    decreases calls.len(),
{
    if calls.len() > 0 {
        let front = calls.drop_last();
        let last = calls.last();
        lemma_perform_moves_cursor_like_serve(state, front);
        lemma_serve_keeps_region(state, requests_in(front));
        assert(requests_in(calls).drop_last() =~= requests_in(front));
        assert(requests_in(calls).last() == last.request);
        assert(last.wf());
        let before = perform(state, front);
        if before.fits(last.request.align, last.request.size, last.request.count) {
            lemma_round_up_bounds(before.occupied, last.request.align);
            match last.image {
                Some(image) => {
                    lemma_splice(
                        before.bytes,
                        round_up(before.occupied, last.request.align) as int,
                        image,
                    );
                },
                None => {},
            }
        }
    } else {
        assert(requests_in(calls) =~= Seq::<Request>::empty());
    }
}

/// Capacity conservation, for calls that write as well: when the cumulative
/// aligned size of a sequence of calls does not exceed the capacity, every
/// call succeeds, and the bytes taken in the end are exactly the cumulative
/// aligned size.
pub proof fn lemma_capacity_conservation_of_calls(state: ArenaState, calls: Seq<Call>)
    requires
        state.wf(),
        forall|i: int| 0 <= i < calls.len() ==> (#[trigger] calls[i]).wf(),
        cumulative(state.occupied, requests_in(calls)) <= state.capacity(),
    ensures
        perform(state, calls).occupied == cumulative(state.occupied, requests_in(calls)),
        forall|k: int|
            0 <= k < calls.len() ==> (#[trigger] perform(state, calls.take(k))).fits(
                calls[k].request.align,
                calls[k].request.size,
                calls[k].request.count,
            ),
{
    let requests = requests_in(calls);
    assert forall|i: int| 0 <= i < requests.len() implies (#[trigger] requests[i]).align > 0 by {
        assert(calls[i].wf());
    }
    lemma_capacity_conservation(state, requests);
    lemma_perform_moves_cursor_like_serve(state, calls);
    assert forall|k: int| 0 <= k < calls.len() implies (#[trigger] perform(
        state,
        calls.take(k),
    )).fits(calls[k].request.align, calls[k].request.size, calls[k].request.count) by {
        assert forall|i: int| 0 <= i < calls.take(k).len() implies (#[trigger] calls.take(
            k,
        )[i]).wf() by {
            assert(calls.take(k)[i] == calls[i]);
        }
        lemma_perform_moves_cursor_like_serve(state, calls.take(k));
        assert(requests_in(calls.take(k)) =~= requests.take(k));
        assert(serve(state, requests.take(k)).fits(
            requests[k].align,
            requests[k].size,
            requests[k].count,
        ));
        lemma_serve_keeps_region(state, requests.take(k));
    }
}

/// Exhaustion boundary: the first request whose aligned size would move the
/// cursor past the capacity is refused, and leaves the state as it was.
pub proof fn lemma_exhaustion_boundary(state: ArenaState, requests: Seq<Request>, k: int)
    requires
        state.wf(),
        0 <= k < requests.len(),
        forall|i: int| 0 <= i < requests.len() ==> (#[trigger] requests[i]).align > 0,
        cumulative(state.occupied, requests.take(k)) <= state.capacity(),
        cumulative(state.occupied, requests.take(k + 1)) > state.capacity(),
    ensures
        !serve(state, requests.take(k)).fits(
            requests[k].align,
            requests[k].size,
            requests[k].count,
        ),
        serve(state, requests.take(k)).granted(
            requests[k].align,
            requests[k].size,
            requests[k].count,
        ) is None,
        serve(state, requests.take(k + 1)) == serve(state, requests.take(k)),
{
    assert forall|i: int| 0 <= i < requests.take(k).len() implies (#[trigger] requests.take(
        k,
    )[i]).align > 0 by {
        assert(requests.take(k)[i] == requests[i]);
    }
    lemma_capacity_conservation(state, requests.take(k));
    lemma_serve_keeps_region(state, requests.take(k));
    assert(requests.take(k + 1).drop_last() =~= requests.take(k));
    assert(requests.take(k + 1).last() == requests[k]);
}

/// Reset invalidation: after a reset nothing is taken, and no handle of the
/// generation that ended is valid, whatever is reserved afterwards.
pub proof fn lemma_reset_invalidates(state: ArenaState, span: Span, later: Seq<Request>)
    requires
        state.wf(),
        span.generation <= state.generation,
    ensures
        state.reset().occupied == 0,
        state.reset().wf(),
        !state.reset().is_valid(span),
        !serve(state.reset(), later).is_valid(span),
{
    lemma_serve_keeps_region(state.reset(), later);
}

/// A handle granted after a reset for at least one byte is valid, and stays
/// valid whatever is reserved afterwards in the same generation.
pub proof fn lemma_granted_is_valid(
    state: ArenaState,
    align: nat,
    size: nat,
    count: nat,
    later: Seq<Request>,
)
    requires
        state.wf(),
        align > 0,
        count * size > 0,
        state.fits(align, size, count),
    ensures
        state.granted(align, size, count) matches Some(span) && {
            &&& state.reserve(align, size, count).is_valid(span)
            &&& state.reserve(align, size, count).holds(span, size)
            &&& serve(state.reserve(align, size, count), later).is_valid(span)
        },
{
    lemma_round_up_bounds(state.occupied, align);
    lemma_serve_keeps_region(state.reserve(align, size, count), later);
}

/// Whether the first `n` of `requests` are all served when they are made in
/// order.
pub open spec fn served(state: ArenaState, requests: Seq<Request>, n: int) -> bool {
    forall|k: int|
        0 <= k < n ==> #[trigger] serve(state, requests.take(k)).fits(
            requests[k].align,
            requests[k].size,
            requests[k].count,
        )
}

/// The handle that request `k` of `requests` is answered with.
pub open spec fn granted_at(state: ArenaState, requests: Seq<Request>, k: int) -> Span {
    serve(state, requests.take(k)).granted(
        requests[k].align,
        requests[k].size,
        requests[k].count,
    ).unwrap()
}

/// The index of the first of `requests` that is refused when they are made
/// in order, or their number when all are served.
pub open spec fn first_refused(state: ArenaState, requests: Seq<Request>) -> int
    decreases requests.len(),
{
    if requests.len() == 0 {
        0
    } else {
        let before = first_refused(state, requests.drop_last());
        let last = requests.last();
        if before < requests.len() - 1 {
            before
        } else if serve(state, requests.drop_last()).fits(last.align, last.size, last.count) {
            requests.len() as int
        } else {
            requests.len() - 1
        }
    }
}

/// The state after `requests` were made in order up to the first refusal:
/// what was reserved before it stays reserved, and nothing is asked after it.
pub open spec fn serve_until_refused(state: ArenaState, requests: Seq<Request>) -> ArenaState {
    serve(state, requests.take(first_refused(state, requests)))
}

/// Serving one more request is reserving it in the state that the requests
/// before it left.
pub proof fn lemma_serve_step(state: ArenaState, requests: Seq<Request>, k: int)
    requires
        0 <= k < requests.len(),
    ensures
        serve(state, requests.take(k + 1)) == serve(state, requests.take(k)).reserve(
            requests[k].align,
            requests[k].size,
            requests[k].count,
        ),
        serve(state, requests.take(0)) == state,
{
    assert(requests.take(k + 1).drop_last() =~= requests.take(k));
    assert(requests.take(k + 1).last() == requests[k]);
    assert(requests.take(0) =~= Seq::<Request>::empty());
}

/// The requests before the first refused one are all served, and that one,
/// if there is one, does not fit.
pub proof fn lemma_first_refused(state: ArenaState, requests: Seq<Request>)
    ensures
        0 <= first_refused(state, requests) <= requests.len(),
        served(state, requests, first_refused(state, requests)),
        first_refused(state, requests) < requests.len() ==> !serve(
            state,
            requests.take(first_refused(state, requests)),
        ).fits(
            requests[first_refused(state, requests)].align,
            requests[first_refused(state, requests)].size,
            requests[first_refused(state, requests)].count,
        ),
    decreases requests.len(),
{
    if requests.len() > 0 {
        let front = requests.drop_last();
        let n = front.len() as int;
        lemma_first_refused(state, front);
        let before = first_refused(state, front);
        let k = first_refused(state, requests);
        assert(requests.take(n) =~= front);
        assert forall|j: int| 0 <= j < k implies #[trigger] serve(state, requests.take(j)).fits(
            requests[j].align,
            requests[j].size,
            requests[j].count,
        ) by {
            if j < n {
                assert(front.take(j) =~= requests.take(j));
                assert(serve(state, front.take(j)).fits(
                    front[j].align,
                    front[j].size,
                    front[j].count,
                ));
            }
        }
        if k < n {
            assert(front.take(k) =~= requests.take(k));
        }
    }
}

/// The first refused request is the first one that does not fit after those
/// before it were served.
pub proof fn lemma_first_refused_is(state: ArenaState, requests: Seq<Request>, k: int)
    requires
        0 <= k <= requests.len(),
        served(state, requests, k),
        k < requests.len() ==> !serve(state, requests.take(k)).fits(
            requests[k].align,
            requests[k].size,
            requests[k].count,
        ),
    ensures
        first_refused(state, requests) == k,
{
    lemma_first_refused(state, requests);
    let f = first_refused(state, requests);
    if f < k {
        assert(serve(state, requests.take(f)).fits(
            requests[f].align,
            requests[f].size,
            requests[f].count,
        ));
    } else if k < f {
        assert(serve(state, requests.take(k)).fits(
            requests[k].align,
            requests[k].size,
            requests[k].count,
        ));
    }
}

/// A request as executable code makes it.
#[derive(Clone, Copy, Debug)]
pub struct Layout {
    pub align: usize,
    pub size: usize,
    pub count: usize,
}

impl View for Layout {
    type V = Request;

    open spec fn view(&self) -> Request {
        Request { align: self.align as nat, size: self.size as nat, count: self.count as nat }
    }
}

/// The requests that `layouts` stand for.
pub open spec fn requests_of(layouts: Seq<Layout>) -> Seq<Request> {
    Seq::new(layouts.len(), |i: int| layouts[i]@)
}

impl Arena {
    /// Makes the given requests in order and stops at the first that is
    /// refused. Returns where each run starts when all were served.
    pub fn reserve_all(&mut self, layouts: &[Layout]) -> (starts: Option<Vec<usize>>)
        requires
            old(self)@.wf(),
            forall|i: int| 0 <= i < layouts@.len() ==> (#[trigger] layouts@[i]).align > 0,
        ensures
            final(self)@ == serve_until_refused(old(self)@, requests_of(layouts@)),
            match starts {
                Some(s) => {
                    &&& first_refused(old(self)@, requests_of(layouts@)) == layouts@.len()
                    &&& s@.len() == layouts@.len()
                    &&& forall|k: int|
                        0 <= k < s@.len() ==> #[trigger] s@[k] == granted_at(
                            old(self)@,
                            requests_of(layouts@),
                            k,
                        ).address
                },
                None => first_refused(old(self)@, requests_of(layouts@)) < layouts@.len(),
            },
            final(self)@.wf(),
    {
        let ghost requests = requests_of(layouts@);
        let ghost before = self@;
        let mut starts: Vec<usize> = Vec::with_capacity(layouts.len());
        let mut i: usize = 0;
        proof {
            assert(requests.take(0) =~= Seq::<Request>::empty());
        }
        while i < layouts.len()
            invariant
                i <= layouts@.len(),
                requests == requests_of(layouts@),
                before == old(self)@,
                forall|j: int| 0 <= j < layouts@.len() ==> (#[trigger] layouts@[j]).align > 0,
                self@.wf(),
                self@ == serve(before, requests.take(i as int)),
                served(before, requests, i as int),
                starts@.len() == i,
                forall|k: int|
                    0 <= k < i ==> #[trigger] starts@[k] == granted_at(before, requests, k).address,
            decreases layouts@.len() - i,
        {
            let layout = layouts[i];
            proof {
                lemma_serve_step(before, requests, i as int);
                assert(requests[i as int] == layout@);
            }
            match self.reserve(layout.align, layout.size, layout.count) {
                Some(start) => {
                    starts.push(start);
                },
                None => {
                    proof {
                        lemma_first_refused_is(before, requests, i as int);
                    }
                    return None;
                },
            }
            i = i + 1;
        }
        proof {
            lemma_first_refused_is(before, requests, i as int);
            assert(requests.take(i as int) =~= requests);
        }
        Some(starts)
    }
}


/// The cursor never moves back along a sequence of requests.
pub proof fn lemma_serve_grows(state: ArenaState, requests: Seq<Request>, k: int)
    requires
        state.wf(),
        0 <= k <= requests.len(),
        forall|i: int| 0 <= i < requests.len() ==> (#[trigger] requests[i]).align > 0,
    ensures
        serve(state, requests.take(k)).occupied <= serve(state, requests).occupied,
    decreases requests.len() - k,
{
    if k == requests.len() {
        assert(requests.take(k) =~= requests);
    } else {
        lemma_serve_step(state, requests, k);
        lemma_serve_grows(state, requests, k + 1);
        lemma_round_up_bounds(
            serve(state, requests.take(k)).occupied,
            requests[k].align,
        );
        assert(requests[k].count * requests[k].size >= 0) by (nonlinear_arith);
    }
}

/// The handle granted to a request that was served: where it starts and
/// ends, in the generation that the requests were made in.
pub proof fn lemma_granted_span(state: ArenaState, requests: Seq<Request>, k: int)
    requires
        state.wf(),
        0 <= k < requests.len(),
        k < first_refused(state, requests),
        forall|i: int| 0 <= i < requests.len() ==> (#[trigger] requests[i]).align > 0,
    ensures
        granted_at(state, requests, k) == (Span {
            address: round_up(
                serve(state, requests.take(k)).occupied,
                requests[k].align,
            ),
            len: requests[k].count,
            generation: state.generation,
        }),
        granted_at(state, requests, k).address + requests[k].count * requests[k].size == serve(
            state,
            requests.take(k + 1),
        ).occupied,
        serve(state, requests.take(k + 1)).occupied <= serve(
            state,
            requests.take(first_refused(state, requests)),
        ).occupied,
{
    lemma_first_refused(state, requests);
    lemma_serve_keeps_region(state, requests.take(k));
    lemma_serve_step(state, requests, k);
    assert(serve(state, requests.take(k)).fits(
        requests[k].align,
        requests[k].size,
        requests[k].count,
    ));
    let served = requests.take(first_refused(state, requests));
    assert forall|i: int| 0 <= i < served.len() implies (#[trigger] served[i]).align > 0 by {
        assert(served[i] == requests[i]);
    }
    lemma_serve_grows(state, served, k + 1);
    assert(served.take(k + 1) =~= requests.take(k + 1));
}

/// Allocations never overlap: of two requests served in one generation, the
/// run of the earlier one ends before the run of the later one starts.
pub proof fn lemma_granted_apart(state: ArenaState, requests: Seq<Request>, i: int, j: int)
    requires
        state.wf(),
        0 <= i < j < requests.len(),
        j < first_refused(state, requests),
        forall|k: int| 0 <= k < requests.len() ==> (#[trigger] requests[k]).align > 0,
    ensures
        granted_at(state, requests, i).address + requests[i].count * requests[i].size
            <= granted_at(state, requests, j).address,
{
    lemma_granted_span(state, requests, i);
    lemma_granted_span(state, requests, j);
    let upto = requests.take(j);
    assert forall|k: int| 0 <= k < upto.len() implies (#[trigger] upto[k]).align > 0 by {
        assert(upto[k] == requests[k]);
    }
    lemma_serve_keeps_region(state, upto);
    lemma_serve_grows(state, upto, i + 1);
    assert(upto.take(i + 1) =~= requests.take(i + 1));
    lemma_round_up_bounds(serve(state, upto).occupied, requests[j].align);
}

} // verus!
