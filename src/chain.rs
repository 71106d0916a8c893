//! How middleware wrap a handler, and the order in which the resulting chain runs.
//!
//! A chain is built by folding the middleware list from the last registered to
//! the first, each wrapping the chain built so far; the first registered ends
//! up outermost. Running the chain, each layer runs on the way in, then either
//! hands the request on or answers it itself (a short-circuit), and runs again
//! on the way out with the response.
use vstd::prelude::*;

verus! {

/// One step of running a chain.
#[derive(Clone, Copy, Debug, PartialEq, Eq, Structural)]
pub enum Stage {
    /// Middleware `i` (by registration index) sees the request.
    Enter(usize),
    /// The terminal handler runs.
    Handler,
    /// Middleware `i` sees the response.
    Leave(usize),
}

/// The order in which `n` middleware wrap the handler: `n - 1` first, `0` last.
pub open spec fn wrap_order_spec(n: nat) -> Seq<usize> {
    Seq::new(n, |i: int| (n - 1 - i) as usize)
}

/// The layers of a chain from the outermost in, given the order of wrapping.
pub open spec fn layers_outside_in(wraps: Seq<usize>) -> Seq<usize> {
    wraps.reverse()
}

/// The stages of running layers `layers` (outermost first) around the
/// handler, where the layers flagged in `stops` answer without handing on.
pub open spec fn run(layers: Seq<usize>, stops: Seq<bool>) -> Seq<Stage>
    decreases layers.len(),
{
    if layers.len() == 0 {
        seq![Stage::Handler]
    } else {
        let m = layers[0];
        if stops_at(stops, m) {
            seq![Stage::Enter(m), Stage::Leave(m)]
        } else {
            seq![Stage::Enter(m)] + run(layers.drop_first(), stops) + seq![Stage::Leave(m)]
        }
    }
}

/// `Enter(0), ..., Enter(k - 1)`.
pub open spec fn entries_up_to(k: nat) -> Seq<Stage> {
    Seq::new(k, |i: int| Stage::Enter(i as usize))
}

/// `Leave(k - 1), ..., Leave(0)`.
pub open spec fn exits_down_from(k: nat) -> Seq<Stage> {
    Seq::new(k, |i: int| Stage::Leave((k - 1 - i) as usize))
}

/// Whether middleware `m` answers without handing on: its flag is set.
pub open spec fn stops_at(stops: Seq<bool>, m: usize) -> bool {
    m < stops.len() && stops[m as int]
}

/// The wrap order of `n` middleware.
pub fn wrap_order(n: usize) -> (r: Vec<usize>)
    ensures
        r@ == wrap_order_spec(n as nat),
{
    let mut out: Vec<usize> = Vec::new();
    let mut i: usize = n;
    while i > 0
        invariant
            i <= n,
            out@.len() == n - i,
            forall|j: int| 0 <= j < out@.len() ==> out@[j] == (n - 1 - j) as usize,
        decreases i,
    {
        i -= 1;
        out.push(i);
    }
    assert(out@ =~= wrap_order_spec(n as nat));
    out
}

/// The stages of running the chain that `wraps` builds, where `stops[i]` says
/// whether middleware `i` answers without handing on.
pub fn trace(wraps: &Vec<usize>, stops: &Vec<bool>) -> (r: Vec<Stage>)
    ensures
        r@ == run(layers_outside_in(wraps@), stops@),
{
    let ghost layers = layers_outside_in(wraps@);
    // Inbound: from the outermost layer in, until one answers or the handler is reached.
    let mut inward: Vec<Stage> = Vec::new();
    let mut depth: usize = 0;
    let mut stopped = false;
    let n = wraps.len();
    while depth < n && !stopped
        invariant
            n == wraps@.len(),
            depth <= n,
            layers == layers_outside_in(wraps@),
            inward@.len() == depth,
            forall|j: int| 0 <= j < depth ==> inward@[j] == Stage::Enter(#[trigger] layers[j]),
            forall|j: int| 0 <= j < depth - 1 ==> !stops_at(stops@, #[trigger] layers[j]),
            stopped ==> depth > 0 && stops_at(stops@, layers[depth - 1]),
            !stopped && depth > 0 ==> !stops_at(stops@, layers[depth - 1]),
        decreases n - depth,
    {
        let m = wraps[n - 1 - depth];
        assert(layers[depth as int] == m);
        inward.push(Stage::Enter(m));
        if m < stops.len() {
            stopped = stops[m];
            assert(stopped == stops@[m as int]);
        } else {
            stopped = false;
        }
        assert(stopped == stops_at(stops@, m));
        depth += 1;
    }
    let mut out = inward;
    if !stopped {
        out.push(Stage::Handler);
    }
    assert(!stopped ==> depth == n);
    // Outbound: from the innermost layer that ran back out.
    let ghost mid = out@;
    let mut k: usize = depth;
    while k > 0
        invariant
            k <= depth,
            depth <= n,
            n == wraps@.len(),
            layers == layers_outside_in(wraps@),
            out@.len() == mid.len() + (depth - k),
            out@.subrange(0, mid.len() as int) == mid,
            forall|j: int| 0 <= j < depth - k ==> out@[mid.len() + j] == Stage::Leave(
                #[trigger] layers[depth - 1 - j],
            ),
        decreases k,
    {
        k -= 1;
        let m = wraps[n - 1 - k];
        assert(layers[k as int] == m);
        let ghost before = out@;
        out.push(Stage::Leave(m));
        assert(out@.subrange(0, mid.len() as int) =~= before.subrange(0, mid.len() as int));
    }
    proof {
        lemma_trace_shape(layers, stops@, depth as int, stopped);
        let ins = Seq::new(depth as nat, |j: int| Stage::Enter(layers[j]));
        let outs = Seq::new(depth as nat, |j: int| Stage::Leave(layers[depth - 1 - j]));
        let centre: Seq<Stage> = if stopped {
            Seq::<Stage>::empty()
        } else {
            seq![Stage::Handler]
        };
        assert(mid =~= ins + centre);
        assert(out@ =~= ins + centre + outs) by {
            assert forall|x: int| 0 <= x < out@.len() implies out@[x] == (ins + centre + outs)[x] by {
                if x < mid.len() {
                    assert(out@[x] == out@.subrange(0, mid.len() as int)[x]);
                } else {
                    let j = x - mid.len();
                    assert(out@[mid.len() + j] == Stage::Leave(layers[depth - 1 - j]));
                }
            }
        }
    }
    out
}

/// The stages of running `layers` when the first `d` layers run (none of the
/// first `d - 1` stopping) and the `d`-th stops exactly when `stopped`.
proof fn lemma_trace_shape(layers: Seq<usize>, stops: Seq<bool>, d: int, stopped: bool)
    requires
        0 <= d <= layers.len(),
        forall|j: int| 0 <= j < d - 1 ==> !stops_at(stops, #[trigger] layers[j]),
        stopped ==> d > 0 && stops_at(stops, layers[d - 1]),
        !stopped && d > 0 ==> !stops_at(stops, layers[d - 1]),
        !stopped ==> d == layers.len(),
    ensures
        run(layers, stops) == Seq::new(d as nat, |j: int| Stage::Enter(layers[j])) + (if stopped {
            Seq::<Stage>::empty()
        } else {
            seq![Stage::Handler]
        }) + Seq::new(d as nat, |j: int| Stage::Leave(layers[d - 1 - j])),
    decreases d,
{
    let ins = Seq::new(d as nat, |j: int| Stage::Enter(layers[j]));
    let outs = Seq::new(d as nat, |j: int| Stage::Leave(layers[d - 1 - j]));
    let mid: Seq<Stage> = if stopped {
        Seq::<Stage>::empty()
    } else {
        seq![Stage::Handler]
    };
    if d == 0 {
        assert(run(layers, stops) =~= ins + mid + outs);
    } else {
        let m = layers[0];
        let rest = layers.drop_first();
        if d == 1 && stopped {
            assert(run(layers, stops) =~= ins + mid + outs);
        } else {
            assert(!stops_at(stops, m));
            lemma_trace_shape(rest, stops, d - 1, stopped);
            let ins2 = Seq::new((d - 1) as nat, |j: int| Stage::Enter(rest[j]));
            let outs2 = Seq::new((d - 1) as nat, |j: int| Stage::Leave(rest[d - 2 - j]));
            assert(run(layers, stops) == seq![Stage::Enter(m)] + run(rest, stops) + seq![Stage::Leave(m)]);
            assert(run(layers, stops) =~= ins + mid + outs) by {
                assert(ins =~= seq![Stage::Enter(m)] + ins2);
                assert(outs =~= outs2 + seq![Stage::Leave(m)]);
            }
        }
    }
}

/// Onion order: with middleware registered as `0, 1, ..., n - 1` and none of
/// them answering on its own, the chain runs `Enter(0), ..., Enter(n - 1)`,
/// then the handler, then `Leave(n - 1), ..., Leave(0)`.
pub proof fn onion_order(n: nat)
    requires
        n <= usize::MAX,
    ensures
        run(layers_outside_in(wrap_order_spec(n)), Seq::<bool>::empty()) == entries_up_to(n) + seq![
            Stage::Handler,
        ] + exits_down_from(n),
{
    let layers = layers_outside_in(wrap_order_spec(n));
    assert(forall|j: int| 0 <= j < n ==> layers[j] == j as usize);
    lemma_trace_shape(layers, Seq::<bool>::empty(), n as int, false);
    assert(Seq::new(n, |j: int| Stage::Enter(layers[j])) =~= entries_up_to(n));
    assert(Seq::new(n, |j: int| Stage::Leave(layers[n - 1 - j])) =~= exits_down_from(n));
}

/// Short-circuit: when middleware `k` is the first (outermost) to answer on
/// its own, neither the inner middleware nor the handler run, and every outer
/// middleware still sees the response on the way out.
pub proof fn short_circuit_order(n: nat, k: nat, stops: Seq<bool>)
    requires
        n <= usize::MAX,
        k < n,
        stops_at(stops, k as usize),
        forall|j: usize| j < k ==> !(#[trigger] stops_at(stops, j)),
    ensures
        run(layers_outside_in(wrap_order_spec(n)), stops) == entries_up_to(k + 1) + exits_down_from(
            k + 1,
        ),
{
    let layers = layers_outside_in(wrap_order_spec(n));
    assert(forall|j: int| 0 <= j < n ==> layers[j] == j as usize);
    assert forall|j: int| 0 <= j < k implies !stops_at(stops, #[trigger] layers[j]) by {
        assert(layers[j] == j as usize);
        assert(!stops_at(stops, j as usize));
    }
    lemma_trace_shape(layers, stops, (k + 1) as int, true);
    assert(Seq::new(k + 1, |j: int| Stage::Enter(layers[j])) =~= entries_up_to(k + 1));
    assert(Seq::new(k + 1, |j: int| Stage::Leave(layers[k + 1 - 1 - j])) =~= exits_down_from(k + 1));
    assert(entries_up_to(k + 1) + Seq::<Stage>::empty() =~= entries_up_to(k + 1));
}

} // verus!
