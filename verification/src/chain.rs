//! Composition of an ordered list of matched units into one chain.
//!
//! The chain at a position runs the unit there and hands it, as its `next`,
//! the chain at the following position. Past the last unit the chain is the
//! identity: the context comes back unchanged.

use vstd::prelude::*;
use crate::middleware::{entries, Behaviour, Middleware, MiddlewareHandler, Next};

verus! {

/// What a chain does at one position.
#[derive(Clone, Copy, Debug)]
pub enum Step {
    /// Run the unit at `index`; its `next` is the chain from `next` on.
    Run { index: usize, next: usize },
    /// No unit is left: give the context back unchanged.
    Finish,
}

/// What the chain over `nodes` returns from position `i` on, for each context.
pub open spec fn chain_outcome<C, M: Behaviour<C>>(
    nodes: Seq<MiddlewareHandler<C, M>>,
    i: int,
) -> spec_fn(C) -> Result<C, hyper::Error>
    decreases nodes.len() - i,
{
    if 0 <= i < nodes.len() {
        let rest = chain_outcome(nodes, i + 1);
        |context: C| nodes[i].handler.outcome(context, rest)
    } else {
        |context: C| Ok(context)
    }
}

/// Decides what a chain of `len` units does at position `i`.
pub fn advance(len: usize, i: usize) -> (r: Step)
    ensures
        i < len ==> r == (Step::Run { index: i, next: (i + 1) as usize }),
        i >= len ==> r == Step::Finish,
{
    if i < len {
        Step::Run { index: i, next: i + 1 }
    } else {
        Step::Finish
    }
}

/// Runs the chain over `nodes` from position `i` on.
pub fn chained_run<C, M: Middleware<C>>(
    context: C,
    nodes: &Vec<&MiddlewareHandler<C, M>>,
    i: usize,
) -> (r: Result<C, hyper::Error>)
    ensures
        r == chain_outcome(entries(nodes@), i as int)(context),
        i >= nodes@.len() ==> r == Ok::<C, hyper::Error>(context),
{
    match advance(nodes.len(), i) {
        Step::Run { index, next } => {
            let rest = Next::new(nodes, next);
            nodes[index].handler.run(context, rest)
        },
        Step::Finish => Ok(context),
    }
}

/// A unit that decides without the rest of the chain decides for the whole
/// chain from its position on: what follows it has no part in the result, so
/// any two lists with that unit at `i` give the same result there.
pub proof fn law_short_circuit<C, M: Behaviour<C>>(
    nodes: Seq<MiddlewareHandler<C, M>>,
    other: Seq<MiddlewareHandler<C, M>>,
    i: int,
    context: C,
    result: Result<C, hyper::Error>,
)
    requires
        0 <= i < nodes.len(),
        i < other.len(),
        other[i] == nodes[i],
        forall|next: spec_fn(C) -> Result<C, hyper::Error>|
            #[trigger] nodes[i].handler.outcome(context, next) == result,
    ensures
        chain_outcome(nodes, i)(context) == result,
        chain_outcome(other, i)(context) == result,
{
}

/// A unit that hands a context on and returns what comes back adds nothing
/// of its own: the chain from its position on returns what the chain after
/// it returns for the context handed on.
pub proof fn law_pass_through<C, M: Behaviour<C>>(
    nodes: Seq<MiddlewareHandler<C, M>>,
    i: int,
    context: C,
    handed: C,
)
    requires
        0 <= i < nodes.len(),
        forall|next: spec_fn(C) -> Result<C, hyper::Error>|
            #[trigger] nodes[i].handler.outcome(context, next) == next(handed),
    ensures
        chain_outcome(nodes, i)(context) == chain_outcome(nodes, i + 1)(handed),
{
}

/// The last unit of a chain runs with the identity as its `next`.
pub proof fn law_last_unit<C, M: Behaviour<C>>(nodes: Seq<MiddlewareHandler<C, M>>, context: C)
    requires
        nodes.len() > 0,
    ensures
        chain_outcome(nodes, nodes.len() - 1)(context) == nodes.last().handler.outcome(
            context,
            |c: C| Ok::<C, hyper::Error>(c),
        ),
{
    let end = chain_outcome(nodes, nodes.len() as int);
    assert(end == |c: C| Ok::<C, hyper::Error>(c));
}

} // verus!
