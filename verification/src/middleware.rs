//! The contract that every registered unit meets, and the continuation that
//! a unit is handed to reach the rest of its chain.

use vstd::prelude::*;
use vstd::string::StringSliceAdditionalSpecFns;
use vstd::utf8::encode_utf8;
use crate::chain::{chain_outcome, chained_run};
use crate::matcher::{is_match, path_matches};

verus! {

/// `hyper::Error`, the error that a unit may return. A chain carries it to
/// its caller untouched; nothing is claimed of what a value of it holds.
#[verifier::external_type_specification]
#[verifier::external_body]
pub struct ExError(hyper::Error);

/// A route entry: a path pattern and the unit registered under it.
pub struct MiddlewareHandler<C, M> {
    pub path: String,
    pub handler: M,
    pub context: core::marker::PhantomData<C>,
}

impl<C, M> MiddlewareHandler<C, M> {
    /// Whether the entry's pattern matches the path `path`, given as bytes.
    pub open spec fn matches(&self, path: Seq<u8>) -> bool {
        path_matches(encode_utf8(self.path@), path)
    }

    /// An entry for `handler` under the pattern `path`.
    pub fn new(path: String, handler: M) -> (r: Self)
        ensures
            r.path == path,
            r.handler == handler,
    {
        MiddlewareHandler { path, handler, context: core::marker::PhantomData }
    }

    /// Decides whether the entry's pattern matches `path`.
    pub fn is_match(&self, path: &str) -> (r: bool)
        ensures
            r == self.matches(path.spec_bytes()),
    {
        is_match(self.path.as_str(), path)
    }
}

/// The entries that a list of shared entries stands for.
pub open spec fn entries<C, M>(shared: Seq<&MiddlewareHandler<C, M>>) -> Seq<
    MiddlewareHandler<C, M>,
> {
    shared.map_values(|h: &MiddlewareHandler<C, M>| *h)
}

/// The entries of `stack` whose pattern matches `path`, in the order of `stack`.
pub open spec fn matching<C, M>(stack: Seq<MiddlewareHandler<C, M>>, path: Seq<u8>) -> Seq<
    MiddlewareHandler<C, M>,
> {
    stack.filter(|h: MiddlewareHandler<C, M>| h.matches(path))
}

/// No entry of an empty list matches.
pub proof fn lemma_matching_empty<C, M>(path: Seq<u8>)
    ensures
        matching(Seq::<MiddlewareHandler<C, M>>::empty(), path) == Seq::<
            MiddlewareHandler<C, M>,
        >::empty(),
{
    reveal(Seq::filter);
}

/// An entry appended to a list comes last among the matching entries if it
/// matches, and leaves them as they were if it does not.
pub proof fn lemma_matching_push<C, M>(
    stack: Seq<MiddlewareHandler<C, M>>,
    entry: MiddlewareHandler<C, M>,
    path: Seq<u8>,
)
    ensures
        matching(stack.push(entry), path) == if entry.matches(path) {
            matching(stack, path).push(entry)
        } else {
            matching(stack, path)
        },
{
    reveal(Seq::filter);
    assert(stack.push(entry).drop_last() =~= stack);
}

/// Matching keeps the order of the list: whatever matches among the first
/// `n` entries comes before whatever matches among the others.
pub proof fn law_order_preserved<C, M>(stack: Seq<MiddlewareHandler<C, M>>, n: int, path: Seq<u8>)
    requires
        0 <= n <= stack.len(),
    ensures
        matching(stack, path) == matching(stack.take(n), path) + matching(stack.skip(n), path),
{
    let pred = |h: MiddlewareHandler<C, M>| h.matches(path);
    assert(stack =~= stack.take(n) + stack.skip(n));
    Seq::filter_distributes_over_add(stack.take(n), stack.skip(n), pred);
}

/// Two entries that match a path and are appended one after the other are
/// both found, in that order and after all that was found before. This
/// holds as well where the two are the same entry: nothing is merged.
pub proof fn law_registration_order<C, M>(
    stack: Seq<MiddlewareHandler<C, M>>,
    first: MiddlewareHandler<C, M>,
    second: MiddlewareHandler<C, M>,
    path: Seq<u8>,
)
    requires
        first.matches(path),
        second.matches(path),
    ensures
        matching(stack.push(first).push(second), path) == matching(stack, path).push(first).push(
            second,
        ),
{
    lemma_matching_push(stack, first, path);
    lemma_matching_push(stack.push(first), second, path);
}

/// The mathematical model of a unit: a function of the context it receives
/// and of what the rest of the chain would do.
///
/// A unit may state its function by giving `outcome` a body of its own. One
/// that does not is still taken to be some function, which is left unnamed.
pub trait Behaviour<C> {
    /// What the unit returns, given the context and what the rest of the
    /// chain would return for each context handed on to it.
    open spec fn outcome(
        &self,
        context: C,
        next: spec_fn(C) -> Result<C, hyper::Error>,
    ) -> Result<C, hyper::Error> {
        arbitrary()
    }
}

/// The rest of a chain, from one position on. It is made anew for each
/// request and can be called once.
pub struct Next<'a, C, M: Behaviour<C>> {
    nodes: &'a Vec<&'a MiddlewareHandler<C, M>>,
    index: usize,
}

impl<'a, C, M: Behaviour<C>> Next<'a, C, M> {
    /// What a call returns for each context.
    pub closed spec fn outcome(self) -> spec_fn(C) -> Result<C, hyper::Error> {
        chain_outcome(entries(self.nodes@), self.index as int)
    }
}

/// A unit of a chain.
///
/// `run` does one of three things: it hands a context on with `next` and
/// returns what comes back; it returns without calling `next`, which ends the
/// chain there; or it calls `next` and returns what comes back changed. `next`
/// is used up by its call, so it cannot be called twice. A unit must return.
///
/// All that is stated of a chain rests on what `run` promises here: that it
/// returns what `outcome` says, and so depends on nothing but the unit, the
/// context and the rest of the chain. Nothing holds a unit to that promise
/// but its author.
pub trait Middleware<C>: Behaviour<C> + Sized {
    /// Runs the unit on `context`, with the rest of the chain as `next`.
    fn run(&self, context: C, next: Next<'_, C, Self>) -> (r: Result<C, hyper::Error>)
        ensures
            r == self.outcome(context, next.outcome()),
    ;
}

impl<'a, C, M: Middleware<C>> Next<'a, C, M> {
    /// The chain over `nodes` from position `index` on.
    pub(crate) fn new(nodes: &'a Vec<&'a MiddlewareHandler<C, M>>, index: usize) -> (r: Self)
        ensures
            r.outcome() == chain_outcome(entries(nodes@), index as int),
    {
        Next { nodes, index }
    }

    /// Runs the rest of the chain on `context`.
    pub fn call(self, context: C) -> (r: Result<C, hyper::Error>)
        ensures
            r == (self.outcome())(context),
    {
        chained_run(context, self.nodes, self.index)
    }
}

} // verus!
