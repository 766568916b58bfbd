//! The router: a route table per method and the entry point that runs the
//! chain of the units that match a request.

use vstd::prelude::*;
use vstd::string::StringSliceAdditionalSpecFns;
use vstd::utf8::encode_utf8;
use crate::chain::{chain_outcome, chained_run};
use crate::http_method::HttpMethod;
use crate::matcher::path_matches;
use crate::middleware::{
    entries, lemma_matching_empty, lemma_matching_push, matching, Middleware, MiddlewareHandler,
};
use std::collections::HashMap;

verus! {

/// Whether `after` is `before` with one entry more at its end, and that entry
/// stands under the pattern `pattern`.
pub open spec fn extended<C, M>(
    before: Seq<MiddlewareHandler<C, M>>,
    after: Seq<MiddlewareHandler<C, M>>,
    pattern: Seq<char>,
) -> bool {
    &&& after.len() == before.len() + 1
    &&& after.drop_last() == before
    &&& after.last().path@ == pattern
}

/// An entry registered under a pattern that matches a path is found for that
/// path, after all that was found before.
pub proof fn law_registered_is_found<C, M>(
    before: Seq<MiddlewareHandler<C, M>>,
    after: Seq<MiddlewareHandler<C, M>>,
    pattern: Seq<char>,
    path: Seq<u8>,
)
    requires
        extended(before, after, pattern),
        path_matches(encode_utf8(pattern), path),
    ensures
        matching(after, path) == matching(before, path).push(after.last()),
        matching(after, path).contains(after.last()),
{
    lemma_matching_push(before, after.last(), path);
    assert(after =~= before.push(after.last()));
    let found = matching(before, path).push(after.last());
    assert(found[found.len() - 1] == after.last());
}

/// An entry registered under a pattern that does not match a path changes
/// nothing of what is found for that path.
pub proof fn law_unmatched_is_not_found<C, M>(
    before: Seq<MiddlewareHandler<C, M>>,
    after: Seq<MiddlewareHandler<C, M>>,
    pattern: Seq<char>,
    path: Seq<u8>,
)
    requires
        extended(before, after, pattern),
        !path_matches(encode_utf8(pattern), path),
    ensures
        matching(after, path) == matching(before, path),
{
    lemma_matching_push(before, after.last(), path);
    assert(after =~= before.push(after.last()));
}

/// The route table: for each method the entries registered under it, in the
/// order of registration.
pub struct App<C, M> {
    route_stack: HashMap<u8, Vec<MiddlewareHandler<C, M>>>,
}

impl<C, M> App<C, M> {
    /// The entries registered under `method`, oldest first.
    pub closed spec fn stack(&self, method: HttpMethod) -> Seq<MiddlewareHandler<C, M>> {
        if self.route_stack@.contains_key(method.slot()) {
            self.route_stack@[method.slot()]@
        } else {
            Seq::empty()
        }
    }

    /// Whether `after` is `before` with one entry more: an entry for
    /// `middleware` under `pattern`, at the end of the list of `method`, with
    /// the list of every other method as it was.
    pub open spec fn registered(
        before: Self,
        after: Self,
        method: HttpMethod,
        pattern: Seq<char>,
        middleware: M,
    ) -> bool {
        &&& extended(before.stack(method), after.stack(method), pattern)
        &&& after.stack(method).last().handler == middleware
        &&& forall|other: HttpMethod|
            other != method ==> #[trigger] after.stack(other) == before.stack(other)
    }

    /// A registration under one method changes nothing of what is found
    /// under another.
    pub proof fn law_method_isolation(
        before: Self,
        after: Self,
        method: HttpMethod,
        other: HttpMethod,
        pattern: Seq<char>,
        middleware: M,
        path: Seq<u8>,
    )
        requires
            Self::registered(before, after, method, pattern, middleware),
            other != method,
        ensures
            matching(after.stack(other), path) == matching(before.stack(other), path),
    {
    }

    /// A table without entries.
    pub fn new() -> (r: Self)
        ensures
            forall|method: HttpMethod|
                #[trigger] r.stack(method) == Seq::<MiddlewareHandler<C, M>>::empty(),
    {
        App { route_stack: HashMap::new() }
    }

    /// Appends an entry for `middleware` under `path` to the list of `method`.
    /// Nothing is ever merged or dropped, and no other method's list changes.
    pub fn add_to_stack(&mut self, method: &HttpMethod, path: &str, middleware: M)
        ensures
            Self::registered(*old(self), *final(self), *method, path@, middleware),
    {
        broadcast use vstd::std_specs::hash::group_hash_axioms;

        let key: u8 = method.code();
        let entry = MiddlewareHandler::new(path.to_owned(), middleware);
        let mut stack = match self.route_stack.remove(&key) {
            Some(stack) => stack,
            None => Vec::new(),
        };
        stack.push(entry);
        self.route_stack.insert(key, stack);
        assert(final(self).stack(*method).drop_last() =~= old(self).stack(*method));
    }

    /// The entries of `method` whose pattern matches `path`, oldest first. A
    /// method without entries gives the empty list.
    pub fn get_middleware_stack(&self, method: &HttpMethod, path: &str) -> (r: Vec<
        &MiddlewareHandler<C, M>,
    >)
        ensures
            entries(r@) == matching(self.stack(*method), path.spec_bytes()),
    {
        broadcast use vstd::std_specs::hash::group_hash_axioms;

        let mut found: Vec<&MiddlewareHandler<C, M>> = Vec::new();
        let key: u8 = method.code();
        proof {
            lemma_matching_empty::<C, M>(path.spec_bytes());
        }
        match self.route_stack.get(&key) {
            Some(stack) => {
                let mut k: usize = 0;
                assert(entries(found@) =~= Seq::<MiddlewareHandler<C, M>>::empty());
                assert(stack@.take(0) =~= Seq::<MiddlewareHandler<C, M>>::empty());
                while k < stack.len()
                    invariant
                        k <= stack@.len(),
                        entries(found@) == matching(stack@.take(k as int), path.spec_bytes()),
                    decreases stack@.len() - k,
                {
                    let entry = &stack[k];
                    let ghost before = entries(found@);
                    proof {
                        lemma_matching_push(stack@.take(k as int), *entry, path.spec_bytes());
                        assert(stack@.take(k + 1) =~= stack@.take(k as int).push(*entry));
                    }
                    if entry.is_match(path) {
                        found.push(entry);
                        assert(entries(found@) =~= before.push(*entry));
                    }
                    k += 1;
                }
                assert(stack@.take(k as int) =~= stack@);
            },
            None => {
                assert(entries(found@) =~= Seq::<MiddlewareHandler<C, M>>::empty());
            },
        }
        found
    }
}

impl<C, M> App<C, M> {
    /// Registers `middleware` under `path` for GET requests.
    pub fn get(&mut self, path: &str, middleware: M)
        ensures
            Self::registered(*old(self), *final(self), HttpMethod::Get, path@, middleware),
    {
        self.add_to_stack(&HttpMethod::Get, path, middleware);
    }

    /// Registers `middleware` under `path` for POST requests.
    pub fn post(&mut self, path: &str, middleware: M)
        ensures
            Self::registered(*old(self), *final(self), HttpMethod::Post, path@, middleware),
    {
        self.add_to_stack(&HttpMethod::Post, path, middleware);
    }

    /// Registers `middleware` under `path` for PUT requests.
    pub fn put(&mut self, path: &str, middleware: M)
        ensures
            Self::registered(*old(self), *final(self), HttpMethod::Put, path@, middleware),
    {
        self.add_to_stack(&HttpMethod::Put, path, middleware);
    }

    /// Registers `middleware` under `path` for DELETE requests.
    pub fn delete(&mut self, path: &str, middleware: M)
        ensures
            Self::registered(*old(self), *final(self), HttpMethod::Delete, path@, middleware),
    {
        self.add_to_stack(&HttpMethod::Delete, path, middleware);
    }

    /// Registers `middleware` under `path` for HEAD requests.
    pub fn head(&mut self, path: &str, middleware: M)
        ensures
            Self::registered(*old(self), *final(self), HttpMethod::Head, path@, middleware),
    {
        self.add_to_stack(&HttpMethod::Head, path, middleware);
    }

    /// Registers `middleware` under `path` for OPTIONS requests.
    pub fn options(&mut self, path: &str, middleware: M)
        ensures
            Self::registered(*old(self), *final(self), HttpMethod::Options, path@, middleware),
    {
        self.add_to_stack(&HttpMethod::Options, path, middleware);
    }

    /// Registers `middleware` under `path` for CONNECT requests.
    pub fn connect(&mut self, path: &str, middleware: M)
        ensures
            Self::registered(*old(self), *final(self), HttpMethod::Connect, path@, middleware),
    {
        self.add_to_stack(&HttpMethod::Connect, path, middleware);
    }

    /// Registers `middleware` under `path` for PATCH requests.
    pub fn patch(&mut self, path: &str, middleware: M)
        ensures
            Self::registered(*old(self), *final(self), HttpMethod::Patch, path@, middleware),
    {
        self.add_to_stack(&HttpMethod::Patch, path, middleware);
    }

    /// Registers `middleware` under `path` for TRACE requests.
    pub fn trace(&mut self, path: &str, middleware: M)
        ensures
            Self::registered(*old(self), *final(self), HttpMethod::Trace, path@, middleware),
    {
        self.add_to_stack(&HttpMethod::Trace, path, middleware);
    }
}

impl<C, M: Clone> App<C, M> {
    /// Whether `after` is `before` with one entry more at the end of the list
    /// of every method that a request can have: an entry for a copy of
    /// `middleware` under `pattern`. The list of `Use` is as it was.
    pub open spec fn registered_for_all(
        before: Self,
        after: Self,
        pattern: Seq<char>,
        middleware: M,
    ) -> bool {
        &&& forall|method: HttpMethod|
            method.is_concrete() ==> {
                &&& extended(before.stack(method), #[trigger] after.stack(method), pattern)
                &&& cloned(middleware, after.stack(method).last().handler)
            }
        &&& after.stack(HttpMethod::Use) == before.stack(HttpMethod::Use)
    }

    /// What is registered for all methods is found under each method that a
    /// request can have, for every path that its pattern matches, after all
    /// that was found there before.
    pub proof fn law_wildcard_breadth(
        before: Self,
        after: Self,
        pattern: Seq<char>,
        middleware: M,
        method: HttpMethod,
        path: Seq<u8>,
    )
        requires
            Self::registered_for_all(before, after, pattern, middleware),
            method.is_concrete(),
            path_matches(encode_utf8(pattern), path),
        ensures
            matching(after.stack(method), path) == matching(before.stack(method), path).push(
                after.stack(method).last(),
            ),
            matching(after.stack(method), path).last().path@ == pattern,
            cloned(middleware, matching(after.stack(method), path).last().handler),
    {
        law_registered_is_found(before.stack(method), after.stack(method), pattern, path);
    }

    /// Registers a copy of `middleware` under `path` for every method that a
    /// request can have.
    pub fn use_middleware(&mut self, path: &str, middleware: M)
        ensures
            Self::registered_for_all(*old(self), *final(self), path@, middleware),
    {
        let methods: [HttpMethod; 9] = [
            HttpMethod::Get,
            HttpMethod::Post,
            HttpMethod::Put,
            HttpMethod::Delete,
            HttpMethod::Head,
            HttpMethod::Options,
            HttpMethod::Connect,
            HttpMethod::Patch,
            HttpMethod::Trace,
        ];
        let mut k: usize = 0;
        while k < 9
            invariant
                k <= 9,
                forall|t: int| 0 <= t < 9 ==> (#[trigger] methods@[t]).slot() == t,
                forall|method: HttpMethod|
                    method.slot() < k ==> {
                        &&& extended(
                            old(self).stack(method),
                            #[trigger] self.stack(method),
                            path@,
                        )
                        &&& cloned(middleware, self.stack(method).last().handler)
                    },
                forall|method: HttpMethod|
                    method.slot() >= k ==> #[trigger] self.stack(method) == old(self).stack(method),
            decreases 9 - k,
        {
            self.add_to_stack(&methods[k], path, middleware.clone());
            k += 1;
        }
    }
}

impl<C, M: Middleware<C>> App<C, M> {
    /// Runs the chain of the entries that match the request on `context`, in
    /// the order of registration. Where nothing matches, the context comes
    /// back as it was.
    pub fn resolve(&self, context: C, method: &HttpMethod, path: &str) -> (r: Result<
        C,
        hyper::Error,
    >)
        ensures
            r == chain_outcome(matching(self.stack(*method), path.spec_bytes()), 0)(context),
            matching(self.stack(*method), path.spec_bytes()).len() == 0 ==> r == Ok::<
                C,
                hyper::Error,
            >(context),
    {
        let stack = self.get_middleware_stack(method, path);
        chained_run(context, &stack, 0)
    }
}

} // verus!
