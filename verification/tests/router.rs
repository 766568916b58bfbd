use std::cell::Cell;
use std::pin::Pin;
use std::rc::Rc;
use std::sync::Arc;
use std::task::{Context, Poll, Wake, Waker};

use hyper::body::HttpBody;
use middleware_router::app::App;
use middleware_router::chain::{advance, chained_run, Step};
use middleware_router::http_method::HttpMethod;
use middleware_router::middleware::{Behaviour, Middleware, MiddlewareHandler, Next};

#[derive(Clone, Debug, PartialEq)]
struct Trail {
    seen: Vec<u32>,
}

struct Idle;

impl Wake for Idle {
    fn wake(self: Arc<Self>) {}
}

/// An error of the outside crate: that of a body whose sender gave up.
fn aborted() -> hyper::Error {
    let (sender, mut body) = hyper::Body::channel();
    sender.abort();
    let waker = Waker::from(Arc::new(Idle));
    let mut cx = Context::from_waker(&waker);
    match Pin::new(&mut body).poll_data(&mut cx) {
        Poll::Ready(Some(Err(e))) => e,
        _ => panic!("the body did not fail"),
    }
}

#[derive(Clone)]
enum Unit {
    /// Notes its number and hands the context on.
    Mark(u32),
    /// Hands the context on and notes its number on the way back.
    Wrap(u32),
    /// Returns the context without handing it on.
    Halt,
    /// Fails without handing the context on.
    Fail,
    /// Hands the context on and returns what comes back as it is.
    Forward,
    /// Notes its number and returns the context without handing it on.
    Stamp(u32),
    /// Counts its runs, then does as `Mark`.
    Count(Rc<Cell<u32>>, u32),
}

impl Behaviour<Trail> for Unit {}

impl Middleware<Trail> for Unit {
    fn run(&self, mut context: Trail, next: Next<'_, Trail, Self>) -> Result<Trail, hyper::Error> {
        match self {
            Unit::Mark(n) => {
                context.seen.push(*n);
                next.call(context)
            }
            Unit::Wrap(n) => {
                let mut back = next.call(context)?;
                back.seen.push(*n);
                Ok(back)
            }
            Unit::Halt => Ok(context),
            Unit::Fail => Err(aborted()),
            Unit::Forward => next.call(context),
            Unit::Stamp(n) => {
                context.seen.push(*n);
                Ok(context)
            }
            Unit::Count(runs, n) => {
                runs.set(runs.get() + 1);
                context.seen.push(*n);
                next.call(context)
            }
        }
    }
}

fn fresh() -> Trail {
    Trail { seen: vec![] }
}

fn numbers(found: &[&MiddlewareHandler<Trail, Unit>]) -> Vec<u32> {
    let mut out = vec![];
    for h in found {
        match &h.handler {
            Unit::Mark(n) | Unit::Wrap(n) | Unit::Count(_, n) | Unit::Stamp(n) => out.push(*n),
            Unit::Halt | Unit::Forward => out.push(0),
            Unit::Fail => out.push(u32::MAX),
        }
    }
    out
}

const CONCRETE: [HttpMethod; 9] = [
    HttpMethod::Get,
    HttpMethod::Post,
    HttpMethod::Put,
    HttpMethod::Delete,
    HttpMethod::Head,
    HttpMethod::Options,
    HttpMethod::Connect,
    HttpMethod::Patch,
    HttpMethod::Trace,
];

#[test]
fn method_codes_are_distinct() {
    let mut codes: Vec<u8> = CONCRETE.iter().map(|m| m.code()).collect();
    codes.push(HttpMethod::Use.code());
    assert_eq!(codes, vec![0, 1, 2, 3, 4, 5, 6, 7, 8, 9]);
}

#[test]
fn handler_keeps_pattern_and_unit() {
    let h: MiddlewareHandler<Trail, Unit> = MiddlewareHandler::new("/users/:id".to_string(), Unit::Mark(5));
    assert_eq!(h.path, "/users/:id");
    assert!(matches!(h.handler, Unit::Mark(5)));
    assert!(h.is_match("/users/9"));
    assert!(!h.is_match("/users"));
}

#[test]
fn new_table_finds_nothing() {
    let app: App<Trail, Unit> = App::new();
    for m in CONCRETE.iter() {
        assert!(app.get_middleware_stack(m, "/x").is_empty());
    }
    assert!(app.get_middleware_stack(&HttpMethod::Use, "/x").is_empty());
}

#[test]
fn lookup_returns_registration_order() {
    let mut app: App<Trail, Unit> = App::new();
    app.get("/x", Unit::Mark(1));
    app.get("/x", Unit::Mark(2));
    assert_eq!(numbers(&app.get_middleware_stack(&HttpMethod::Get, "/x")), vec![1, 2]);
}

#[test]
fn lookup_keeps_order_among_overlapping_patterns() {
    let mut app: App<Trail, Unit> = App::new();
    app.get("/users/*", Unit::Mark(1));
    app.get("/posts", Unit::Mark(2));
    app.get("/users/:id", Unit::Mark(3));
    app.get("/users/7", Unit::Mark(4));
    app.get("/*", Unit::Mark(5));
    assert_eq!(numbers(&app.get_middleware_stack(&HttpMethod::Get, "/users/7")), vec![1, 3, 4, 5]);
    assert_eq!(numbers(&app.get_middleware_stack(&HttpMethod::Get, "/users/8")), vec![1, 3, 5]);
    assert_eq!(numbers(&app.get_middleware_stack(&HttpMethod::Get, "/posts")), vec![2, 5]);
    assert_eq!(numbers(&app.get_middleware_stack(&HttpMethod::Get, "/")), vec![5]);
}

#[test]
fn registration_under_one_method_is_not_seen_under_another() {
    let mut app: App<Trail, Unit> = App::new();
    app.get("/x", Unit::Mark(1));
    assert_eq!(numbers(&app.get_middleware_stack(&HttpMethod::Get, "/x")), vec![1]);
    for m in CONCRETE.iter() {
        if *m != HttpMethod::Get {
            assert!(app.get_middleware_stack(m, "/x").is_empty());
        }
    }
    assert!(app.get_middleware_stack(&HttpMethod::Use, "/x").is_empty());
}

#[test]
fn each_verb_registers_under_its_own_method() {
    let mut app: App<Trail, Unit> = App::new();
    app.get("/x", Unit::Mark(1));
    app.post("/x", Unit::Mark(2));
    app.put("/x", Unit::Mark(3));
    app.delete("/x", Unit::Mark(4));
    app.head("/x", Unit::Mark(5));
    app.options("/x", Unit::Mark(6));
    app.connect("/x", Unit::Mark(7));
    app.patch("/x", Unit::Mark(8));
    app.trace("/x", Unit::Mark(9));
    for (k, m) in CONCRETE.iter().enumerate() {
        assert_eq!(numbers(&app.get_middleware_stack(m, "/x")), vec![k as u32 + 1]);
    }
}

#[test]
fn add_to_stack_appends_under_the_given_method() {
    let mut app: App<Trail, Unit> = App::new();
    app.add_to_stack(&HttpMethod::Patch, "/x", Unit::Mark(1));
    app.add_to_stack(&HttpMethod::Use, "/x", Unit::Mark(2));
    app.add_to_stack(&HttpMethod::Patch, "/x", Unit::Mark(3));
    assert_eq!(numbers(&app.get_middleware_stack(&HttpMethod::Patch, "/x")), vec![1, 3]);
    assert_eq!(numbers(&app.get_middleware_stack(&HttpMethod::Use, "/x")), vec![2]);
    assert!(app.get_middleware_stack(&HttpMethod::Get, "/x").is_empty());
}

#[test]
fn use_middleware_registers_under_every_request_method() {
    let mut app: App<Trail, Unit> = App::new();
    app.use_middleware("/x", Unit::Mark(7));
    for m in CONCRETE.iter() {
        assert_eq!(numbers(&app.get_middleware_stack(m, "/x")), vec![7]);
        assert!(app.get_middleware_stack(m, "/y").is_empty());
    }
}

#[test]
fn use_middleware_leaves_the_marker_method_alone() {
    let mut app: App<Trail, Unit> = App::new();
    app.use_middleware("/x", Unit::Mark(7));
    assert!(app.get_middleware_stack(&HttpMethod::Use, "/x").is_empty());
}

#[test]
fn use_middleware_comes_after_what_was_registered_before() {
    let mut app: App<Trail, Unit> = App::new();
    app.post("/x", Unit::Mark(1));
    app.use_middleware("/*", Unit::Mark(2));
    app.post("/x", Unit::Mark(3));
    assert_eq!(numbers(&app.get_middleware_stack(&HttpMethod::Post, "/x")), vec![1, 2, 3]);
    assert_eq!(numbers(&app.get_middleware_stack(&HttpMethod::Get, "/x")), vec![2]);
}

#[test]
fn registering_twice_gives_two_entries_and_both_run() {
    let runs = Rc::new(Cell::new(0));
    let mut app: App<Trail, Unit> = App::new();
    app.get("/x", Unit::Count(runs.clone(), 4));
    app.get("/x", Unit::Count(runs.clone(), 4));
    assert_eq!(app.get_middleware_stack(&HttpMethod::Get, "/x").len(), 2);
    let out = app.resolve(fresh(), &HttpMethod::Get, "/x").unwrap();
    assert_eq!(out.seen, vec![4, 4]);
    assert_eq!(runs.get(), 2);
}

#[test]
fn resolve_without_a_match_returns_the_context() {
    let mut app: App<Trail, Unit> = App::new();
    app.get("/x", Unit::Mark(1));
    let given = Trail { seen: vec![9, 8] };
    assert_eq!(app.resolve(given.clone(), &HttpMethod::Get, "/y").unwrap(), given);
    assert_eq!(app.resolve(given.clone(), &HttpMethod::Post, "/x").unwrap(), given);
    let empty: App<Trail, Unit> = App::new();
    assert_eq!(empty.resolve(given.clone(), &HttpMethod::Get, "/x").unwrap(), given);
}

#[test]
fn failing_unit_ends_the_chain() {
    let runs = Rc::new(Cell::new(0));
    let mut app: App<Trail, Unit> = App::new();
    app.get("/x", Unit::Fail);
    app.get("/x", Unit::Count(runs.clone(), 2));
    let err = app.resolve(fresh(), &HttpMethod::Get, "/x").unwrap_err();
    assert!(err.is_body_write_aborted());
    assert_eq!(runs.get(), 0);
}

#[test]
fn unit_that_hands_on_yields_what_the_next_one_returns() {
    let mut app: App<Trail, Unit> = App::new();
    app.get("/x", Unit::Forward);
    app.get("/x", Unit::Stamp(8));
    let forwarded = app.resolve(Trail { seen: vec![5] }, &HttpMethod::Get, "/x").unwrap();
    assert_eq!(forwarded.seen, vec![5, 8]);

    let mut plain: App<Trail, Unit> = App::new();
    plain.get("/x", Unit::Mark(1));
    plain.get("/x", Unit::Mark(2));
    assert_eq!(plain.resolve(fresh(), &HttpMethod::Get, "/x").unwrap().seen, vec![1, 2]);
}

#[test]
fn unit_that_returns_at_once_keeps_later_units_from_running() {
    let runs = Rc::new(Cell::new(0));
    let mut app: App<Trail, Unit> = App::new();
    app.get("/x", Unit::Mark(1));
    app.get("/x", Unit::Halt);
    app.get("/x", Unit::Count(runs.clone(), 3));
    assert_eq!(app.resolve(fresh(), &HttpMethod::Get, "/x").unwrap().seen, vec![1]);
    assert_eq!(runs.get(), 0);
}

#[test]
fn wrapping_units_run_inside_out_on_the_way_back() {
    let mut app: App<Trail, Unit> = App::new();
    app.get("/x", Unit::Wrap(10));
    app.get("/x", Unit::Wrap(20));
    app.get("/x", Unit::Mark(30));
    assert_eq!(app.resolve(fresh(), &HttpMethod::Get, "/x").unwrap().seen, vec![30, 20, 10]);
}

#[test]
fn error_passes_through_the_units_before_it() {
    let mut app: App<Trail, Unit> = App::new();
    app.get("/x", Unit::Mark(1));
    app.get("/x", Unit::Wrap(2));
    app.get("/x", Unit::Fail);
    let err = app.resolve(fresh(), &HttpMethod::Get, "/x").unwrap_err();
    assert!(err.is_body_write_aborted());
}

#[test]
fn resolve_runs_only_what_matches_the_path() {
    let mut app: App<Trail, Unit> = App::new();
    app.get("/a", Unit::Mark(1));
    app.get("/b", Unit::Mark(2));
    app.get("/a", Unit::Mark(3));
    app.post("/a", Unit::Mark(4));
    assert_eq!(app.resolve(fresh(), &HttpMethod::Get, "/a").unwrap().seen, vec![1, 3]);
    assert_eq!(app.resolve(fresh(), &HttpMethod::Get, "/b").unwrap().seen, vec![2]);
    assert_eq!(app.resolve(fresh(), &HttpMethod::Post, "/a").unwrap().seen, vec![4]);
}

#[test]
fn chain_runs_from_the_given_position() {
    let a: MiddlewareHandler<Trail, Unit> = MiddlewareHandler::new("/x".to_string(), Unit::Mark(1));
    let b: MiddlewareHandler<Trail, Unit> = MiddlewareHandler::new("/x".to_string(), Unit::Mark(2));
    let nodes = vec![&a, &b];
    assert_eq!(chained_run(fresh(), &nodes, 0).unwrap().seen, vec![1, 2]);
    assert_eq!(chained_run(fresh(), &nodes, 1).unwrap().seen, vec![2]);
    assert_eq!(chained_run(fresh(), &nodes, 2).unwrap().seen, Vec::<u32>::new());
    assert_eq!(chained_run(fresh(), &nodes, 7).unwrap().seen, Vec::<u32>::new());
}

#[test]
fn empty_chain_is_the_identity() {
    let nodes: Vec<&MiddlewareHandler<Trail, Unit>> = vec![];
    let given = Trail { seen: vec![3] };
    assert_eq!(chained_run(given.clone(), &nodes, 0).unwrap(), given);
}

#[test]
fn advance_names_the_unit_and_its_continuation() {
    assert!(matches!(advance(2, 0), Step::Run { index: 0, next: 1 }));
    assert!(matches!(advance(2, 1), Step::Run { index: 1, next: 2 }));
    assert!(matches!(advance(2, 2), Step::Finish));
    assert!(matches!(advance(2, 3), Step::Finish));
    assert!(matches!(advance(0, 0), Step::Finish));
}
