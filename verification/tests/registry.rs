use propagate::Event;
use propagate::EventKey;
use propagate::Handler;
use propagate::Tally;
use std::cell::RefCell;
use std::rc::Rc;

#[derive(PartialEq, Eq, Hash, Debug)]
enum Status {
    Active,
    Inactive,
}

impl EventKey for Status {
    fn key_eq(&self, other: &Self) -> bool {
        self == other
    }
}

/// A string-valued key; the registry asks keys only for equality.
#[derive(PartialEq, Eq, Hash, Debug)]
struct Slice(&'static str);

impl EventKey for Slice {
    fn key_eq(&self, other: &Self) -> bool {
        self == other
    }
}

/// A handler that prints a fixed message when invoked.
struct Printer {
    msg: &'static str,
}

impl<K> Handler<K> for Printer {
    fn call(&mut self, _data: K) {
        println!("{}", self.msg);
    }
}

#[derive(Debug, Clone, Copy)]
struct Counter {
    count: i32,
}

/// A handler that asserts the payload counter arrives at zero.
struct ExpectZero;

impl Handler<Counter> for ExpectZero {
    fn call(&mut self, counter: Counter) {
        assert_eq!(counter.count, 0);
    }
}

/// A handler that bumps its own copy of the payload and checks the bump.
struct BumpAndExpectOne;

impl Handler<Counter> for BumpAndExpectOne {
    fn call(&mut self, counter: Counter) {
        let mut counter = counter;
        counter.count += 1;
        assert_eq!(counter.count, 1);
    }
}

/// Handlers sharing one payload type: bump a copy, or check it is untouched.
enum SeqHandler {
    Bump,
    CheckZero,
}

impl Handler<Counter> for SeqHandler {
    fn call(&mut self, counter: Counter) {
        let mut counter = counter;
        match self {
            SeqHandler::Bump => {
                counter.count += 1;
            }
            SeqHandler::CheckZero => {
                assert_eq!(counter.count, 0);
            }
        }
    }
}

/// A handler that appends its id to a shared log, recording invocation order.
struct OrderRec {
    id: usize,
    log: Rc<RefCell<Vec<usize>>>,
}

impl<K> Handler<K> for OrderRec {
    fn call(&mut self, _data: K) {
        self.log.borrow_mut().push(self.id);
    }
}

/// A handler that bumps its own copy of an integer payload from 0 to 1.
struct BumpIntCopy;

impl Handler<i32> for BumpIntCopy {
    fn call(&mut self, data: i32) {
        let mut data = data;
        data += 1;
        assert_eq!(data, 1);
    }
}

#[test]
fn single_dispatch() {
    let mut event: Event<Status, (), Printer> = Event::new();
    event.on(Status::Active, Printer { msg: "Status is active!" });
    event.dispatch(Status::Active, ());
}

#[test]
fn multi_dispatch() {
    let mut event: Event<Status, (), Printer> = Event::new();
    event.on(Status::Active, Printer { msg: "Status is active #1!" });
    event.on(Status::Active, Printer { msg: "Status is active #2!" });
    event.dispatch(Status::Active, ());
}

#[test]
fn alt_dispatch() {
    let mut event: Event<Status, (), Printer> = Event::new();
    event.on(Status::Active, Printer { msg: "Status is active!" });
    event.on(Status::Inactive, Printer { msg: "Status is inactive!" });
    event.dispatch(Status::Active, ());
    event.dispatch(Status::Inactive, ());
}

#[test]
fn slice_event_type() {
    let mut event: Event<Slice, (), Printer> = Event::new();
    event.on(Slice("active"), Printer { msg: "Status is active!" });
    event.dispatch(Slice("active"), ());
}

#[test]
fn int_event_type() {
    let mut event: Event<i32, (), Printer> = Event::new();
    event.on(0, Printer { msg: "Status is active!" });
    event.dispatch(0, ());
}

#[test]
fn dispatch_with_data() {
    let counter = Counter { count: 0 };
    let mut event: Event<Status, Counter, ExpectZero> = Event::new();
    event.on(Status::Active, ExpectZero);
    event.dispatch(Status::Active, counter);
}

#[test]
fn dispatch_with_mut_data() {
    let counter = Counter { count: 0 };
    let mut event: Event<Status, Counter, BumpAndExpectOne> = Event::new();
    event.on(Status::Active, BumpAndExpectOne);
    event.dispatch(Status::Active, counter);
}

#[test]
fn sequential_exec_dispatch_with_mut_data() {
    let counter = Counter { count: 0 };
    let mut event: Event<Status, Counter, SeqHandler> = Event::new();
    event.on(Status::Active, SeqHandler::Bump);
    event.on(Status::Active, SeqHandler::Bump);
    event.on(Status::Active, SeqHandler::CheckZero);
    event.dispatch(Status::Active, counter);
    assert_eq!(counter.count, 0);
}

#[test]
fn tally_counts_two_invocations_on_active_key() {
    let mut event: Event<Status, (), Tally> = Event::new();
    event.on(Status::Active, Tally::new());
    event.on(Status::Active, Tally::new());
    event.on(Status::Inactive, Tally::new());
    event.dispatch(Status::Active, ());
    assert_eq!(event.handler_count(&Status::Active), 2);
    assert_eq!(event.handler_count(&Status::Inactive), 1);
    let first = event.get_handler(&Status::Active, 0).unwrap();
    let second = event.get_handler(&Status::Active, 1).unwrap();
    assert_eq!(first.count + second.count, 2);
    let other = event.get_handler(&Status::Inactive, 0).unwrap();
    assert_eq!(other.count, 0);
}

#[test]
fn unregistered_key_is_silent_noop() {
    let mut event: Event<Status, (), Tally> = Event::new();
    event.on(Status::Active, Tally::new());
    event.dispatch(Status::Inactive, ());
    assert_eq!(event.handler_count(&Status::Active), 1);
    assert_eq!(event.handler_count(&Status::Inactive), 0);
    assert_eq!(event.get_handler(&Status::Active, 0).unwrap().count, 0);
}

#[test]
fn caller_payload_unchanged_by_handler_mutation() {
    let payload: i32 = 0;
    let mut event: Event<Status, i32, BumpIntCopy> = Event::new();
    event.on(Status::Active, BumpIntCopy);
    event.dispatch(Status::Active, payload);
    assert_eq!(payload, 0);
}

#[test]
fn handlers_run_in_registration_order_exactly_once() {
    let log: Rc<RefCell<Vec<usize>>> = Rc::new(RefCell::new(Vec::new()));
    let mut event: Event<Status, (), OrderRec> = Event::new();
    event.on(Status::Active, OrderRec { id: 1, log: Rc::clone(&log) });
    event.on(Status::Active, OrderRec { id: 2, log: Rc::clone(&log) });
    event.on(Status::Active, OrderRec { id: 3, log: Rc::clone(&log) });
    event.dispatch(Status::Active, ());
    assert_eq!(*log.borrow(), vec![1, 2, 3]);
}

#[test]
fn other_keys_are_never_invoked() {
    let log: Rc<RefCell<Vec<usize>>> = Rc::new(RefCell::new(Vec::new()));
    let mut event: Event<Status, (), OrderRec> = Event::new();
    event.on(Status::Active, OrderRec { id: 1, log: Rc::clone(&log) });
    event.on(Status::Inactive, OrderRec { id: 2, log: Rc::clone(&log) });
    event.on(Status::Active, OrderRec { id: 3, log: Rc::clone(&log) });
    event.dispatch(Status::Inactive, ());
    assert_eq!(*log.borrow(), vec![2]);
}

#[test]
fn redispatch_runs_the_full_round_again() {
    let log: Rc<RefCell<Vec<usize>>> = Rc::new(RefCell::new(Vec::new()));
    let mut event: Event<Status, (), OrderRec> = Event::new();
    event.on(Status::Active, OrderRec { id: 1, log: Rc::clone(&log) });
    event.on(Status::Active, OrderRec { id: 2, log: Rc::clone(&log) });
    event.dispatch(Status::Active, ());
    event.dispatch(Status::Active, ());
    assert_eq!(*log.borrow(), vec![1, 2, 1, 2]);
}

#[test]
fn tally_saturates_and_counts_repeated_dispatches() {
    let mut event: Event<u64, (), Tally> = Event::new();
    event.on(7, Tally::new());
    event.dispatch(7, ());
    event.dispatch(7, ());
    event.dispatch(7, ());
    assert_eq!(event.get_handler(&7, 0).unwrap().count, 3);
    assert!(event.get_handler(&7, 1).is_none());
    assert_eq!(event.handler_count(&9), 0);
}
