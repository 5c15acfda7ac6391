//! Tokens, tasks, channels between tasks, and descriptors.

use std::cell::RefCell;
use std::rc::Rc;

use uart_matmul::async_wait::{get_token, init_token, interrupt_callback};
use uart_matmul::channel::{local_channel, Channel, LocalReceiver, LocalSender};
use uart_matmul::executor::{
    block_on, dequeued_state, finished_state, is_alive, new_task_state, wake_state, Executor,
    LoopStep, TransferStack,
};
use uart_matmul::poll::Polled;
use uart_matmul::reactor::{Reactor, Readiness, EPOLLIN, EPOLLOUT};
use uart_matmul::uintr::{
    recv_fd, send_fd, uintr_create_fd, uintr_register_handler, uintr_register_sender,
    uintr_unregister_handler, uintr_unregister_sender, uintr_wait, ControlMessage, UintrError,
    SCM_RIGHTS, SOL_SOCKET,
};
use uart_matmul::uintr_core::{
    has_pending, RegisterStep, SignalStep, UintrFuture, UintrToken, WaitEvent, WaitSession,
    WaitStep,
};

#[test]
fn an_interrupt_before_the_wait_is_kept() {
    let mut token: UintrToken<u32> = UintrToken::new("early");
    assert!(!token.set_pending());
    assert!(!token.set_pending());
    let mut wait = UintrFuture { token };
    assert_eq!(wait.poll(1), Polled::Ready(()));
    assert_eq!(wait.poll(1), Polled::Pending);
    assert_eq!(wait.token.inner.waker, Some(1));
    assert_eq!(wait.poll(2), Polled::Pending);
    assert_eq!(wait.token.inner.waker, Some(1));
    assert!(wait.token.set_pending());
    assert_eq!(wait.poll(2), Polled::Ready(()));
    assert_eq!(wait.token.inner.waker, None);
    assert_eq!(wait.token.name, "early");
}

#[test]
fn the_interrupt_counter_wraps() {
    let mut token: UintrToken<u32> = UintrToken::new("wrap");
    token.inner.seq = u32::MAX;
    token.inner.consumed_seq = u32::MAX;
    token.register_waker(5);
    assert!(token.set_pending());
    assert_eq!(token.inner.seq, 0);
    assert!(has_pending(token.inner.seq, token.inner.consumed_seq));
    let mut wait = UintrFuture { token };
    assert_eq!(wait.poll(6), Polled::Ready(()));
    assert_eq!(wait.poll(6), Polled::Pending);
    assert_eq!(wait.token.inner.waker, Some(6));
    wait.token.clear_waker();
    assert_eq!(wait.token.inner.waker, None);
}

#[test]
fn a_waiter_looks_again_after_it_left_its_waker() {
    let mut session = WaitSession::new();
    session.advance(WaitEvent::Looked { seq: 4, consumed_seq: 4 });
    assert_eq!(session.step, WaitStep::Register);
    session.advance(WaitEvent::Registered);
    assert_eq!(session.step, WaitStep::Look);
    let mut interrupted = session;
    session.advance(WaitEvent::Looked { seq: 4, consumed_seq: 4 });
    assert_eq!(session.step, WaitStep::Pending);
    interrupted.advance(WaitEvent::Looked { seq: 5, consumed_seq: 4 });
    assert_eq!(interrupted.step, WaitStep::See(5));
    interrupted.advance(WaitEvent::Seen);
    assert_eq!(interrupted.step, WaitStep::Clear);
    interrupted.advance(WaitEvent::Cleared);
    assert_eq!(interrupted.step, WaitStep::Ready);
}

#[test]
fn the_handler_counts_before_it_wakes_and_raises_the_flag_last() {
    let mut seen = Vec::new();
    let mut step = SignalStep::first(true);
    while step != SignalStep::Done {
        seen.push(step);
        step = step.next(true);
    }
    let order = [SignalStep::Count, SignalStep::Find, SignalStep::Wake, SignalStep::Raise];
    assert_eq!(seen, order);
    assert_eq!(SignalStep::Find.next(false), SignalStep::Raise);
    assert_eq!(SignalStep::first(false), SignalStep::Raise);
    assert_eq!(RegisterStep::Look.next(false), RegisterStep::Discard);
    assert_eq!(RegisterStep::Look.next(true), RegisterStep::Install);
    assert_eq!(RegisterStep::Install.next(false), RegisterStep::Discard);
    assert_eq!(RegisterStep::Install.next(true), RegisterStep::Done);
}

#[test]
fn the_handler_signals_the_token_and_raises_the_flag() {
    let mut slot: Option<UintrToken<u32>> = None;
    let mut flag = 0u8;
    assert!(matches!(get_token(&slot), Err(UintrError::NotInitialized)));
    assert!(!interrupt_callback(&mut slot, &mut flag));
    assert_eq!(flag, 1);
    init_token(&mut slot, "receiver");
    assert_eq!(get_token(&slot).unwrap().name, "receiver");
    flag = 0;
    assert!(!interrupt_callback(&mut slot, &mut flag));
    assert_eq!(flag, 1);
    slot.as_mut().unwrap().register_waker(9);
    assert!(interrupt_callback(&mut slot, &mut flag));
    assert_eq!(get_token(&slot).unwrap().inner.seq, 2);
}

#[test]
fn system_calls_give_results_or_their_errors() {
    assert_eq!(uintr_register_handler(0, "x").unwrap(), 0);
    let e = uintr_register_handler(-1, "denied").unwrap_err();
    assert_eq!(
        e.message(),
        "Failed to register handler: uintr_register_handler failed: denied"
    );
    assert_eq!(uintr_create_fd(7, "").unwrap(), 7);
    let e = uintr_create_fd(-1, "denied").unwrap_err();
    assert_eq!(e.message(), "Failed to create FD: uintr_create_fd failed: denied");
    assert_eq!(uintr_register_sender(2, "").unwrap(), 2);
    let e = uintr_register_sender(-1, "full").unwrap_err();
    assert_eq!(e.message(), "Failed to register sender: uintr_register_sender failed: full");
    assert_eq!(uintr_unregister_handler(0, "").unwrap(), 0);
    let e = uintr_unregister_handler(-1, "gone").unwrap_err();
    assert_eq!(e.message(), "System call failed: uintr_unregister_handler failed: gone");
    assert_eq!(uintr_unregister_sender(1, "").unwrap(), 1);
    let e = uintr_unregister_sender(-1, "gone").unwrap_err();
    assert_eq!(e.message(), "System call failed: uintr_unregister_sender failed: gone");
    assert!(uintr_wait(0, false, "").is_ok());
    assert!(uintr_wait(-1, true, "signal").is_ok());
    let e = uintr_wait(-1, false, "bad").unwrap_err();
    assert_eq!(e.message(), "System call failed: uintr_wait failed: bad");
}

#[test]
fn descriptors_come_with_the_right_message_only() {
    assert!(send_fd(1, "").is_ok());
    let e = send_fd(-1, "closed").unwrap_err();
    assert_eq!(e.message(), "Failed to send file descriptor: send_fd failed: closed");
    let good = ControlMessage { level: SOL_SOCKET, kind: SCM_RIGHTS, fd: 12 };
    assert_eq!(recv_fd(1, "", Some(good)).unwrap(), 12);
    let e = recv_fd(-1, "closed", Some(good)).unwrap_err();
    assert_eq!(e.message(), "Failed to receive file descriptor: recv_fd failed: closed");
    let none = "Failed to receive file descriptor: recv_fd: no file descriptor received";
    assert_eq!(recv_fd(1, "", None).unwrap_err().message(), none);
    let level = ControlMessage { level: 2, ..good };
    assert_eq!(recv_fd(1, "", Some(level)).unwrap_err().message(), none);
    let kind = ControlMessage { kind: 2, ..good };
    assert_eq!(recv_fd(1, "", Some(kind)).unwrap_err().message(), none);
    assert_eq!(UintrError::SocketError("s".to_string()).message(), "Socket error: s");
    assert_eq!(UintrError::Timeout.message(), "Timeout");
    assert_eq!(UintrError::NotInitialized.message(), "Not initialized");
}

#[test]
fn task_states_have_two_bits() {
    assert_eq!(new_task_state(), 3);
    assert_eq!(wake_state(3), (3, false));
    assert_eq!(dequeued_state(3), 1);
    assert_eq!(wake_state(1), (3, true));
    assert_eq!(finished_state(3), 2);
    assert_eq!(wake_state(2), (2, false));
    assert_eq!(wake_state(0), (0, false));
    assert!(is_alive(1));
    assert!(!is_alive(2));
}

#[test]
fn a_transfer_stack_is_emptied_at_once() {
    let mut stack = TransferStack::new();
    assert!(stack.is_empty());
    assert!(stack.push_was_empty(1));
    assert!(!stack.push_was_empty(2));
    assert_eq!(stack.take_all(), vec![1, 2]);
    assert!(stack.is_empty());
    assert!(stack.take_all().is_empty());
}

#[test]
fn tasks_are_polled_newest_first_and_never_twice() {
    let mut ex = Executor::new();
    let a = ex.spawn();
    let b = ex.spawn();
    assert!(!ex.wake(a));
    assert_eq!(ex.dequeue(), Some((b, true)));
    assert!(ex.wake(b));
    assert!(!ex.wake(b));
    assert_eq!(ex.dequeue(), Some((a, true)));
    ex.finish(a);
    assert!(!ex.wake(a));
    assert_eq!(ex.dequeue(), Some((b, true)));
    assert!(ex.wake(b));
    ex.finish(b);
    assert_eq!(ex.dequeue(), Some((b, false)));
    assert_eq!(ex.dequeue(), None);
    assert_eq!(ex.pending, 0);
}

#[test]
fn the_loop_looks_again_before_it_sleeps() {
    assert_eq!(block_on(LoopStep::Drain, 0, false, true), LoopStep::Exit);
    assert_eq!(block_on(LoopStep::Drain, 1, true, true), LoopStep::Exit);
    assert_eq!(block_on(LoopStep::Drain, 1, false, false), LoopStep::Drain);
    assert_eq!(block_on(LoopStep::Drain, 1, false, true), LoopStep::Close);
    assert_eq!(block_on(LoopStep::Close, 1, false, false), LoopStep::Reopen);
    assert_eq!(block_on(LoopStep::Reopen, 1, false, false), LoopStep::Drain);
    let mut step = LoopStep::Close;
    let mut seen = Vec::new();
    for _ in 0..5 {
        step = block_on(step, 1, false, true);
        seen.push(step);
    }
    let order = [LoopStep::Reset, LoopStep::Arm, LoopStep::Open, LoopStep::Sleep, LoopStep::Drain];
    assert_eq!(seen, order);
    assert_eq!(block_on(LoopStep::Exit, 1, false, false), LoopStep::Exit);
}

/// A sender's handle, with a list of the wakers it woke.
struct Tx {
    channel: Rc<RefCell<Channel<&'static str, u32>>>,
    woken: Rc<RefCell<Vec<u32>>>,
}

impl Tx {
    fn send(&self, item: &'static str) {
        self.woken.borrow_mut().extend(LocalSender::send(&mut *self.channel.borrow_mut(), item));
    }
}

impl Clone for Tx {
    fn clone(&self) -> Self {
        LocalSender::clone_handle(&mut *self.channel.borrow_mut());
        Tx { channel: self.channel.clone(), woken: self.woken.clone() }
    }
}

impl Drop for Tx {
    fn drop(&mut self) {
        self.woken.borrow_mut().extend(LocalSender::drop_handle(&mut *self.channel.borrow_mut()));
    }
}

type Shared<T> = Rc<RefCell<T>>;

fn sender() -> (Tx, Shared<Channel<&'static str, u32>>, Shared<Vec<u32>>) {
    let channel = Rc::new(RefCell::new(local_channel()));
    let woken = Rc::new(RefCell::new(Vec::new()));
    (Tx { channel: channel.clone(), woken: woken.clone() }, channel, woken)
}

#[test]
fn a_channel_keeps_order_wakes_and_ends() {
    let (tx, channel, woken) = sender();
    let poll = |waker| LocalReceiver::poll(&mut *channel.borrow_mut(), waker);
    assert_eq!(poll(7), Polled::Pending);
    tx.send("first");
    tx.send("second");
    assert_eq!(*woken.borrow(), vec![7]);
    assert_eq!(poll(7), Polled::Ready(Some("first")));
    let second = tx.clone();
    assert_eq!(channel.borrow().senders(), 2);
    assert_eq!(poll(7), Polled::Ready(Some("second")));
    assert_eq!(poll(8), Polled::Pending);
    drop(tx);
    assert_eq!(*woken.borrow(), vec![7]);
    assert_eq!(poll(9), Polled::Pending);
    second.send("last");
    assert_eq!(*woken.borrow(), vec![7, 9]);
    drop(second);
    assert_eq!(*woken.borrow(), vec![7, 9]);
    assert_eq!(poll(9), Polled::Ready(Some("last")));
    assert_eq!(poll(9), Polled::Ready(None));
    assert_eq!(poll(9), Polled::Ready(None));
}

#[test]
fn the_last_sender_wakes_the_receiver() {
    let (tx, channel, woken) = sender();
    let poll = |waker| LocalReceiver::poll(&mut *channel.borrow_mut(), waker);
    assert_eq!(poll(3), Polled::Pending);
    drop(tx);
    assert_eq!(*woken.borrow(), vec![3]);
    assert_eq!(channel.borrow().senders(), 0);
    assert_eq!(poll(3), Polled::Ready(None));
}

#[test]
fn wakers_wait_by_descriptor_and_direction() {
    let mut reactor: Reactor<&str> = Reactor::new();
    reactor.add(5);
    assert_eq!(reactor.modify_readable(5, "read 5"), None);
    assert_eq!(reactor.modify_writable(5, "write 5"), Some(EPOLLIN | EPOLLOUT));
    assert_eq!(reactor.modify_writable(5, "write 5 again"), None);
    assert_eq!(reactor.modify_readable(8, "read 8"), Some(EPOLLIN));
    let none = reactor.wait(&vec![Readiness { fd: 6, flags: EPOLLIN | EPOLLOUT }]);
    assert!(none.is_empty());
    let woken = reactor.wait(&vec![
        Readiness { fd: 8, flags: EPOLLIN },
        Readiness { fd: 5, flags: EPOLLIN | EPOLLOUT },
        Readiness { fd: 5, flags: EPOLLIN | EPOLLOUT },
    ]);
    assert_eq!(woken, vec!["read 8", "read 5", "write 5 again"]);
    reactor.modify_readable(5, "late");
    reactor.delete(5);
    assert!(reactor.wait(&vec![Readiness { fd: 5, flags: EPOLLIN }]).is_empty());
    assert_eq!(reactor.modify_writable(5, "new"), Some(EPOLLOUT));
}
