//! The rings, the channels over them, and the pipe.

use uart_matmul::ipc;
use uart_matmul::pipe::{
    mkfifo, open_receiver, open_sender, path_is_valid, MkfifoResult, OpenStep, PipeReceiver,
    PipeSender, PipeStep, Progress, EEXIST, ENXIO,
};
use uart_matmul::ring::{Positions, Ring, Span, RING_CAPACITY};
use uart_matmul::shm;
use uart_matmul::shm::{ReadEvent, ReadStep, WriteEvent, WriteStep};
use uart_matmul::sys::IoOutcome;

fn pattern(from: usize, len: usize) -> Vec<u8> {
    (from..from + len).map(|i| (i * 7 + i / 251) as u8).collect()
}

#[test]
fn bytes_come_out_in_the_order_they_went_in() {
    let mut ring = Ring::new();
    let mut written = 0usize;
    let mut read = 0usize;
    for round in 0..300usize {
        let src = pattern(written, 1000 + round * 37);
        written += ring.write_available(&src);
        let mut out = vec![0u8; 900 + round * 41];
        let n = ring.read_available(&mut out);
        assert_eq!(out[..n], pattern(read, n)[..]);
        assert!(out[n..].iter().all(|b| *b == 0));
        read += n;
    }
    assert!(written > 2 * RING_CAPACITY);
}

#[test]
fn a_full_ring_takes_nothing_and_an_empty_one_gives_nothing() {
    let mut ring = Ring::new();
    let mut out = [9u8; 4];
    assert_eq!(ring.read_available(&mut out), 0);
    assert_eq!(out, [9u8; 4]);
    assert_eq!(ring.write_available(&vec![1u8; RING_CAPACITY + 5]), RING_CAPACITY);
    assert_eq!(ring.write_available(&[2]), 0);
    assert_eq!(ring.read_available(&mut out), 4);
    assert_eq!(ring.write_available(&[2, 3, 4, 5, 6]), 4);
}

#[test]
fn spans_wrap_at_the_end_and_counters_at_their_limit() {
    let pos = Positions { write_pos: 2, read_pos: u64::MAX - 2 };
    let span = pos.read_span(100);
    assert_eq!(span, Span { start: RING_CAPACITY - 3, first: 3, rest: 2 });
    assert_eq!(span.len(), 5);
    let span = pos.write_span(RING_CAPACITY);
    assert_eq!(span, Span { start: 2, first: RING_CAPACITY - 5, rest: 0 });
    let after = pos.after_read(5);
    assert_eq!(after, Positions { write_pos: 2, read_pos: 2 });
    assert!(after.drained());
    assert!(!pos.drained());
    let full = pos.after_write(RING_CAPACITY - 5);
    assert_eq!(full.write_span(10).len(), 0);
}

#[test]
fn channels_have_their_sizes() {
    assert_eq!(shm::ShmChannel::size(), 65552);
    assert_eq!(ipc::ShmChannel::size(), 65560);
}

#[test]
fn a_shm_sender_signals_when_full_and_when_done() {
    let mut channel = shm::ShmChannel::new();
    let mut sender = shm::Sender::new((), 3, ());
    let mut receiver = shm::Receiver::new((), (), 4);
    let message = pattern(0, RING_CAPACITY + 10);
    let mut session = sender.begin_write(message.len());
    let n = channel.write_available(&message);
    sender.write(&mut session, WriteEvent::Copied(n));
    assert_eq!(session.step, WriteStep::Copy);
    let n = channel.write_available(&message[session.written..]);
    assert_eq!(n, 0);
    sender.write(&mut session, WriteEvent::Copied(n));
    assert_eq!(session.step, WriteStep::NotifyFull);
    sender.write(&mut session, WriteEvent::Sent);
    assert_eq!(session.step, WriteStep::Wait);
    assert!(!sender.is_drain(channel.positions()));

    let mut got = vec![0u8; RING_CAPACITY];
    let n = channel.read_available(&mut got);
    let mut step = receiver.read(ReadStep::Copy, ReadEvent::Copied(n));
    assert_eq!(step, ReadStep::Done(RING_CAPACITY));
    let n = channel.read_available(&mut got);
    step = receiver.read(ReadStep::Copy, ReadEvent::Copied(n));
    assert_eq!(step, ReadStep::NotifyEmpty);
    step = receiver.read(step, ReadEvent::Sent);
    assert_eq!(step, ReadStep::Wait);

    sender.write(&mut session, WriteEvent::Woken);
    let n = channel.write_available(&message[session.written..]);
    sender.write(&mut session, WriteEvent::Copied(n));
    assert_eq!(session.step, WriteStep::NotifyLast);
    sender.write(&mut session, WriteEvent::Sent);
    assert_eq!(session.step, WriteStep::Done);
    assert_eq!((sender.interrupts_sent(), sender.sleeps()), (2, 1));

    step = receiver.read(step, ReadEvent::Woken);
    let n = channel.read_available(&mut got);
    step = receiver.read(step, ReadEvent::Copied(n));
    assert_eq!(step, ReadStep::Done(10));
    assert_eq!(got[..10], message[RING_CAPACITY..]);
    assert_eq!((receiver.interrupts_sent(), receiver.sleeps()), (1, 1));
    assert!(sender.is_drain(channel.positions()));
    assert_eq!((sender.uipi_index, receiver.uipi_index), (3, 4));
}

#[test]
fn either_side_of_a_channel_moves_only_its_own_counter() {
    let mut out = vec![0u8; 30];
    let mut channel = shm::ShmChannel::new();
    assert_eq!(channel.write_available(&pattern(0, 100)), 100);
    assert_eq!(channel.positions(), Positions { write_pos: 100, read_pos: 0 });
    assert_eq!(channel.read_available(&mut out), 30);
    assert_eq!(channel.positions(), Positions { write_pos: 100, read_pos: 30 });
    let mut channel = ipc::ShmChannel::new();
    assert_eq!(channel.write_available(&pattern(0, 100)), 100);
    assert_eq!(channel.positions(), Positions { write_pos: 100, read_pos: 0 });
    assert_eq!(channel.read_available(&mut out), 30);
    assert_eq!(channel.positions(), Positions { write_pos: 100, read_pos: 30 });
}

#[test]
fn an_empty_message_is_only_signalled() {
    let mut sender = shm::Sender::new((), 0, ());
    let mut session = sender.begin_write(0);
    assert_eq!(session.step, WriteStep::NotifyLast);
    sender.write(&mut session, WriteEvent::Sent);
    assert_eq!(session.step, WriteStep::Done);
    let ipc_sender = ipc::Sender::new((), 0, ());
    assert_eq!(ipc_sender.begin_write(0).step, ipc::Step::Done);
}

#[test]
fn an_ipc_side_looks_twice_before_it_waits() {
    let mut channel = ipc::ShmChannel::new();
    let mut sender = ipc::Sender::new((), 1, ());
    let mut receiver = ipc::Receiver::new((), (), 2);
    let mut out = vec![0u8; 16];

    let mut read = receiver.begin_read();
    let n = channel.read_available(&mut out);
    assert!(!receiver.read(&mut read, ipc::Event::Copied(n)));
    assert_eq!(read.step, ipc::Step::Raise);
    channel.receiver_waiting = 1;
    receiver.read(&mut read, ipc::Event::Stored);
    assert_eq!(read.step, ipc::Step::Recheck);
    let n = channel.read_available(&mut out);
    receiver.read(&mut read, ipc::Event::Copied(n));
    assert_eq!(read.step, ipc::Step::Wait);

    let mut write = sender.begin_write(5);
    let n = channel.write_available(b"hello");
    sender.write(&mut write, ipc::Event::Copied(n));
    assert_eq!(write.step, ipc::Step::Notify);
    assert!(sender.write(&mut write, ipc::Event::Flag(channel.receiver_waiting)));
    assert_eq!(write.step, ipc::Step::Done);
    assert_eq!(sender.interrupts_sent(), 1);

    receiver.read(&mut read, ipc::Event::Woken);
    assert_eq!(read.step, ipc::Step::LowerAfterWait);
    channel.receiver_waiting = 0;
    receiver.read(&mut read, ipc::Event::Stored);
    let n = channel.read_available(&mut out);
    receiver.read(&mut read, ipc::Event::Copied(n));
    assert_eq!(read.step, ipc::Step::Notify);
    assert!(!receiver.read(&mut read, ipc::Event::Flag(channel.sender_waiting)));
    assert_eq!((read.step, read.moved), (ipc::Step::Done, 5));
    assert_eq!(&out[..5], b"hello");
    assert_eq!((receiver.interrupts_sent(), receiver.sleeps()), (0, 1));
    assert_eq!(sender.sleeps(), 0);
    assert_eq!(channel.positions().read_pos, 5);
}

#[test]
fn an_ipc_sender_finds_room_at_its_second_look() {
    let mut sender = ipc::Sender::new((), 1, ());
    let mut write = sender.begin_write(10);
    sender.write(&mut write, ipc::Event::Copied(0));
    sender.write(&mut write, ipc::Event::Stored);
    sender.write(&mut write, ipc::Event::Copied(4));
    assert_eq!(write.step, ipc::Step::Lower);
    sender.write(&mut write, ipc::Event::Stored);
    assert_eq!(write.step, ipc::Step::Notify);
    assert!(!sender.write(&mut write, ipc::Event::Flag(0)));
    assert_eq!((write.step, write.moved), (ipc::Step::Copy, 4));
}

#[test]
fn long_messages_pass_through_a_shm_channel() {
    let mut channel = shm::ShmChannel::new();
    let mut sender = shm::Sender::new((), 0, ());
    let mut receiver = shm::Receiver::new((), (), 0);
    let message = pattern(11, 3 * RING_CAPACITY + 77);
    let mut arrived = Vec::new();
    let mut out = vec![0u8; 10_000];
    assert_eq!(receiver.read_until_wait(&mut channel, &mut out), ReadStep::Wait);
    let mut session = sender.begin_write(message.len());
    loop {
        sender.write_until_wait(&mut channel, &mut session, &message);
        while let ReadStep::Done(n) = receiver.read_until_wait(&mut channel, &mut out) {
            arrived.extend_from_slice(&out[..n]);
        }
        match session.step {
            WriteStep::Wait => sender.write(&mut session, WriteEvent::Woken),
            step => {
                assert_eq!(step, WriteStep::Done);
                break;
            }
        }
    }
    assert_eq!(arrived, message);
    assert_eq!((sender.interrupts_sent(), sender.sleeps()), (4, 3));
    assert_eq!(receiver.interrupts_sent(), 5);
}

#[test]
fn long_messages_pass_through_an_ipc_channel() {
    let mut channel = ipc::ShmChannel::new();
    let mut sender = ipc::Sender::new((), 0, ());
    let mut receiver = ipc::Receiver::new((), (), 0);
    let message = pattern(5, 2 * RING_CAPACITY + 9);
    let mut arrived = Vec::new();
    let mut out = vec![0u8; 50_000];
    let mut write = sender.begin_write(message.len());
    loop {
        sender.write_until_wait(&mut channel, &mut write, &message);
        loop {
            let mut read = receiver.begin_read();
            receiver.read_until_wait(&mut channel, &mut read, &mut out);
            if read.step == ipc::Step::Wait {
                break;
            }
            arrived.extend_from_slice(&out[..read.moved]);
        }
        assert_eq!(channel.receiver_waiting, 1);
        if write.step == ipc::Step::Done {
            break;
        }
        assert_eq!(channel.sender_waiting, 1);
        sender.write(&mut write, ipc::Event::Woken);
        channel.sender_waiting = 0;
        sender.write(&mut write, ipc::Event::Stored);
    }
    assert_eq!(arrived, message);
    assert_eq!((sender.interrupts_sent(), sender.sleeps()), (2, 2));
    assert_eq!(receiver.interrupts_sent(), 4);
}

#[test]
fn messages_carry_their_number_first() {
    let mut buf = [7u8; 6];
    ipc::fill_message(&mut buf, 0x0102_0304);
    assert_eq!(buf, [1, 2, 3, 4, 0, 0]);
}

#[test]
fn a_pipe_signals_every_transfer_and_before_it_waits() {
    let mut tx = PipeSender::new(5, 1, ());
    let mut rx = PipeReceiver::new(6, (), 2);
    assert_eq!(tx.poll_write(IoOutcome::WouldBlock), PipeStep::SignalAndWait);
    tx.woken();
    assert_eq!(tx.poll_write(IoOutcome::Bytes(3)), PipeStep::Signal(3));
    assert_eq!(tx.poll_write(IoOutcome::Bytes(0)), PipeStep::Nothing);
    assert_eq!(tx.poll_write(IoOutcome::Failed), PipeStep::Failed);
    assert_eq!((tx.interrupts_sent(), tx.sleeps()), (2, 1));
    assert_eq!(rx.poll_read(IoOutcome::Bytes(8)), PipeStep::Signal(8));
    assert_eq!(rx.poll_read(IoOutcome::Bytes(0)), PipeStep::Nothing);
    assert_eq!(rx.poll_read(IoOutcome::WouldBlock), PipeStep::SignalAndWait);
    rx.woken();
    assert_eq!((rx.interrupts_sent(), rx.sleeps()), (2, 1));
    assert_eq!((tx.fd, rx.fd), (5, 6));
}

#[test]
fn whole_buffers_go_through_a_pipe() {
    let tx = PipeSender::new(0, 0, ());
    let mut write = tx.write_all(10);
    assert_eq!(write.start(), Progress::From(0));
    assert_eq!(write.wrote(4), Progress::From(4));
    assert_eq!(write.wrote(6), Progress::Over(10));
    let rx = PipeReceiver::new(0, (), 0);
    let mut read = rx.read_exact(8);
    assert_eq!(read.got(5), Progress::From(5));
    assert_eq!(read.got(0), Progress::Over(5));
    let mut read = rx.read_exact(8);
    assert_eq!(read.got(8), Progress::Over(8));
}

#[test]
fn pipes_are_made_and_opened() {
    assert_eq!(mkfifo(0, 0), MkfifoResult::Made);
    assert_eq!(mkfifo(-1, EEXIST), MkfifoResult::Made);
    assert_eq!(mkfifo(-1, 13), MkfifoResult::Failed);
    assert_eq!(open_receiver(4), OpenStep::Opened(4));
    assert_eq!(open_receiver(-1), OpenStep::Failed);
    assert_eq!(open_sender(4, 0), OpenStep::Opened(4));
    assert_eq!(open_sender(-1, ENXIO), OpenStep::Later);
    assert_eq!(open_sender(-1, 2), OpenStep::Failed);
    assert!(path_is_valid(b"/tmp/uintr-pipe.fifo"));
    assert!(!path_is_valid(b"/tmp\0x"));
}
