//! Latency statistics and the measuring programs.

use uart_matmul::benchmark::{BenchmarkResult, Benchmarks, MINIMUM_START};
use uart_matmul::handshake::{
    after_accept, after_connect, before_attempt, connect_and_exchange, wait_and_exchange,
    AfterAttempt, Attempt, Meeting, Swap,
};
use uart_matmul::runs::{
    go_bytes, Carrier, CountedEvent, CountedRun, CountedStep, EchoEvent, EchoRun, EchoStep,
    ReceiveRun, ReceiveStep, RoundRun, RoundStep, SendRun, SendStep, CHUNK, ROUNDS, TOTAL, WARMUP,
};
use uart_matmul::setup::{setup_step, Program, SetupStep, HANDLER_FLAGS};
use uart_matmul::trace::F64Parts;

#[test]
fn percentiles_come_from_the_sorted_latencies() {
    let mut b = Benchmarks::new();
    assert_eq!(b.percentile(50), 0);
    assert_eq!(b.minimum, MINIMUM_START);
    for x in [50u128, 10, 40, 20, 30] {
        b.update(x);
    }
    assert_eq!(b.latencies, vec![50, 10, 40, 20, 30]);
    assert_eq!(b.percentile(0), 10);
    assert_eq!(b.percentile(50), 30);
    assert_eq!(b.percentile(90), 50);
    assert_eq!(b.percentile(100), 50);
    assert_eq!(b.percentile(101), 50);
    assert_eq!(b.percentile(u64::MAX), 50);
}

#[test]
fn measurements_are_summed_up() {
    let mut b = Benchmarks::new();
    b.reset_total_start(1000);
    for x in 1..=100u128 {
        b.update(x);
    }
    let s = b.evaluate(1500);
    assert_eq!(s.message_count, 100);
    assert_eq!(s.average, 50);
    assert_eq!((s.minimum, s.maximum), (1, 100));
    assert_eq!((s.p50, s.p90, s.p99), (51, 91, 100));
    assert_eq!(s.cpu_time_used, 500);
    assert_eq!(b.evaluate(10).cpu_time_used, 0);
    b.update(1 << 70);
    assert_eq!(b.latencies[100], 0);
    assert_eq!(b.maximum, 1 << 70);
}

#[test]
fn the_report_has_its_lines() {
    let x = F64Parts::Finite { negative: false, int_part: 12, frac_part: 345 };
    let report = BenchmarkResult {
        message_count: 77,
        total_duration_ms: x,
        average_duration_us: x,
        minimum_duration_us: x,
        maximum_duration_us: x,
        standard_deviation_us: F64Parts::Nan,
        p50_us: x,
        p90_us: x,
        p99_us: x,
        message_rate: F64Parts::Infinite,
        cpu_usage: x,
    };
    let mut buf = [0u8; 8192];
    let n = Benchmarks::new().print_results(&report, &mut buf);
    let text = std::str::from_utf8(&buf[..n]).unwrap();
    let expected = "\n============ RESULTS ================\n\
        Message count:      77\n\
        Total duration:     12.000345 ms\n\
        Average duration:   12.000345 us\n\
        Minimum duration:   12.000345 us\n\
        Maximum duration:   12.000345 us\n\
        Standard deviation: nan us\n\
        Latency P50:        12.000345 us\n\
        Latency P90:        12.000345 us\n\
        Latency P99:        12.000345 us\n\
        Message rate:       inf msg/s\n\
        CPU usage:          12.000345%\n\
        =====================================\n";
    assert_eq!(text, expected);
    let mut short = [0u8; 40];
    assert_eq!(Benchmarks::new().print_results(&report, &mut short), 40);
    assert_eq!(&short[..], &expected.as_bytes()[..40]);
}

#[test]
fn a_memory_run_reads_exactly_what_was_to_be_sent() {
    let mut run = ReceiveRun::new(Carrier::Memory);
    assert_eq!(run.next(true), ReceiveStep::Quit);
    assert_eq!(run.failed(), ReceiveStep::Quit);
    assert_eq!(run.next(false), ReceiveStep::ReadMarker(8));
    assert!(!run.marker_read(b"GOST"));
    assert_eq!(run.next(false), ReceiveStep::ReadMarker(4));
    assert!(!run.marker_read(b"ART!"));
    assert_eq!(run.failed(), ReceiveStep::Report);
    let mut reads = 0;
    while let ReceiveStep::Read(len) = run.next(false) {
        run.data_read(if reads == 0 { 1 } else { len });
        reads += 1;
    }
    assert_eq!(run.got, TOTAL);
    assert_eq!(reads, TOTAL / CHUNK + 1);
    assert_eq!(run.next(false), ReceiveStep::Report);
}

#[test]
fn a_wrong_marker_ends_the_run() {
    let mut run = ReceiveRun::new(Carrier::Memory);
    run.marker_read(b"GOSTART?");
    assert_eq!(run.next(false), ReceiveStep::BadMarker);
    assert_eq!(&go_bytes(), b"GOSTART!");
}

#[test]
fn a_pipe_run_takes_a_whole_marker_and_ends_with_the_writer() {
    let mut run = ReceiveRun::new(Carrier::Pipe);
    assert!(run.marker_read(b""));
    assert!(run.marker_read(b"GOS"));
    assert_eq!(run.next(false), ReceiveStep::ReadMarker(8));
    assert!(!run.marker_read(b"GOSTART!"));
    assert_eq!(run.next(false), ReceiveStep::Read(CHUNK));
    run.data_read(100);
    assert_eq!(run.next(true), ReceiveStep::Report);
    run.data_read(0);
    assert_eq!(run.next(false), ReceiveStep::Report);
    assert_eq!(run.got, 100);
}

#[test]
fn a_sender_sends_the_marker_and_all_chunks() {
    let mut run = SendRun::new();
    assert_eq!(run.next(true), SendStep::WriteMarker);
    assert_eq!(run.failed(), SendStep::Quit);
    run.wrote();
    assert_eq!(run.sent, 0);
    assert_eq!(run.next(true), SendStep::Report);
    assert_eq!(run.failed(), SendStep::Report);
    let mut writes = 0;
    while run.next(false) == SendStep::Write {
        run.wrote();
        writes += 1;
    }
    assert_eq!((writes, run.sent), (4096, 256 * 1024 * 1024));
}

#[test]
fn rounds_warm_up_before_they_count() {
    let mut run = RoundRun::new();
    assert_eq!(run.next_ask(true), RoundStep::Quit);
    assert_eq!(run.next_answer(true), RoundStep::Report);
    assert_eq!(run.failed(), RoundStep::Quit);
    assert!(!run.round_done(3));
    let mut timed = 0;
    while let RoundStep::Round { timed: t } = run.next_ask(false) {
        assert_eq!(run.next_answer(false), RoundStep::Round { timed: t });
        assert!(run.round_done(8));
        timed += t as usize;
    }
    assert_eq!((timed, run.done), (ROUNDS, WARMUP + ROUNDS));
    assert_eq!(run.failed(), RoundStep::Report);
    assert_eq!(run.next_answer(false), RoundStep::Report);
}

#[test]
fn single_interrupts_pause_between_rounds() {
    let mut run = CountedRun::new(2, 5);
    assert_eq!(run.next(true), CountedStep::Report);
    assert_eq!(run.next(false), CountedStep::Turn(0));
    run.advance(CountedEvent::Taken);
    assert_eq!(run.next(true), CountedStep::Pause(5));
    run.advance(CountedEvent::Paused);
    assert_eq!(run.next(false), CountedStep::Turn(1));
    run.advance(CountedEvent::Taken);
    assert_eq!(run.next(false), CountedStep::Report);
    assert_eq!(run.taken, 2);
}

#[test]
fn turns_are_taken_in_order_until_one_fails() {
    let mut run = CountedRun::new(4, 0);
    let mut taken = Vec::new();
    while let CountedStep::Turn(i) = run.next(false) {
        taken.push(i);
        run.advance(if i == 2 { CountedEvent::Failed } else { CountedEvent::Taken });
    }
    assert_eq!(taken, vec![0, 1, 2]);
    assert_eq!((run.taken, run.failed), (2, true));
    assert_eq!(CountedRun::new(0, 5).next(false), CountedStep::Report);
}

#[test]
fn an_interrupt_that_came_is_answered_before_the_end() {
    let mut run = EchoRun::new();
    assert_eq!(run.next(true), EchoStep::Leave);
    assert_eq!(run.next(false), EchoStep::Wait);
    run.advance(EchoEvent::Came);
    assert_eq!(run.next(true), EchoStep::Answer);
    run.advance(EchoEvent::Answered);
    assert_eq!(run.next(false), EchoStep::Wait);
    run.advance(EchoEvent::Failed);
    assert_eq!(run.next(false), EchoStep::Leave);
}

#[test]
fn peers_meet_or_try_again() {
    assert_eq!(before_attempt(true), Attempt::Interrupted);
    assert_eq!(before_attempt(false), Attempt::Try);
    assert_eq!(after_accept(Meeting::Connected), AfterAttempt::Proceed);
    assert_eq!(after_accept(Meeting::WouldBlock), AfterAttempt::Pause(50));
    assert_eq!(after_accept(Meeting::ConnectionRefused), AfterAttempt::Fail);
    assert_eq!(after_connect(Meeting::Connected, 100), AfterAttempt::Proceed);
    assert_eq!(after_connect(Meeting::NotFound, 100), AfterAttempt::Pause(100));
    assert_eq!(after_connect(Meeting::ConnectionRefused, 50), AfterAttempt::Pause(50));
    assert_eq!(after_connect(Meeting::WouldBlock, 50), AfterAttempt::Fail);
    assert_eq!(after_connect(Meeting::Failed, 50), AfterAttempt::Fail);
}

#[test]
fn descriptors_are_swapped_in_step() {
    for memory in [false, true] {
        for done in 0..4usize {
            let a = connect_and_exchange(memory, done);
            let b = wait_and_exchange(memory, done);
            match a {
                Swap::SendMemory => assert_eq!(b, Swap::ReceiveMemory),
                Swap::SendInterrupts => assert_eq!(b, Swap::ReceiveInterrupts),
                Swap::ReceiveInterrupts => assert_eq!(b, Swap::SendInterrupts),
                Swap::Done => assert_eq!(b, Swap::Done),
                Swap::ReceiveMemory => panic!("the connecting side brings the memory"),
            }
        }
    }
    assert_eq!(connect_and_exchange(true, 0), Swap::SendMemory);
    assert_eq!(connect_and_exchange(false, 1), Swap::ReceiveInterrupts);
}

#[test]
fn programs_let_interrupts_in_last() {
    let programs = [
        Program::ShmSender,
        Program::ShmReceiver,
        Program::IpcSender,
        Program::IpcReceiver,
        Program::PipeSender,
        Program::PipeReceiver,
        Program::LatencyClient,
        Program::LatencyServer,
        Program::UintrSender,
        Program::UintrReceiver,
    ];
    for program in programs {
        let mut steps = Vec::new();
        while setup_step(program, steps.len()) != SetupStep::Run {
            steps.push(setup_step(program, steps.len()));
        }
        assert_eq!(steps.last(), Some(&SetupStep::AllowInterrupts));
        assert_eq!(steps.iter().filter(|s| **s == SetupStep::AllowInterrupts).count(), 1);
        assert_eq!(steps[..2], [SetupStep::InitToken, SetupStep::RegisterHandler]);
    }
    let mut steps = Vec::new();
    for done in 3..9 {
        steps.push(setup_step(Program::LatencyServer, done));
    }
    let expected = [
        SetupStep::MakePipes,
        SetupStep::Meet,
        SetupStep::OpenReader,
        SetupStep::OpenWriter,
        SetupStep::TellReady,
        SetupStep::RegisterTarget,
    ];
    assert_eq!(steps, expected);
    assert_eq!(HANDLER_FLAGS, 0);
}
