//! User interrupts: the numbers of the system calls, their errors, and what the results of the
//! calls mean.

use vstd::prelude::*;
use vstd::string::*;

verus! {

pub const NR_UINTR_REGISTER_HANDLER: i64 = 471;

pub const NR_UINTR_UNREGISTER_HANDLER: i64 = 472;

pub const NR_UINTR_CREATE_FD: i64 = 473;

pub const NR_UINTR_REGISTER_SENDER: i64 = 474;

pub const NR_UINTR_UNREGISTER_SENDER: i64 = 475;

pub const NR_UINTR_WAIT: i64 = 476;

/// The handler flag with which interrupts also break into blocking system calls.
pub const UINTR_HANDLER_FLAG_WAITING_ANY: i32 = 0x3000;

/// The longest wait that the kernel accepts, in microseconds.
pub const UINTR_WAIT_MAX_USEC: i64 = 10_000_000;

/// The vector on which the peers signal each other.
pub const UINTR_VECTOR: u64 = 0;

/// The socket level of a control message.
pub const SOL_SOCKET: i32 = 1;

/// The kind of a control message that carries file descriptors.
pub const SCM_RIGHTS: i32 = 1;

/// The frame that the processor hands to an interrupt handler.
#[derive(Debug, Clone, Copy, PartialEq, Eq, Structural)]
pub struct UintrFrame {
    pub rip: u64,
    pub rflags: u64,
    pub rsp: u64,
}

/// What can go wrong with user interrupts.
#[derive(Debug)]
pub enum UintrError {
    SyscallError(String),
    RegisterHandlerError(String),
    CreateFdError(String),
    RegisterSenderError(String),
    SendFdError(String),
    RecvFdError(String),
    SocketError(String),
    Timeout,
    NotInitialized,
}

pub type UintrResult<T> = Result<T, UintrError>;

/// The description of an error.
pub open spec fn uintr_error_text(e: UintrError) -> Seq<char> {
    match e {
        UintrError::SyscallError(msg) => "System call failed: "@ + msg@,
        UintrError::RegisterHandlerError(msg) => "Failed to register handler: "@ + msg@,
        UintrError::CreateFdError(msg) => "Failed to create FD: "@ + msg@,
        UintrError::RegisterSenderError(msg) => "Failed to register sender: "@ + msg@,
        UintrError::SendFdError(msg) => "Failed to send file descriptor: "@ + msg@,
        UintrError::RecvFdError(msg) => "Failed to receive file descriptor: "@ + msg@,
        UintrError::SocketError(msg) => "Socket error: "@ + msg@,
        UintrError::Timeout => "Timeout"@,
        UintrError::NotInitialized => "Not initialized"@,
    }
}

/// `head` followed by `tail`.
fn joined(head: &str, tail: &str) -> (r: String)
    ensures
        r@ == head@ + tail@,
{
    String::from_str(head).concat(tail)
}

impl UintrError {
    /// The description of this error.
    pub fn message(&self) -> (r: String)
        ensures
            r@ == uintr_error_text(*self),
    {
        match self {
            UintrError::SyscallError(msg) => joined("System call failed: ", msg.as_str()),
            UintrError::RegisterHandlerError(msg) => joined(
                "Failed to register handler: ",
                msg.as_str(),
            ),
            UintrError::CreateFdError(msg) => joined("Failed to create FD: ", msg.as_str()),
            UintrError::RegisterSenderError(msg) => joined(
                "Failed to register sender: ",
                msg.as_str(),
            ),
            UintrError::SendFdError(msg) => joined(
                "Failed to send file descriptor: ",
                msg.as_str(),
            ),
            UintrError::RecvFdError(msg) => joined(
                "Failed to receive file descriptor: ",
                msg.as_str(),
            ),
            UintrError::SocketError(msg) => joined("Socket error: ", msg.as_str()),
            UintrError::Timeout => String::from_str("Timeout"),
            UintrError::NotInitialized => String::from_str("Not initialized"),
        }
    }
}

/// What the system call that registers the handler comes to. `result` is its return value,
/// `os_error` the text of the system's last error.
pub fn uintr_register_handler(result: i32, os_error: &str) -> (r: UintrResult<i32>)
    ensures
        result >= 0 ==> r == Ok::<i32, UintrError>(result),
        result < 0 ==> (r matches Err(UintrError::RegisterHandlerError(msg)) && msg@
            == "uintr_register_handler failed: "@ + os_error@),
{
    if result < 0 {
        Err(UintrError::RegisterHandlerError(joined("uintr_register_handler failed: ", os_error)))
    } else {
        Ok(result)
    }
}

/// What the system call that makes a descriptor for this process's interrupts comes to.
pub fn uintr_create_fd(result: i32, os_error: &str) -> (r: UintrResult<i32>)
    ensures
        result >= 0 ==> r == Ok::<i32, UintrError>(result),
        result < 0 ==> (r matches Err(UintrError::CreateFdError(msg)) && msg@
            == "uintr_create_fd failed: "@ + os_error@),
{
    if result < 0 {
        Err(UintrError::CreateFdError(joined("uintr_create_fd failed: ", os_error)))
    } else {
        Ok(result)
    }
}

/// What the system call that registers the peer as a target comes to: the index to signal.
pub fn uintr_register_sender(result: i32, os_error: &str) -> (r: UintrResult<i32>)
    ensures
        result >= 0 ==> r == Ok::<i32, UintrError>(result),
        result < 0 ==> (r matches Err(UintrError::RegisterSenderError(msg)) && msg@
            == "uintr_register_sender failed: "@ + os_error@),
{
    if result < 0 {
        Err(UintrError::RegisterSenderError(joined("uintr_register_sender failed: ", os_error)))
    } else {
        Ok(result)
    }
}

/// What the system call that removes the handler comes to.
pub fn uintr_unregister_handler(result: i32, os_error: &str) -> (r: UintrResult<i32>)
    ensures
        result >= 0 ==> r == Ok::<i32, UintrError>(result),
        result < 0 ==> (r matches Err(UintrError::SyscallError(msg)) && msg@
            == "uintr_unregister_handler failed: "@ + os_error@),
{
    if result < 0 {
        Err(UintrError::SyscallError(joined("uintr_unregister_handler failed: ", os_error)))
    } else {
        Ok(result)
    }
}

/// What the system call that removes a target comes to.
pub fn uintr_unregister_sender(result: i32, os_error: &str) -> (r: UintrResult<i32>)
    ensures
        result >= 0 ==> r == Ok::<i32, UintrError>(result),
        result < 0 ==> (r matches Err(UintrError::SyscallError(msg)) && msg@
            == "uintr_unregister_sender failed: "@ + os_error@),
{
    if result < 0 {
        Err(UintrError::SyscallError(joined("uintr_unregister_sender failed: ", os_error)))
    } else {
        Ok(result)
    }
}

/// What the system call that waits for an interrupt comes to. That it was interrupted is what
/// it waited for.
pub fn uintr_wait(result: i64, interrupted: bool, os_error: &str) -> (r: UintrResult<()>)
    ensures
        result >= 0 || interrupted ==> r == Ok::<(), UintrError>(()),
        result < 0 && !interrupted ==> (r matches Err(UintrError::SyscallError(msg)) && msg@
            == "uintr_wait failed: "@ + os_error@),
{
    if result < 0 && !interrupted {
        Err(UintrError::SyscallError(joined("uintr_wait failed: ", os_error)))
    } else {
        Ok(())
    }
}

/// What sending a descriptor over a socket comes to.
pub fn send_fd(result: i64, os_error: &str) -> (r: UintrResult<()>)
    ensures
        result >= 0 ==> r == Ok::<(), UintrError>(()),
        result < 0 ==> (r matches Err(UintrError::SendFdError(msg)) && msg@ == "send_fd failed: "@
            + os_error@),
{
    if result < 0 {
        Err(UintrError::SendFdError(joined("send_fd failed: ", os_error)))
    } else {
        Ok(())
    }
}

/// A control message that came with a byte on a socket.
#[derive(Debug, Clone, Copy, PartialEq, Eq, Structural)]
pub struct ControlMessage {
    pub level: i32,
    pub kind: i32,
    pub fd: i32,
}

impl ControlMessage {
    /// The message carries a descriptor.
    pub open spec fn carries_fd(self) -> bool {
        self.level == SOL_SOCKET && self.kind == SCM_RIGHTS
    }
}

/// What receiving a descriptor over a socket comes to: the descriptor that the first control
/// message carries.
pub fn recv_fd(result: i64, os_error: &str, control: Option<ControlMessage>) -> (r: UintrResult<
    i32,
>)
    ensures
        result < 0 ==> (r matches Err(UintrError::RecvFdError(msg)) && msg@ == "recv_fd failed: "@
            + os_error@),
        result >= 0 ==> match control {
            Some(c) if c.carries_fd() => r == Ok::<i32, UintrError>(c.fd),
            _ => (r matches Err(UintrError::RecvFdError(msg)) && msg@
                == "recv_fd: no file descriptor received"@),
        },
{
    if result < 0 {
        return Err(UintrError::RecvFdError(joined("recv_fd failed: ", os_error)));
    }
    match control {
        Some(c) => {
            if c.level != SOL_SOCKET || c.kind != SCM_RIGHTS {
                Err(
                    UintrError::RecvFdError(
                        String::from_str("recv_fd: no file descriptor received"),
                    ),
                )
            } else {
                Ok(c.fd)
            }
        },
        None => Err(
            UintrError::RecvFdError(String::from_str("recv_fd: no file descriptor received")),
        ),
    }
}

/// The numbers that the kernel knows the calls by, in a row, and the longest wait that it takes.
pub proof fn lemma_calls_are_numbered_in_a_row()
    ensures
        NR_UINTR_REGISTER_HANDLER == 471,
        NR_UINTR_UNREGISTER_HANDLER == NR_UINTR_REGISTER_HANDLER + 1,
        NR_UINTR_CREATE_FD == NR_UINTR_REGISTER_HANDLER + 2,
        NR_UINTR_REGISTER_SENDER == NR_UINTR_REGISTER_HANDLER + 3,
        NR_UINTR_UNREGISTER_SENDER == NR_UINTR_REGISTER_HANDLER + 4,
        NR_UINTR_WAIT == NR_UINTR_REGISTER_HANDLER + 5,
        UINTR_HANDLER_FLAG_WAITING_ANY == 0x3000,
        UINTR_WAIT_MAX_USEC == 10 * 1_000_000,
        UINTR_VECTOR == 0,
{
}

/// Only a control message of the socket's own level, of the kind that passes rights, carries a
/// descriptor; which one does not matter.
pub proof fn lemma_rights_carry_descriptors(m: ControlMessage, fd: i32)
    ensures
        m.carries_fd() <==> m.level == 1 && m.kind == 1,
        m.carries_fd() == (ControlMessage { fd, ..m }).carries_fd(),
{
}

/// What an error says of itself, where it says anything.
pub open spec fn detail_of(e: UintrError) -> Seq<char> {
    match e {
        UintrError::SyscallError(msg) => msg@,
        UintrError::RegisterHandlerError(msg) => msg@,
        UintrError::CreateFdError(msg) => msg@,
        UintrError::RegisterSenderError(msg) => msg@,
        UintrError::SendFdError(msg) => msg@,
        UintrError::RecvFdError(msg) => msg@,
        UintrError::SocketError(msg) => msg@,
        _ => Seq::empty(),
    }
}

/// The errors are of one kind.
pub open spec fn same_kind(a: UintrError, b: UintrError) -> bool {
    &&& a is SyscallError <==> b is SyscallError
    &&& a is RegisterHandlerError <==> b is RegisterHandlerError
    &&& a is CreateFdError <==> b is CreateFdError
    &&& a is RegisterSenderError <==> b is RegisterSenderError
    &&& a is SendFdError <==> b is SendFdError
    &&& a is RecvFdError <==> b is RecvFdError
    &&& a is SocketError <==> b is SocketError
    &&& a is Timeout <==> b is Timeout
    &&& a is NotInitialized <==> b is NotInitialized
}

/// A description ends with what the error says of itself; what stands before it is the same for
/// all errors of a kind.
pub proof fn lemma_description_holds_the_detail(a: UintrError, b: UintrError)
    requires
        same_kind(a, b),
    ensures
        ({
            let s = uintr_error_text(a);
            let t = uintr_error_text(b);
            let head = s.len() - detail_of(a).len();
            &&& 0 < head <= s.len()
            &&& s.skip(head) == detail_of(a)
            &&& t.len() - detail_of(b).len() == head
            &&& s.take(head) == t.take(head)
        }),
{
    reveal_strlit("System call failed: ");
    reveal_strlit("Failed to register handler: ");
    reveal_strlit("Failed to create FD: ");
    reveal_strlit("Failed to register sender: ");
    reveal_strlit("Failed to send file descriptor: ");
    reveal_strlit("Failed to receive file descriptor: ");
    reveal_strlit("Socket error: ");
    reveal_strlit("Timeout");
    reveal_strlit("Not initialized");
    let s = uintr_error_text(a);
    let t = uintr_error_text(b);
    let head = s.len() - detail_of(a).len();
    assert(s.skip(head) =~= detail_of(a));
    assert(s.take(head) =~= t.take(head));
}

} // verus!
