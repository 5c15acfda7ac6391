//! The process-wide token that the interrupt handler signals.

use vstd::prelude::*;

use crate::uintr::UintrError;
use crate::uintr_core::{Inner, UintrToken};

verus! {

/// The token in `slot`, or the error that there is none yet.
pub fn get_token<T>(slot: &Option<T>) -> (r: Result<&T, UintrError>)
    ensures
        match *slot {
            Some(t) => r == Ok::<&T, UintrError>(&t),
            None => r == Err::<&T, UintrError>(UintrError::NotInitialized),
        },
{
    match slot {
        Some(t) => Ok(t),
        None => Err(UintrError::NotInitialized),
    }
}

/// Puts a new token in `slot`, in place of any other.
pub fn init_token<W>(slot: &mut Option<UintrToken<W>>, name: &str)
    ensures
        *final(slot) matches Some(t) && t.name@ == name@ && t.inner == (Inner::<W> {
            seq: 0,
            consumed_seq: 0,
            waker: None,
        }),
{
    *slot = Some(UintrToken::new(name));
}

/// What the interrupt handler does: it signals the token, if there is one, and raises the flag
/// that ends the processor's sleep. Returns whether a waker is to be woken.
pub fn interrupt_callback<W>(slot: &mut Option<UintrToken<W>>, wake_flag: &mut u8) -> (wake: bool)
    ensures
        *final(wake_flag) == 1,
        match *old(slot) {
            Some(t) => {
                &&& *final(slot) matches Some(u)
                &&& u.inner == t.inner.after_interrupt()
                &&& u.name == t.name
                &&& wake == (t.inner.waker is Some)
            },
            None => *final(slot) is None && !wake,
        },
{
    let mut wake = false;
    match slot.take() {
        Some(mut token) => {
            wake = token.set_pending();
            *slot = Some(token);
        },
        None => {},
    }
    *wake_flag = 1;
    wake
}

} // verus!
