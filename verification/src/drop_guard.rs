//! A guard that tells when it is dropped.
use tokio::sync::oneshot;
use vstd::prelude::*;

verus! {

/// The end of a `tokio` oneshot channel that its one value is sent into.
#[verifier::external_type_specification]
#[verifier::external_body]
#[verifier::reject_recursive_types(T)]
pub struct ExOneshotSender<T>(oneshot::Sender<T>);

/// The end of a `tokio` oneshot channel at which its one value is awaited.
#[verifier::external_type_specification]
#[verifier::external_body]
#[verifier::reject_recursive_types(T)]
pub struct ExOneshotReceiver<T>(oneshot::Receiver<T>);

/// What waiting for a value ends with that is never sent.
#[verifier::external_type_specification]
#[verifier::external_body]
pub struct ExRecvError(oneshot::error::RecvError);

/// Whether the two are ends of the same channel, so that what is sent into the
/// one comes out of the other.
pub uninterp spec fn signals(tx: oneshot::Sender<()>, rx: oneshot::Receiver<()>) -> bool;

/// Whether the sender was given its one value, with this result: `Ok` where the
/// value was left for the receiver, which gets it however late it asks, and
/// `Err` where the receiver was closed or gone.
pub uninterp spec fn given(tx: oneshot::Sender<()>, sent: Result<(), ()>) -> bool;

/// Calls `tokio::sync::oneshot::channel`: the two ends of a new channel. Neither
/// end can be cloned, so each has no other counterpart.
#[verifier::external_body]
fn oneshot_channel() -> (ends: (oneshot::Sender<()>, oneshot::Receiver<()>))
    ensures
        signals(ends.0, ends.1),
        forall|tx: oneshot::Sender<()>| #[trigger] signals(tx, ends.1) ==> tx == ends.0,
        forall|rx: oneshot::Receiver<()>| #[trigger] signals(ends.0, rx) ==> rx == ends.1,
{
    oneshot::channel()
}

/// Calls `tokio::sync::oneshot::Sender::send`, which leaves the value for the
/// receiver and wakes whoever waits there. Whether anybody still does depends on
/// other tasks, so which result it is, is left open.
#[verifier::external_body]
fn oneshot_send(tx: oneshot::Sender<()>) -> (sent: Result<(), ()>)
    ensures
        given(tx, sent),
    opens_invariants none
    no_unwind
{
    tx.send(())
}

/// When a `DropGuard` is dropped, it signals to its paired receiver that it has been dropped.
/// This allows an external observer, maybe in another task, to know when the
/// `DropGuard` was dropped.
pub struct DropGuard {
    tx: Option<oneshot::Sender<()>>,
}

impl DropGuard {
    /// The guard has not given its signal yet.
    pub closed spec fn is_armed(&self) -> bool {
        self.tx is Some
    }

    /// The guard's signal comes out at this receiver.
    pub closed spec fn signals_to(&self, rx: oneshot::Receiver<()>) -> bool {
        self.tx matches Some(tx) && signals(tx, rx)
    }

    /// The guard's sender was given the signal: it waits for the receiver, unless
    /// the receiver was gone.
    pub closed spec fn has_signalled(&self) -> bool {
        self.tx matches Some(tx) && exists|sent: Result<(), ()>| #[trigger] given(tx, sent)
    }

    /// A guard and the receiver that it is paired with. The guard signals to no
    /// other receiver, and no other guard signals to this one.
    pub fn new() -> (pair: (DropGuard, oneshot::Receiver<()>))
        ensures
            pair.0.is_armed(),
            pair.0.signals_to(pair.1),
            forall|rx: oneshot::Receiver<()>| #[trigger]
                pair.0.signals_to(rx) ==> rx == pair.1,
            forall|other: DropGuard| #[trigger] other.signals_to(pair.1) ==> other == pair.0,
    {
        let (tx, rx) = oneshot_channel();
        (DropGuard { tx: Some(tx) }, rx)
    }
}

impl Drop for DropGuard {
    /// Gives the signal, which is given once.
    fn drop(&mut self)
        ensures
            !final(self).is_armed(),
            old(self).is_armed() ==> old(self).has_signalled(),
            forall|rx: oneshot::Receiver<()>| #[trigger]
                old(self).signals_to(rx) ==> exists|tx: oneshot::Sender<()>, sent: Result<(), ()>|
                    #![trigger signals(tx, rx), given(tx, sent)]
                    signals(tx, rx) && given(tx, sent),
        opens_invariants none
        no_unwind
    {
        // needed because the sender cannot be moved out of a `&mut`
        let mut tx: Option<oneshot::Sender<()>> = None;
        core::mem::swap(&mut tx, &mut self.tx);
        if let Some(tx) = tx {
            let _ = oneshot_send(tx);
        }
    }
}

/// A guard that has signalled has done so to its receiver: the sender that leads
/// there was given its value. A guard that signals to a receiver is armed.
pub proof fn law_the_signal_reaches_the_receiver(guard: DropGuard, rx: oneshot::Receiver<()>)
    requires
        guard.signals_to(rx),
    ensures
        guard.is_armed(),
        exists|tx: oneshot::Sender<()>| #[trigger] signals(tx, rx),
        guard.has_signalled() ==> exists|tx: oneshot::Sender<()>, sent: Result<(), ()>|
            #![trigger signals(tx, rx), given(tx, sent)]
            signals(tx, rx) && given(tx, sent),
{
}

} // verus!
