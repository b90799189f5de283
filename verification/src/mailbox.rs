//! A one-value mailbox: a background task posts a value through a channel,
//! and the user interface takes it out when it is ready.

use vstd::prelude::*;

verus! {

#[verifier::external_type_specification]
#[verifier::external_body]
#[verifier::reject_recursive_types(T)]
pub struct ExSender<T>(tokio::sync::mpsc::Sender<T>);

#[verifier::external_type_specification]
#[verifier::external_body]
#[verifier::reject_recursive_types(T)]
pub struct ExReceiver<T>(tokio::sync::mpsc::Receiver<T>);

/// Opens a bounded channel with `tokio::sync::mpsc::channel(capacity)`.
/// Nothing is claimed of the two ends; `channel` panics for a capacity of 0
/// or above `Semaphore::MAX_PERMITS` (`usize::MAX >> 3`), which `requires`
/// leaves out.
#[verifier::external_body]
fn open_channel<T>(capacity: usize) -> (tokio::sync::mpsc::Sender<T>, tokio::sync::mpsc::Receiver<T>)
    requires
        0 < capacity <= usize::MAX / 8,
{
    tokio::sync::mpsc::channel(capacity)
}

/// Takes the next value waiting in the channel, if any
/// (`Receiver::try_recv`, its error dropped). What comes back depends on
/// what other tasks have sent, so nothing is claimed of it. The receiving
/// end itself is left as it was: `try_recv` changes only the channel's shared
/// state behind the handle, never which channel the handle reads.
#[verifier::external_body]
fn try_receive<T>(rx: &mut tokio::sync::mpsc::Receiver<T>) -> (r: Option<T>)
    ensures
        *final(rx) == *old(rx),
{
    rx.try_recv().ok()
}

/// Another sending end of the same channel (`Sender::clone`). The clone
/// wraps the same shared channel as `tx`, so it is the same handle: what is
/// sent through either arrives at the same receiver.
#[verifier::external_body]
fn another_sender<T>(tx: &tokio::sync::mpsc::Sender<T>) -> (r: tokio::sync::mpsc::Sender<T>)
    ensures
        r == *tx,
{
    tx.clone()
}

/// A mailbox that holds at most one value taken from its channel.
#[verifier::reject_recursive_types(T)]
pub struct EatSpit<T> {
    rx: tokio::sync::mpsc::Receiver<T>,
    val: Option<T>,
    tx: tokio::sync::mpsc::Sender<T>,
}

impl<T> EatSpit<T> {
    /// The value the mailbox holds, if it holds one.
    pub closed spec fn held(&self) -> Option<T> {
        self.val
    }

    /// The sending end of the mailbox's channel.
    pub closed spec fn sending_end(&self) -> tokio::sync::mpsc::Sender<T> {
        self.tx
    }

    /// The same mailbox, over the same channel, holding `v` instead.
    pub closed spec fn holding(self, v: Option<T>) -> Self {
        EatSpit { rx: self.rx, val: v, tx: self.tx }
    }

    /// A mailbox made to hold `v` holds `v`, over the same channel.
    pub proof fn lemma_holding(self, v: Option<T>)
        ensures
            self.holding(v).held() == v,
            self.holding(v).sending_end() == self.sending_end(),
            self.holding(self.held()) == self,
    {
    }

    /// An empty mailbox over a fresh channel of capacity one.
    pub fn new() -> (m: EatSpit<T>)
        ensures
            m.held() is None,
    {
        let (tx, rx) = open_channel(1);
        EatSpit { rx, tx, val: None }
    }

    /// The value held.
    pub fn val(&mut self) -> (v: &T)
        requires
            old(self).held() is Some,
        ensures
            *v == old(self).held()->Some_0,
            *final(self) == *old(self),
    {
        self.val.as_ref().unwrap()
    }

    /// The value held, to change in place.
    pub fn val_mut(&mut self) -> (v: &mut T)
        requires
            old(self).held() is Some,
        ensures
            *v == old(self).held()->Some_0,
            final(self).held() == Some(*final(v)),
            final(self).sending_end() == old(self).sending_end(),
            *final(self) == old(self).holding(Some(*final(v))),
    {
        match &mut self.val {
            Some(v) => v,
            None => vstd::pervasive::unreached(),
        }
    }

    /// A sending end for the mailbox's own channel, to hand to a task: what is
    /// sent through it arrives in this mailbox.
    pub fn mouth(&mut self) -> (tx: tokio::sync::mpsc::Sender<T>)
        ensures
            tx == old(self).sending_end(),
            *final(self) == *old(self),
    {
        another_sender(&self.tx)
    }

    /// Whether the mailbox holds a value, taking the next one from the
    /// channel if it held none. A value already held is kept.
    pub fn available(&mut self) -> (r: bool)
        ensures
            r == final(self).held() is Some,
            old(self).held() is Some ==> *final(self) == *old(self),
            final(self).sending_end() == old(self).sending_end(),
            *final(self) == old(self).holding(final(self).held()),
    {
        if self.val.is_some() {
            return true;
        }
        match try_receive(&mut self.rx) {
            Some(x) => {
                self.val = Some(x);
                true
            },
            None => false,
        }
    }
}

} // verus!
