//! One pending host operation, completed by whichever callback fires first.
//!
//! A host that reports completion through a success callback and an error
//! callback may fire both, or fire one of them twice. A [`PendingOperation`]
//! is the single completion slot both callbacks write to: the first write
//! stays, every later one is ignored, and the first write alone wakes the
//! waiter.

use futures::channel::oneshot::{channel, Canceled, Receiver, Sender};
use vstd::prelude::*;

verus! {

/// `futures::channel::oneshot::Sender`, the sending end of a one-shot
/// channel. Carried as an opaque value.
#[verifier::external_type_specification]
#[verifier::external_body]
#[verifier::reject_recursive_types(T)]
pub struct OneshotSender<T>(Sender<T>);

/// `futures::channel::oneshot::Receiver`, the receiving end of a one-shot
/// channel and the future a waiter suspends on. Carried as an opaque value.
#[verifier::external_type_specification]
#[verifier::external_body]
#[verifier::reject_recursive_types(T)]
pub struct OneshotReceiver<T>(Receiver<T>);

/// `futures::channel::oneshot::Canceled`, which a receiver yields when its
/// sender is dropped unused. No code here handles one: it is declared because
/// the receiver is a future whose output type names it, and the receiver
/// cannot be declared without.
#[verifier::external_type_specification]
#[verifier::external_body]
pub struct OneshotCanceled(Canceled);

/// What a completion slot holds: nothing yet, or the outcome that was written
/// to it (`Ok` for success, `Err` with the host's detail for failure).
pub type SlotView = Option<Result<(), Seq<char>>>;

/// One invocation of a resolver.
pub enum Resolution {
    /// The success resolver was invoked.
    Success,
    /// The error resolver was invoked with this detail.
    Failure(Seq<char>),
}

/// The outcome that a resolver invocation stands for.
pub open spec fn outcome_of(resolution: Resolution) -> Result<(), Seq<char>> {
    match resolution {
        Resolution::Success => Ok(()),
        Resolution::Failure(detail) => Err(detail),
    }
}

/// The slot after one resolver invocation: an empty slot takes the
/// invocation's outcome, a written slot keeps what it holds.
pub open spec fn resolve(slot: SlotView, resolution: Resolution) -> SlotView {
    match slot {
        None => Some(outcome_of(resolution)),
        Some(_) => slot,
    }
}

/// The value of an outcome as the slot's model holds it.
pub open spec fn outcome_view(outcome: Result<(), String>) -> Result<(), Seq<char>> {
    match outcome {
        Ok(()) => Ok(()),
        Err(detail) => Err(detail@),
    }
}

/// The value of what a waiter observes in the slot.
pub open spec fn observed_view(observed: Option<Result<(), String>>) -> SlotView {
    match observed {
        None => None,
        Some(outcome) => Some(outcome_view(outcome)),
    }
}

/// The slot after a sequence of resolver invocations, taken in order.
pub open spec fn resolve_all(slot: SlotView, resolutions: Seq<Resolution>) -> SlotView
    decreases resolutions.len(),
{
    if resolutions.len() == 0 {
        slot
    } else {
        resolve_all(resolve(slot, resolutions[0]), resolutions.drop_first())
    }
}

/// How many invocations of a sequence find the slot empty, and so complete
/// the operation and wake its waiter.
pub open spec fn completions(slot: SlotView, resolutions: Seq<Resolution>) -> nat
    decreases resolutions.len(),
{
    if resolutions.len() == 0 {
        0
    } else {
        let here: nat = if slot is None {
            1
        } else {
            0
        };
        here + completions(resolve(slot, resolutions[0]), resolutions.drop_first())
    }
}

/// A resolver invocation addressed to one of two operations.
pub struct Addressed {
    pub to_first: bool,
    pub resolution: Resolution,
}

/// The slots of two operations after a sequence of invocations, each applied
/// to the operation it is addressed to.
pub open spec fn resolve_pair(slots: (SlotView, SlotView), invocations: Seq<Addressed>) -> (
    SlotView,
    SlotView,
)
    decreases invocations.len(),
{
    if invocations.len() == 0 {
        slots
    } else {
        let head = invocations[0];
        let after = if head.to_first {
            (resolve(slots.0, head.resolution), slots.1)
        } else {
            (slots.0, resolve(slots.1, head.resolution))
        };
        resolve_pair(after, invocations.drop_first())
    }
}

/// The invocations of a sequence that are addressed to one of the two
/// operations, in their order.
pub open spec fn addressed_to(invocations: Seq<Addressed>, first: bool) -> Seq<Resolution>
    decreases invocations.len(),
{
    if invocations.len() == 0 {
        Seq::empty()
    } else {
        let rest = addressed_to(invocations.drop_first(), first);
        if invocations[0].to_first == first {
            seq![invocations[0].resolution] + rest
        } else {
            rest
        }
    }
}

/// Creates a one-shot channel. Calls `futures::channel::oneshot::channel`,
/// which allocates the state the two ends share; nothing is claimed of them.
#[verifier::external_body]
fn open_channel() -> (ends: (Sender<()>, Receiver<()>)) {
    channel::<()>()
}

/// Wakes the waiter. Calls `futures::channel::oneshot::Sender::send` with the
/// unit value, which consumes the sender. Whether the receiving end was still
/// there to take the value is not looked at.
#[verifier::external_body]
fn notify(sender: Sender<()>) {
    let _ = sender.send(());
}

enum Slot {
    Empty(Sender<()>),
    Written(Result<(), String>),
}

/// One in-flight asynchronous host operation.
pub struct PendingOperation {
    slot: Slot,
}

impl View for PendingOperation {
    type V = SlotView;

    closed spec fn view(&self) -> SlotView {
        match self.slot {
            Slot::Empty(_) => None,
            Slot::Written(outcome) => Some(outcome_view(outcome)),
        }
    }
}

impl PendingOperation {
    /// Begins an operation: an empty slot, and the receiving end on which the
    /// caller waits until the slot is written.
    pub fn create() -> (created: (PendingOperation, Receiver<()>))
        ensures
            created.0@ is None,
    {
        let (sender, receiver) = open_channel();
        (PendingOperation { slot: Slot::Empty(sender) }, receiver)
    }

    /// Whether no resolver has been invoked yet.
    pub fn is_pending(&self) -> (pending: bool)
        ensures
            pending == (self@ is None),
    {
        match &self.slot {
            Slot::Empty(_) => true,
            Slot::Written(_) => false,
        }
    }

    /// What the waiter observes: nothing while the operation is pending,
    /// then the outcome it was completed with.
    pub fn outcome(&self) -> (observed: Option<Result<(), String>>)
        ensures
            observed_view(observed) == self@,
    {
        match &self.slot {
            Slot::Empty(_) => None,
            Slot::Written(Ok(())) => Some(Ok(())),
            Slot::Written(Err(detail)) => Some(Err(detail.clone())),
        }
    }

    fn write(&mut self, outcome: Result<(), String>) -> (first: bool)
        ensures
            first == (old(self)@ is None),
            final(self)@ == (if first {
                Some(outcome_view(outcome))
            } else {
                old(self)@
            }),
    {
        if self.is_pending() {
            let mut previous = Slot::Written(outcome);
            core::mem::swap(&mut self.slot, &mut previous);
            match previous {
                Slot::Empty(sender) => {
                    notify(sender);
                },
                Slot::Written(_) => {},
            }
            true
        } else {
            false
        }
    }

    /// The success resolver. Returns whether this invocation was the first
    /// among both resolvers, and so the one that completed the operation.
    pub fn resolve_success(&mut self) -> (first: bool)
        ensures
            final(self)@ == resolve(old(self)@, Resolution::Success),
            first == (old(self)@ is None),
    {
        self.write(Ok(()))
    }

    /// The error resolver, invoked with the host's detail. Returns whether
    /// this invocation was the first among both resolvers.
    pub fn resolve_error(&mut self, detail: String) -> (first: bool)
        ensures
            final(self)@ == resolve(old(self)@, Resolution::Failure(detail@)),
            first == (old(self)@ is None),
    {
        self.write(Err(detail))
    }
}

/// Once written, a slot keeps what it holds: no later invocation of either
/// resolver changes it, and none completes the operation again.
pub proof fn lemma_written_slot_is_final(slot: SlotView, resolutions: Seq<Resolution>)
    requires
        slot is Some,
    ensures
        resolve_all(slot, resolutions) == slot,
        completions(slot, resolutions) == 0,
    decreases resolutions.len(),
{
    if resolutions.len() > 0 {
        lemma_written_slot_is_final(slot, resolutions.drop_first());
    }
}

/// At-most-once resolution: however often, and in whatever order, the two
/// resolvers of a fresh operation are invoked, the waiter observes the
/// outcome of the first invocation, and the operation is completed exactly
/// once. Before any invocation the slot is empty.
pub proof fn lemma_first_resolution_wins(resolutions: Seq<Resolution>)
    ensures
        resolutions.len() == 0 ==> resolve_all(None, resolutions) is None && completions(
            None,
            resolutions,
        ) == 0,
        resolutions.len() > 0 ==> resolve_all(None, resolutions) == Some(
            outcome_of(resolutions[0]),
        ) && completions(None, resolutions) == 1,
{
    if resolutions.len() > 0 {
        lemma_written_slot_is_final(resolve(None, resolutions[0]), resolutions.drop_first());
    }
}

/// Independent operations: when invocations for two operations arrive
/// interleaved, each operation ends as if it had received its own
/// invocations alone. Resolving one never touches the other.
pub proof fn lemma_operations_are_independent(
    slots: (SlotView, SlotView),
    invocations: Seq<Addressed>,
)
    ensures
        resolve_pair(slots, invocations) == (
            resolve_all(slots.0, addressed_to(invocations, true)),
            resolve_all(slots.1, addressed_to(invocations, false)),
        ),
    decreases invocations.len(),
{
    if invocations.len() > 0 {
        let head = invocations[0];
        let rest = invocations.drop_first();
        let own = seq![head.resolution];
        if head.to_first {
            let tail = addressed_to(rest, true);
            assert((own + tail)[0] == head.resolution);
            assert((own + tail).drop_first() =~= tail);
            lemma_operations_are_independent((resolve(slots.0, head.resolution), slots.1), rest);
        } else {
            let tail = addressed_to(rest, false);
            assert((own + tail)[0] == head.resolution);
            assert((own + tail).drop_first() =~= tail);
            lemma_operations_are_independent((slots.0, resolve(slots.1, head.resolution)), rest);
        }
    }
}

} // verus!
