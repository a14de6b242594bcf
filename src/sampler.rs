//! The decisions of the background sampler: from its mode and what woke it up
//! to its next mode and what it does next.
use vstd::prelude::*;

verus! {

/// A control signal from the consumer to the sampler.
#[derive(PartialEq, Eq, Structural, Clone, Copy, Debug)]
pub enum ControlSignal {
    Activate,
    Deactivate,
    Stop,
}

/// What ended the sampler's wait.
#[derive(PartialEq, Eq, Structural, Clone, Copy, Debug)]
pub enum Wakeup {
    /// The wait ran out with no signal.
    Timeout,
    /// A signal arrived.
    Signal(ControlSignal),
    /// The consumer's end of the channel is gone.
    Disconnected,
}

/// What the sampler does before it waits again.
#[derive(PartialEq, Eq, Structural, Clone, Copy, Debug)]
pub enum SamplerAction {
    /// Build a snapshot, publish it, notify the consumer, then wait for the
    /// sampling period.
    SampleThenWait,
    /// Wait for a signal, bounded by the long idle timeout.
    Idle,
    /// Leave the loop.
    Exit,
}

/// The action of a sampler in the given mode at the top of its loop.
pub open spec fn action_for(active: bool) -> SamplerAction {
    if active {
        SamplerAction::SampleThenWait
    } else {
        SamplerAction::Idle
    }
}

/// What the sampler does first, in the mode it starts in.
pub fn first_action(active: bool) -> (r: SamplerAction)
    ensures
        r == action_for(active),
{
    if active {
        SamplerAction::SampleThenWait
    } else {
        SamplerAction::Idle
    }
}

/// The sampler's next mode and action after `wakeup`. A timeout keeps the
/// mode; `Activate` and `Deactivate` set it; `Stop` or a lost channel ends the
/// loop.
pub fn sampler_step(active: bool, wakeup: Wakeup) -> (r: (bool, SamplerAction))
    ensures
        (wakeup == Wakeup::Timeout) ==> r == (active, action_for(active)),
        (wakeup == Wakeup::Signal(ControlSignal::Activate)) ==> r == (true, SamplerAction::SampleThenWait),
        (wakeup == Wakeup::Signal(ControlSignal::Deactivate)) ==> r == (false, SamplerAction::Idle),
        (wakeup == Wakeup::Signal(ControlSignal::Stop) || wakeup == Wakeup::Disconnected) ==> r.1
            == SamplerAction::Exit,
{
    match wakeup {
        Wakeup::Timeout => (active, first_action(active)),
        Wakeup::Signal(ControlSignal::Activate) => (true, SamplerAction::SampleThenWait),
        Wakeup::Signal(ControlSignal::Deactivate) => (false, SamplerAction::Idle),
        Wakeup::Signal(ControlSignal::Stop) | Wakeup::Disconnected => (active, SamplerAction::Exit),
    }
}

} // verus!
