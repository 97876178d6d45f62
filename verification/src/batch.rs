//! Several commands as one: a request is carried out as a list of commands
//! on the same line, one after another, and ends at the first that fails.
//!
//! A batch is looked over before anything is written. If one of its commands
//! has no frame the whole batch is refused, so that a request whose speech
//! cannot be sent does not leave its settings or its notification sound
//! behind.

use crate::command::{lemma_command_frame_is_whole, Command};
use crate::driver::{
    lemma_step_keeps_wf, lemma_submit_keeps_wf, Action, DriverModel, Effect, Event, Phase, Reply,
    SNR9816,
};
use crate::error::DriverError;
use crate::frame::is_frame;
use crate::trace::{lemma_write_is_whole_frame, Input};
use vstd::prelude::*;

verus! {

/// Whether every one of `commands` has a frame.
pub open spec fn all_framed(commands: Seq<Command>) -> bool {
    forall|i: int| 0 <= i < commands.len() ==> (#[trigger] commands[i]).frame_bytes() is Ok
}

impl DriverModel {
    /// Takes up the first of `commands`, or ends the batch with `reply` if
    /// none is left. A command that the driver does not take on ends the
    /// batch with the driver's reason.
    pub open spec fn take_up(self, commands: Seq<Command>, reply: Reply) -> (
        DriverModel,
        Seq<Command>,
        Effect,
    ) {
        if commands.len() == 0 {
            (self, commands, Effect::Done(Ok(reply)))
        } else {
            let (next, answer) = self.submit(commands.first());
            if answer is Done {
                (next, Seq::<Command>::empty(), answer)
            } else {
                (next, commands.drop_first(), answer)
            }
        }
    }

    /// What becomes of the driver when a batch is handed in, which commands
    /// are left to do, and what the driver answers.
    ///
    /// A line that is held or broken takes no batch. A batch with a command
    /// that has no frame is refused as `EncodingTooLarge` before anything is
    /// written. Any other batch starts with its first command.
    pub open spec fn begin(self, commands: Seq<Command>) -> (DriverModel, Seq<Command>, Effect) {
        if self.phase != Phase::Free {
            (self, Seq::<Command>::empty(), Effect::Done(Err(DriverError::ChannelUnavailable)))
        } else if !all_framed(commands) {
            (self, Seq::<Command>::empty(), Effect::Done(Err(DriverError::EncodingTooLarge)))
        } else {
            self.take_up(commands, Reply::Sent)
        }
    }

    /// What becomes of the driver and of the commands left to do when the
    /// host reports `event`, and what the driver answers.
    ///
    /// When a command is over and went well the next is taken up, and the
    /// last one's reply ends the batch. A command that fails ends the batch
    /// with its failure; what was left to do is dropped.
    pub open spec fn advance(self, remaining: Seq<Command>, event: Event) -> (
        DriverModel,
        Seq<Command>,
        Effect,
    ) {
        let (next, answer) = self.step(event);
        match answer {
            Effect::Done(Ok(reply)) => next.take_up(remaining, reply),
            Effect::Done(Err(_)) => (next, Seq::<Command>::empty(), answer),
            _ => (next, remaining, answer),
        }
    }
}

/// The commands of a request that are still to be carried out.
#[derive(Debug)]
pub struct Batch {
    commands: Vec<Command>,
    next: usize,
}

impl View for Batch {
    type V = Seq<Command>;

    closed spec fn view(&self) -> Seq<Command> {
        if self.next <= self.commands.len() {
            self.commands@.subrange(self.next as int, self.commands.len() as int)
        } else {
            Seq::<Command>::empty()
        }
    }
}

impl Batch {
    /// Hands in `commands` as one batch and returns what is left to do with
    /// the first thing to do on the line, or `Done` with the reason the batch
    /// was not taken on.
    pub fn begin(driver: &mut SNR9816, commands: Vec<Command>) -> (started: (Batch, Action))
        ensures
            (final(driver)@, started.0@, started.1@) == old(driver)@.begin(commands@),
            old(driver)@.wf() ==> final(driver)@.wf(),
    {
        let ghost given = commands@;
        let count: usize = commands.len();
        let mut batch = Batch { commands, next: count };
        assert(batch@ =~= Seq::<Command>::empty());
        if !matches!(driver.phase(), Phase::Free) {
            return (batch, Action::Done(Err(DriverError::ChannelUnavailable)));
        }
        let mut checked: usize = 0;
        while checked < count
            invariant
                checked <= count,
                count == batch.commands.len(),
                batch.next == count,
                batch.commands@ == given,
                given == commands@,
                batch@ == Seq::<Command>::empty(),
                driver@ == old(driver)@,
                driver@.phase == Phase::Free,
                forall|i: int| 0 <= i < checked ==> (#[trigger] given[i]).frame_bytes() is Ok,
            decreases count - checked,
        {
            if !batch.commands[checked].has_frame() {
                assert(!(given[checked as int].frame_bytes() is Ok));
                return (batch, Action::Done(Err(DriverError::EncodingTooLarge)));
            }
            checked = checked + 1;
        }
        batch.next = 0;
        assert(batch@ =~= batch.commands@);
        let action = batch.take_up(driver, Reply::Sent);
        (batch, action)
    }

    /// Takes the host's report on the last action and returns the next thing
    /// to do, or `Done` when the whole batch is over.
    pub fn advance(&mut self, driver: &mut SNR9816, event: Event) -> (action: Action)
        ensures
            (final(driver)@, final(self)@, action@) == old(driver)@.advance(old(self)@, event),
            old(driver)@.wf() ==> final(driver)@.wf(),
    {
        match driver.step(event) {
            Action::Done(Ok(reply)) => self.take_up(driver, reply),
            Action::Done(Err(e)) => {
                self.drop_rest();
                Action::Done(Err(e))
            },
            other => other,
        }
    }

    /// How many commands are still to be taken up.
    pub fn remaining(&self) -> (count: usize)
        ensures
            count == self@.len(),
    {
        if self.next <= self.commands.len() {
            self.commands.len() - self.next
        } else {
            0
        }
    }

    /// Takes up the next command, or ends the batch with `reply`.
    fn take_up(&mut self, driver: &mut SNR9816, reply: Reply) -> (action: Action)
        ensures
            (final(driver)@, final(self)@, action@) == old(driver)@.take_up(old(self)@, reply),
            old(driver)@.wf() ==> final(driver)@.wf(),
    {
        if self.next >= self.commands.len() {
            assert(self@ =~= Seq::<Command>::empty());
            return Action::Done(Ok(reply));
        }
        assert(self@.first() == self.commands@[self.next as int]);
        let action = driver.submit(&self.commands[self.next]);
        match action {
            Action::Done(outcome) => {
                self.drop_rest();
                Action::Done(outcome)
            },
            other => {
                let ghost before = self@;
                self.next = self.next + 1;
                assert(self@ =~= before.drop_first());
                other
            },
        }
    }

    /// Drops what is left to do.
    fn drop_rest(&mut self)
        ensures
            final(self)@ == Seq::<Command>::empty(),
    {
        self.next = self.commands.len();
        assert(self@ =~= Seq::<Command>::empty());
    }
}

/// A batch with a command that has no frame is refused before anything is
/// written: the driver answers `Done` at once and is as it was.
pub proof fn lemma_unframed_batch_leaves_no_trace(driver: DriverModel, commands: Seq<Command>)
    requires
        !all_framed(commands),
    ensures
        driver.begin(commands).0 == driver,
        driver.begin(commands).1 == Seq::<Command>::empty(),
        driver.begin(commands).2 is Done,
        driver.phase == Phase::Free ==> driver.begin(commands).2 == Effect::Done(
            Err(DriverError::EncodingTooLarge),
        ),
{
}

/// Whatever a batch asks the host to write is one whole frame, and the
/// driver stays in a state it can reach.
pub proof fn lemma_batch_writes_whole_frames(
    driver: DriverModel,
    commands: Seq<Command>,
    remaining: Seq<Command>,
    event: Event,
)
    requires
        driver.wf(),
    ensures
        driver.begin(commands).0.wf(),
        driver.begin(commands).2 matches Effect::Write(bytes) ==> is_frame(bytes),
        driver.advance(remaining, event).0.wf(),
        driver.advance(remaining, event).2 matches Effect::Write(bytes) ==> is_frame(bytes),
{
    if commands.len() > 0 {
        lemma_submit_keeps_wf(driver, commands.first());
        lemma_write_is_whole_frame(driver, Input::Submit(commands.first()));
    }
    let next = driver.step(event).0;
    lemma_step_keeps_wf(driver, event);
    lemma_write_is_whole_frame(driver, Input::Report(event));
    if remaining.len() > 0 {
        lemma_submit_keeps_wf(next, remaining.first());
        lemma_write_is_whole_frame(next, Input::Submit(remaining.first()));
        lemma_command_frame_is_whole(remaining.first());
    }
}

} // verus!
