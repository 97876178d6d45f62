//! Serial channel guard: whose turn it is on the line.
//!
//! Callers take a ticket when they come to the line, and are served in the
//! order of their tickets. The guard passes every call on to the driver only
//! if it comes from the caller whose turn it is; a call out of turn is
//! refused and changes nothing. The turn passes to the next ticket when the
//! batch of the caller being served is over.
//!
//! However the calls of any number of callers fall among each other, the
//! frames therefore reach the wire whole, caller by caller, in the order of
//! the tickets.

use crate::batch::{all_framed, lemma_batch_writes_whole_frames, Batch};
use crate::command::{lemma_command_frame_is_whole, Command};
use crate::driver::{status_query, Action, DriverModel, Effect, Event, Phase, SNR9816};
use crate::error::DriverError;
use crate::frame::is_frame;
use crate::status::STATUS_IDLE;
use crate::trace::{queries_then, speech_frames, within_patience};
use vstd::prelude::*;

verus! {

/// What a caller asks of the guard.
pub enum Call {
    /// Carry out these commands as one batch.
    Begin(Seq<Command>),
    /// The host's report on the last action.
    Report(Event),
}

/// A call together with the ticket of the caller who makes it.
pub struct Move {
    /// The caller's ticket.
    pub ticket: u64,
    /// What the caller asks.
    pub call: Call,
}

/// The guard as a mathematical value.
pub struct GuardModel {
    /// The driver behind the guard.
    pub driver: DriverModel,
    /// The commands of the batch under way that are still to be taken up.
    pub remaining: Seq<Command>,
    /// The ticket that the next caller to come gets.
    pub issued: u64,
    /// The ticket whose turn it is.
    pub serving: u64,
}

impl GuardModel {
    /// The guard with the turn passed on if `over` says so. The count of
    /// turns stops at the largest `u64`.
    pub open spec fn passed(self, driver: DriverModel, remaining: Seq<Command>, over: bool) -> GuardModel {
        GuardModel {
            driver,
            remaining,
            issued: self.issued,
            serving: if over && self.serving < u64::MAX {
                (self.serving + 1) as u64
            } else {
                self.serving
            },
        }
    }

    /// What becomes of the guard when the caller with `ticket` makes `call`,
    /// and what the guard answers.
    ///
    /// A call out of turn is refused. So is a batch handed in while the line
    /// is held or broken, and a report while no batch is under way. None of
    /// these changes anything. Any other call goes to the driver, and when
    /// the driver answers that the batch is over, the turn passes.
    pub open spec fn feed(self, ticket: u64, call: Call) -> (GuardModel, Effect) {
        let refusal = Effect::Done(Err(DriverError::ChannelUnavailable));
        if ticket != self.serving {
            (self, refusal)
        } else {
            match call {
                Call::Begin(commands) => if self.driver.phase != Phase::Free {
                    (self, refusal)
                } else {
                    let (driver, remaining, answer) = self.driver.begin(commands);
                    (self.passed(driver, remaining, answer is Done), answer)
                },
                Call::Report(event) => if !self.driver.held() {
                    (self, refusal)
                } else {
                    let (driver, remaining, answer) = self.driver.advance(self.remaining, event);
                    (self.passed(driver, remaining, answer is Done), answer)
                },
            }
        }
    }

    /// What becomes of the guard over `moves`.
    pub open spec fn after(self, moves: Seq<Move>) -> GuardModel
        decreases moves.len(),
    {
        if moves.len() == 0 {
            self
        } else {
            self.feed(moves.first().ticket, moves.first().call).0.after(moves.drop_first())
        }
    }

    /// What the host is asked to write over `moves`, in order, each byte
    /// string with the ticket of the caller it is written for.
    pub open spec fn wire(self, moves: Seq<Move>) -> Seq<(u64, Seq<u8>)>
        decreases moves.len(),
    {
        if moves.len() == 0 {
            Seq::<(u64, Seq<u8>)>::empty()
        } else {
            let (next, answer) = self.feed(moves.first().ticket, moves.first().call);
            match answer {
                Effect::Write(bytes) => seq![(moves.first().ticket, bytes)] + next.wire(
                    moves.drop_first(),
                ),
                _ => next.wire(moves.drop_first()),
            }
        }
    }

    /// Those of `moves` that are made in turn, in order.
    pub open spec fn in_turn_only(self, moves: Seq<Move>) -> Seq<Move>
        decreases moves.len(),
    {
        if moves.len() == 0 {
            Seq::<Move>::empty()
        } else if moves.first().ticket == self.serving {
            seq![moves.first()] + self.feed(
                moves.first().ticket,
                moves.first().call,
            ).0.in_turn_only(moves.drop_first())
        } else {
            self.in_turn_only(moves.drop_first())
        }
    }
}

/// The byte strings of a wire without their tickets.
pub open spec fn frames_of(wire: Seq<(u64, Seq<u8>)>) -> Seq<Seq<u8>> {
    Seq::new(wire.len(), |i: int| wire[i].1)
}

/// The guard of one serial line: the driver, and whose turn it is.
#[derive(Debug)]
pub struct ChannelGuard {
    driver: SNR9816,
    batch: Batch,
    issued: u64,
    serving: u64,
}

impl View for ChannelGuard {
    type V = GuardModel;

    closed spec fn view(&self) -> GuardModel {
        GuardModel {
            driver: self.driver@,
            remaining: self.batch@,
            issued: self.issued,
            serving: self.serving,
        }
    }
}

impl ChannelGuard {
    /// A guard for the line of `driver`. Nobody has come yet, and the first
    /// to come is served first.
    pub fn new(driver: SNR9816) -> (guard: Self)
        ensures
            guard@ == (GuardModel {
                driver: driver@,
                remaining: Seq::<Command>::empty(),
                issued: 0,
                serving: 0,
            }),
    {
        let mut driver = driver;
        let (batch, _) = Batch::begin(&mut driver, Vec::new());
        ChannelGuard { driver, batch, issued: 0, serving: 0 }
    }

    /// The driver behind the guard.
    pub fn driver(&self) -> (driver: &SNR9816)
        ensures
            driver@ == self@.driver,
    {
        &self.driver
    }

    /// Takes a ticket. Tickets are handed out in the order in which callers
    /// come, each one larger than the last. `None` when they have run out.
    pub fn enter(&mut self) -> (ticket: Option<u64>)
        ensures
            old(self)@.issued < u64::MAX ==> ticket == Some(old(self)@.issued) && final(self)@ == (
            GuardModel { issued: (old(self)@.issued + 1) as u64, ..old(self)@ }),
            old(self)@.issued == u64::MAX ==> ticket is None && final(self)@ == old(self)@,
    {
        if self.issued < u64::MAX {
            let ticket = self.issued;
            self.issued = self.issued + 1;
            Some(ticket)
        } else {
            None
        }
    }

    /// Whether it is the turn of the caller with `ticket`.
    pub fn is_turn(&self, ticket: u64) -> (turn: bool)
        ensures
            turn == (ticket == self@.serving),
    {
        ticket == self.serving
    }

    /// Hands in a batch for the caller with `ticket` and returns the first
    /// thing to do, or `Done` with the reason it was not taken on.
    pub fn begin(&mut self, ticket: u64, commands: Vec<Command>) -> (action: Action)
        ensures
            (final(self)@, action@) == old(self)@.feed(ticket, Call::Begin(commands@)),
            old(self)@.driver.wf() ==> final(self)@.driver.wf(),
    {
        if ticket != self.serving || !matches!(self.driver.phase(), Phase::Free) {
            return Action::Done(Err(DriverError::ChannelUnavailable));
        }
        let (batch, action) = Batch::begin(&mut self.driver, commands);
        self.batch = batch;
        if matches!(action, Action::Done(_)) {
            self.pass();
        }
        action
    }

    /// Takes the report of the caller with `ticket` on the last action and
    /// returns the next thing to do, or `Done` when the batch is over.
    pub fn advance(&mut self, ticket: u64, event: Event) -> (action: Action)
        ensures
            (final(self)@, action@) == old(self)@.feed(ticket, Call::Report(event)),
            old(self)@.driver.wf() ==> final(self)@.driver.wf(),
    {
        if ticket != self.serving {
            return Action::Done(Err(DriverError::ChannelUnavailable));
        }
        match self.driver.phase() {
            Phase::Free => {
                return Action::Done(Err(DriverError::ChannelUnavailable));
            },
            Phase::Broken => {
                return Action::Done(Err(DriverError::ChannelUnavailable));
            },
            _ => {},
        }
        let action = self.batch.advance(&mut self.driver, event);
        if matches!(action, Action::Done(_)) {
            self.pass();
        }
        action
    }

    /// Passes the turn to the next ticket.
    fn pass(&mut self)
        ensures
            final(self)@ == old(self)@.passed(old(self)@.driver, old(self)@.remaining, true),
    {
        if self.serving < u64::MAX {
            self.serving = self.serving + 1;
        }
    }
}

/// The turn never goes back, and passes by one ticket at a time. Tickets
/// are not touched by calls.
pub proof fn lemma_turns_pass_in_order(guard: GuardModel, ticket: u64, call: Call)
    ensures
        guard.feed(ticket, call).0.serving == guard.serving || guard.feed(ticket, call).0.serving
            == guard.serving + 1,
        guard.feed(ticket, call).0.issued == guard.issued,
        ticket != guard.serving ==> guard.feed(ticket, call) == (
            guard,
            Effect::Done(Err(DriverError::ChannelUnavailable)),
        ),
{
}

/// Calls out of turn might as well not have been made: the guard ends as it
/// would without them, and the same is written.
pub proof fn lemma_out_of_turn_calls_change_nothing(guard: GuardModel, moves: Seq<Move>)
    ensures
        guard.after(guard.in_turn_only(moves)) == guard.after(moves),
        guard.wire(guard.in_turn_only(moves)) == guard.wire(moves),
    decreases moves.len(),
{
    if moves.len() > 0 {
        let first = moves.first();
        let rest = moves.drop_first();
        if first.ticket == guard.serving {
            let next = guard.feed(first.ticket, first.call).0;
            let kept = seq![first] + next.in_turn_only(rest);
            lemma_out_of_turn_calls_change_nothing(next, rest);
            assert(kept.first() == first);
            assert(kept.drop_first() =~= next.in_turn_only(rest));
        } else {
            lemma_out_of_turn_calls_change_nothing(guard, rest);
        }
    }
}

/// No interleaving: whatever is written is written for the caller whose turn
/// it is, and the turn never goes back. So along the wire the tickets never
/// fall: all that is written for one caller stands together, before
/// anything written for a caller who came later.
pub proof fn lemma_wire_is_in_ticket_order(guard: GuardModel, moves: Seq<Move>)
    ensures
        guard.after(moves).serving >= guard.serving,
        forall|i: int|
            0 <= i < guard.wire(moves).len() ==> guard.serving <= (#[trigger] guard.wire(
                moves,
            )[i]).0 <= guard.after(moves).serving,
        forall|i: int, j: int|
            0 <= i < j < guard.wire(moves).len() ==> (#[trigger] guard.wire(moves)[i]).0 <= (
            #[trigger] guard.wire(moves)[j]).0,
    decreases moves.len(),
{
    if moves.len() > 0 {
        let first = moves.first();
        let (next, answer) = guard.feed(first.ticket, first.call);
        let rest = next.wire(moves.drop_first());
        let all = guard.wire(moves);
        lemma_turns_pass_in_order(guard, first.ticket, first.call);
        lemma_wire_is_in_ticket_order(next, moves.drop_first());
        match answer {
            Effect::Write(bytes) => {
                assert(all == seq![(first.ticket, bytes)] + rest);
                assert(first.ticket == guard.serving);
                assert forall|i: int| 0 <= i < all.len() implies guard.serving <= (
                #[trigger] all[i]).0 <= guard.after(moves).serving by {
                    if i > 0 {
                        assert(all[i] == rest[i - 1]);
                    }
                }
                assert forall|i: int, j: int| 0 <= i < j < all.len() implies (#[trigger] all[i]).0
                    <= (#[trigger] all[j]).0 by {
                    assert(all[j] == rest[j - 1]);
                    if i > 0 {
                        assert(all[i] == rest[i - 1]);
                    }
                }
            },
            _ => {
                assert(all == rest);
            },
        }
    }
}

/// No torn frames: whatever the guard asks the host to write, for whichever
/// caller, is one whole frame.
pub proof fn lemma_guarded_writes_are_whole_frames(guard: GuardModel, moves: Seq<Move>)
    requires
        guard.driver.wf(),
    ensures
        guard.after(moves).driver.wf(),
        forall|i: int|
            0 <= i < guard.wire(moves).len() ==> is_frame((#[trigger] guard.wire(moves)[i]).1),
    decreases moves.len(),
{
    if moves.len() > 0 {
        let first = moves.first();
        let (next, answer) = guard.feed(first.ticket, first.call);
        let rest = next.wire(moves.drop_first());
        let all = guard.wire(moves);
        let commands = match first.call {
            Call::Begin(commands) => commands,
            Call::Report(_) => Seq::<Command>::empty(),
        };
        let event = match first.call {
            Call::Begin(_) => Event::Written,
            Call::Report(event) => event,
        };
        lemma_batch_writes_whole_frames(guard.driver, commands, guard.remaining, event);
        lemma_guarded_writes_are_whole_frames(next, moves.drop_first());
        assert forall|i: int| 0 <= i < all.len() implies is_frame((#[trigger] all[i]).1) by {
            match answer {
                Effect::Write(bytes) => {
                    assert(all == seq![(first.ticket, bytes)] + rest);
                    if i > 0 {
                        assert(all[i] == rest[i - 1]);
                    }
                },
                _ => {
                    assert(all == rest);
                },
            }
        }
    }
}

/// Moves in two parts: the guard after both is the guard after the second
/// part from where the first ended, and the wire is the one after the other.
pub proof fn lemma_moves_in_parts(guard: GuardModel, first: Seq<Move>, second: Seq<Move>)
    ensures
        guard.after(first + second) == guard.after(first).after(second),
        guard.wire(first + second) == guard.wire(first) + guard.after(first).wire(second),
    decreases first.len(),
{
    if first.len() == 0 {
        assert(first + second =~= second);
        assert(guard.wire(first) + guard.wire(second) =~= guard.wire(second));
    } else {
        let next = guard.feed(first.first().ticket, first.first().call).0;
        assert((first + second).first() == first.first());
        assert((first + second).drop_first() =~= first.drop_first() + second);
        lemma_moves_in_parts(next, first.drop_first(), second);
        assert(guard.wire(first + second) =~= guard.wire(first) + guard.after(first).wire(second));
    }
}

/// The reports of the caller with `ticket` while its speech polls a device
/// that answers busy as `busy` tells and then idle.
pub open spec fn polling_moves(ticket: u64, busy: Seq<Option<u8>>) -> Seq<Move>
    decreases busy.len(),
{
    if busy.len() == 0 {
        seq![
            Move { ticket, call: Call::Report(Event::LineCleared) },
            Move { ticket, call: Call::Report(Event::Written) },
            Move { ticket, call: Call::Report(Event::Status(Some(STATUS_IDLE))) },
            Move { ticket, call: Call::Report(Event::Written) },
        ]
    } else {
        seq![
            Move { ticket, call: Call::Report(Event::LineCleared) },
            Move { ticket, call: Call::Report(Event::Written) },
            Move { ticket, call: Call::Report(Event::Status(busy.first())) },
            Move { ticket, call: Call::Report(Event::BackoffElapsed) },
        ] + polling_moves(ticket, busy.drop_first())
    }
}

/// One speech of the caller with `ticket` from start to end.
pub open spec fn speech_moves(ticket: u64, text: String, busy: Seq<Option<u8>>) -> Seq<Move> {
    seq![Move { ticket, call: Call::Begin(seq![Command::Speak(text)]) }] + polling_moves(
        ticket,
        busy,
    )
}

/// The speeches of callers with tickets from `first` on, one caller after
/// another.
pub open spec fn serial_speeches(first: u64, speeches: Seq<(String, Seq<Option<u8>>)>) -> Seq<Move>
    decreases speeches.len(),
{
    if speeches.len() == 0 {
        Seq::<Move>::empty()
    } else {
        speech_moves(first, speeches.first().0, speeches.first().1) + serial_speeches(
            (first + 1) as u64,
            speeches.drop_first(),
        )
    }
}

/// One query of the caller being served that finds the device busy.
proof fn lemma_guarded_busy_poll(guard: GuardModel, response: Option<u8>)
    requires
        guard.driver.wf(),
        guard.driver.phase == Phase::Clearing,
        guard.driver.pending is Some,
        guard.remaining.len() == 0,
        response != Some(STATUS_IDLE),
        guard.driver.policy.max_polls is Some ==> guard.driver.polls + 1
            < guard.driver.policy.max_polls->Some_0,
    ensures
        ({
            let ticket = guard.serving;
            let moves = seq![
                Move { ticket, call: Call::Report(Event::LineCleared) },
                Move { ticket, call: Call::Report(Event::Written) },
                Move { ticket, call: Call::Report(Event::Status(response)) },
                Move { ticket, call: Call::Report(Event::BackoffElapsed) },
            ];
            let end = guard.after(moves);
            &&& end.driver.wf()
            &&& end.driver.phase == Phase::Clearing
            &&& end.driver.pending == guard.driver.pending
            &&& end.driver.policy == guard.driver.policy
            &&& end.driver.released(Phase::Free) == guard.driver.released(Phase::Free)
            &&& guard.driver.policy.max_polls is Some ==> end.driver.polls == guard.driver.polls
                + 1
            &&& end.remaining.len() == 0
            &&& end.serving == guard.serving
            &&& end.issued == guard.issued
            &&& guard.wire(moves) == seq![(ticket, status_query())]
        }),
{
    let ticket = guard.serving;
    let m0 = seq![
        Move { ticket, call: Call::Report(Event::LineCleared) },
        Move { ticket, call: Call::Report(Event::Written) },
        Move { ticket, call: Call::Report(Event::Status(response)) },
        Move { ticket, call: Call::Report(Event::BackoffElapsed) },
    ];
    let m1 = m0.drop_first();
    let m2 = m1.drop_first();
    let m3 = m2.drop_first();
    let g1 = guard.feed(ticket, m0.first().call).0;
    let g2 = g1.feed(ticket, m1.first().call).0;
    let g3 = g2.feed(ticket, m2.first().call).0;
    let g4 = g3.feed(ticket, m3.first().call).0;
    assert(m3.drop_first().len() == 0);
    assert(g1.driver.phase == Phase::Querying && g1.serving == ticket);
    assert(g2.driver.phase == Phase::Reading && g2.serving == ticket);
    assert(!g2.driver.polls_used_up());
    assert(g3.driver.phase == Phase::BackingOff && g3.serving == ticket);
    assert(g4.driver.phase == Phase::Clearing && g4.serving == ticket);
    assert(g4.after(m3.drop_first()) == g4);
    assert(g3.after(m3) == g4);
    assert(g2.after(m2) == g4);
    assert(g1.after(m1) == g4);
    assert(guard.after(m0) == g4);
    assert(g4.wire(m3.drop_first()) =~= Seq::<(u64, Seq<u8>)>::empty());
    assert(g3.wire(m3) =~= Seq::<(u64, Seq<u8>)>::empty());
    assert(g2.wire(m2) =~= Seq::<(u64, Seq<u8>)>::empty());
    assert(g1.wire(m1) =~= Seq::<(u64, Seq<u8>)>::empty());
    assert(guard.wire(m0) =~= seq![(ticket, status_query())]);
}

/// The query of the caller being served that finds the device idle.
proof fn lemma_guarded_idle_poll(guard: GuardModel)
    requires
        guard.driver.wf(),
        guard.driver.phase == Phase::Clearing,
        guard.driver.pending is Some,
        guard.remaining.len() == 0,
        guard.serving < u64::MAX,
    ensures
        ({
            let moves = polling_moves(guard.serving, Seq::<Option<u8>>::empty());
            let end = guard.after(moves);
            &&& end.driver == guard.driver.released(Phase::Free)
            &&& end.remaining.len() == 0
            &&& end.serving == guard.serving + 1
            &&& end.issued == guard.issued
            &&& guard.wire(moves) == seq![
                (guard.serving, status_query()),
                (guard.serving, guard.driver.pending->Some_0),
            ]
        }),
{
    let ticket = guard.serving;
    let frame = guard.driver.pending->Some_0;
    let m0 = polling_moves(ticket, Seq::<Option<u8>>::empty());
    let m1 = m0.drop_first();
    let m2 = m1.drop_first();
    let m3 = m2.drop_first();
    let g1 = guard.feed(ticket, m0.first().call).0;
    let g2 = g1.feed(ticket, m1.first().call).0;
    let g3 = g2.feed(ticket, m2.first().call).0;
    let g4 = g3.feed(ticket, m3.first().call).0;
    assert(m3.drop_first().len() == 0);
    assert(g1.driver.phase == Phase::Querying && g1.serving == ticket);
    assert(g2.driver.phase == Phase::Reading && g2.serving == ticket);
    assert(g3.driver.phase == Phase::Sending && g3.serving == ticket);
    assert(g3.remaining.len() == 0);
    assert(g4.driver == guard.driver.released(Phase::Free));
    assert(g4.serving == ticket + 1);
    assert(g4.after(m3.drop_first()) == g4);
    assert(g3.after(m3) == g4);
    assert(g2.after(m2) == g4);
    assert(g1.after(m1) == g4);
    assert(guard.after(m0) == g4);
    assert(g4.wire(m3.drop_first()) =~= Seq::<(u64, Seq<u8>)>::empty());
    assert(g3.wire(m3) =~= Seq::<(u64, Seq<u8>)>::empty());
    assert(g2.wire(m2) =~= seq![(ticket, frame)]);
    assert(g1.wire(m1) =~= seq![(ticket, frame)]);
    assert(guard.wire(m0) =~= seq![(ticket, status_query()), (ticket, frame)]);
}

/// Polling to the end under the guard: a status query for each answer, then
/// the speech frame, all for the caller being served; then the turn passes.
proof fn lemma_guarded_polling(guard: GuardModel, busy: Seq<Option<u8>>)
    requires
        guard.driver.wf(),
        guard.driver.phase == Phase::Clearing,
        guard.driver.pending is Some,
        guard.remaining.len() == 0,
        guard.serving < u64::MAX,
        within_patience(guard.driver, busy),
    ensures
        ({
            let end = guard.after(polling_moves(guard.serving, busy));
            &&& end.driver == guard.driver.released(Phase::Free)
            &&& end.remaining.len() == 0
            &&& end.serving == guard.serving + 1
            &&& end.issued == guard.issued
        }),
        frames_of(guard.wire(polling_moves(guard.serving, busy))) == queries_then(
            busy.len() + 1,
            guard.driver.pending->Some_0,
        ),
    decreases busy.len(),
{
    let ticket = guard.serving;
    let frame = guard.driver.pending->Some_0;
    if busy.len() == 0 {
        lemma_guarded_idle_poll(guard);
        assert(frames_of(guard.wire(polling_moves(ticket, busy))) =~= queries_then(1, frame));
    } else {
        let poll = seq![
            Move { ticket, call: Call::Report(Event::LineCleared) },
            Move { ticket, call: Call::Report(Event::Written) },
            Move { ticket, call: Call::Report(Event::Status(busy.first())) },
            Move { ticket, call: Call::Report(Event::BackoffElapsed) },
        ];
        let rest = polling_moves(ticket, busy.drop_first());
        let next = guard.after(poll);
        assert(busy[0] != Some(STATUS_IDLE));
        lemma_guarded_busy_poll(guard, busy.first());
        assert forall|i: int| 0 <= i < busy.drop_first().len() implies #[trigger] busy.drop_first()[i]
            != Some(STATUS_IDLE) by {
            assert(busy.drop_first()[i] == busy[i + 1]);
        }
        lemma_guarded_polling(next, busy.drop_first());
        lemma_moves_in_parts(guard, poll, rest);
        assert(frames_of(guard.wire(poll) + next.wire(rest)) =~= queries_then(
            busy.len() + 1,
            frame,
        )) by {
            let tail = frames_of(next.wire(rest));
            let whole = frames_of(guard.wire(poll) + next.wire(rest));
            assert(tail == queries_then(busy.drop_first().len() + 1, frame));
            assert(whole.len() == tail.len() + 1);
            assert forall|i: int| 0 <= i < whole.len() implies whole[i] == queries_then(
                busy.len() + 1,
                frame,
            )[i] by {
                if i > 0 {
                    assert(whole[i] == tail[i - 1]);
                }
            }
        }
    }
}

/// One speech under the guard: the caller whose turn it is hands in its
/// speech, the device answers busy any number of times within the driver's
/// limit and then idle. The wire holds the status queries and then the
/// speech frame, the driver is as it was, and the turn has passed.
pub proof fn lemma_guarded_speech(guard: GuardModel, text: String, busy: Seq<Option<u8>>)
    requires
        guard.driver.wf(),
        guard.driver.phase == Phase::Free,
        guard.serving < u64::MAX,
        Command::Speak(text).frame_bytes() is Ok,
        within_patience(guard.driver, busy),
    ensures
        ({
            let end = guard.after(speech_moves(guard.serving, text, busy));
            &&& end.driver == guard.driver
            &&& end.remaining.len() == 0
            &&& end.serving == guard.serving + 1
            &&& end.issued == guard.issued
        }),
        frames_of(guard.wire(speech_moves(guard.serving, text, busy))) == queries_then(
            busy.len() + 1,
            Command::Speak(text).frame_bytes()->Ok_0,
        ),
{
    let ticket = guard.serving;
    let frame = Command::Speak(text).frame_bytes()->Ok_0;
    let commands = seq![Command::Speak(text)];
    let start = seq![Move { ticket, call: Call::Begin(commands) }];
    let polling = guard.feed(ticket, start.first().call).0;
    lemma_command_frame_is_whole(Command::Speak(text));
    assert(commands.first() == Command::Speak(text));
    assert(commands.drop_first() =~= Seq::<Command>::empty());
    assert(all_framed(commands));
    assert(guard.driver.begin(commands).2 == Effect::ClearLine);
    assert(polling.serving == ticket);
    assert(polling.remaining.len() == 0);
    assert(start.drop_first().len() == 0);
    assert(polling.after(start.drop_first()) == polling);
    assert(guard.after(start) == polling);
    assert(polling.wire(start.drop_first()) =~= Seq::<(u64, Seq<u8>)>::empty());
    assert(guard.wire(start) =~= Seq::<(u64, Seq<u8>)>::empty());
    lemma_guarded_polling(polling, busy);
    lemma_moves_in_parts(guard, start, polling_moves(ticket, busy));
    assert(guard.wire(start) + polling.wire(polling_moves(ticket, busy)) =~= polling.wire(
        polling_moves(ticket, busy),
    ));
}

/// Speeches of any number of callers, one caller after another in the order
/// of their tickets.
proof fn lemma_serial_speeches(guard: GuardModel, speeches: Seq<(String, Seq<Option<u8>>)>)
    requires
        guard.driver.wf(),
        guard.driver.phase == Phase::Free,
        guard.serving + speeches.len() <= u64::MAX,
        forall|i: int|
            0 <= i < speeches.len() ==> Command::Speak((#[trigger] speeches[i]).0).frame_bytes()
                is Ok && within_patience(guard.driver, speeches[i].1),
    ensures
        guard.after(serial_speeches(guard.serving, speeches)).driver == guard.driver,
        guard.after(serial_speeches(guard.serving, speeches)).serving == guard.serving
            + speeches.len(),
        frames_of(guard.wire(serial_speeches(guard.serving, speeches))) == speech_frames(speeches),
    decreases speeches.len(),
{
    if speeches.len() == 0 {
        assert(frames_of(guard.wire(serial_speeches(guard.serving, speeches))) =~= speech_frames(
            speeches,
        ));
    } else {
        let round = speech_moves(guard.serving, speeches.first().0, speeches.first().1);
        let rest = serial_speeches((guard.serving + 1) as u64, speeches.drop_first());
        let next = guard.after(round);
        assert(Command::Speak(speeches[0].0).frame_bytes() is Ok);
        lemma_guarded_speech(guard, speeches.first().0, speeches.first().1);
        assert forall|i: int| 0 <= i < speeches.drop_first().len() implies Command::Speak(
            (#[trigger] speeches.drop_first()[i]).0,
        ).frame_bytes() is Ok && within_patience(next.driver, speeches.drop_first()[i].1) by {
            assert(speeches.drop_first()[i] == speeches[i + 1]);
        }
        lemma_serial_speeches(next, speeches.drop_first());
        lemma_moves_in_parts(guard, round, rest);
        let head = frames_of(guard.wire(round));
        let tail = frames_of(next.wire(rest));
        assert(frames_of(guard.wire(round) + next.wire(rest)) =~= head + tail);
    }
}

/// Speeches of callers who come to the line at the same time: however their
/// calls fall among each other, and however often a caller calls before its
/// turn, if each caller carries its speech through when its turn has come,
/// the wire holds for each caller, in the order of the tickets, its status
/// queries and then its speech frame, whole, and nothing else.
pub proof fn lemma_concurrent_speeches_reach_wire_in_order(
    guard: GuardModel,
    speeches: Seq<(String, Seq<Option<u8>>)>,
    moves: Seq<Move>,
)
    requires
        guard.driver.wf(),
        guard.driver.phase == Phase::Free,
        guard.serving + speeches.len() <= u64::MAX,
        forall|i: int|
            0 <= i < speeches.len() ==> Command::Speak((#[trigger] speeches[i]).0).frame_bytes()
                is Ok && within_patience(guard.driver, speeches[i].1),
        guard.in_turn_only(moves) == serial_speeches(guard.serving, speeches),
    ensures
        frames_of(guard.wire(moves)) == speech_frames(speeches),
        guard.after(moves).driver == guard.driver,
        guard.after(moves).serving == guard.serving + speeches.len(),
        forall|i: int, j: int|
            0 <= i < j < guard.wire(moves).len() ==> (#[trigger] guard.wire(moves)[i]).0 <= (
            #[trigger] guard.wire(moves)[j]).0,
{
    lemma_out_of_turn_calls_change_nothing(guard, moves);
    lemma_serial_speeches(guard, speeches);
    lemma_wire_is_in_ticket_order(guard, moves);
}

} // verus!
