//! What holds of the driver over whole runs: any sequence of commands and
//! reports, in any order, from a host that behaves or does not.
//!
//! The line carries whole frames only, a held line admits no second command,
//! speech goes out only on an idle answer, a refused command leaves no trace,
//! and a broken line stays silent.

use crate::command::{
    lemma_command_frame_is_whole, lemma_config_frame, lemma_notify_frame, Command,
};
use crate::driver::{
    lemma_status_query_is_whole, lemma_step_keeps_wf, lemma_submit_keeps_wf, status_query,
    DriverModel, Effect, Event, Phase, Reply,
};
use crate::error::DriverError;
use crate::frame::is_frame;
use crate::status::{DeviceStatus, STATUS_IDLE};
use vstd::prelude::*;

verus! {

/// One thing that can happen to the driver.
pub enum Input {
    /// A caller hands in a command.
    Submit(Command),
    /// The host reports on the last action.
    Report(Event),
}

impl DriverModel {
    /// Whether the speech command under way, if there is one, has made no
    /// more status queries than the policy allows.
    pub open spec fn within_limit(self) -> bool {
        self.policy.max_polls is Some && self.pending is Some ==> if self.phase
            == Phase::Reading {
            self.polls <= self.policy.max_polls->Some_0
        } else {
            self.polls < self.policy.max_polls->Some_0
        }
    }

    /// What becomes of the driver on `input`, and what it answers.
    pub open spec fn feed(self, input: Input) -> (DriverModel, Effect) {
        match input {
            Input::Submit(command) => self.submit(command),
            Input::Report(event) => self.step(event),
        }
    }

    /// What becomes of the driver over `inputs`, and its answers in order.
    pub open spec fn run(self, inputs: Seq<Input>) -> (DriverModel, Seq<Effect>)
        decreases inputs.len(),
    {
        if inputs.len() == 0 {
            (self, Seq::<Effect>::empty())
        } else {
            let (next, answer) = self.feed(inputs.first());
            let (last, answers) = next.run(inputs.drop_first());
            (last, seq![answer] + answers)
        }
    }
}

/// The byte strings that `answers` ask the host to write, in order.
pub open spec fn written(answers: Seq<Effect>) -> Seq<Seq<u8>>
    decreases answers.len(),
{
    if answers.len() == 0 {
        Seq::<Seq<u8>>::empty()
    } else {
        match answers.first() {
            Effect::Write(bytes) => seq![bytes] + written(answers.drop_first()),
            _ => written(answers.drop_first()),
        }
    }
}

/// Whatever happens to a driver in a state it can reach leaves it in one.
pub proof fn lemma_wf_is_kept(driver: DriverModel, input: Input)
    requires
        driver.wf(),
    ensures
        driver.feed(input).0.wf(),
{
    match input {
        Input::Submit(command) => {
            lemma_submit_keeps_wf(driver, command);
        },
        Input::Report(event) => {
            lemma_step_keeps_wf(driver, event);
        },
    }
}

/// Whatever the driver asks the host to write is one whole frame: either the
/// status query or the frame of the command that holds the line.
pub proof fn lemma_write_is_whole_frame(driver: DriverModel, input: Input)
    requires
        driver.wf(),
    ensures
        driver.feed(input).1 matches Effect::Write(bytes) ==> is_frame(bytes) && match input {
            Input::Submit(command) => command.frame_bytes() == Ok::<Seq<u8>, DriverError>(bytes),
            Input::Report(event) => bytes == status_query() || driver.pending == Some(bytes),
        },
{
    lemma_status_query_is_whole();
    match input {
        Input::Submit(command) => {
            lemma_command_frame_is_whole(command);
        },
        Input::Report(event) => {},
    }
}

/// A speech command never makes more status queries than the policy allows:
/// while its frame waits, the count of its queries is within the limit, and
/// below it whenever another query may follow.
pub proof fn lemma_queries_stay_within_limit(driver: DriverModel, input: Input)
    requires
        driver.wf(),
        driver.within_limit(),
    ensures
        driver.feed(input).0.within_limit(),
        DriverModel::fresh(driver.port, driver.baud_rate, driver.policy).within_limit(),
{
}

/// The frame that waits for an idle device is the frame of the speech that
/// took the line, and it stays the same until it is written or given up.
pub proof fn lemma_waiting_frame_is_kept(driver: DriverModel, input: Input)
    ensures
        driver.feed(input).0.pending is Some ==> match input {
            Input::Submit(command) => driver.pending is Some || (command is Speak
                && command.frame_bytes() == Ok::<Seq<u8>, DriverError>(
                driver.feed(input).0.pending->Some_0,
            )),
            Input::Report(event) => driver.feed(input).0.pending == driver.pending,
        },
{
}

/// A line that is held or broken takes no command: the command is refused
/// as `ChannelUnavailable`, and the command under way goes on as if nothing
/// had been asked.
pub proof fn lemma_held_line_takes_no_command(driver: DriverModel, command: Command)
    requires
        driver.phase != Phase::Free,
    ensures
        driver.submit(command) == (driver, Effect::Done(Err(DriverError::ChannelUnavailable))),
{
}

/// A command whose payload does not fit a frame is refused as
/// `EncodingTooLarge` on a free line, nothing is written for it, and the
/// driver is as it was.
pub proof fn lemma_oversized_command_leaves_no_trace(driver: DriverModel, command: Command)
    requires
        command.frame_bytes() is Err,
    ensures
        driver.submit(command).0 == driver,
        driver.submit(command).1 is Done,
        driver.phase == Phase::Free ==> driver.submit(command).1 == Effect::Done(
            Err(DriverError::EncodingTooLarge),
        ),
{
    lemma_command_frame_is_whole(command);
}

/// Speech is never written on being handed in, and a frame that waits is
/// written in answer to the idle byte and to nothing else.
pub proof fn lemma_speech_goes_out_on_idle_only(driver: DriverModel, input: Input)
    requires
        driver.wf(),
    ensures
        match input {
            Input::Submit(command) => command.needs_idle() ==> !(driver.feed(input).1 is Write),
            Input::Report(event) => driver.pending is Some ==> (driver.feed(input).1
                == Effect::Write(driver.pending->Some_0) <==> driver.phase == Phase::Reading
                && event == Event::Status(Some(STATUS_IDLE))),
        },
{
    lemma_status_query_is_whole();
}

/// A run in two parts is the run of the first part followed by the run of the
/// second from where the first ended.
pub proof fn lemma_run_in_parts(driver: DriverModel, first: Seq<Input>, second: Seq<Input>)
    ensures
        driver.run(first + second).0 == driver.run(first).0.run(second).0,
        driver.run(first + second).1 == driver.run(first).1 + driver.run(first).0.run(second).1,
    decreases first.len(),
{
    if first.len() == 0 {
        assert(first + second =~= second);
        assert(driver.run(first).1 + driver.run(second).1 =~= driver.run(second).1);
    } else {
        let next = driver.feed(first.first()).0;
        assert((first + second).first() == first.first());
        assert((first + second).drop_first() =~= first.drop_first() + second);
        lemma_run_in_parts(next, first.drop_first(), second);
        assert(driver.run(first + second).1 =~= driver.run(first).1 + driver.run(first).0.run(
            second,
        ).1);
    }
}

/// What two lists of answers ask to be written is what the first asks,
/// followed by what the second asks.
pub proof fn lemma_written_in_parts(first: Seq<Effect>, second: Seq<Effect>)
    ensures
        written(first + second) == written(first) + written(second),
    decreases first.len(),
{
    if first.len() == 0 {
        assert(first + second =~= second);
        assert(written(first) + written(second) =~= written(second));
    } else {
        assert((first + second).first() == first.first());
        assert((first + second).drop_first() =~= first.drop_first() + second);
        lemma_written_in_parts(first.drop_first(), second);
        assert(written(first + second) =~= written(first) + written(second));
    }
}

/// No torn frames: over any run, from any state the driver can reach,
/// everything the host is asked to write is one whole frame, and the driver
/// ends in a state it can reach.
pub proof fn lemma_run_writes_whole_frames(driver: DriverModel, inputs: Seq<Input>)
    requires
        driver.wf(),
    ensures
        driver.run(inputs).0.wf(),
        driver.run(inputs).1.len() == inputs.len(),
        forall|i: int|
            0 <= i < written(driver.run(inputs).1).len() ==> is_frame(
                #[trigger] written(driver.run(inputs).1)[i],
            ),
    decreases inputs.len(),
{
    if inputs.len() > 0 {
        let (next, answer) = driver.feed(inputs.first());
        let answers = next.run(inputs.drop_first()).1;
        lemma_wf_is_kept(driver, inputs.first());
        lemma_write_is_whole_frame(driver, inputs.first());
        lemma_run_writes_whole_frames(next, inputs.drop_first());
        assert((seq![answer] + answers).first() == answer);
        assert((seq![answer] + answers).drop_first() =~= answers);
        let all = written(driver.run(inputs).1);
        let rest = written(answers);
        assert(driver.run(inputs).1 == seq![answer] + answers);
        assert forall|i: int| 0 <= i < all.len() implies is_frame(#[trigger] all[i]) by {
            match answer {
                Effect::Write(bytes) => {
                    assert(all == seq![bytes] + rest);
                    if i > 0 {
                        assert(all[i] == rest[i - 1]);
                    }
                },
                _ => {
                    assert(all == rest);
                },
            }
        }
    }
}

/// A broken line stays broken and silent: whatever is handed in or reported
/// afterwards, nothing more is written.
pub proof fn lemma_broken_line_stays_silent(driver: DriverModel, inputs: Seq<Input>)
    requires
        driver.phase == Phase::Broken,
    ensures
        driver.run(inputs).0 == driver,
        written(driver.run(inputs).1) == Seq::<Seq<u8>>::empty(),
        forall|i: int|
            0 <= i < driver.run(inputs).1.len() ==> #[trigger] driver.run(inputs).1[i]
                == Effect::Done(Err(DriverError::ChannelUnavailable)),
    decreases inputs.len(),
{
    if inputs.len() > 0 {
        let (next, answer) = driver.feed(inputs.first());
        let answers = next.run(inputs.drop_first()).1;
        lemma_broken_line_stays_silent(next, inputs.drop_first());
        assert((seq![answer] + answers).first() == answer);
        assert((seq![answer] + answers).drop_first() =~= answers);
    }
}

/// No interleaving: a command handed in while the line is held or broken
/// might as well not have been handed in. The run without it ends in the same
/// state and writes the same frames.
pub proof fn lemma_refused_command_changes_nothing(
    driver: DriverModel,
    before: Seq<Input>,
    command: Command,
    after: Seq<Input>,
)
    requires
        driver.run(before).0.phase != Phase::Free,
    ensures
        driver.run(before + seq![Input::Submit(command)] + after).0 == driver.run(
            before + after,
        ).0,
        written(driver.run(before + seq![Input::Submit(command)] + after).1) == written(
            driver.run(before + after).1,
        ),
{
    let middle = seq![Input::Submit(command)];
    let held = driver.run(before).0;
    lemma_run_in_parts(driver, before + middle, after);
    lemma_run_in_parts(driver, before, middle);
    lemma_run_in_parts(driver, before, after);
    assert(middle.drop_first() =~= Seq::<Input>::empty());
    let refusal = Effect::Done(Err(DriverError::ChannelUnavailable));
    assert(held.feed(middle.first()) == (held, refusal));
    assert(held.run(middle.drop_first()) == (held, Seq::<Effect>::empty()));
    assert(held.run(middle).0 == held);
    assert(held.run(middle).1 =~= seq![refusal]);
    assert(written(seq![refusal]) =~= Seq::<Seq<u8>>::empty()) by {
        assert(seq![refusal].drop_first() =~= Seq::<Effect>::empty());
        assert(written(seq![refusal].drop_first()) =~= Seq::<Seq<u8>>::empty());
    }
    lemma_written_in_parts(driver.run(before).1 + seq![refusal], held.run(after).1);
    lemma_written_in_parts(driver.run(before).1, seq![refusal]);
    lemma_written_in_parts(driver.run(before).1, held.run(after).1);
    assert(written(driver.run(before).1) + Seq::<Seq<u8>>::empty() =~= written(
        driver.run(before).1,
    ));
}

/// Every command but speech and the status query has a frame whatever its
/// arguments, and is written the moment it takes the line, without a status
/// query. Once the write is reported the command is over and the driver is
/// as it was before.
pub proof fn lemma_other_commands_go_out_at_once(driver: DriverModel, command: Command)
    requires
        driver.wf(),
        driver.phase == Phase::Free,
        !(command is Speak),
        !(command is QueryStatus),
    ensures
        command.frame_bytes() is Ok,
        driver.run(seq![Input::Submit(command), Input::Report(Event::Written)]) == (
            driver,
            seq![Effect::Write(command.frame_bytes()->Ok_0), Effect::Done(Ok(Reply::Sent))],
        ),
{
    match command {
        Command::SetParam(param, value) => {
            lemma_config_frame(param, value);
        },
        Command::Notify(kind, id) => {
            lemma_notify_frame(kind, id);
        },
        _ => {},
    }
    let inputs = seq![Input::Submit(command), Input::Report(Event::Written)];
    let frame = command.frame_bytes()->Ok_0;
    let sending = driver.feed(inputs.first()).0;
    let rest = inputs.drop_first();
    assert(rest.first() == Input::Report(Event::Written));
    assert(rest.drop_first().len() == 0);
    assert(sending.feed(rest.first()) == (driver, Effect::Done(Ok(Reply::Sent))));
    assert(driver.run(rest.drop_first()) == (driver, Seq::<Effect>::empty()));
    assert(sending.run(rest).1 =~= seq![Effect::Done(Ok(Reply::Sent))]);
    assert(driver.run(inputs).1 =~= seq![Effect::Write(frame), Effect::Done(Ok(Reply::Sent))]);
}

/// A status query clears the line, writes the query, reads one byte and
/// reports what the byte stands for: idle for `0x4F`, busy for anything else
/// and for no byte at all.
pub proof fn lemma_status_query_round(driver: DriverModel, response: Option<u8>)
    requires
        driver.wf(),
        driver.phase == Phase::Free,
    ensures
        driver.run(
            seq![
                Input::Submit(Command::QueryStatus),
                Input::Report(Event::LineCleared),
                Input::Report(Event::Written),
                Input::Report(Event::Status(response)),
            ],
        ) == (
            driver,
            seq![
                Effect::ClearLine,
                Effect::Write(status_query()),
                Effect::ReadStatus { timeout_ms: driver.policy.status_timeout_ms },
                Effect::Done(Ok(Reply::Status(DeviceStatus::of(response)))),
            ],
        ),
        DeviceStatus::of(response) == DeviceStatus::Idle <==> response == Some(STATUS_IDLE),
{
    let i0 = seq![
        Input::Submit(Command::QueryStatus),
        Input::Report(Event::LineCleared),
        Input::Report(Event::Written),
        Input::Report(Event::Status(response)),
    ];
    let i1 = i0.drop_first();
    let i2 = i1.drop_first();
    let i3 = i2.drop_first();
    let d1 = driver.feed(i0.first()).0;
    let d2 = d1.feed(i1.first()).0;
    let d3 = d2.feed(i2.first()).0;
    let d4 = d3.feed(i3.first()).0;
    let done = Effect::Done(Ok(Reply::Status(DeviceStatus::of(response))));
    let read = Effect::ReadStatus { timeout_ms: driver.policy.status_timeout_ms };
    assert(i3.drop_first().len() == 0);
    assert(d4 == driver);
    assert(d4.run(i3.drop_first()).1 =~= Seq::<Effect>::empty());
    assert(d3.run(i3).1 =~= seq![done]);
    assert(d2.run(i2).1 =~= seq![read, done]);
    assert(d1.run(i1).1 =~= seq![Effect::Write(status_query()), read, done]);
    assert(driver.run(i0).1 =~= seq![
        Effect::ClearLine,
        Effect::Write(status_query()),
        read,
        done,
    ]);
}

/// One round of waiting: on a busy answer the driver backs off and then
/// starts the next query, unless the command has used up its queries; then it
/// gives up as `DeviceUnresponsive` and lets the line go. The frame that waits
/// is not written.
pub proof fn lemma_busy_answer_defers_speech(driver: DriverModel, response: Option<u8>)
    requires
        driver.wf(),
        driver.phase == Phase::Reading,
        driver.pending is Some,
        response != Some(STATUS_IDLE),
    ensures
        driver.polls_used_up() ==> driver.step(Event::Status(response)) == (
            driver.released(Phase::Free),
            Effect::Done(Err(DriverError::DeviceUnresponsive)),
        ),
        !driver.polls_used_up() ==> driver.run(
            seq![Input::Report(Event::Status(response)), Input::Report(Event::BackoffElapsed)],
        ) == (
            driver.at(Phase::Clearing, driver.pending, driver.polls),
            seq![Effect::Backoff { millis: driver.policy.backoff_ms }, Effect::ClearLine],
        ),
{
    if !driver.polls_used_up() {
        let inputs = seq![
            Input::Report(Event::Status(response)),
            Input::Report(Event::BackoffElapsed),
        ];
        let waiting = driver.feed(inputs.first()).0;
        let rest = inputs.drop_first();
        let cleared = driver.at(Phase::Clearing, driver.pending, driver.polls);
        assert(rest.first() == Input::Report(Event::BackoffElapsed));
        assert(rest.drop_first().len() == 0);
        assert(waiting.feed(rest.first()) == (cleared, Effect::ClearLine));
        assert(cleared.run(rest.drop_first()) == (cleared, Seq::<Effect>::empty()));
        assert(waiting.run(rest).1 =~= seq![Effect::ClearLine]);
        assert(driver.run(inputs).1 =~= seq![
            Effect::Backoff { millis: driver.policy.backoff_ms },
            Effect::ClearLine,
        ]);
    }
}

/// What the host reports while a speech command polls a device that answers
/// busy as `busy` tells, one answer to a query, and then idle: for each busy
/// answer a query and a pause, then the query that finds the device idle and
/// the write of the speech frame.
pub open spec fn polling_reports(busy: Seq<Option<u8>>) -> Seq<Input>
    decreases busy.len(),
{
    if busy.len() == 0 {
        seq![
            Input::Report(Event::LineCleared),
            Input::Report(Event::Written),
            Input::Report(Event::Status(Some(STATUS_IDLE))),
            Input::Report(Event::Written),
        ]
    } else {
        seq![
            Input::Report(Event::LineCleared),
            Input::Report(Event::Written),
            Input::Report(Event::Status(busy.first())),
            Input::Report(Event::BackoffElapsed),
        ] + polling_reports(busy.drop_first())
    }
}

/// One speech command from start to end: the command is handed in, and the
/// host reports as the device answers.
pub open spec fn speech_round(text: String, busy: Seq<Option<u8>>) -> Seq<Input> {
    seq![Input::Submit(Command::Speak(text))] + polling_reports(busy)
}

/// A number of status queries followed by one frame.
pub open spec fn queries_then(queries: nat, frame: Seq<u8>) -> Seq<Seq<u8>> {
    Seq::new(queries, |i: int| status_query()).push(frame)
}

/// Whether `busy` holds busy answers only, and few enough of them for the
/// driver's limit on status queries.
pub open spec fn within_patience(driver: DriverModel, busy: Seq<Option<u8>>) -> bool {
    &&& forall|i: int| 0 <= i < busy.len() ==> #[trigger] busy[i] != Some(STATUS_IDLE)
    &&& driver.policy.max_polls is Some ==> driver.polls + busy.len()
        < driver.policy.max_polls->Some_0
}

/// One query that finds the device busy: the query is written, the byte
/// read, the pause sat out, and the line cleared for the next query.
proof fn lemma_busy_poll(driver: DriverModel, response: Option<u8>)
    requires
        driver.wf(),
        driver.phase == Phase::Clearing,
        driver.pending is Some,
        response != Some(STATUS_IDLE),
        driver.policy.max_polls is Some ==> driver.polls + 1 < driver.policy.max_polls->Some_0,
    ensures
        ({
            let inputs = seq![
                Input::Report(Event::LineCleared),
                Input::Report(Event::Written),
                Input::Report(Event::Status(response)),
                Input::Report(Event::BackoffElapsed),
            ];
            let end = driver.run(inputs).0;
            &&& end.wf()
            &&& end.phase == Phase::Clearing
            &&& end.pending == driver.pending
            &&& end.policy == driver.policy
            &&& end.released(Phase::Free) == driver.released(Phase::Free)
            &&& driver.policy.max_polls is Some ==> end.polls == driver.polls + 1
            &&& written(driver.run(inputs).1) == seq![status_query()]
        }),
{
    let i0 = seq![
        Input::Report(Event::LineCleared),
        Input::Report(Event::Written),
        Input::Report(Event::Status(response)),
        Input::Report(Event::BackoffElapsed),
    ];
    let i1 = i0.drop_first();
    let i2 = i1.drop_first();
    let i3 = i2.drop_first();
    let d1 = driver.feed(i0.first()).0;
    let d2 = d1.feed(i1.first()).0;
    let d3 = d2.feed(i2.first()).0;
    let d4 = d3.feed(i3.first()).0;
    let read = Effect::ReadStatus { timeout_ms: driver.policy.status_timeout_ms };
    let pause = Effect::Backoff { millis: driver.policy.backoff_ms };
    assert(i3.drop_first().len() == 0);
    assert(d2.phase == Phase::Reading);
    assert(!d2.polls_used_up());
    assert(d3.phase == Phase::BackingOff);
    assert(d4.run(i3.drop_first()) == (d4, Seq::<Effect>::empty()));
    assert(d3.run(i3).1 =~= seq![Effect::ClearLine]);
    assert(d2.run(i2).1 =~= seq![pause, Effect::ClearLine]);
    assert(d1.run(i1).1 =~= seq![read, pause, Effect::ClearLine]);
    let answers = driver.run(i0).1;
    assert(answers =~= seq![Effect::Write(status_query()), read, pause, Effect::ClearLine]);
    assert(driver.run(i0).0 == d4);
    let a1 = answers.drop_first();
    let a2 = a1.drop_first();
    let a3 = a2.drop_first();
    assert(a3.drop_first().len() == 0);
    assert(written(a3.drop_first()) =~= Seq::<Seq<u8>>::empty());
    assert(written(a3) =~= Seq::<Seq<u8>>::empty());
    assert(written(a2) =~= Seq::<Seq<u8>>::empty());
    assert(written(a1) =~= Seq::<Seq<u8>>::empty());
    assert(written(answers) =~= seq![status_query()]);
}

/// The query that finds the device idle: the query is written, the byte
/// read, the speech frame written, and the line let go.
proof fn lemma_idle_poll(driver: DriverModel)
    requires
        driver.wf(),
        driver.phase == Phase::Clearing,
        driver.pending is Some,
    ensures
        driver.run(polling_reports(Seq::<Option<u8>>::empty())) == (
            driver.released(Phase::Free),
            seq![
                Effect::Write(status_query()),
                Effect::ReadStatus { timeout_ms: driver.policy.status_timeout_ms },
                Effect::Write(driver.pending->Some_0),
                Effect::Done(Ok(Reply::Sent)),
            ],
        ),
        written(driver.run(polling_reports(Seq::<Option<u8>>::empty())).1) == seq![
            status_query(),
            driver.pending->Some_0,
        ],
{
    let frame = driver.pending->Some_0;
    let i0 = polling_reports(Seq::<Option<u8>>::empty());
    let i1 = i0.drop_first();
    let i2 = i1.drop_first();
    let i3 = i2.drop_first();
    let d1 = driver.feed(i0.first()).0;
    let d2 = d1.feed(i1.first()).0;
    let d3 = d2.feed(i2.first()).0;
    let d4 = d3.feed(i3.first()).0;
    let read = Effect::ReadStatus { timeout_ms: driver.policy.status_timeout_ms };
    let done = Effect::Done(Ok(Reply::Sent));
    assert(i3.drop_first().len() == 0);
    assert(d4 == driver.released(Phase::Free));
    assert(d4.run(i3.drop_first()) == (d4, Seq::<Effect>::empty()));
    assert(d3.run(i3).1 =~= seq![done]);
    assert(d2.run(i2).1 =~= seq![Effect::Write(frame), done]);
    assert(d1.run(i1).1 =~= seq![read, Effect::Write(frame), done]);
    let answers = driver.run(i0).1;
    assert(answers =~= seq![Effect::Write(status_query()), read, Effect::Write(frame), done]);
    let a1 = answers.drop_first();
    let a2 = a1.drop_first();
    let a3 = a2.drop_first();
    assert(a3.drop_first().len() == 0);
    assert(written(a3.drop_first()) =~= Seq::<Seq<u8>>::empty());
    assert(written(a3) =~= Seq::<Seq<u8>>::empty());
    assert(written(a2) =~= seq![frame]);
    assert(written(a1) =~= seq![frame]);
    assert(written(answers) =~= seq![status_query(), frame]);
}

/// Polling to the end: however often the device answers busy, within the
/// driver's limit, each answer costs one status query, and the idle answer
/// is followed by the speech frame. Nothing else is written, and the line is
/// let go.
proof fn lemma_polling_ends_in_speech(driver: DriverModel, busy: Seq<Option<u8>>)
    requires
        driver.wf(),
        driver.phase == Phase::Clearing,
        driver.pending is Some,
        within_patience(driver, busy),
    ensures
        driver.run(polling_reports(busy)).0 == driver.released(Phase::Free),
        written(driver.run(polling_reports(busy)).1) == queries_then(
            busy.len() + 1,
            driver.pending->Some_0,
        ),
    decreases busy.len(),
{
    let frame = driver.pending->Some_0;
    if busy.len() == 0 {
        lemma_idle_poll(driver);
        assert(queries_then(1, frame) =~= seq![status_query(), frame]);
    } else {
        let poll = seq![
            Input::Report(Event::LineCleared),
            Input::Report(Event::Written),
            Input::Report(Event::Status(busy.first())),
            Input::Report(Event::BackoffElapsed),
        ];
        let rest = polling_reports(busy.drop_first());
        let next = driver.run(poll).0;
        assert(busy[0] != Some(STATUS_IDLE));
        lemma_busy_poll(driver, busy.first());
        assert forall|i: int| 0 <= i < busy.drop_first().len() implies #[trigger] busy.drop_first()[i]
            != Some(STATUS_IDLE) by {
            assert(busy.drop_first()[i] == busy[i + 1]);
        }
        lemma_polling_ends_in_speech(next, busy.drop_first());
        lemma_run_in_parts(driver, poll, rest);
        lemma_written_in_parts(driver.run(poll).1, next.run(rest).1);
        assert(seq![status_query()] + queries_then(busy.drop_first().len() + 1, frame)
            =~= queries_then(busy.len() + 1, frame));
    }
}

/// Speech waits for an idle device: after any number of busy answers within
/// the driver's limit the wire holds one status query for each answer, busy
/// or idle, and then the speech frame, whole. The driver is then as it was
/// before.
pub proof fn lemma_speech_waits_for_idle_device(
    driver: DriverModel,
    text: String,
    busy: Seq<Option<u8>>,
)
    requires
        driver.wf(),
        driver.phase == Phase::Free,
        Command::Speak(text).frame_bytes() is Ok,
        within_patience(driver, busy),
    ensures
        driver.run(speech_round(text, busy)).0 == driver,
        written(driver.run(speech_round(text, busy)).1) == queries_then(
            busy.len() + 1,
            Command::Speak(text).frame_bytes()->Ok_0,
        ),
{
    let frame = Command::Speak(text).frame_bytes()->Ok_0;
    let start = seq![Input::Submit(Command::Speak(text))];
    let polling = driver.feed(start.first()).0;
    lemma_command_frame_is_whole(Command::Speak(text));
    assert(start.drop_first().len() == 0);
    assert(polling.run(start.drop_first()) == (polling, Seq::<Effect>::empty()));
    assert(driver.run(start).1 =~= seq![Effect::ClearLine]);
    assert(written(driver.run(start).1) =~= Seq::<Seq<u8>>::empty()) by {
        assert(driver.run(start).1.drop_first().len() == 0);
        assert(written(driver.run(start).1.drop_first()) =~= Seq::<Seq<u8>>::empty());
    }
    lemma_polling_ends_in_speech(polling, busy);
    lemma_run_in_parts(driver, start, polling_reports(busy));
    lemma_written_in_parts(driver.run(start).1, polling.run(polling_reports(busy)).1);
    assert(Seq::<Seq<u8>>::empty() + queries_then(busy.len() + 1, frame) =~= queries_then(
        busy.len() + 1,
        frame,
    ));
}

/// Speech on a device that is idle from the start: the line is cleared, the
/// status query written, the status byte read, the speech frame written, and
/// the command reported as sent.
pub proof fn lemma_speech_on_idle_device(driver: DriverModel, text: String)
    requires
        driver.wf(),
        driver.phase == Phase::Free,
        driver.policy.max_polls != Some(0u32),
        Command::Speak(text).frame_bytes() is Ok,
    ensures
        driver.run(speech_round(text, Seq::<Option<u8>>::empty())) == (
            driver,
            seq![
                Effect::ClearLine,
                Effect::Write(status_query()),
                Effect::ReadStatus { timeout_ms: driver.policy.status_timeout_ms },
                Effect::Write(Command::Speak(text).frame_bytes()->Ok_0),
                Effect::Done(Ok(Reply::Sent)),
            ],
        ),
{
    let frame = Command::Speak(text).frame_bytes()->Ok_0;
    let start = seq![Input::Submit(Command::Speak(text))];
    let polling = driver.feed(start.first()).0;
    let reports = polling_reports(Seq::<Option<u8>>::empty());
    lemma_command_frame_is_whole(Command::Speak(text));
    assert(start.drop_first().len() == 0);
    assert(polling.run(start.drop_first()) == (polling, Seq::<Effect>::empty()));
    assert(driver.run(start).1 =~= seq![Effect::ClearLine]);
    lemma_idle_poll(polling);
    lemma_run_in_parts(driver, start, reports);
    assert(driver.run(start + reports).1 =~= seq![
        Effect::ClearLine,
        Effect::Write(status_query()),
        Effect::ReadStatus { timeout_ms: driver.policy.status_timeout_ms },
        Effect::Write(frame),
        Effect::Done(Ok(Reply::Sent)),
    ]);
}

/// One speech command after another, each with the answers its queries get.
pub open spec fn speech_rounds(speeches: Seq<(String, Seq<Option<u8>>)>) -> Seq<Input>
    decreases speeches.len(),
{
    if speeches.len() == 0 {
        Seq::<Input>::empty()
    } else {
        speech_round(speeches.first().0, speeches.first().1) + speech_rounds(
            speeches.drop_first(),
        )
    }
}

/// For each speech, in order, its status queries and then its frame.
pub open spec fn speech_frames(speeches: Seq<(String, Seq<Option<u8>>)>) -> Seq<Seq<u8>>
    decreases speeches.len(),
{
    if speeches.len() == 0 {
        Seq::<Seq<u8>>::empty()
    } else {
        queries_then(
            speeches.first().1.len() + 1,
            Command::Speak(speeches.first().0).frame_bytes()->Ok_0,
        ) + speech_frames(speeches.drop_first())
    }
}

/// Any number of speech commands, each taking the line when the one before
/// has let it go, reach the wire whole and in the order in which they took
/// the line: for each its status queries and then its frame, and nothing in
/// between.
pub proof fn lemma_speeches_reach_wire_in_order(
    driver: DriverModel,
    speeches: Seq<(String, Seq<Option<u8>>)>,
)
    requires
        driver.wf(),
        driver.phase == Phase::Free,
        forall|i: int|
            0 <= i < speeches.len() ==> Command::Speak((#[trigger] speeches[i]).0).frame_bytes()
                is Ok && within_patience(driver, speeches[i].1),
    ensures
        driver.run(speech_rounds(speeches)).0 == driver,
        written(driver.run(speech_rounds(speeches)).1) == speech_frames(speeches),
    decreases speeches.len(),
{
    if speeches.len() > 0 {
        let round = speech_round(speeches.first().0, speeches.first().1);
        let rest = speech_rounds(speeches.drop_first());
        assert(Command::Speak(speeches[0].0).frame_bytes() is Ok);
        lemma_speech_waits_for_idle_device(driver, speeches.first().0, speeches.first().1);
        assert forall|i: int| 0 <= i < speeches.drop_first().len() implies Command::Speak(
            (#[trigger] speeches.drop_first()[i]).0,
        ).frame_bytes() is Ok && within_patience(driver, speeches.drop_first()[i].1) by {
            assert(speeches.drop_first()[i] == speeches[i + 1]);
        }
        lemma_speeches_reach_wire_in_order(driver, speeches.drop_first());
        lemma_run_in_parts(driver, round, rest);
        lemma_written_in_parts(driver.run(round).1, driver.run(rest).1);
    }
}

} // verus!
