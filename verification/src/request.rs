//! The synthesize request: what a caller asks of the module in one go.
//!
//! A request always carries a text to speak. It may also set any of the
//! voice parameters and name a notification sound. The request is carried out
//! as a list of commands, one after another on the same line.

use crate::batch::all_framed;
use crate::command::{lemma_config_frame, lemma_notify_frame, Command, Param};
use crate::tag::NotifyTag;
use vstd::prelude::*;

verus! {

/// One request to synthesize speech.
#[derive(Clone, Debug, PartialEq, Eq)]
pub struct SynthRequest {
    /// The text to speak.
    pub text: String,
    /// Volume to set first, if any.
    pub volume: Option<u8>,
    /// Speaking rate to set first, if any.
    pub speed: Option<u8>,
    /// Pitch to set first, if any.
    pub tone: Option<u8>,
    /// Notification sound to play before the text, if any.
    pub notify: Option<NotifyTag>,
}

/// The command that sets `param`, if there is a value to set it to.
pub open spec fn setting(param: Param, value: Option<u8>) -> Seq<Command> {
    match value {
        Some(v) => seq![Command::SetParam(param, v)],
        None => Seq::<Command>::empty(),
    }
}

/// The command that plays `tag`, if there is a tag.
pub open spec fn sounding(tag: Option<NotifyTag>) -> Seq<Command> {
    match tag {
        Some(t) => seq![Command::Notify(t.kind, t.id)],
        None => Seq::<Command>::empty(),
    }
}

impl SynthRequest {
    /// A request that only speaks `text`.
    pub fn speak(text: String) -> (request: SynthRequest)
        ensures
            request == (SynthRequest { text, volume: None, speed: None, tone: None, notify: None }),
    {
        SynthRequest { text, volume: None, speed: None, tone: None, notify: None }
    }

    /// The commands of the request, in the order in which they are carried
    /// out: volume, speed and tone as far as they are given, then the
    /// notification sound if one is named, then the text.
    pub open spec fn plan(self) -> Seq<Command> {
        setting(Param::Volume, self.volume) + setting(Param::Speed, self.speed) + setting(
            Param::Tone,
            self.tone,
        ) + sounding(self.notify) + seq![Command::Speak(self.text)]
    }

    /// Lists the commands of the request in the order in which they are to
    /// be carried out. Speech comes last, and it alone waits for an idle
    /// device.
    pub fn commands(&self) -> (commands: Vec<Command>)
        ensures
            commands@ == self.plan(),
    {
        let mut commands: Vec<Command> = Vec::new();
        if let Some(value) = self.volume {
            commands.push(Command::SetParam(Param::Volume, value));
        }
        assert(commands@ =~= setting(Param::Volume, self.volume));
        if let Some(value) = self.speed {
            commands.push(Command::SetParam(Param::Speed, value));
        }
        assert(commands@ =~= setting(Param::Volume, self.volume) + setting(
            Param::Speed,
            self.speed,
        ));
        if let Some(value) = self.tone {
            commands.push(Command::SetParam(Param::Tone, value));
        }
        assert(commands@ =~= setting(Param::Volume, self.volume) + setting(
            Param::Speed,
            self.speed,
        ) + setting(Param::Tone, self.tone));
        if let Some(tag) = self.notify {
            commands.push(tag.command());
        }
        assert(commands@ =~= setting(Param::Volume, self.volume) + setting(
            Param::Speed,
            self.speed,
        ) + setting(Param::Tone, self.tone) + sounding(self.notify));
        commands.push(Command::Speak(self.text.clone()));
        assert(commands@ =~= self.plan());
        commands
    }
}

/// A request ends with its speech, and speech is the only one of its commands
/// that waits for an idle device: whatever else it asks for is written without
/// a status query.
pub proof fn lemma_speech_comes_last(request: SynthRequest)
    ensures
        request.plan().len() >= 1,
        request.plan().last() == Command::Speak(request.text),
        forall|i: int|
            0 <= i < request.plan().len() - 1 ==> !(#[trigger] request.plan()[i]).needs_idle(),
{
    let plan = request.plan();
    let v = setting(Param::Volume, request.volume);
    let s = setting(Param::Speed, request.speed);
    let t = setting(Param::Tone, request.tone);
    let n = sounding(request.notify);
    assert forall|i: int| 0 <= i < plan.len() - 1 implies !(#[trigger] plan[i]).needs_idle() by {
        if i < v.len() {
            assert(plan[i] == v[i]);
        } else if i < v.len() + s.len() {
            assert(plan[i] == s[i - v.len()]);
        } else if i < v.len() + s.len() + t.len() {
            assert(plan[i] == t[i - v.len() - s.len()]);
        } else {
            assert(plan[i] == n[i - v.len() - s.len() - t.len()]);
        }
    }
}

/// A request has a frame for every one of its commands exactly when its
/// speech has one: settings and notification sounds always do. So a request
/// is refused as a whole, before anything is written, exactly when its text
/// cannot be sent.
pub proof fn lemma_request_is_framed_with_its_speech(request: SynthRequest)
    ensures
        all_framed(request.plan()) <==> Command::Speak(request.text).frame_bytes() is Ok,
{
    let plan = request.plan();
    let v = setting(Param::Volume, request.volume);
    let s = setting(Param::Speed, request.speed);
    let t = setting(Param::Tone, request.tone);
    let n = sounding(request.notify);
    assert(plan.last() == Command::Speak(request.text));
    if Command::Speak(request.text).frame_bytes() is Ok {
        assert forall|i: int| 0 <= i < plan.len() implies (#[trigger] plan[i]).frame_bytes()
            is Ok by {
            if i < v.len() {
                assert(plan[i] == v[i]);
                lemma_config_frame(Param::Volume, request.volume->Some_0);
            } else if i < v.len() + s.len() {
                assert(plan[i] == s[i - v.len()]);
                lemma_config_frame(Param::Speed, request.speed->Some_0);
            } else if i < v.len() + s.len() + t.len() {
                assert(plan[i] == t[i - v.len() - s.len()]);
                lemma_config_frame(Param::Tone, request.tone->Some_0);
            } else if i < v.len() + s.len() + t.len() + n.len() {
                assert(plan[i] == n[i - v.len() - s.len() - t.len()]);
                lemma_notify_frame(request.notify->Some_0.kind, request.notify->Some_0.id);
            } else {
                assert(plan[i] == Command::Speak(request.text));
            }
        }
    } else {
        assert(!(plan[plan.len() - 1].frame_bytes() is Ok));
    }
}

} // verus!
