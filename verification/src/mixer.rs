//! The channel mixer: one playback state machine per channel.
//!
//! A channel is idle, playing one clip (once or in a loop), or fading one
//! out. It takes trigger actions, volume changes and the news that playback
//! has ended, and answers with directives for whoever makes the sound. It
//! never waits for them to be carried out.

use vstd::prelude::*;
use crate::matcher::TriggerAction;
use crate::soundpack::{PlayMode, MAX_VOLUME};

verus! {

/// What a channel is doing.
#[derive(Debug, PartialEq, Eq)]
pub enum PlaybackState {
    Idle,
    Playing { clip: String, looping: bool },
    FadingOut { clip: String },
}

/// What the mixer asks of the audio output.
#[derive(Debug, PartialEq, Eq)]
pub enum Directive {
    /// Start `clip` at `volume`, once or in a loop.
    Start { clip: String, volume: u8, looping: bool },
    /// Stop what is sounding, fading for `fade_ms` milliseconds.
    Stop { fade_ms: u32 },
    /// Change the gain of what is sounding.
    SetVolume { volume: u8 },
}

impl Directive {
    /// A copy of the directive.
    pub fn duplicate(&self) -> (copy: Directive)
        ensures
            copy == *self,
    {
        match self {
            Directive::Start { clip, volume, looping } => Directive::Start {
                clip: clip.clone(),
                volume: *volume,
                looping: *looping,
            },
            Directive::Stop { fade_ms } => Directive::Stop { fade_ms: *fade_ms },
            Directive::SetVolume { volume } => Directive::SetVolume { volume: *volume },
        }
    }
}

/// What a channel stands for.
pub struct ChannelView {
    pub name: String,
    /// The user's volume, 0 to 100.
    pub volume: u8,
    /// How long a stop fades, in milliseconds.
    pub fade_ms: u32,
    pub playback: PlaybackState,
}

/// A channel after a step, and the directives the step sends out.
pub struct Stepped {
    pub channel: ChannelView,
    pub directives: Seq<Directive>,
}

/// A volume brought into range: anything above 100 counts as 100.
pub open spec fn clamp_volume(volume: u8) -> u8 {
    if volume > MAX_VOLUME {
        MAX_VOLUME
    } else {
        volume
    }
}

/// The step that changes nothing and sends nothing.
pub open spec fn unchanged(channel: ChannelView) -> Stepped {
    Stepped { channel, directives: Seq::empty() }
}

/// What a channel is doing once `clip` has been told to stop: fading out
/// where the channel fades, idle where it does not.
pub open spec fn after_stop(channel: ChannelView, clip: String) -> PlaybackState {
    if channel.fade_ms > 0 {
        PlaybackState::FadingOut { clip }
    } else {
        PlaybackState::Idle
    }
}

/// The channel is looping something.
pub open spec fn is_looping(playback: PlaybackState) -> bool {
    playback matches PlaybackState::Playing { looping, .. } && looping
}

/// The channel is looping the clip called `clip`.
pub open spec fn is_looping_clip(playback: PlaybackState, clip: Seq<char>) -> bool {
    playback matches PlaybackState::Playing { clip: current, looping } && looping && current@
        == clip
}

/// The step a trigger action causes.
///
/// An action that does not fire changes nothing. A loop-stop stops a loop
/// and nothing else. An action that plays starts its clip, after stopping
/// whatever was playing: a channel sounds one clip at a time. Starting the
/// loop that is already looping changes nothing.
pub open spec fn on_trigger(channel: ChannelView, action: TriggerAction) -> Stepped {
    if !action.fire {
        unchanged(channel)
    } else if action.play_mode == PlayMode::LoopStop {
        match channel.playback {
            PlaybackState::Playing { clip, looping } => if looping {
                Stepped {
                    channel: ChannelView { playback: after_stop(channel, clip), ..channel },
                    directives: seq![Directive::Stop { fade_ms: channel.fade_ms }],
                }
            } else {
                unchanged(channel)
            },
            _ => unchanged(channel),
        }
    } else {
        match action.clip {
            None => unchanged(channel),
            Some(clip) => {
                let looping = action.play_mode == PlayMode::LoopStart;
                let start = Directive::Start { clip, volume: channel.volume, looping };
                let playing = ChannelView {
                    playback: PlaybackState::Playing { clip, looping },
                    ..channel
                };
                match channel.playback {
                    PlaybackState::Playing { .. } => if looping && is_looping_clip(
                        channel.playback,
                        clip@,
                    ) {
                        unchanged(channel)
                    } else {
                        Stepped {
                            channel: playing,
                            directives: seq![Directive::Stop { fade_ms: channel.fade_ms }, start],
                        }
                    },
                    _ => Stepped { channel: playing, directives: seq![start] },
                }
            },
        }
    }
}

/// The step a volume change causes: the volume is taken over at once, and
/// passed on to the audio output only while something is playing.
pub open spec fn on_volume(channel: ChannelView, volume: u8) -> Stepped {
    let volume = clamp_volume(volume);
    Stepped {
        channel: ChannelView { volume, ..channel },
        directives: if channel.playback is Playing {
            seq![Directive::SetVolume { volume }]
        } else {
            Seq::empty()
        },
    }
}

/// The channel after the audio output has said that playback ended: a clip
/// played once, or one fading out, leaves the channel idle.
pub open spec fn on_finished(channel: ChannelView) -> ChannelView {
    match channel.playback {
        PlaybackState::Playing { looping, .. } => if looping {
            channel
        } else {
            ChannelView { playback: PlaybackState::Idle, ..channel }
        },
        PlaybackState::FadingOut { .. } => ChannelView { playback: PlaybackState::Idle, ..channel },
        PlaybackState::Idle => channel,
    }
}

/// Starting a loop twice sends no second start: once a loop-start has been
/// taken, the same loop-start again changes nothing and sends nothing.
pub proof fn lemma_repeated_loop_start(channel: ChannelView, action: TriggerAction)
    requires
        action.fire,
        action.play_mode == PlayMode::LoopStart,
        action.clip is Some,
    ensures
        ({
            let first = on_trigger(channel, action);
            let second = on_trigger(first.channel, action);
            &&& is_looping_clip(first.channel.playback, action.clip->0@)
            &&& second.directives == Seq::<Directive>::empty()
            &&& second.channel == first.channel
        }),
{
}

/// Stopping a loop where nothing loops sends no stop: the channel stays as
/// it is and nothing is sent.
pub proof fn lemma_loop_stop_without_loop(channel: ChannelView, action: TriggerAction)
    requires
        action.play_mode == PlayMode::LoopStop,
        !is_looping(channel.playback),
    ensures
        on_trigger(channel, action) == unchanged(channel),
{
}

/// A channel sounds one clip at a time: whenever a step sends a start while
/// a clip is playing, it sends a stop first, and no step sends two starts.
pub proof fn lemma_one_clip_at_a_time(channel: ChannelView, action: TriggerAction)
    ensures
        ({
            let stepped = on_trigger(channel, action);
            forall|i: int|
                0 <= i < stepped.directives.len() && (#[trigger] stepped.directives[i]) is Start
                    ==> {
                    &&& i == stepped.directives.len() - 1
                    &&& channel.playback is Playing ==> i == 1 && stepped.directives[0] is Stop
                    &&& !(channel.playback is Playing) ==> i == 0
                }
        }),
{
}

/// No step takes a volume out of range: a channel whose volume is at most
/// 100 keeps such a volume, and every start and volume directive it sends
/// carries one.
pub proof fn lemma_volume_stays_in_range(channel: ChannelView, action: TriggerAction, volume: u8)
    requires
        channel.volume <= MAX_VOLUME,
    ensures
        on_trigger(channel, action).channel.volume == channel.volume,
        on_finished(channel).volume == channel.volume,
        on_volume(channel, volume).channel.volume <= MAX_VOLUME,
        forall|i: int|
            0 <= i < on_trigger(channel, action).directives.len() ==> (
            #[trigger] on_trigger(channel, action).directives[i] matches Directive::Start {
                volume: sent,
                ..
            } ==> sent <= MAX_VOLUME),
        forall|i: int|
            0 <= i < on_volume(channel, volume).directives.len() ==> (
            #[trigger] on_volume(channel, volume).directives[i] matches Directive::SetVolume {
                volume: sent,
            } ==> sent <= MAX_VOLUME),
{
}

/// A channel of the mixer.
#[derive(Debug)]
pub struct Channel {
    name: String,
    current_volume: u8,
    fade_ms: u32,
    playback: PlaybackState,
}

impl View for Channel {
    type V = ChannelView;

    closed spec fn view(&self) -> ChannelView {
        ChannelView {
            name: self.name,
            volume: self.current_volume,
            fade_ms: self.fade_ms,
            playback: self.playback,
        }
    }
}

impl Channel {
    #[verifier::type_invariant]
    spec fn volume_in_range(self) -> bool {
        self.current_volume <= MAX_VOLUME
    }

    /// An idle channel. A volume above 100 counts as 100.
    pub fn new(name: String, volume: u8, fade_ms: u32) -> (channel: Channel)
        ensures
            channel@ == (ChannelView {
                name,
                volume: clamp_volume(volume),
                fade_ms,
                playback: PlaybackState::Idle,
            }),
    {
        let current_volume = if volume > MAX_VOLUME {
            MAX_VOLUME
        } else {
            volume
        };
        Channel { name, current_volume, fade_ms, playback: PlaybackState::Idle }
    }

    /// The channel's name.
    pub fn name(&self) -> (name: &String)
        ensures
            *name == self@.name,
    {
        &self.name
    }

    /// The user's volume, 0 to 100.
    pub fn current_volume(&self) -> (volume: u8)
        ensures
            volume == self@.volume,
            volume <= MAX_VOLUME,
    {
        proof {
            use_type_invariant(self);
        }
        self.current_volume
    }

    /// What the channel is doing.
    pub fn playback_state(&self) -> (playback: &PlaybackState)
        ensures
            *playback == self@.playback,
    {
        &self.playback
    }

    fn loops_clip(&self, clip: &String) -> (same: bool)
        ensures
            same == is_looping_clip(self@.playback, clip@),
    {
        match &self.playback {
            PlaybackState::Playing { clip: current, looping } => *looping && *current == *clip,
            _ => false,
        }
    }

    /// Takes a trigger action and returns the directives it causes.
    pub fn apply(&mut self, action: &TriggerAction) -> (directives: Vec<Directive>)
        ensures
            final(self)@ == on_trigger(old(self)@, *action).channel,
            directives@ == on_trigger(old(self)@, *action).directives,
    {
        proof {
            use_type_invariant(&*self);
        }
        let mut directives: Vec<Directive> = Vec::new();
        if !action.fire {
            return directives;
        }
        let stops = match action.play_mode {
            PlayMode::LoopStop => true,
            _ => false,
        };
        if stops {
            let stopped = match &self.playback {
                PlaybackState::Playing { clip, looping } => if *looping {
                    Some(clip.clone())
                } else {
                    None
                },
                _ => None,
            };
            if let Some(clip) = stopped {
                directives.push(Directive::Stop { fade_ms: self.fade_ms });
                self.playback = if self.fade_ms > 0 {
                    PlaybackState::FadingOut { clip }
                } else {
                    PlaybackState::Idle
                };
                assert(directives@ =~= seq![Directive::Stop { fade_ms: self.fade_ms }]);
            }
            return directives;
        }
        let clip = match &action.clip {
            Some(clip) => clip,
            None => { return directives; },
        };
        let looping = match action.play_mode {
            PlayMode::LoopStart => true,
            _ => false,
        };
        let playing = match &self.playback {
            PlaybackState::Playing { .. } => true,
            _ => false,
        };
        if playing {
            if looping && self.loops_clip(clip) {
                return directives;
            }
            directives.push(Directive::Stop { fade_ms: self.fade_ms });
        }
        directives.push(
            Directive::Start { clip: clip.clone(), volume: self.current_volume, looping },
        );
        self.playback = PlaybackState::Playing { clip: clip.clone(), looping };
        assert(directives@ =~= on_trigger(old(self)@, *action).directives);
        directives
    }

    /// Takes a volume change and returns the directives it causes. A volume
    /// above 100 counts as 100.
    pub fn set_volume(&mut self, volume: u8) -> (directives: Vec<Directive>)
        ensures
            final(self)@ == on_volume(old(self)@, volume).channel,
            directives@ == on_volume(old(self)@, volume).directives,
    {
        let volume = if volume > MAX_VOLUME {
            MAX_VOLUME
        } else {
            volume
        };
        self.current_volume = volume;
        let mut directives: Vec<Directive> = Vec::new();
        let playing = match &self.playback {
            PlaybackState::Playing { .. } => true,
            _ => false,
        };
        if playing {
            directives.push(Directive::SetVolume { volume });
            assert(directives@ =~= seq![Directive::SetVolume { volume }]);
        }
        directives
    }

    /// Takes the news that playback on this channel has ended.
    pub fn playback_finished(&mut self)
        ensures
            final(self)@ == on_finished(old(self)@),
    {
        proof {
            use_type_invariant(&*self);
        }
        let ends = match &self.playback {
            PlaybackState::Playing { looping, .. } => !*looping,
            PlaybackState::FadingOut { .. } => true,
            PlaybackState::Idle => false,
        };
        if ends {
            self.playback = PlaybackState::Idle;
        }
    }
}

} // verus!
