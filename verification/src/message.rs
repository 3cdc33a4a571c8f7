//! What the window sends to the engine's side, before anything is read.

use vstd::prelude::*;

verus! {

/// A volume change as the window words it.
#[derive(Debug, PartialEq, Eq)]
pub struct VolumeChange {
    pub channel: String,
    /// 0 to 100.
    pub volume: u8,
}

/// A user intent on its way to the engine.
#[derive(Debug, PartialEq, Eq)]
pub enum SoundMessage {
    ChangeGamelog(String),
    ChangeSoundpack(String),
    ChangeIgnoreList(String),
    VolumeChange(String, u8),
}

/// What the window's script handed over.
#[derive(Clone, Copy, Debug, PartialEq, Eq, Structural)]
pub enum Invocation {
    LoadGamelog,
    LoadSoundpack,
    LoadIgnoreList,
    ShowAbout,
    /// Anything else: a volume change in JSON, or nothing the window ought
    /// to send.
    Other,
}

/// The invocation that `argument` spells.
pub open spec fn invocation_of(argument: Seq<char>) -> Invocation {
    if argument == "load_gamelog"@ {
        Invocation::LoadGamelog
    } else if argument == "load_soundpack"@ {
        Invocation::LoadSoundpack
    } else if argument == "load_ignore_list"@ {
        Invocation::LoadIgnoreList
    } else if argument == "show_about"@ {
        Invocation::ShowAbout
    } else {
        Invocation::Other
    }
}

/// Tells the four button presses apart from everything else.
pub fn classify(argument: &str) -> (invocation: Invocation)
    ensures
        invocation == invocation_of(argument@),
{
    let argument = argument.to_owned();
    if argument == "load_gamelog".to_owned() {
        Invocation::LoadGamelog
    } else if argument == "load_soundpack".to_owned() {
        Invocation::LoadSoundpack
    } else if argument == "load_ignore_list".to_owned() {
        Invocation::LoadIgnoreList
    } else if argument == "show_about".to_owned() {
        Invocation::ShowAbout
    } else {
        Invocation::Other
    }
}

/// The message a volume change becomes.
pub fn volume_message(change: VolumeChange) -> (message: SoundMessage)
    ensures
        message == SoundMessage::VolumeChange(change.channel, change.volume),
{
    SoundMessage::VolumeChange(change.channel, change.volume)
}

/// The messages that preset paths give at startup.
pub open spec fn startup(
    gamelog: Option<String>,
    soundpack: Option<String>,
    ignore: Option<String>,
) -> Seq<SoundMessage> {
    let first: Seq<SoundMessage> = match gamelog {
        Some(path) => seq![SoundMessage::ChangeGamelog(path)],
        None => Seq::empty(),
    };
    let second: Seq<SoundMessage> = match soundpack {
        Some(path) => seq![SoundMessage::ChangeSoundpack(path)],
        None => Seq::empty(),
    };
    let third: Seq<SoundMessage> = match ignore {
        Some(path) => seq![SoundMessage::ChangeIgnoreList(path)],
        None => Seq::empty(),
    };
    first + second + third
}

/// The messages to send before the window opens: one for each path that
/// was preset, the gamelog first, then the soundpack, then the ignore list.
pub fn startup_messages(
    gamelog: Option<String>,
    soundpack: Option<String>,
    ignore: Option<String>,
) -> (messages: Vec<SoundMessage>)
    ensures
        messages@ == startup(gamelog, soundpack, ignore),
{
    let mut messages: Vec<SoundMessage> = Vec::new();
    if let Some(path) = gamelog {
        messages.push(SoundMessage::ChangeGamelog(path));
    }
    if let Some(path) = soundpack {
        messages.push(SoundMessage::ChangeSoundpack(path));
    }
    if let Some(path) = ignore {
        messages.push(SoundMessage::ChangeIgnoreList(path));
    }
    assert(messages@ =~= startup(gamelog, soundpack, ignore));
    messages
}

} // verus!
