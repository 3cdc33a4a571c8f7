use soundsense_rs::config::{choose_path, conf_entry, Preset};
use soundsense_rs::engine::Notification;
use soundsense_rs::matcher::TriggerAction;
use soundsense_rs::message::{classify, startup_messages, volume_message, Invocation};
use soundsense_rs::message::{SoundMessage, VolumeChange};
use soundsense_rs::mixer::{Channel, Directive, PlaybackState};
use soundsense_rs::soundpack::PlayMode;
use soundsense_rs::ui::{Redraw, UIHandle};

fn action(clip: Option<&str>, play_mode: PlayMode, fire: bool) -> TriggerAction {
    TriggerAction {
        channel: "weather".to_string(),
        clip: clip.map(|c| c.to_string()),
        play_mode,
        fire,
    }
}

fn start(clip: &str, volume: u8, looping: bool) -> Directive {
    Directive::Start { clip: clip.to_string(), volume, looping }
}

fn playing(clip: &str, looping: bool) -> PlaybackState {
    PlaybackState::Playing { clip: clip.to_string(), looping }
}

#[test]
fn one_shot_replaces_what_is_playing() {
    let mut channel = Channel::new("weather".to_string(), 70, 200);
    let first = channel.apply(&action(Some("a.ogg"), PlayMode::OneShot, true));
    assert_eq!(first, vec![start("a.ogg", 70, false)]);
    let second = channel.apply(&action(Some("b.ogg"), PlayMode::OneShot, true));
    assert_eq!(second, vec![Directive::Stop { fade_ms: 200 }, start("b.ogg", 70, false)]);
    assert_eq!(*channel.playback_state(), playing("b.ogg", false));
    let again = channel.apply(&action(Some("b.ogg"), PlayMode::OneShot, true));
    assert_eq!(again, vec![Directive::Stop { fade_ms: 200 }, start("b.ogg", 70, false)]);
}

#[test]
fn second_loop_start_sends_no_second_start() {
    let mut channel = Channel::new("weather".to_string(), 100, 0);
    let first = channel.apply(&action(Some("rain.ogg"), PlayMode::LoopStart, true));
    assert_eq!(first, vec![start("rain.ogg", 100, true)]);
    let second = channel.apply(&action(Some("rain.ogg"), PlayMode::LoopStart, true));
    assert!(second.is_empty());
    assert_eq!(*channel.playback_state(), playing("rain.ogg", true));
    let other = channel.apply(&action(Some("storm.ogg"), PlayMode::LoopStart, true));
    assert_eq!(other, vec![Directive::Stop { fade_ms: 0 }, start("storm.ogg", 100, true)]);
    assert_eq!(*channel.playback_state(), playing("storm.ogg", true));
}

#[test]
fn loop_stop_with_nothing_looping_sends_no_stop() {
    let mut channel = Channel::new("weather".to_string(), 100, 300);
    let idle = channel.apply(&action(None, PlayMode::LoopStop, true));
    assert!(idle.is_empty());
    assert_eq!(*channel.playback_state(), PlaybackState::Idle);
    channel.apply(&action(Some("a.ogg"), PlayMode::OneShot, true));
    let once = channel.apply(&action(None, PlayMode::LoopStop, true));
    assert!(once.is_empty());
    assert_eq!(*channel.playback_state(), playing("a.ogg", false));
}

#[test]
fn loop_stop_fades_the_loop_out() {
    let mut fading = Channel::new("weather".to_string(), 100, 300);
    fading.apply(&action(Some("rain.ogg"), PlayMode::LoopStart, true));
    let stopped = fading.apply(&action(None, PlayMode::LoopStop, true));
    assert_eq!(stopped, vec![Directive::Stop { fade_ms: 300 }]);
    assert_eq!(
        *fading.playback_state(),
        PlaybackState::FadingOut { clip: "rain.ogg".to_string() }
    );
    let again = fading.apply(&action(None, PlayMode::LoopStop, true));
    assert!(again.is_empty());
    fading.playback_finished();
    assert_eq!(*fading.playback_state(), PlaybackState::Idle);

    let mut abrupt = Channel::new("weather".to_string(), 100, 0);
    abrupt.apply(&action(Some("rain.ogg"), PlayMode::LoopStart, true));
    let stopped = abrupt.apply(&action(None, PlayMode::LoopStop, true));
    assert_eq!(stopped, vec![Directive::Stop { fade_ms: 0 }]);
    assert_eq!(*abrupt.playback_state(), PlaybackState::Idle);
}

#[test]
fn start_while_fading_out_needs_no_stop() {
    let mut channel = Channel::new("weather".to_string(), 100, 300);
    channel.apply(&action(Some("rain.ogg"), PlayMode::LoopStart, true));
    channel.apply(&action(None, PlayMode::LoopStop, true));
    let started = channel.apply(&action(Some("b.ogg"), PlayMode::OneShot, true));
    assert_eq!(started, vec![start("b.ogg", 100, false)]);
    assert_eq!(*channel.playback_state(), playing("b.ogg", false));
}

#[test]
fn action_that_does_not_fire_changes_nothing() {
    let mut channel = Channel::new("weather".to_string(), 100, 0);
    assert!(channel.apply(&action(None, PlayMode::OneShot, false)).is_empty());
    assert!(channel.apply(&action(Some("a.ogg"), PlayMode::OneShot, false)).is_empty());
    assert!(channel.apply(&action(None, PlayMode::LoopStart, true)).is_empty());
    assert_eq!(*channel.playback_state(), PlaybackState::Idle);
}

#[test]
fn playback_finished_ends_a_one_shot_but_not_a_loop() {
    let mut channel = Channel::new("weather".to_string(), 100, 0);
    channel.playback_finished();
    assert_eq!(*channel.playback_state(), PlaybackState::Idle);
    channel.apply(&action(Some("a.ogg"), PlayMode::OneShot, true));
    channel.playback_finished();
    assert_eq!(*channel.playback_state(), PlaybackState::Idle);
    channel.apply(&action(Some("rain.ogg"), PlayMode::LoopStart, true));
    channel.playback_finished();
    assert_eq!(*channel.playback_state(), playing("rain.ogg", true));
}

#[test]
fn volume_is_kept_within_range() {
    let mut channel = Channel::new("weather".to_string(), 250, 0);
    assert_eq!(channel.current_volume(), 100);
    assert_eq!(channel.name(), "weather");
    assert!(channel.set_volume(0).is_empty());
    assert_eq!(channel.current_volume(), 0);
    channel.apply(&action(Some("a.ogg"), PlayMode::OneShot, true));
    assert_eq!(channel.set_volume(101), vec![Directive::SetVolume { volume: 100 }]);
    assert_eq!(channel.current_volume(), 100);
    assert_eq!(channel.set_volume(55), vec![Directive::SetVolume { volume: 55 }]);
    let next = channel.apply(&action(Some("b.ogg"), PlayMode::OneShot, true));
    assert_eq!(next[1], start("b.ogg", 55, false));
    assert_eq!(next[1].duplicate(), next[1]);
}

#[test]
fn conf_entry_reads_the_rest_of_the_line() {
    let conf = "# settings\ngamelog=/df/gamelog.txt\nsoundpack=/df/packs/default\nignore=/df/ignore.txt\n";
    assert_eq!(conf_entry(conf, Preset::Gamelog), Some("/df/gamelog.txt".to_string()));
    assert_eq!(conf_entry(conf, Preset::Soundpack), Some("/df/packs/default".to_string()));
    assert_eq!(conf_entry(conf, Preset::IgnoreList), Some("/df/ignore.txt".to_string()));
    assert_eq!(conf_entry("gamelog=\nsoundpack=x", Preset::Gamelog), None);
    assert_eq!(conf_entry("", Preset::Soundpack), None);
    assert_eq!(conf_entry("volume=3", Preset::IgnoreList), None);
    assert_eq!(Preset::Gamelog.entry_pattern(), "gamelog=(.+)");
    assert_eq!(Preset::Soundpack.fallback(), "./soundpack");
    assert_eq!(Preset::Gamelog.fallback(), "./gamelog.txt");
    assert_eq!(Preset::IgnoreList.fallback(), "./ignore.txt");
    assert!(Preset::Soundpack.is_directory());
    assert!(!Preset::Gamelog.is_directory());
}

#[test]
fn choose_path_goes_by_priority() {
    let option = || Some("/opt/gamelog.txt".to_string());
    let entry = || Some("/conf/gamelog.txt".to_string());
    let fallback = || "./gamelog.txt".to_string();
    assert_eq!(choose_path(option(), true, entry(), fallback(), true), option());
    assert_eq!(choose_path(option(), false, entry(), fallback(), true), entry());
    assert_eq!(choose_path(None, true, entry(), fallback(), true), entry());
    assert_eq!(choose_path(option(), false, None, fallback(), true), Some(fallback()));
    assert_eq!(choose_path(None, false, None, fallback(), true), Some(fallback()));
    assert_eq!(choose_path(option(), false, None, fallback(), false), None);
    assert_eq!(choose_path(None, false, None, fallback(), false), None);
}

#[test]
fn classify_knows_the_four_buttons() {
    assert_eq!(classify("load_gamelog"), Invocation::LoadGamelog);
    assert_eq!(classify("load_soundpack"), Invocation::LoadSoundpack);
    assert_eq!(classify("load_ignore_list"), Invocation::LoadIgnoreList);
    assert_eq!(classify("show_about"), Invocation::ShowAbout);
    assert_eq!(classify("{\"channel\":\"weather\", \"volume\":40}"), Invocation::Other);
    assert_eq!(classify("Load_gamelog"), Invocation::Other);
    assert_eq!(classify(""), Invocation::Other);
}

#[test]
fn startup_messages_come_in_a_fixed_order() {
    let all = startup_messages(
        Some("log".to_string()),
        Some("pack".to_string()),
        Some("ignore".to_string()),
    );
    assert_eq!(
        all,
        vec![
            SoundMessage::ChangeGamelog("log".to_string()),
            SoundMessage::ChangeSoundpack("pack".to_string()),
            SoundMessage::ChangeIgnoreList("ignore".to_string()),
        ]
    );
    let some = startup_messages(None, Some("pack".to_string()), None);
    assert_eq!(some, vec![SoundMessage::ChangeSoundpack("pack".to_string())]);
    assert!(startup_messages(None, None, None).is_empty());
    assert_eq!(
        volume_message(VolumeChange { channel: "weather".to_string(), volume: 40 }),
        SoundMessage::VolumeChange("weather".to_string(), 40)
    );
}

#[test]
fn sliders_are_added_once() {
    let mut handle = UIHandle::new();
    assert_eq!(handle.len(), 0);
    assert!(handle.add_slider("weather".to_string()));
    assert!(handle.add_slider("combat".to_string()));
    assert!(!handle.add_slider("weather".to_string()));
    assert_eq!(handle.len(), 2);
    assert!(handle.contains(&"combat".to_string()));
    assert!(!handle.contains(&"music".to_string()));
    handle.clear_sliders();
    assert_eq!(handle.len(), 0);
    assert!(handle.add_slider("weather".to_string()));
}

#[test]
fn notifications_tell_the_window_what_to_draw() {
    let mut handle = UIHandle::new();
    let weather = Notification::ChannelDiscovered { name: "weather".to_string() };
    assert_eq!(handle.notify(&weather), Redraw::Append { name: "weather".to_string() });
    assert_eq!(handle.notify(&weather), Redraw::Nothing);
    assert_eq!(handle.len(), 1);
    assert_eq!(handle.notify(&Notification::ChannelsCleared), Redraw::Clear);
    assert_eq!(handle.len(), 0);
    assert_eq!(handle.notify(&weather), Redraw::Append { name: "weather".to_string() });
}
