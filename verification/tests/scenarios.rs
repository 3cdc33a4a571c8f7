use soundsense_rs::engine::{ChannelDirective, Command, Engine, FileStat, Notification};
use soundsense_rs::error::{LoadError, Warning};
use soundsense_rs::ignore::{FileRead, IgnoreList};
use soundsense_rs::matcher::{RuleMatcher, TriggerAction};
use soundsense_rs::mixer::{Channel, Directive, PlaybackState};
use soundsense_rs::pattern::Pattern;
use soundsense_rs::soundpack::{ChannelDecl, Manifest, ManifestRead, PlayMode, RuleDecl};
use soundsense_rs::soundpack::{SelectionPolicy, SoundPack};
use soundsense_rs::tailer::{GamelogCursor, Polled, Snapshot};

fn weather_manifest() -> ManifestRead {
    ManifestRead::Parsed(Manifest {
        channels: vec![ChannelDecl {
            name: "weather".to_string(),
            default_volume: 100,
            loops_by_default: false,
            concurrency_limit: 1,
            fade_ms: 0,
        }],
        rules: vec![RuleDecl {
            pattern: Pattern::Substring(b"started raining".to_vec()),
            channel: "weather".to_string(),
            clips: vec!["rain1.ogg".to_string()],
            policy: SelectionPolicy::Sequential,
            play_mode: Some(PlayMode::OneShot),
            probability: None,
            timeout_ms: None,
        }],
    })
}

fn rain_line() -> Vec<u8> {
    b"It has started raining.".to_vec()
}

fn rain_snapshot() -> Snapshot {
    Snapshot { identity: 7, len: 24, tail: b"It has started raining.\n".to_vec() }
}

fn engine_with_weather() -> Engine {
    let mut engine = Engine::new(1);
    let loaded = engine.handle(&Command::ChangeSoundpack {
        path: "pack".to_string(),
        manifest: weather_manifest(),
    });
    assert!(loaded.is_ok());
    let attached = engine.handle(&Command::ChangeGamelog {
        path: "gamelog.txt".to_string(),
        found: Some(FileStat { identity: 7, len: 0 }),
    });
    assert!(attached.is_ok());
    engine
}

#[test]
fn rain_line_yields_one_one_shot_action() {
    let pack = SoundPack::load(&weather_manifest()).unwrap();
    let ignore = IgnoreList::load(&FileRead::Missing).unwrap();
    let line = rain_line();
    assert!(!ignore.matches(&line));
    let mut matcher = RuleMatcher::new(&pack, 1);
    let actions = matcher.evaluate(&line, &pack, 0);
    assert_eq!(
        actions,
        vec![TriggerAction {
            channel: "weather".to_string(),
            clip: Some("rain1.ogg".to_string()),
            play_mode: PlayMode::OneShot,
            fire: true,
        }]
    );
    let mut channel = Channel::new("weather".to_string(), 100, 0);
    let directives = channel.apply(&actions[0]);
    assert_eq!(
        directives,
        vec![Directive::Start { clip: "rain1.ogg".to_string(), volume: 100, looping: false }]
    );
    assert_eq!(
        *channel.playback_state(),
        PlaybackState::Playing { clip: "rain1.ogg".to_string(), looping: false }
    );
}

#[test]
fn rain_line_through_the_engine_starts_the_clip() {
    let mut engine = engine_with_weather();
    let catalog = vec!["rain1.ogg".to_string()];
    let report = engine.poll(Some(&rain_snapshot()), 0, &catalog).unwrap();
    assert_eq!(
        report.directives,
        vec![ChannelDirective {
            channel: "weather".to_string(),
            directive: Directive::Start {
                clip: "rain1.ogg".to_string(),
                volume: 100,
                looping: false,
            },
        }]
    );
    assert!(report.warnings.is_empty());
    assert!(report.notifications.is_empty());
    assert_eq!(engine.cursor().unwrap().byte_offset(), 24);
}

#[test]
fn ignored_rain_line_yields_no_action() {
    let ignore =
        IgnoreList::load(&FileRead::Content(b"started raining\n".to_vec())).unwrap();
    assert_eq!(ignore.len(), 1);
    assert!(ignore.matches(&rain_line()));

    let mut engine = engine_with_weather();
    let loaded = engine.handle(&Command::ChangeIgnoreList {
        path: "ignore.txt".to_string(),
        content: FileRead::Content(b"started raining\n".to_vec()),
    });
    assert!(loaded.is_ok());
    assert_eq!(engine.ignore_list().len(), 1);
    assert_eq!(engine.ignore_path(), &Some("ignore.txt".to_string()));
    let catalog = vec!["rain1.ogg".to_string()];
    let report = engine.poll(Some(&rain_snapshot()), 0, &catalog).unwrap();
    assert!(report.directives.is_empty());
    assert!(report.warnings.is_empty());
    assert_eq!(*engine.channel(0).unwrap().playback_state(), PlaybackState::Idle);
    assert_eq!(engine.cursor().unwrap().byte_offset(), 24);
}

#[test]
fn volume_change_while_idle_sends_nothing() {
    let mut channel = Channel::new("weather".to_string(), 100, 0);
    let directives = channel.set_volume(40);
    assert!(directives.is_empty());
    assert_eq!(channel.current_volume(), 40);

    let mut engine = engine_with_weather();
    let report = engine
        .handle(&Command::ChangeVolume { channel: "weather".to_string(), volume: 40 })
        .unwrap();
    assert!(report.directives.is_empty());
    assert_eq!(engine.channel(0).unwrap().current_volume(), 40);
}

#[test]
fn volume_change_while_playing_sends_set_volume() {
    let mut engine = engine_with_weather();
    let catalog = vec!["rain1.ogg".to_string()];
    engine.poll(Some(&rain_snapshot()), 0, &catalog).unwrap();
    let report = engine
        .handle(&Command::ChangeVolume { channel: "weather".to_string(), volume: 40 })
        .unwrap();
    assert_eq!(
        report.directives,
        vec![ChannelDirective {
            channel: "weather".to_string(),
            directive: Directive::SetVolume { volume: 40 },
        }]
    );
    assert_eq!(engine.channel(0).unwrap().current_volume(), 40);
    assert_eq!(
        *engine.channel(0).unwrap().playback_state(),
        PlaybackState::Playing { clip: "rain1.ogg".to_string(), looping: false }
    );
}

#[test]
fn truncated_gamelog_resets_the_cursor() {
    let mut cursor = GamelogCursor::new("gamelog.txt".to_string(), 7, 500);
    assert_eq!(cursor.resume_offset(7, 0), 0);
    let polled = cursor.poll(Some(&Snapshot { identity: 7, len: 0, tail: Vec::new() }));
    match polled {
        Polled::Lines(lines) => assert!(lines.is_empty()),
        Polled::Unavailable => panic!("the empty file can be read"),
    }
    assert_eq!(cursor.byte_offset(), 0);
    assert_eq!(cursor.resume_offset(7, 12), 0);
    let polled = cursor.poll(Some(&Snapshot { identity: 7, len: 12, tail: b"one\ntwo\nthre".to_vec() }));
    match polled {
        Polled::Lines(lines) => assert_eq!(lines, vec![b"one".to_vec(), b"two".to_vec()]),
        Polled::Unavailable => panic!("the file can be read"),
    }
    assert_eq!(cursor.byte_offset(), 8);
}

#[test]
fn truncated_gamelog_is_read_again_by_the_engine() {
    let mut engine = Engine::new(1);
    engine
        .handle(&Command::ChangeSoundpack { path: "pack".to_string(), manifest: weather_manifest() })
        .unwrap();
    engine
        .handle(&Command::ChangeGamelog {
            path: "gamelog.txt".to_string(),
            found: Some(FileStat { identity: 7, len: 500 }),
        })
        .unwrap();
    assert_eq!(engine.resume_offset(FileStat { identity: 7, len: 500 }), Some(500));
    assert_eq!(engine.resume_offset(FileStat { identity: 7, len: 0 }), Some(0));
    let catalog = vec!["rain1.ogg".to_string()];
    let report = engine
        .poll(Some(&Snapshot { identity: 7, len: 0, tail: Vec::new() }), 0, &catalog)
        .unwrap();
    assert!(report.directives.is_empty());
    assert_eq!(engine.cursor().unwrap().byte_offset(), 0);
    let report = engine.poll(Some(&rain_snapshot()), 1, &catalog).unwrap();
    assert_eq!(report.directives.len(), 1);
    assert_eq!(engine.cursor().unwrap().byte_offset(), 24);
}

#[test]
fn replaced_gamelog_is_read_from_its_start() {
    let mut cursor = GamelogCursor::new("gamelog.txt".to_string(), 7, 4);
    assert_eq!(cursor.resume_offset(8, 10), 0);
    let polled = cursor.poll(Some(&Snapshot { identity: 8, len: 10, tail: b"alpha\nbeta".to_vec() }));
    match polled {
        Polled::Lines(lines) => assert_eq!(lines, vec![b"alpha".to_vec()]),
        Polled::Unavailable => panic!("the file can be read"),
    }
    assert_eq!(cursor.byte_offset(), 6);
    assert_eq!(cursor.fingerprint(), 8);
}

#[test]
fn soundpack_load_announces_channels_in_order() {
    let mut engine = Engine::new(1);
    let manifest = || {
        ManifestRead::Parsed(Manifest {
            channels: vec![
                ChannelDecl {
                    name: "weather".to_string(),
                    default_volume: 80,
                    loops_by_default: true,
                    concurrency_limit: 1,
                    fade_ms: 250,
                },
                ChannelDecl {
                    name: "combat".to_string(),
                    default_volume: 60,
                    loops_by_default: false,
                    concurrency_limit: 2,
                    fade_ms: 0,
                },
            ],
            rules: Vec::new(),
        })
    };
    let first = engine
        .handle(&Command::ChangeSoundpack { path: "pack".to_string(), manifest: manifest() })
        .unwrap();
    assert_eq!(
        first.notifications,
        vec![
            Notification::ChannelDiscovered { name: "weather".to_string() },
            Notification::ChannelDiscovered { name: "combat".to_string() },
        ]
    );
    assert_eq!(engine.channel_count(), 2);
    assert!(engine.channel(2).is_none());
    assert_eq!(engine.channel(0).unwrap().current_volume(), 80);
    assert_eq!(engine.channel(1).unwrap().current_volume(), 60);
    let second = engine
        .handle(&Command::ChangeSoundpack { path: "pack".to_string(), manifest: manifest() })
        .unwrap();
    assert_eq!(
        second.notifications,
        vec![
            Notification::ChannelsCleared,
            Notification::ChannelDiscovered { name: "weather".to_string() },
            Notification::ChannelDiscovered { name: "combat".to_string() },
        ]
    );
    assert!(second.directives.is_empty());
    assert_eq!(engine.channel_count(), 2);
    assert_eq!(engine.soundpack().unwrap().channel(0).name, "weather");
    assert_eq!(engine.soundpack().unwrap().channel(1).name, "combat");
    assert_eq!(engine.soundpack_path(), &Some("pack".to_string()));
}

#[test]
fn rejected_commands_leave_the_engine_as_it_was() {
    let mut engine = engine_with_weather();
    let missing = engine.handle(&Command::ChangeSoundpack {
        path: "nowhere".to_string(),
        manifest: ManifestRead::Missing,
    });
    assert_eq!(missing.err(), Some(LoadError::NotFound));
    let locked = engine.handle(&Command::ChangeSoundpack {
        path: "locked".to_string(),
        manifest: ManifestRead::Unavailable,
    });
    assert_eq!(locked.err(), Some(LoadError::Unavailable));
    let garbled = engine.handle(&Command::ChangeSoundpack {
        path: "garbled".to_string(),
        manifest: ManifestRead::Unparseable,
    });
    assert_eq!(garbled.err(), Some(LoadError::Malformed));
    let no_log = engine.handle(&Command::ChangeGamelog { path: "gone.txt".to_string(), found: None });
    assert_eq!(no_log.err(), Some(LoadError::NotFound));
    let no_list = engine.handle(&Command::ChangeIgnoreList {
        path: "ignore.txt".to_string(),
        content: FileRead::Unavailable,
    });
    assert_eq!(no_list.err(), Some(LoadError::Unavailable));
    assert_eq!(engine.soundpack_path(), &Some("pack".to_string()));
    assert_eq!(engine.ignore_path(), &None);
    assert_eq!(engine.cursor().unwrap().path(), "gamelog.txt");
    assert_eq!(engine.channel_count(), 1);
    let catalog = vec!["rain1.ogg".to_string()];
    let report = engine.poll(Some(&rain_snapshot()), 0, &catalog).unwrap();
    assert_eq!(report.directives.len(), 1);
}

#[test]
fn unavailable_gamelog_keeps_the_cursor() {
    let mut engine = engine_with_weather();
    let catalog = vec!["rain1.ogg".to_string()];
    assert!(engine.poll(None, 0, &catalog).is_none());
    let short = Snapshot { identity: 7, len: 24, tail: b"It has".to_vec() };
    assert!(engine.poll(Some(&short), 0, &catalog).is_none());
    assert_eq!(engine.cursor().unwrap().byte_offset(), 0);
    let mut idle = Engine::new(1);
    assert!(idle.poll(Some(&rain_snapshot()), 0, &catalog).is_none());
    assert_eq!(idle.resume_offset(FileStat { identity: 7, len: 24 }), None);
}

#[test]
fn missing_clip_warns_and_plays_nothing() {
    let mut engine = engine_with_weather();
    let catalog: Vec<String> = Vec::new();
    let report = engine.poll(Some(&rain_snapshot()), 0, &catalog).unwrap();
    assert!(report.directives.is_empty());
    assert_eq!(
        report.warnings,
        vec![Warning::ClipMissing {
            channel: "weather".to_string(),
            clip: "rain1.ogg".to_string(),
        }]
    );
    assert_eq!(report.warnings[0].kind(), LoadError::ClipMissing);
    assert_eq!(*engine.channel(0).unwrap().playback_state(), PlaybackState::Idle);
}

#[test]
fn drain_takes_commands_in_arrival_order() {
    let mut engine = Engine::new(1);
    let commands = vec![
        Command::ChangeVolume { channel: "weather".to_string(), volume: 10 },
        Command::ChangeSoundpack { path: "pack".to_string(), manifest: weather_manifest() },
        Command::ChangeGamelog { path: "gone.txt".to_string(), found: None },
        Command::ChangeVolume { channel: "weather".to_string(), volume: 30 },
    ];
    let outcomes = engine.drain(&commands);
    assert_eq!(outcomes.len(), 4);
    assert!(outcomes[0].as_ref().unwrap().directives.is_empty());
    assert_eq!(outcomes[1].as_ref().unwrap().notifications.len(), 1);
    assert_eq!(outcomes[2].as_ref().err(), Some(&LoadError::NotFound));
    assert!(outcomes[3].is_ok());
    assert_eq!(engine.channel(0).unwrap().current_volume(), 30);
    assert!(engine.cursor().is_none());
}

#[test]
fn playback_finished_frees_the_channel() {
    let mut engine = engine_with_weather();
    let catalog = vec!["rain1.ogg".to_string()];
    engine.poll(Some(&rain_snapshot()), 0, &catalog).unwrap();
    engine.playback_finished("combat");
    assert_ne!(*engine.channel(0).unwrap().playback_state(), PlaybackState::Idle);
    engine.playback_finished("weather");
    assert_eq!(*engine.channel(0).unwrap().playback_state(), PlaybackState::Idle);
}

#[test]
fn reload_stops_what_is_playing() {
    let mut engine = engine_with_weather();
    let catalog = vec!["rain1.ogg".to_string()];
    engine.poll(Some(&rain_snapshot()), 0, &catalog).unwrap();
    let report = engine
        .handle(&Command::ChangeSoundpack { path: "pack".to_string(), manifest: weather_manifest() })
        .unwrap();
    assert_eq!(
        report.directives,
        vec![ChannelDirective {
            channel: "weather".to_string(),
            directive: Directive::Stop { fade_ms: 0 },
        }]
    );
    assert_eq!(*engine.channel(0).unwrap().playback_state(), PlaybackState::Idle);
}
