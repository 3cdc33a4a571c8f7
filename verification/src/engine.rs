//! The engine: the one owner of the soundpack, the ignore list, the gamelog
//! cursor, the rule matcher and the channels.
//!
//! The engine does no I/O. The loop around it drains the pending commands
//! into [`Engine::handle`], each with what was read at its path, then looks
//! at the gamelog once and hands what it found to [`Engine::poll`]. What
//! comes back are directives for the audio output, notifications for the
//! window and warnings.

use vstd::prelude::*;
use crate::error::{LoadError, Warning};
use crate::ignore::{all_lines, any_entry_in, entries_of, FileRead, IgnoreList};
use crate::matcher::{evaluated, fresh_state, matcher_wf, MatcherView, RuleMatcher};
use crate::matcher::TriggerAction;
use crate::mixer::{clamp_volume, on_trigger, on_volume, Channel, ChannelView, Directive};
use crate::mixer::{on_finished, PlaybackState};
use crate::soundpack::{first_named, loaded, ChannelDecl, ManifestRead, SoundPack, SoundPackView};
use crate::soundpack::lemma_first_named;
use crate::tailer::{advanced, consistent, resume_from, CursorView, GamelogCursor, Polled, Snapshot};
use crate::text::{complete_lines, contents};

verus! {

/// What a look at a file's metadata found.
#[derive(Clone, Copy, Debug, PartialEq, Eq, Structural)]
pub struct FileStat {
    /// A fingerprint of which file this is.
    pub identity: u64,
    /// The file's length in bytes.
    pub len: u64,
}

/// What the window asks of the engine, each with what was found at its path.
#[derive(Debug)]
pub enum Command {
    /// Tail another gamelog. `found` is absent when there is no file there.
    ChangeGamelog { path: String, found: Option<FileStat> },
    /// Load another soundpack.
    ChangeSoundpack { path: String, manifest: ManifestRead },
    /// Load another ignore list.
    ChangeIgnoreList { path: String, content: FileRead },
    /// Set the volume of the channel called `channel`.
    ChangeVolume { channel: String, volume: u8 },
}

/// What the engine tells the window.
#[derive(Debug, PartialEq, Eq)]
pub enum Notification {
    /// Every channel shown so far is gone.
    ChannelsCleared,
    /// There is a channel of this name.
    ChannelDiscovered { name: String },
}

/// A directive for the channel called `channel`.
#[derive(Debug, PartialEq, Eq)]
pub struct ChannelDirective {
    pub channel: String,
    pub directive: Directive,
}

/// What one step of the engine sends out.
#[derive(Debug)]
pub struct Report {
    pub directives: Vec<ChannelDirective>,
    pub notifications: Vec<Notification>,
    pub warnings: Vec<Warning>,
}

/// What a report stands for.
pub struct ReportView {
    pub directives: Seq<ChannelDirective>,
    pub notifications: Seq<Notification>,
    pub warnings: Seq<Warning>,
}

impl View for Report {
    type V = ReportView;

    open spec fn view(&self) -> ReportView {
        ReportView {
            directives: self.directives@,
            notifications: self.notifications@,
            warnings: self.warnings@,
        }
    }
}

/// The report that says nothing.
pub open spec fn silence() -> ReportView {
    ReportView { directives: Seq::empty(), notifications: Seq::empty(), warnings: Seq::empty() }
}

/// What an engine stands for.
pub struct EngineView {
    pub pack: Option<SoundPackView>,
    /// The directory the soundpack was loaded from.
    pub soundpack_path: Option<String>,
    pub ignore: Seq<Seq<u8>>,
    /// The file the ignore list was loaded from.
    pub ignore_path: Option<String>,
    pub cursor: Option<CursorView>,
    pub channels: Seq<ChannelView>,
    pub matcher: MatcherView,
}

impl EngineView {
    /// The invariant of an engine. With a soundpack loaded, the soundpack is
    /// well formed, the matcher fits it, and the channels are the
    /// soundpack's, name for name and in order. Without one there are no
    /// channels and no rule states.
    pub open spec fn wf(self) -> bool {
        match self.pack {
            Some(pack) => {
                &&& pack.wf()
                &&& matcher_wf(self.matcher, pack)
                &&& self.channels.len() == pack.channels.len()
                &&& forall|i: int|
                    0 <= i < self.channels.len() ==> (#[trigger] self.channels[i]).name
                        == pack.channels[i].name
            },
            None => self.channels.len() == 0 && self.matcher.states.len() == 0,
        }
    }
}

/// A step of the engine: the engine after it, and what it sends out.
pub struct Outcome {
    pub engine: EngineView,
    pub report: ReportView,
}

/// The step that changes nothing and sends nothing.
pub open spec fn nothing(engine: EngineView) -> Outcome {
    Outcome { engine, report: silence() }
}

/// `directives`, each addressed to the channel called `channel`.
pub open spec fn addressed(channel: String, directives: Seq<Directive>) -> Seq<ChannelDirective> {
    Seq::new(directives.len(), |i: int| ChannelDirective { channel, directive: directives[i] })
}

/// The channels of a freshly loaded soundpack: idle, each at its declared
/// volume.
pub open spec fn fresh_channels(decls: Seq<ChannelDecl>) -> Seq<ChannelView> {
    Seq::new(
        decls.len(),
        |i: int|
            ChannelView {
                name: decls[i].name,
                volume: clamp_volume(decls[i].default_volume),
                fade_ms: decls[i].fade_ms,
                playback: PlaybackState::Idle,
            },
    )
}

/// One notification for each channel, in declaration order.
pub open spec fn discovered(decls: Seq<ChannelDecl>) -> Seq<Notification> {
    Seq::new(decls.len(), |i: int| Notification::ChannelDiscovered { name: decls[i].name })
}

/// An immediate stop for each channel that is not idle, in channel order.
pub open spec fn silenced(channels: Seq<ChannelView>) -> Seq<ChannelDirective>
    decreases channels.len(),
{
    if channels.len() == 0 {
        Seq::empty()
    } else {
        let before = silenced(channels.drop_last());
        let last = channels.last();
        if last.playback is Idle {
            before
        } else {
            before.push(
                ChannelDirective { channel: last.name, directive: Directive::Stop { fade_ms: 0 } },
            )
        }
    }
}

/// Taking over a loaded soundpack: everything derived from the one before
/// is dropped at once. What was sounding is stopped, the window is told to
/// clear its channels if it had any to show, the new channels are announced
/// in declaration order, and no rule has fired yet.
pub open spec fn with_soundpack(engine: EngineView, path: String, pack: SoundPackView) -> Outcome {
    Outcome {
        engine: EngineView {
            pack: Some(pack),
            soundpack_path: Some(path),
            channels: fresh_channels(pack.channels),
            matcher: MatcherView {
                rng: engine.matcher.rng,
                states: Seq::new(pack.rules.len(), |i: int| fresh_state()),
            },
            ..engine
        },
        report: ReportView {
            directives: silenced(engine.channels),
            notifications: if engine.pack is Some {
                seq![Notification::ChannelsCleared] + discovered(pack.channels)
            } else {
                discovered(pack.channels)
            },
            warnings: pack.warnings,
        },
    }
}

/// The step a volume command causes: the channel of that name takes the
/// volume; where there is no such channel nothing happens.
pub open spec fn with_volume(engine: EngineView, channel: Seq<char>, volume: u8) -> Outcome {
    match engine.pack {
        None => nothing(engine),
        Some(pack) => match first_named(pack.channels, channel) {
            None => nothing(engine),
            Some(c) => {
                let stepped = on_volume(engine.channels[c], volume);
                Outcome {
                    engine: EngineView {
                        channels: engine.channels.update(c, stepped.channel),
                        ..engine
                    },
                    report: ReportView {
                        directives: addressed(engine.channels[c].name, stepped.directives),
                        ..silence()
                    },
                }
            },
        },
    }
}

/// The error that rejects a command, if it is rejected: a gamelog that is
/// not there, a soundpack whose manifest is missing, unreadable or no
/// manifest, an ignore list that could not be read.
pub open spec fn rejection(command: Command) -> Option<LoadError> {
    match command {
        Command::ChangeGamelog { found, .. } => if found is None {
            Some(LoadError::NotFound)
        } else {
            None
        },
        Command::ChangeSoundpack { manifest, .. } => match manifest {
            ManifestRead::Missing => Some(LoadError::NotFound),
            ManifestRead::Unavailable => Some(LoadError::Unavailable),
            ManifestRead::Unparseable => Some(LoadError::Malformed),
            ManifestRead::Parsed(_) => None,
        },
        Command::ChangeIgnoreList { content, .. } => if content is Unavailable {
            Some(LoadError::Unavailable)
        } else {
            None
        },
        Command::ChangeVolume { .. } => None,
    }
}

/// The step a command causes when it is not rejected.
///
/// A new gamelog is tailed from its end: only what is appended from now on
/// counts as new. A new soundpack replaces the old one and all that was
/// derived from it. A new ignore list replaces the old one; a missing file
/// gives the empty list.
pub open spec fn accepted(engine: EngineView, command: Command) -> Outcome {
    match command {
        Command::ChangeGamelog { path, found } => Outcome {
            engine: EngineView {
                cursor: Some(
                    CursorView {
                        path: path@,
                        byte_offset: found->0.len as nat,
                        fingerprint: found->0.identity,
                    },
                ),
                ..engine
            },
            report: silence(),
        },
        Command::ChangeSoundpack { path, manifest } => with_soundpack(
            engine,
            path,
            loaded(manifest->0),
        ),
        Command::ChangeIgnoreList { path, content } => Outcome {
            engine: EngineView {
                ignore: match content {
                    FileRead::Content(bytes) => entries_of(all_lines(bytes@)),
                    _ => Seq::empty(),
                },
                ignore_path: Some(path),
                ..engine
            },
            report: silence(),
        },
        Command::ChangeVolume { channel, volume } => with_volume(engine, channel@, volume),
    }
}

/// The catalog lists a clip called `clip`.
pub open spec fn catalog_has(catalog: Seq<String>, clip: Seq<char>) -> bool {
    exists|i: int| 0 <= i < catalog.len() && (#[trigger] catalog[i])@ == clip
}

/// The action fires with a clip that the catalog does not list.
pub open spec fn clip_missing(action: TriggerAction, catalog: Seq<String>) -> bool {
    action.fire && action.clip is Some && !catalog_has(catalog, action.clip->0@)
}

/// The channels after some trigger actions, and what they sent out.
pub struct Dispatched {
    pub channels: Seq<ChannelView>,
    pub directives: Seq<ChannelDirective>,
    pub warnings: Seq<Warning>,
}

/// What one trigger action does to the channels.
///
/// The action goes to the channel it names. Where its clip cannot be
/// resolved the action is dropped with a warning and the channel stays as it
/// is; otherwise the channel takes its step.
pub open spec fn dispatch(
    channels: Seq<ChannelView>,
    pack: SoundPackView,
    action: TriggerAction,
    catalog: Seq<String>,
) -> Dispatched {
    match first_named(pack.channels, action.channel@) {
        None => Dispatched { channels, directives: Seq::empty(), warnings: Seq::empty() },
        Some(c) => if clip_missing(action, catalog) {
            Dispatched {
                channels,
                directives: Seq::empty(),
                warnings: seq![
                    Warning::ClipMissing { channel: action.channel, clip: action.clip->0 },
                ],
            }
        } else {
            let stepped = on_trigger(channels[c], action);
            Dispatched {
                channels: channels.update(c, stepped.channel),
                directives: addressed(channels[c].name, stepped.directives),
                warnings: Seq::empty(),
            }
        },
    }
}

/// What some trigger actions do to the channels, one after the other.
pub open spec fn dispatch_all(
    channels: Seq<ChannelView>,
    pack: SoundPackView,
    actions: Seq<TriggerAction>,
    catalog: Seq<String>,
) -> Dispatched
    decreases actions.len(),
{
    if actions.len() == 0 {
        Dispatched { channels, directives: Seq::empty(), warnings: Seq::empty() }
    } else {
        let before = dispatch_all(channels, pack, actions.drop_last(), catalog);
        let last = dispatch(before.channels, pack, actions.last(), catalog);
        Dispatched {
            channels: last.channels,
            directives: before.directives + last.directives,
            warnings: before.warnings + last.warnings,
        }
    }
}

/// The step one new log line causes.
///
/// A line that the ignore list drops does nothing, and neither does any
/// line while no soundpack is loaded. Otherwise the line is evaluated
/// against the rules and each decision goes to its channel.
pub open spec fn process_line(
    engine: EngineView,
    line: Seq<u8>,
    now: u64,
    catalog: Seq<String>,
) -> Outcome {
    if any_entry_in(engine.ignore, line) {
        nothing(engine)
    } else {
        match engine.pack {
            None => nothing(engine),
            Some(pack) => {
                let resolved = evaluated(pack, line, engine.matcher, now);
                let done = dispatch_all(engine.channels, pack, resolved.actions, catalog);
                Outcome {
                    engine: EngineView {
                        matcher: resolved.matcher,
                        channels: done.channels,
                        ..engine
                    },
                    report: ReportView {
                        directives: done.directives,
                        notifications: Seq::empty(),
                        warnings: done.warnings,
                    },
                }
            },
        }
    }
}

/// The step some new log lines cause, oldest first.
pub open spec fn process_lines(
    engine: EngineView,
    lines: Seq<Seq<u8>>,
    now: u64,
    catalog: Seq<String>,
) -> Outcome
    decreases lines.len(),
{
    if lines.len() == 0 {
        nothing(engine)
    } else {
        let before = process_lines(engine, lines.drop_last(), now, catalog);
        let last = process_line(before.engine, lines.last(), now, catalog);
        Outcome {
            engine: last.engine,
            report: ReportView {
                directives: before.report.directives + last.report.directives,
                notifications: Seq::empty(),
                warnings: before.report.warnings + last.report.warnings,
            },
        }
    }
}

/// The gamelog can be read this time: a gamelog is being tailed, and the
/// snapshot holds the file from the cursor's resume offset to its end.
pub open spec fn readable(engine: EngineView, snapshot: Option<&Snapshot>) -> bool {
    engine.cursor is Some && snapshot is Some && consistent(
        engine.cursor->0,
        snapshot->0.identity,
        snapshot->0.len,
        snapshot->0.tail@,
    )
}

/// The step a readable snapshot causes: the cursor moves past the complete
/// lines of the tail, and each of these lines is processed in turn.
pub open spec fn polled(
    engine: EngineView,
    snapshot: &Snapshot,
    now: u64,
    catalog: Seq<String>,
) -> Outcome {
    process_lines(
        EngineView {
            cursor: Some(
                advanced(engine.cursor->0, snapshot.identity, snapshot.len, snapshot.tail@),
            ),
            ..engine
        },
        complete_lines(snapshot.tail@),
        now,
        catalog,
    )
}

/// The step that the end of playback on the channel called `channel`
/// causes.
pub open spec fn with_finished(engine: EngineView, channel: Seq<char>) -> EngineView {
    match engine.pack {
        None => engine,
        Some(pack) => match first_named(pack.channels, channel) {
            None => engine,
            Some(c) => EngineView {
                channels: engine.channels.update(c, on_finished(engine.channels[c])),
                ..engine
            },
        },
    }
}

/// The channels still belong to the soundpack, name for name.
pub open spec fn channels_fit(channels: Seq<ChannelView>, pack: SoundPackView) -> bool {
    &&& channels.len() == pack.channels.len()
    &&& forall|i: int|
        0 <= i < channels.len() ==> (#[trigger] channels[i]).name == pack.channels[i].name
}

/// Processing log lines touches neither the soundpack nor the ignore list
/// nor the gamelog cursor.
pub proof fn lemma_lines_leave_the_models(
    engine: EngineView,
    lines: Seq<Seq<u8>>,
    now: u64,
    catalog: Seq<String>,
)
    ensures
        process_lines(engine, lines, now, catalog).engine.pack == engine.pack,
        process_lines(engine, lines, now, catalog).engine.soundpack_path == engine.soundpack_path,
        process_lines(engine, lines, now, catalog).engine.ignore == engine.ignore,
        process_lines(engine, lines, now, catalog).engine.ignore_path == engine.ignore_path,
        process_lines(engine, lines, now, catalog).engine.cursor == engine.cursor,
        process_lines(engine, lines, now, catalog).report.notifications == Seq::<
            Notification,
        >::empty(),
    decreases lines.len(),
{
    if lines.len() > 0 {
        lemma_lines_leave_the_models(engine, lines.drop_last(), now, catalog);
    }
}

/// After a poll that could read the gamelog the cursor lies inside the
/// file: its offset is at most the file's length, and it belongs to the file
/// that was read.
pub proof fn lemma_poll_keeps_cursor_in_file(
    engine: EngineView,
    snapshot: &Snapshot,
    now: u64,
    catalog: Seq<String>,
)
    requires
        readable(engine, Some(snapshot)),
    ensures
        polled(engine, snapshot, now, catalog).engine.cursor is Some,
        polled(engine, snapshot, now, catalog).engine.cursor->0.byte_offset <= snapshot.len,
        polled(engine, snapshot, now, catalog).engine.cursor->0.fingerprint == snapshot.identity,
        polled(engine, snapshot, now, catalog).engine.cursor->0.path == engine.cursor->0.path,
{
    let moved = EngineView {
        cursor: Some(advanced(engine.cursor->0, snapshot.identity, snapshot.len, snapshot.tail@)),
        ..engine
    };
    lemma_lines_leave_the_models(moved, complete_lines(snapshot.tail@), now, catalog);
    crate::text::lemma_pending_start_bound(snapshot.tail@);
}

/// A file that has shrunk below the cursor, or that is another file, is
/// read from its start: whatever the cursor was, the poll consumes the
/// complete lines of the whole file and leaves the cursor just past them.
pub proof fn lemma_rotation_starts_over(
    engine: EngineView,
    snapshot: &Snapshot,
    now: u64,
    catalog: Seq<String>,
)
    requires
        readable(engine, Some(snapshot)),
        crate::tailer::rotated(engine.cursor->0, snapshot.identity, snapshot.len),
    ensures
        snapshot.tail@.len() == snapshot.len,
        polled(engine, snapshot, now, catalog).engine.cursor->0.byte_offset
            == crate::text::pending_start(snapshot.tail@),
{
    let moved = EngineView {
        cursor: Some(advanced(engine.cursor->0, snapshot.identity, snapshot.len, snapshot.tail@)),
        ..engine
    };
    lemma_lines_leave_the_models(moved, complete_lines(snapshot.tail@), now, catalog);
}

/// Loading the same soundpack twice in a row gives the same soundpack, the
/// same channels in the same order and the same rules in the same order as
/// loading it once; the second load only adds that the window is told to
/// clear its channels first.
pub proof fn lemma_reload_repeats_the_load(engine: EngineView, command: Command)
    requires
        command is ChangeSoundpack,
        rejection(command) is None,
    ensures
        ({
            let once = accepted(engine, command);
            let twice = accepted(once.engine, command);
            &&& once.engine.pack == Some(loaded(command->manifest->0))
            &&& once.engine.wf()
            &&& twice.engine == once.engine
            &&& twice.report.directives == Seq::<ChannelDirective>::empty()
            &&& twice.report.warnings == once.report.warnings
            &&& twice.report.notifications == seq![Notification::ChannelsCleared] + discovered(
                once.engine.pack->0.channels,
            )
        }),
{
    let pack = loaded(command->manifest->0);
    crate::soundpack::lemma_loaded_is_well_formed(command->manifest->0);
    let once = accepted(engine, command);
    lemma_fresh_channels_are_silent(pack.channels, pack.channels.len() as int);
    assert(fresh_channels(pack.channels).subrange(0, pack.channels.len() as int)
        =~= fresh_channels(pack.channels));
}

/// Freshly made channels need no stop: none of them is playing.
pub proof fn lemma_fresh_channels_are_silent(decls: Seq<ChannelDecl>, n: int)
    requires
        0 <= n <= decls.len(),
    ensures
        silenced(fresh_channels(decls).subrange(0, n)) == Seq::<ChannelDirective>::empty(),
    decreases n,
{
    if n > 0 {
        lemma_fresh_channels_are_silent(decls, n - 1);
        assert(fresh_channels(decls).subrange(0, n).drop_last() =~= fresh_channels(decls).subrange(
            0,
            n - 1,
        ));
    }
}

/// The engine after a command: as it was where the command is rejected,
/// and after the command's step where it is not.
pub open spec fn after(engine: EngineView, command: Command) -> EngineView {
    if rejection(command) is Some {
        engine
    } else {
        accepted(engine, command).engine
    }
}

/// The engine after some commands, taken in the order in which they came.
pub open spec fn after_all(engine: EngineView, commands: Seq<Command>) -> EngineView
    decreases commands.len(),
{
    if commands.len() == 0 {
        engine
    } else {
        after(after_all(engine, commands.drop_last()), commands.last())
    }
}

/// What a command answers when it meets the engine `engine`.
pub open spec fn answers(
    engine: EngineView,
    command: Command,
    outcome: Result<Report, LoadError>,
) -> bool {
    match rejection(command) {
        Some(error) => outcome == Err::<Report, LoadError>(error),
        None => outcome matches Ok(report) && report@ == accepted(engine, command).report,
    }
}

/// What each channel stands for, in order.
pub open spec fn channel_views(channels: Seq<Channel>) -> Seq<ChannelView> {
    Seq::new(channels.len(), |i: int| channels[i]@)
}

/// A soundpack with what is derived from it: the channels, which are the
/// soundpack's, and the matcher, which fits it.
struct Loaded {
    pack: SoundPack,
    channels: Vec<Channel>,
    matcher: RuleMatcher,
}

impl Loaded {
    #[verifier::type_invariant]
    spec fn belongs_together(self) -> bool {
        &&& self.pack@.wf()
        &&& matcher_wf(self.matcher@, self.pack@)
        &&& channels_fit(channel_views(self.channels@), self.pack@)
    }
}

/// The engine.
pub struct Engine {
    loaded: Option<Loaded>,
    seed: u64,
    soundpack_path: Option<String>,
    ignore: IgnoreList,
    ignore_path: Option<String>,
    cursor: Option<GamelogCursor>,
}

impl View for Engine {
    type V = EngineView;

    closed spec fn view(&self) -> EngineView {
        EngineView {
            pack: match self.loaded {
                Some(loaded) => Some(loaded.pack@),
                None => None,
            },
            soundpack_path: self.soundpack_path,
            ignore: self.ignore@,
            ignore_path: self.ignore_path,
            cursor: match self.cursor {
                Some(cursor) => Some(cursor@),
                None => None,
            },
            channels: match self.loaded {
                Some(loaded) => channel_views(loaded.channels@),
                None => Seq::empty(),
            },
            matcher: match self.loaded {
                Some(loaded) => loaded.matcher@,
                None => MatcherView { rng: self.seed, states: Seq::empty() },
            },
        }
    }
}

fn address(channel: &String, directives: &Vec<Directive>) -> (out: Vec<ChannelDirective>)
    ensures
        out@ == addressed(*channel, directives@),
{
    let mut out: Vec<ChannelDirective> = Vec::new();
    let mut i: usize = 0;
    while i < directives.len()
        invariant
            i <= directives.len(),
            out@.len() == i,
            forall|k: int|
                0 <= k < i ==> out@[k] == (ChannelDirective {
                    channel: *channel,
                    directive: directives@[k],
                }),
        decreases directives.len() - i,
    {
        out.push(ChannelDirective { channel: channel.clone(), directive: directives[i].duplicate() });
        i += 1;
    }
    assert(out@ =~= addressed(*channel, directives@));
    out
}

fn lists_clip(catalog: &Vec<String>, clip: &String) -> (listed: bool)
    ensures
        listed == catalog_has(catalog@, clip@),
{
    let mut i: usize = 0;
    while i < catalog.len()
        invariant
            i <= catalog.len(),
            forall|k: int| 0 <= k < i ==> (#[trigger] catalog@[k])@ != clip@,
        decreases catalog.len() - i,
    {
        if catalog[i] == *clip {
            return true;
        }
        i += 1;
    }
    false
}

fn dispatch_one(
    channels: &mut Vec<Channel>,
    pack: &SoundPack,
    action: &TriggerAction,
    catalog: &Vec<String>,
) -> (sent: (Vec<ChannelDirective>, Vec<Warning>))
    requires
        channels_fit(channel_views(old(channels)@), pack@),
    ensures
        ({
            let done = dispatch(channel_views(old(channels)@), pack@, *action, catalog@);
            &&& channel_views(final(channels)@) == done.channels
            &&& sent.0@ == done.directives
            &&& sent.1@ == done.warnings
            &&& channels_fit(done.channels, pack@)
        }),
{
    let ghost before = channel_views(channels@);
    let mut warnings: Vec<Warning> = Vec::new();
    let c = match pack.channel_index(action.channel.as_str()) {
        Some(c) => c,
        None => { return (Vec::new(), warnings); },
    };
    proof {
        lemma_first_named(pack@.channels, action.channel@);
    }
    if action.fire {
        if let Some(clip) = &action.clip {
            if !lists_clip(catalog, clip) {
                warnings.push(
                    Warning::ClipMissing { channel: action.channel.clone(), clip: clip.clone() },
                );
                assert(warnings@ =~= seq![
                    Warning::ClipMissing { channel: action.channel, clip: action.clip->0 },
                ]);
                return (Vec::new(), warnings);
            }
        }
    }
    assert(channels@[c as int]@ == before[c as int]);
    let directives = channels[c].apply(action);
    let sent = address(channels[c].name(), &directives);
    assert(channel_views(channels@) =~= before.update(
        c as int,
        on_trigger(before[c as int], *action).channel,
    ));
    (sent, warnings)
}

fn dispatch_each(
    channels: &mut Vec<Channel>,
    pack: &SoundPack,
    actions: &Vec<TriggerAction>,
    catalog: &Vec<String>,
) -> (sent: (Vec<ChannelDirective>, Vec<Warning>))
    requires
        channels_fit(channel_views(old(channels)@), pack@),
    ensures
        ({
            let done = dispatch_all(channel_views(old(channels)@), pack@, actions@, catalog@);
            &&& channel_views(final(channels)@) == done.channels
            &&& sent.0@ == done.directives
            &&& sent.1@ == done.warnings
            &&& channels_fit(done.channels, pack@)
        }),
{
    let ghost start = channel_views(channels@);
    let mut directives: Vec<ChannelDirective> = Vec::new();
    let mut warnings: Vec<Warning> = Vec::new();
    let mut i: usize = 0;
    assert(actions@.subrange(0, 0) =~= Seq::<TriggerAction>::empty());
    while i < actions.len()
        invariant
            i <= actions.len(),
            channels_fit(channel_views(channels@), pack@),
            channel_views(channels@) == dispatch_all(
                start,
                pack@,
                actions@.subrange(0, i as int),
                catalog@,
            ).channels,
            directives@ == dispatch_all(
                start,
                pack@,
                actions@.subrange(0, i as int),
                catalog@,
            ).directives,
            warnings@ == dispatch_all(
                start,
                pack@,
                actions@.subrange(0, i as int),
                catalog@,
            ).warnings,
        decreases actions.len() - i,
    {
        assert(actions@.subrange(0, i + 1).drop_last() =~= actions@.subrange(0, i as int));
        let (mut more, mut warned) = dispatch_one(channels, pack, &actions[i], catalog);
        directives.append(&mut more);
        warnings.append(&mut warned);
        i += 1;
    }
    assert(actions@.subrange(0, i as int) =~= actions@);
    (directives, warnings)
}

fn silence_all(channels: &Vec<Channel>) -> (directives: Vec<ChannelDirective>)
    ensures
        directives@ == silenced(channel_views(channels@)),
{
    let ghost all = channel_views(channels@);
    let mut directives: Vec<ChannelDirective> = Vec::new();
    let mut i: usize = 0;
    assert(all.subrange(0, 0) =~= Seq::<ChannelView>::empty());
    while i < channels.len()
        invariant
            i <= channels.len(),
            all == channel_views(channels@),
            directives@ == silenced(all.subrange(0, i as int)),
        decreases channels.len() - i,
    {
        assert(all.subrange(0, i + 1).drop_last() =~= all.subrange(0, i as int));
        let idle = match channels[i].playback_state() {
            PlaybackState::Idle => true,
            _ => false,
        };
        if !idle {
            directives.push(
                ChannelDirective {
                    channel: channels[i].name().clone(),
                    directive: Directive::Stop { fade_ms: 0 },
                },
            );
        }
        i += 1;
    }
    assert(all.subrange(0, i as int) =~= all);
    directives
}

fn quiet() -> (report: Report)
    ensures
        report@ == silence(),
{
    Report { directives: Vec::new(), notifications: Vec::new(), warnings: Vec::new() }
}

impl Engine {
    /// The engine keeps its invariant by itself: whatever was done to it, it
    /// is well formed.
    pub fn well_formed(&self)
        ensures
            self@.wf(),
    {
        match &self.loaded {
            Some(loaded) => {
                proof {
                    use_type_invariant(loaded);
                }
            },
            None => {},
        }
    }

    /// An engine with no soundpack, an empty ignore list and no gamelog,
    /// whose random source starts from `seed`.
    pub fn new(seed: u64) -> (engine: Engine)
        ensures
            engine@.wf(),
            engine@.pack is None,
            engine@.soundpack_path is None,
            engine@.ignore_path is None,
            engine@.cursor is None,
            engine@.ignore == Seq::<Seq<u8>>::empty(),
            engine@.channels == Seq::<ChannelView>::empty(),
            engine@.matcher == (MatcherView { rng: seed, states: Seq::empty() }),
    {
        Engine {
            loaded: None,
            seed,
            soundpack_path: None,
            ignore: IgnoreList::empty(),
            ignore_path: None,
            cursor: None,
        }
    }

    /// The loaded soundpack, if there is one.
    pub fn soundpack(&self) -> (pack: Option<&SoundPack>)
        ensures
            match pack {
                Some(p) => self@.pack == Some(p@),
                None => self@.pack is None,
            },
    {
        match &self.loaded {
            Some(loaded) => Some(&loaded.pack),
            None => None,
        }
    }

    /// The directory the soundpack was loaded from, if one is loaded.
    pub fn soundpack_path(&self) -> (path: &Option<String>)
        ensures
            *path == self@.soundpack_path,
    {
        &self.soundpack_path
    }

    /// The file the ignore list was loaded from, if one was loaded.
    pub fn ignore_path(&self) -> (path: &Option<String>)
        ensures
            *path == self@.ignore_path,
    {
        &self.ignore_path
    }

    /// The ignore list.
    pub fn ignore_list(&self) -> (list: &IgnoreList)
        ensures
            list@ == self@.ignore,
    {
        &self.ignore
    }

    /// The gamelog cursor, if a gamelog is being tailed.
    pub fn cursor(&self) -> (cursor: Option<&GamelogCursor>)
        ensures
            match cursor {
                Some(c) => self@.cursor == Some(c@),
                None => self@.cursor is None,
            },
    {
        self.cursor.as_ref()
    }

    /// How many channels there are.
    pub fn channel_count(&self) -> (n: usize)
        ensures
            n == self@.channels.len(),
    {
        match &self.loaded {
            Some(loaded) => loaded.channels.len(),
            None => 0,
        }
    }

    /// The channel at position `i`, if there are that many.
    pub fn channel(&self, i: usize) -> (channel: Option<&Channel>)
        ensures
            match channel {
                Some(c) => i < self@.channels.len() && c@ == self@.channels[i as int],
                None => i >= self@.channels.len(),
            },
    {
        match &self.loaded {
            Some(loaded) => if i < loaded.channels.len() {
                Some(&loaded.channels[i])
            } else {
                None
            },
            None => None,
        }
    }

    fn take_soundpack(&mut self, path: String, pack: SoundPack) -> (report: Report)
        ensures
            final(self)@ == with_soundpack(old(self)@, path, pack@).engine,
            report@ == with_soundpack(old(self)@, path, pack@).report,
    {
        let mut notifications: Vec<Notification> = Vec::new();
        let (directives, rng) = match &self.loaded {
            Some(loaded) => {
                notifications.push(Notification::ChannelsCleared);
                (silence_all(&loaded.channels), loaded.matcher.rng_state())
            },
            None => (Vec::new(), self.seed),
        };
        let ghost lead = notifications@;
        assert(lead =~= if old(self)@.pack is Some {
            seq![Notification::ChannelsCleared]
        } else {
            Seq::empty()
        });
        let mut channels: Vec<Channel> = Vec::new();
        let n = pack.channel_count();
        let mut i: usize = 0;
        assert(notifications@ =~= lead + discovered(pack@.channels).subrange(0, 0));
        while i < n
            invariant
                i <= n,
                n == pack@.channels.len(),
                channels@.len() == i,
                notifications@ == lead + discovered(pack@.channels).subrange(0, i as int),
                forall|k: int|
                    0 <= k < i ==> (#[trigger] channels@[k])@ == fresh_channels(pack@.channels)[k],
            decreases n - i,
        {
            let decl = pack.channel(i);
            channels.push(Channel::new(decl.name.clone(), decl.default_volume, decl.fade_ms));
            notifications.push(Notification::ChannelDiscovered { name: decl.name.clone() });
            assert(notifications@ =~= lead + discovered(pack@.channels).subrange(0, i + 1));
            i += 1;
        }
        assert(discovered(pack@.channels).subrange(0, i as int) =~= discovered(pack@.channels));
        assert(channel_views(channels@) =~= fresh_channels(pack@.channels));
        let mut warnings: Vec<Warning> = Vec::new();
        let recorded = pack.warnings();
        let mut w: usize = 0;
        while w < recorded.len()
            invariant
                w <= recorded.len(),
                warnings@ == recorded@.subrange(0, w as int),
            decreases recorded.len() - w,
        {
            warnings.push(recorded[w].duplicate());
            assert(warnings@ =~= recorded@.subrange(0, w + 1));
            w += 1;
        }
        assert(recorded@.subrange(0, w as int) =~= recorded@);
        let matcher = RuleMatcher::new(&pack, rng);
        pack.well_formed();
        self.loaded = Some(Loaded { pack, channels, matcher });
        self.soundpack_path = Some(path);
        Report { directives, notifications, warnings }
    }

    fn take_volume(&mut self, channel: &String, volume: u8) -> (report: Report)
        ensures
            final(self)@ == with_volume(old(self)@, channel@, volume).engine,
            report@ == with_volume(old(self)@, channel@, volume).report,
    {
        let loaded = match self.loaded.take() {
            Some(loaded) => loaded,
            None => { return quiet(); },
        };
        proof {
            use_type_invariant(&loaded);
        }
        let Loaded { pack, mut channels, matcher } = loaded;
        let mut report = quiet();
        if let Some(c) = pack.channel_index(channel.as_str()) {
            proof {
                lemma_first_named(pack@.channels, channel@);
            }
            let ghost before = channel_views(channels@);
            assert(channels@[c as int]@ == before[c as int]);
            let directives = channels[c].set_volume(volume);
            report.directives = address(channels[c].name(), &directives);
            assert(channel_views(channels@) =~= before.update(
                c as int,
                on_volume(before[c as int], volume).channel,
            ));
        }
        self.loaded = Some(Loaded { pack, channels, matcher });
        report
    }

    /// Takes one command from the window.
    ///
    /// A command is rejected when what it asks for could not be loaded; the
    /// engine is then exactly as it was. Otherwise the step it causes is
    /// taken and what that step sends out is returned.
    pub fn handle(&mut self, command: &Command) -> (outcome: Result<Report, LoadError>)
        ensures
            final(self)@.wf(),
            match rejection(*command) {
                Some(error) => outcome == Err::<Report, LoadError>(error) && final(self)@ == old(
                    self,
                )@,
                None => {
                    &&& outcome matches Ok(report)
                    &&& report@ == accepted(old(self)@, *command).report
                    &&& final(self)@ == accepted(old(self)@, *command).engine
                },
            },
    {
        let outcome = match command {
            Command::ChangeGamelog { path, found } => match found {
                None => Err(LoadError::NotFound),
                Some(stat) => {
                    self.cursor = Some(GamelogCursor::new(path.clone(), stat.identity, stat.len));
                    Ok(quiet())
                },
            },
            Command::ChangeSoundpack { path, manifest } => match SoundPack::load(manifest) {
                Err(error) => Err(error),
                Ok(pack) => Ok(self.take_soundpack(path.clone(), pack)),
            },
            Command::ChangeIgnoreList { path, content } => match IgnoreList::load(content) {
                Err(error) => Err(error),
                Ok(list) => {
                    self.ignore = list;
                    self.ignore_path = Some(path.clone());
                    Ok(quiet())
                },
            },
            Command::ChangeVolume { channel, volume } => Ok(self.take_volume(channel, *volume)),
        };
        self.well_formed();
        outcome
    }

    /// Takes the pending commands, strictly in the order in which they came,
    /// and returns one answer for each.
    pub fn drain(&mut self, commands: &Vec<Command>) -> (outcomes: Vec<Result<Report, LoadError>>)
        ensures
            final(self)@.wf(),
            final(self)@ == after_all(old(self)@, commands@),
            outcomes@.len() == commands@.len(),
            forall|k: int|
                0 <= k < commands@.len() ==> answers(
                    after_all(old(self)@, commands@.subrange(0, k)),
                    commands@[k],
                    #[trigger] outcomes@[k],
                ),
    {
        let mut outcomes: Vec<Result<Report, LoadError>> = Vec::new();
        let mut i: usize = 0;
        assert(commands@.subrange(0, 0) =~= Seq::<Command>::empty());
        while i < commands.len()
            invariant
                i <= commands.len(),
                self@ == after_all(old(self)@, commands@.subrange(0, i as int)),
                outcomes@.len() == i,
                forall|k: int|
                    0 <= k < i ==> answers(
                        after_all(old(self)@, commands@.subrange(0, k)),
                        commands@[k],
                        #[trigger] outcomes@[k],
                    ),
            decreases commands.len() - i,
        {
            assert(commands@.subrange(0, i + 1).drop_last() =~= commands@.subrange(0, i as int));
            let outcome = self.handle(&commands[i]);
            outcomes.push(outcome);
            i += 1;
        }
        assert(commands@.subrange(0, i as int) =~= commands@);
        self.well_formed();
        outcomes
    }

    /// Where the gamelog is to be read from, given its identity and length
    /// now; nothing while no gamelog is being tailed.
    pub fn resume_offset(&self, stat: FileStat) -> (from: Option<u64>)
        ensures
            match self@.cursor {
                Some(cursor) => from == Some(resume_from(cursor, stat.identity, stat.len) as u64),
                None => from is None,
            },
    {
        match &self.cursor {
            Some(cursor) => Some(cursor.resume_offset(stat.identity, stat.len)),
            None => None,
        }
    }

    fn process(&mut self, line: &[u8], now: u64, catalog: &Vec<String>) -> (sent: (
        Vec<ChannelDirective>,
        Vec<Warning>,
    ))
        ensures
            final(self)@ == process_line(old(self)@, line@, now, catalog@).engine,
            sent.0@ == process_line(old(self)@, line@, now, catalog@).report.directives,
            sent.1@ == process_line(old(self)@, line@, now, catalog@).report.warnings,
    {
        if self.ignore.matches(line) {
            return (Vec::new(), Vec::new());
        }
        let loaded = match self.loaded.take() {
            Some(loaded) => loaded,
            None => { return (Vec::new(), Vec::new()); },
        };
        proof {
            use_type_invariant(&loaded);
        }
        let Loaded { pack, mut channels, mut matcher } = loaded;
        let actions = matcher.evaluate(line, &pack, now);
        let sent = dispatch_each(&mut channels, &pack, &actions, catalog);
        self.loaded = Some(Loaded { pack, channels, matcher });
        sent
    }

    /// Takes one look at the gamelog and processes its new complete lines at
    /// time `now`, in milliseconds. `catalog` lists the clips that can be
    /// resolved at this moment.
    ///
    /// Where no gamelog is being tailed, no snapshot could be taken, or the
    /// snapshot does not hold the file from the resume offset to its end, the
    /// gamelog counts as unavailable: nothing comes back and the engine is
    /// exactly as it was, to try again at the next poll.
    pub fn poll(&mut self, snapshot: Option<&Snapshot>, now: u64, catalog: &Vec<String>) -> (report:
        Option<Report>)
        ensures
            final(self)@.wf(),
            if readable(old(self)@, snapshot) {
                &&& report matches Some(r)
                &&& r@ == polled(old(self)@, snapshot->0, now, catalog@).report
                &&& final(self)@ == polled(old(self)@, snapshot->0, now, catalog@).engine
                &&& final(self)@.cursor->0.byte_offset <= snapshot->0.len
            } else {
                report is None && final(self)@ == old(self)@
            },
    {
        self.well_formed();
        let lines = match &mut self.cursor {
            None => { return None; },
            Some(cursor) => match cursor.poll(snapshot) {
                Polled::Unavailable => { return None; },
                Polled::Lines(lines) => lines,
            },
        };
        let ghost start = self@;
        let ghost all = contents(lines@);
        let mut directives: Vec<ChannelDirective> = Vec::new();
        let mut warnings: Vec<Warning> = Vec::new();
        let mut i: usize = 0;
        assert(all.subrange(0, 0) =~= Seq::<Seq<u8>>::empty());
        while i < lines.len()
            invariant
                i <= lines.len(),
                all == contents(lines@),
                self@ == process_lines(start, all.subrange(0, i as int), now, catalog@).engine,
                directives@ == process_lines(
                    start,
                    all.subrange(0, i as int),
                    now,
                    catalog@,
                ).report.directives,
                warnings@ == process_lines(
                    start,
                    all.subrange(0, i as int),
                    now,
                    catalog@,
                ).report.warnings,
            decreases lines.len() - i,
        {
            assert(all.subrange(0, i + 1).drop_last() =~= all.subrange(0, i as int));
            assert(all.subrange(0, i + 1).last() == lines@[i as int]@);
            let (mut more, mut warned) = self.process(lines[i].as_slice(), now, catalog);
            directives.append(&mut more);
            warnings.append(&mut warned);
            i += 1;
        }
        assert(all.subrange(0, i as int) =~= all);
        proof {
            lemma_poll_keeps_cursor_in_file(old(self)@, snapshot->0, now, catalog@);
        }
        self.well_formed();
        Some(Report { directives, notifications: Vec::new(), warnings })
    }

    /// Takes the news that playback on the channel called `channel` has
    /// ended.
    pub fn playback_finished(&mut self, channel: &str)
        ensures
            final(self)@ == with_finished(old(self)@, channel@),
            final(self)@.wf(),
    {
        let loaded = match self.loaded.take() {
            Some(loaded) => loaded,
            None => { return ; },
        };
        proof {
            use_type_invariant(&loaded);
        }
        let Loaded { pack, mut channels, matcher } = loaded;
        if let Some(c) = pack.channel_index(channel) {
            proof {
                lemma_first_named(pack@.channels, channel@);
            }
            let ghost before = channel_views(channels@);
            assert(channels@[c as int]@ == before[c as int]);
            channels[c].playback_finished();
            assert(channel_views(channels@) =~= before.update(
                c as int,
                on_finished(before[c as int]),
            ));
        }
        self.loaded = Some(Loaded { pack, channels, matcher });
        self.well_formed();
    }
}

} // verus!
