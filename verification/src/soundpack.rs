//! The soundpack model: channels, rules and clip pools, built wholesale from
//! a manifest and never changed afterwards.

use vstd::prelude::*;
use crate::error::{LoadError, Warning};
use crate::pattern::{pattern_usable, Pattern, PatternView};

verus! {

/// The probability that always fires, in parts per million.
pub const FULL_PROBABILITY: u32 = 1_000_000;

/// The loudest volume a channel can have.
pub const MAX_VOLUME: u8 = 100;

/// What a firing rule asks of its channel.
#[derive(Clone, Copy, Debug, PartialEq, Eq, Structural)]
pub enum PlayMode {
    /// Play the clip once.
    OneShot,
    /// Play the clip over and over.
    LoopStart,
    /// Stop what is looping.
    LoopStop,
}

/// How a rule picks one clip of its pool.
#[derive(Clone, Copy, Debug, PartialEq, Eq, Structural)]
pub enum SelectionPolicy {
    /// Any clip not yet played in this cycle, with equal chance; when all
    /// have been played a new cycle begins.
    RandomUniform,
    /// The clips in pool order, round and round.
    Sequential,
}

/// A channel as a manifest declares it, and as a soundpack holds it.
#[derive(Debug)]
pub struct ChannelDecl {
    pub name: String,
    /// The volume the channel starts with, 0 to 100.
    pub default_volume: u8,
    /// Whether a rule on this channel that names no play mode starts a loop.
    pub loops_by_default: bool,
    /// How many clips the channel was declared to carry at once.
    pub concurrency_limit: u32,
    /// How long a stop on this channel fades, in milliseconds.
    pub fade_ms: u32,
}

/// A rule as a manifest declares it.
#[derive(Debug)]
pub struct RuleDecl {
    pub pattern: Pattern,
    /// The name of the channel the rule plays on.
    pub channel: String,
    pub clips: Vec<String>,
    pub policy: SelectionPolicy,
    /// Absent: the channel's default decides.
    pub play_mode: Option<PlayMode>,
    /// In parts per million. Absent: the rule always fires.
    pub probability: Option<u32>,
    /// Absent: the rule may fire again at once.
    pub timeout_ms: Option<u64>,
}

/// What a soundpack's manifest declares, in file order.
#[derive(Debug)]
pub struct Manifest {
    pub channels: Vec<ChannelDecl>,
    pub rules: Vec<RuleDecl>,
}

/// What looking for a soundpack's manifest gave.
#[derive(Debug)]
pub enum ManifestRead {
    /// The directory or its manifest is not there.
    Missing,
    /// The manifest is there but could not be read this time.
    Unavailable,
    /// The manifest was read but is not a manifest.
    Unparseable,
    /// The manifest's declarations.
    Parsed(Manifest),
}

/// A rule of a loaded soundpack.
#[derive(Debug)]
pub struct Rule {
    pub pattern: Pattern,
    /// The position of the rule's channel among the soundpack's channels.
    pub channel: usize,
    pub clips: Vec<String>,
    pub policy: SelectionPolicy,
    pub play_mode: PlayMode,
    /// In parts per million, at most [`FULL_PROBABILITY`].
    pub probability: u32,
    pub timeout_ms: u64,
}

/// What a rule stands for.
pub struct RuleView {
    pub pattern: PatternView,
    pub channel: usize,
    pub clips: Seq<String>,
    pub policy: SelectionPolicy,
    pub play_mode: PlayMode,
    pub probability: u32,
    pub timeout_ms: u64,
}

impl View for Rule {
    type V = RuleView;

    open spec fn view(&self) -> RuleView {
        RuleView {
            pattern: self.pattern@,
            channel: self.channel,
            clips: self.clips@,
            policy: self.policy,
            play_mode: self.play_mode,
            probability: self.probability,
            timeout_ms: self.timeout_ms,
        }
    }
}

/// What each rule stands for, in order.
pub open spec fn rule_views(rules: Seq<Rule>) -> Seq<RuleView> {
    Seq::new(rules.len(), |i: int| rules[i]@)
}

/// What a soundpack stands for.
pub struct SoundPackView {
    pub channels: Seq<ChannelDecl>,
    pub rules: Seq<RuleView>,
    pub warnings: Seq<Warning>,
}

/// The position of the first channel called `name`, if there is one.
pub open spec fn first_named(channels: Seq<ChannelDecl>, name: Seq<char>) -> Option<int>
    decreases channels.len(),
{
    if channels.len() == 0 {
        None
    } else {
        match first_named(channels.drop_last(), name) {
            Some(i) => Some(i),
            None => if channels.last().name@ == name {
                Some(channels.len() - 1)
            } else {
                None
            },
        }
    }
}

/// A rule can work among `channel_count` channels: its channel exists, its
/// probability is one, and unless it only stops a loop it has a clip to play.
pub open spec fn rule_wf(rule: RuleView, channel_count: nat) -> bool {
    &&& rule.channel < channel_count
    &&& rule.probability <= FULL_PROBABILITY
    &&& rule.play_mode != PlayMode::LoopStop ==> rule.clips.len() > 0
}

impl SoundPackView {
    /// The invariant of a soundpack: channel names are not empty and differ
    /// from one another, volumes are at most 100, and every rule can work
    /// among the channels.
    pub open spec fn wf(self) -> bool {
        &&& forall|i: int|
            0 <= i < self.channels.len() ==> {
                &&& (#[trigger] self.channels[i]).name@.len() > 0
                &&& self.channels[i].default_volume <= MAX_VOLUME
            }
        &&& forall|i: int, j: int|
            0 <= i < j < self.channels.len() ==> (#[trigger] self.channels[i]).name@ != (
            #[trigger] self.channels[j]).name@
        &&& forall|i: int|
            0 <= i < self.rules.len() ==> rule_wf(#[trigger] self.rules[i], self.channels.len())
    }
}

/// A declared channel can join those already accepted: it has a name that
/// none of them bears, and a volume of at most 100.
pub open spec fn channel_acceptable(accepted: Seq<ChannelDecl>, decl: ChannelDecl) -> bool {
    &&& decl.name@.len() > 0
    &&& decl.default_volume <= MAX_VOLUME
    &&& first_named(accepted, decl.name@) is None
}

/// The channels of a soundpack: the declared ones that are acceptable, in
/// declaration order.
pub open spec fn accepted_channels(decls: Seq<ChannelDecl>) -> Seq<ChannelDecl>
    decreases decls.len(),
{
    if decls.len() == 0 {
        Seq::empty()
    } else {
        let before = accepted_channels(decls.drop_last());
        if channel_acceptable(before, decls.last()) {
            before.push(decls.last())
        } else {
            before
        }
    }
}

/// One warning for each declared channel that was not accepted.
pub open spec fn channel_warnings(decls: Seq<ChannelDecl>) -> Seq<Warning>
    decreases decls.len(),
{
    if decls.len() == 0 {
        Seq::empty()
    } else {
        let before = channel_warnings(decls.drop_last());
        if channel_acceptable(accepted_channels(decls.drop_last()), decls.last()) {
            before
        } else {
            before.push(Warning::MalformedChannel { position: (decls.len() - 1) as usize })
        }
    }
}

/// Every clip has a name, and a rule that plays has at least one clip.
pub open spec fn clips_usable(clips: Seq<String>, play_mode: PlayMode) -> bool {
    &&& play_mode != PlayMode::LoopStop ==> clips.len() > 0
    &&& forall|i: int| 0 <= i < clips.len() ==> (#[trigger] clips[i])@.len() > 0
}

/// The play mode of a declared rule: its own, or the one its channel gives
/// to rules that name none.
pub open spec fn resolved_mode(declared: Option<PlayMode>, loops_by_default: bool) -> PlayMode {
    match declared {
        Some(mode) => mode,
        None => if loops_by_default {
            PlayMode::LoopStart
        } else {
            PlayMode::OneShot
        },
    }
}

/// The probability of a declared rule: its own, or certainty.
pub open spec fn resolved_probability(declared: Option<u32>) -> u32 {
    match declared {
        Some(p) => p,
        None => FULL_PROBABILITY,
    }
}

/// The timeout of a declared rule: its own, or none.
pub open spec fn resolved_timeout(declared: Option<u64>) -> u64 {
    match declared {
        Some(t) => t,
        None => 0,
    }
}

/// The rule that a declaration gives among `channels`, or `None` where the
/// declaration is malformed: its channel does not exist, its pattern cannot
/// be used, its probability exceeds one, or its clips are not usable.
pub open spec fn resolve_rule(channels: Seq<ChannelDecl>, decl: RuleDecl) -> Option<RuleView> {
    match first_named(channels, decl.channel@) {
        None => None,
        Some(c) => {
            let mode = resolved_mode(decl.play_mode, channels[c].loops_by_default);
            let probability = resolved_probability(decl.probability);
            if pattern_usable(decl.pattern@) && probability <= FULL_PROBABILITY && clips_usable(
                decl.clips@,
                mode,
            ) {
                Some(
                    RuleView {
                        pattern: decl.pattern@,
                        channel: c as usize,
                        clips: decl.clips@,
                        policy: decl.policy,
                        play_mode: mode,
                        probability,
                        timeout_ms: resolved_timeout(decl.timeout_ms),
                    },
                )
            } else {
                None
            }
        },
    }
}

/// The rules of a soundpack: what the well-formed declarations give, in
/// declaration order.
pub open spec fn accepted_rules(channels: Seq<ChannelDecl>, decls: Seq<RuleDecl>) -> Seq<RuleView>
    decreases decls.len(),
{
    if decls.len() == 0 {
        Seq::empty()
    } else {
        let before = accepted_rules(channels, decls.drop_last());
        match resolve_rule(channels, decls.last()) {
            Some(rule) => before.push(rule),
            None => before,
        }
    }
}

/// One warning for each declared rule that is malformed.
pub open spec fn rule_warnings(channels: Seq<ChannelDecl>, decls: Seq<RuleDecl>) -> Seq<Warning>
    decreases decls.len(),
{
    if decls.len() == 0 {
        Seq::empty()
    } else {
        let before = rule_warnings(channels, decls.drop_last());
        match resolve_rule(channels, decls.last()) {
            Some(_) => before,
            None => before.push(Warning::MalformedRule { position: (decls.len() - 1) as usize }),
        }
    }
}

/// The soundpack that a manifest gives.
pub open spec fn loaded(manifest: Manifest) -> SoundPackView {
    let channels = accepted_channels(manifest.channels@);
    SoundPackView {
        channels,
        rules: accepted_rules(channels, manifest.rules@),
        warnings: channel_warnings(manifest.channels@) + rule_warnings(channels, manifest.rules@),
    }
}

/// What `first_named` finds is the first channel of that name; where it
/// finds none, no channel bears the name.
pub proof fn lemma_first_named(channels: Seq<ChannelDecl>, name: Seq<char>)
    ensures
        match first_named(channels, name) {
            Some(i) => {
                &&& 0 <= i < channels.len()
                &&& channels[i].name@ == name
                &&& forall|j: int| 0 <= j < i ==> (#[trigger] channels[j]).name@ != name
            },
            None => forall|j: int| 0 <= j < channels.len() ==> (#[trigger] channels[j]).name@ != name,
        },
    decreases channels.len(),
{
    if channels.len() > 0 {
        let head = channels.drop_last();
        lemma_first_named(head, name);
        assert forall|j: int| 0 <= j < head.len() implies head[j] == channels[j] by {}
        match first_named(head, name) {
            Some(i) => {
                assert forall|j: int| 0 <= j < i implies (#[trigger] channels[j]).name@ != name by {
                    assert(head[j] == channels[j]);
                }
            },
            None => {
                assert forall|j: int| 0 <= j < head.len() implies (#[trigger] channels[j]).name@
                    != name by {
                    assert(head[j] == channels[j]);
                }
            },
        }
    }
}

/// The accepted channels have names that are not empty and differ from one
/// another, and volumes of at most 100.
pub proof fn lemma_accepted_channels(decls: Seq<ChannelDecl>)
    ensures
        ({
            let channels = accepted_channels(decls);
            &&& channels.len() <= decls.len()
            &&& forall|i: int|
                0 <= i < channels.len() ==> {
                    &&& (#[trigger] channels[i]).name@.len() > 0
                    &&& channels[i].default_volume <= MAX_VOLUME
                }
            &&& forall|i: int, j: int|
                0 <= i < j < channels.len() ==> (#[trigger] channels[i]).name@ != (
                #[trigger] channels[j]).name@
        }),
    decreases decls.len(),
{
    if decls.len() > 0 {
        let before = accepted_channels(decls.drop_last());
        lemma_accepted_channels(decls.drop_last());
        lemma_first_named(before, decls.last().name@);
    }
}

/// Every accepted rule can work among the channels and has a usable pattern.
pub proof fn lemma_accepted_rules(channels: Seq<ChannelDecl>, decls: Seq<RuleDecl>)
    ensures
        accepted_rules(channels, decls).len() <= decls.len(),
        forall|i: int|
            0 <= i < accepted_rules(channels, decls).len() ==> {
                &&& rule_wf(#[trigger] accepted_rules(channels, decls)[i], channels.len())
                &&& pattern_usable(accepted_rules(channels, decls)[i].pattern)
            },
    decreases decls.len(),
{
    if decls.len() > 0 {
        lemma_accepted_rules(channels, decls.drop_last());
        lemma_first_named(channels, decls.last().channel@);
    }
}

/// Whatever a manifest declares, the soundpack it gives keeps the invariant:
/// in particular every rule refers to a channel that exists.
pub proof fn lemma_loaded_is_well_formed(manifest: Manifest)
    ensures
        loaded(manifest).wf(),
        forall|i: int|
            0 <= i < loaded(manifest).rules.len() ==> pattern_usable(
                (#[trigger] loaded(manifest).rules[i]).pattern,
            ),
{
    lemma_accepted_channels(manifest.channels@);
    lemma_accepted_rules(accepted_channels(manifest.channels@), manifest.rules@);
}

/// In a well-formed soundpack a name leads to its channel and to no other:
/// looking for the name of the channel at position `c` finds position `c`.
pub proof fn lemma_name_finds_its_channel(pack: SoundPackView, c: int)
    requires
        pack.wf(),
        0 <= c < pack.channels.len(),
    ensures
        first_named(pack.channels, pack.channels[c].name@) == Some(c),
{
    lemma_first_named(pack.channels, pack.channels[c].name@);
}

/// A loaded soundpack. It is built in one piece and never changed.
pub struct SoundPack {
    channels: Vec<ChannelDecl>,
    rules: Vec<Rule>,
    warnings: Vec<Warning>,
}

impl View for SoundPack {
    type V = SoundPackView;

    closed spec fn view(&self) -> SoundPackView {
        SoundPackView {
            channels: self.channels@,
            rules: rule_views(self.rules@),
            warnings: self.warnings@,
        }
    }
}

fn copy_names(names: &Vec<String>) -> (copy: Vec<String>)
    ensures
        copy@ == names@,
{
    let mut copy: Vec<String> = Vec::new();
    let mut i: usize = 0;
    while i < names.len()
        invariant
            i <= names.len(),
            copy@ == names@.subrange(0, i as int),
        decreases names.len() - i,
    {
        copy.push(names[i].clone());
        assert(copy@ =~= names@.subrange(0, i + 1));
        i += 1;
    }
    assert(names@.subrange(0, i as int) =~= names@);
    copy
}

fn find_named(channels: &Vec<ChannelDecl>, name: &String) -> (found: Option<usize>)
    ensures
        match found {
            Some(i) => first_named(channels@, name@) == Some(i as int),
            None => first_named(channels@, name@) is None,
        },
{
    let mut found: Option<usize> = None;
    let mut i: usize = 0;
    assert(channels@.subrange(0, 0) =~= Seq::<ChannelDecl>::empty());
    while i < channels.len()
        invariant
            i <= channels.len(),
            match found {
                Some(k) => first_named(channels@.subrange(0, i as int), name@) == Some(k as int),
                None => first_named(channels@.subrange(0, i as int), name@) is None,
            },
        decreases channels.len() - i,
    {
        assert(channels@.subrange(0, i + 1).drop_last() =~= channels@.subrange(0, i as int));
        if found.is_none() && channels[i].name == *name {
            found = Some(i);
        }
        i += 1;
    }
    assert(channels@.subrange(0, i as int) =~= channels@);
    found
}

fn clips_are_usable(clips: &Vec<String>, play_mode: PlayMode) -> (usable: bool)
    ensures
        usable == clips_usable(clips@, play_mode),
{
    if clips.len() == 0 {
        return match play_mode {
            PlayMode::LoopStop => true,
            _ => false,
        };
    }
    let mut i: usize = 0;
    while i < clips.len()
        invariant
            i <= clips.len(),
            clips.len() > 0,
            forall|j: int| 0 <= j < i ==> (#[trigger] clips@[j])@.len() > 0,
        decreases clips.len() - i,
    {
        if clips[i].as_str().is_empty() {
            return false;
        }
        i += 1;
    }
    true
}

fn resolve(channels: &Vec<ChannelDecl>, decl: &RuleDecl) -> (resolved: Option<Rule>)
    ensures
        match resolved {
            Some(rule) => resolve_rule(channels@, *decl) == Some(rule@),
            None => resolve_rule(channels@, *decl) is None,
        },
{
    let c = match find_named(channels, &decl.channel) {
        Some(c) => c,
        None => { return None; },
    };
    proof {
        lemma_first_named(channels@, decl.channel@);
    }
    let play_mode = match decl.play_mode {
        Some(mode) => mode,
        None => if channels[c].loops_by_default {
            PlayMode::LoopStart
        } else {
            PlayMode::OneShot
        },
    };
    let probability = match decl.probability {
        Some(p) => p,
        None => FULL_PROBABILITY,
    };
    let timeout_ms = match decl.timeout_ms {
        Some(t) => t,
        None => 0,
    };
    if decl.pattern.is_usable() && probability <= FULL_PROBABILITY && clips_are_usable(
        &decl.clips,
        play_mode,
    ) {
        Some(
            Rule {
                pattern: decl.pattern.duplicate(),
                channel: c,
                clips: copy_names(&decl.clips),
                policy: decl.policy,
                play_mode,
                probability,
                timeout_ms,
            },
        )
    } else {
        None
    }
}

impl SoundPack {
    #[verifier::type_invariant]
    spec fn keeps_invariant(self) -> bool {
        self@.wf()
    }

    /// A soundpack keeps its invariant by itself: however it was loaded, it
    /// is well formed.
    pub fn well_formed(&self)
        ensures
            self@.wf(),
    {
        proof {
            use_type_invariant(self);
        }
    }

    /// Builds a soundpack from what looking for its manifest gave.
    ///
    /// A manifest that is not there, could not be read or is no manifest
    /// fails the load as a whole. A parsed manifest always loads: a declared
    /// channel or rule that is malformed is skipped with a warning, and the
    /// others make up the soundpack in declaration order.
    pub fn load(source: &ManifestRead) -> (outcome: Result<SoundPack, LoadError>)
        ensures
            match *source {
                ManifestRead::Missing => outcome matches Err(e) && e == LoadError::NotFound,
                ManifestRead::Unavailable => outcome matches Err(e) && e == LoadError::Unavailable,
                ManifestRead::Unparseable => outcome matches Err(e) && e == LoadError::Malformed,
                ManifestRead::Parsed(manifest) => {
                    &&& outcome matches Ok(pack)
                    &&& pack@ == loaded(manifest)
                    &&& pack@.wf()
                    &&& forall|i: int|
                        0 <= i < pack@.rules.len() ==> pattern_usable(
                            (#[trigger] pack@.rules[i]).pattern,
                        )
                },
            },
    {
        let manifest = match source {
            ManifestRead::Missing => { return Err(LoadError::NotFound); },
            ManifestRead::Unavailable => { return Err(LoadError::Unavailable); },
            ManifestRead::Unparseable => { return Err(LoadError::Malformed); },
            ManifestRead::Parsed(manifest) => manifest,
        };
        let mut channels: Vec<ChannelDecl> = Vec::new();
        let mut warnings: Vec<Warning> = Vec::new();
        let ghost declared = manifest.channels@;
        let mut i: usize = 0;
        assert(declared.subrange(0, 0) =~= Seq::<ChannelDecl>::empty());
        while i < manifest.channels.len()
            invariant
                i <= manifest.channels.len(),
                declared == manifest.channels@,
                channels@ == accepted_channels(declared.subrange(0, i as int)),
                warnings@ == channel_warnings(declared.subrange(0, i as int)),
            decreases manifest.channels.len() - i,
        {
            assert(declared.subrange(0, i + 1).drop_last() =~= declared.subrange(0, i as int));
            let decl = &manifest.channels[i];
            let taken = find_named(&channels, &decl.name);
            if !decl.name.as_str().is_empty() && decl.default_volume <= MAX_VOLUME
                && taken.is_none() {
                channels.push(
                    ChannelDecl {
                        name: decl.name.clone(),
                        default_volume: decl.default_volume,
                        loops_by_default: decl.loops_by_default,
                        concurrency_limit: decl.concurrency_limit,
                        fade_ms: decl.fade_ms,
                    },
                );
            } else {
                warnings.push(Warning::MalformedChannel { position: i });
            }
            i += 1;
        }
        assert(declared.subrange(0, i as int) =~= declared);
        let ghost channel_part = warnings@;
        let ghost wanted = manifest.rules@;
        let mut rules: Vec<Rule> = Vec::new();
        let mut k: usize = 0;
        assert(wanted.subrange(0, 0) =~= Seq::<RuleDecl>::empty());
        assert(rule_views(rules@) =~= accepted_rules(channels@, wanted.subrange(0, 0)));
        assert(warnings@ =~= channel_part + rule_warnings(channels@, wanted.subrange(0, 0)));
        while k < manifest.rules.len()
            invariant
                k <= manifest.rules.len(),
                wanted == manifest.rules@,
                rule_views(rules@) == accepted_rules(channels@, wanted.subrange(0, k as int)),
                warnings@ == channel_part + rule_warnings(channels@, wanted.subrange(0, k as int)),
            decreases manifest.rules.len() - k,
        {
            assert(wanted.subrange(0, k + 1).drop_last() =~= wanted.subrange(0, k as int));
            let ghost before = rule_views(rules@);
            match resolve(&channels, &manifest.rules[k]) {
                Some(rule) => {
                    rules.push(rule);
                    assert(rule_views(rules@) =~= before.push(rule@));
                },
                None => {
                    warnings.push(Warning::MalformedRule { position: k });
                    assert(warnings@ =~= channel_part + rule_warnings(
                        channels@,
                        wanted.subrange(0, k + 1),
                    ));
                },
            }
            k += 1;
        }
        assert(wanted.subrange(0, k as int) =~= wanted);
        proof {
            lemma_loaded_is_well_formed(*manifest);
        }
        Ok(SoundPack { channels, rules, warnings })
    }

    /// How many channels the soundpack has.
    pub fn channel_count(&self) -> (n: usize)
        ensures
            n == self@.channels.len(),
    {
        self.channels.len()
    }

    /// The channel at position `i`, in declaration order.
    pub fn channel(&self, i: usize) -> (channel: &ChannelDecl)
        requires
            i < self@.channels.len(),
        ensures
            *channel == self@.channels[i as int],
    {
        &self.channels[i]
    }

    /// How many rules the soundpack has.
    pub fn rule_count(&self) -> (n: usize)
        ensures
            n == self@.rules.len(),
    {
        self.rules.len()
    }

    /// The rule at position `i`, in declaration order.
    pub fn rule(&self, i: usize) -> (rule: &Rule)
        requires
            i < self@.rules.len(),
        ensures
            rule@ == self@.rules[i as int],
    {
        &self.rules[i]
    }

    /// The warnings recorded while loading, channels first.
    pub fn warnings(&self) -> (warnings: &Vec<Warning>)
        ensures
            warnings@ == self@.warnings,
    {
        &self.warnings
    }

    /// The position of the channel called `name`, if the soundpack has one.
    pub fn channel_index(&self, name: &str) -> (found: Option<usize>)
        ensures
            match found {
                Some(i) => first_named(self@.channels, name@) == Some(i as int),
                None => first_named(self@.channels, name@) is None,
            },
    {
        let owned = name.to_owned();
        find_named(&self.channels, &owned)
    }
}

} // verus!
