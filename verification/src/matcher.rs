//! The rule matcher: which rules a log line sets off, and what each of them
//! asks of its channel.
//!
//! Rules are tried in declaration order. On each channel only the first rule
//! that recognises the line counts; rules on different channels do not stand
//! in one another's way. A rule that counts is then gated by its timeout and
//! by a draw against its probability, and a rule that fires picks a clip.

use vstd::prelude::*;
use crate::pattern::pattern_matches;
use crate::soundpack::{rule_wf, PlayMode, Rule, RuleView, SelectionPolicy, SoundPack};
use crate::soundpack::{SoundPackView, FULL_PROBABILITY};

verus! {

/// The generator's state after one step.
#[verifier::opaque]
pub open spec fn rng_advance(state: u64) -> u64 {
    state.wrapping_mul(6364136223846793005).wrapping_add(1442695040888963407)
}

/// The number that one step from `state` gives: the upper half of the next
/// state.
pub open spec fn rng_output(state: u64) -> u64 {
    rng_advance(state) / 0x1_0000_0000
}

/// A seeded pseudo-random generator. The same seed gives the same numbers.
#[derive(Debug)]
pub struct Rng {
    state: u64,
}

impl View for Rng {
    type V = u64;

    closed spec fn view(&self) -> u64 {
        self.state
    }
}

impl Rng {
    /// The generator that starts from `seed`.
    pub fn new(seed: u64) -> (rng: Rng)
        ensures
            rng@ == seed,
    {
        Rng { state: seed }
    }

    /// The next number, below 2^32.
    pub fn next(&mut self) -> (number: u64)
        ensures
            number == rng_output(old(self)@),
            final(self)@ == rng_advance(old(self)@),
            number < 0x1_0000_0000,
    {
        proof {
            reveal(rng_advance);
        }
        self.state = self.state.wrapping_mul(6364136223846793005).wrapping_add(
            1442695040888963407,
        );
        self.state / 0x1_0000_0000
    }
}

/// The resolved decision of one rule for one line.
#[derive(Debug, PartialEq, Eq)]
pub struct TriggerAction {
    /// The name of the channel the rule plays on.
    pub channel: String,
    /// The clip the rule picked; none where it does not fire or only stops a
    /// loop.
    pub clip: Option<String>,
    pub play_mode: PlayMode,
    /// Whether the rule passed its timeout and its probability.
    pub fire: bool,
}

/// What a rule remembers between lines.
#[derive(Debug)]
pub struct RuleState {
    last_fired: Option<u64>,
    next: usize,
    bag: Vec<usize>,
}

/// What a rule's memory stands for.
pub struct RuleStateView {
    /// When the rule last fired, in milliseconds.
    pub last_fired: Option<u64>,
    /// The clip a sequential pool plays next.
    pub next: usize,
    /// The clips a random pool has not played yet in this cycle; empty
    /// between cycles.
    pub bag: Seq<usize>,
}

impl View for RuleState {
    type V = RuleStateView;

    closed spec fn view(&self) -> RuleStateView {
        RuleStateView { last_fired: self.last_fired, next: self.next, bag: self.bag@ }
    }
}

/// What each rule's memory stands for, in order.
pub open spec fn state_views(states: Seq<RuleState>) -> Seq<RuleStateView> {
    Seq::new(states.len(), |i: int| states[i]@)
}

/// The memory of a rule that has never fired.
pub open spec fn fresh_state() -> RuleStateView {
    RuleStateView { last_fired: None, next: 0, bag: Seq::empty() }
}

/// No clip stands twice in the bag.
pub open spec fn no_repeats(bag: Seq<usize>) -> bool {
    forall|a: int, b: int| 0 <= a < b < bag.len() ==> bag[a] != bag[b]
}

/// The memory points into the rule's pool, and the bag holds no clip twice.
pub open spec fn state_wf(state: RuleStateView, rule: RuleView) -> bool {
    &&& rule.clips.len() > 0 ==> state.next < rule.clips.len()
    &&& forall|k: int| 0 <= k < state.bag.len() ==> #[trigger] state.bag[k] < rule.clips.len()
    &&& no_repeats(state.bag)
}

/// The rule fired less than `timeout_ms` ago.
pub open spec fn suppressed(last_fired: Option<u64>, timeout_ms: u64, now: u64) -> bool {
    last_fired matches Some(then) && then <= now && now - then < timeout_ms
}

/// The draw against a probability that the generator gives from `rng`: a
/// number of parts per million, below one million.
pub open spec fn draw_of(rng: u64) -> u32 {
    (rng_output(rng) % (FULL_PROBABILITY as u64)) as u32
}

/// A rule fires when its timeout has passed and the draw falls below its
/// probability.
pub open spec fn fires(rule: RuleView, state: RuleStateView, rng: u64, now: u64) -> bool {
    !suppressed(state.last_fired, rule.timeout_ms, now) && draw_of(rng) < rule.probability
}

/// Every clip of a pool of `n`, in pool order.
pub open spec fn full_bag(n: nat) -> Seq<usize> {
    Seq::new(n, |i: int| i as usize)
}

/// What picking a clip comes to.
pub struct Picked {
    pub clip: Option<String>,
    pub next: usize,
    pub bag: Seq<usize>,
    pub rng: u64,
}

/// The position after `next` in a pool of `n` clips, going round.
pub open spec fn following(next: usize, n: nat) -> usize {
    if next + 1 >= n {
        0
    } else {
        (next + 1) as usize
    }
}

/// The clip that a firing rule picks, with what the pick leaves behind.
///
/// A rule that only stops a loop picks none. A sequential pool gives its
/// next clip and moves on, going round. A random pool starts a new cycle
/// with every clip when none is left in this one, makes one draw among the
/// clips left, and takes the drawn one out.
pub open spec fn pick_clip(rule: RuleView, state: RuleStateView, rng: u64) -> Picked {
    if rule.play_mode == PlayMode::LoopStop || rule.clips.len() == 0 {
        Picked { clip: None, next: state.next, bag: state.bag, rng }
    } else if rule.policy == SelectionPolicy::Sequential {
        Picked {
            clip: Some(rule.clips[state.next as int]),
            next: following(state.next, rule.clips.len()),
            bag: state.bag,
            rng,
        }
    } else {
        let bag = if state.bag.len() == 0 {
            full_bag(rule.clips.len())
        } else {
            state.bag
        };
        let pick = rng_output(rng) as int % (bag.len() as int);
        Picked {
            clip: Some(rule.clips[bag[pick] as int]),
            next: state.next,
            bag: bag.remove(pick),
            rng: rng_advance(rng),
        }
    }
}

/// What one rule that counts for a line comes to.
pub struct Fired {
    pub action: TriggerAction,
    pub state: RuleStateView,
    pub rng: u64,
}

/// The decision of a rule that counts for a line, with what it leaves
/// behind.
///
/// One draw is made against the probability. A rule that does not fire keeps
/// its memory and picks no clip. A rule that fires notes the time and picks
/// its clip.
pub open spec fn fire_rule(
    rule: RuleView,
    channel: String,
    state: RuleStateView,
    rng: u64,
    now: u64,
) -> Fired {
    let after_draw = rng_advance(rng);
    if !fires(rule, state, rng, now) {
        Fired {
            action: TriggerAction { channel, clip: None, play_mode: rule.play_mode, fire: false },
            state,
            rng: after_draw,
        }
    } else {
        let picked = pick_clip(rule, state, after_draw);
        Fired {
            action: TriggerAction {
                channel,
                clip: picked.clip,
                play_mode: rule.play_mode,
                fire: true,
            },
            state: RuleStateView { last_fired: Some(now), next: picked.next, bag: picked.bag },
            rng: picked.rng,
        }
    }
}

/// The clips that a random pool may draw from: those left in this cycle,
/// or all of them when a new cycle begins.
pub open spec fn bag_in_play(rule: RuleView, state: RuleStateView) -> Seq<usize> {
    if state.bag.len() == 0 {
        full_bag(rule.clips.len())
    } else {
        state.bag
    }
}

/// A random pool draws without replacement: the clip it picks is one of
/// those in play, and afterwards exactly the others are left, so that no
/// clip comes a second time before every clip of the pool has come once.
pub proof fn lemma_random_pick_leaves_the_bag(rule: RuleView, state: RuleStateView, rng: u64)
    requires
        state_wf(state, rule),
        rule.play_mode != PlayMode::LoopStop,
        0 < rule.clips.len() <= usize::MAX,
        rule.policy == SelectionPolicy::RandomUniform,
    ensures
        ({
            let before = bag_in_play(rule, state);
            let picked = pick_clip(rule, state, rng);
            &&& no_repeats(before)
            &&& 0 < before.len()
            &&& picked.bag.len() == before.len() - 1
            &&& no_repeats(picked.bag)
            &&& exists|k: int|
                0 <= k < before.len() && picked.clip == Some(rule.clips[#[trigger] before[k] as int])
                    && !picked.bag.contains(before[k]) && picked.bag == before.remove(k)
            &&& forall|j: int|
                0 <= j < picked.bag.len() ==> before.contains(#[trigger] picked.bag[j])
        }),
{
    let before = bag_in_play(rule, state);
    let pick = rng_output(rng) as int % (before.len() as int);
    let after = before.remove(pick);
    assert(pick_clip(rule, state, rng).bag == after);
    assert(no_repeats(before));
    assert forall|a: int, b: int| 0 <= a < b < after.len() implies after[a] != after[b] by {
        let x = if a < pick { a } else { a + 1 };
        let y = if b < pick { b } else { b + 1 };
        assert(after[a] == before[x] && after[b] == before[y]);
    }
    assert forall|j: int| 0 <= j < after.len() implies before.contains(#[trigger] after[j]) by {
        let x = if j < pick { j } else { j + 1 };
        assert(after[j] == before[x]);
    }
    assert(!after.contains(before[pick])) by {
        if after.contains(before[pick]) {
            let j = choose|j: int| 0 <= j < after.len() && after[j] == before[pick];
            let x = if j < pick { j } else { j + 1 };
            assert(after[j] == before[x]);
        }
    }
    let picked = pick_clip(rule, state, rng);
    assert(0 <= pick < before.len() && picked.clip == Some(rule.clips[before[pick] as int])
        && !picked.bag.contains(before[pick]) && picked.bag == before.remove(pick));
}

/// A rule with probability zero never fires, whatever the draw and the time.
pub proof fn lemma_zero_probability_never_fires(
    rule: RuleView,
    channel: String,
    state: RuleStateView,
    rng: u64,
    now: u64,
)
    requires
        rule.probability == 0,
    ensures
        !fires(rule, state, rng, now),
        !fire_rule(rule, channel, state, rng, now).action.fire,
        fire_rule(rule, channel, state, rng, now).state == state,
{
}

/// A rule with probability one fires whatever the draw, unless its timeout
/// holds it back.
pub proof fn lemma_full_probability_always_fires(
    rule: RuleView,
    channel: String,
    state: RuleStateView,
    rng: u64,
    now: u64,
)
    requires
        rule.probability == FULL_PROBABILITY,
    ensures
        fires(rule, state, rng, now) == !suppressed(state.last_fired, rule.timeout_ms, now),
        fire_rule(rule, channel, state, rng, now).action.fire == !suppressed(
            state.last_fired,
            rule.timeout_ms,
            now,
        ),
{
}

/// A rule that has just fired is held back until its timeout has passed, and
/// no longer.
pub proof fn lemma_timeout_holds_back(
    rule: RuleView,
    channel: String,
    state: RuleStateView,
    rng: u64,
    now: u64,
    later: u64,
    rng_later: u64,
)
    requires
        fires(rule, state, rng, now),
        now <= later,
    ensures
        ({
            let after = fire_rule(rule, channel, state, rng, now).state;
            &&& after.last_fired == Some(now)
            &&& later - now < rule.timeout_ms ==> !fires(rule, after, rng_later, later)
            &&& later - now >= rule.timeout_ms ==> fires(rule, after, rng_later, later) == (
                draw_of(rng_later) < rule.probability)
        }),
{
}

/// Some rule before position `n` plays on channel `c` and recognises `line`.
#[verifier::opaque]
pub open spec fn channel_taken(pack: SoundPackView, line: Seq<u8>, c: int, n: int) -> bool {
    exists|j: int|
        0 <= j < n && (#[trigger] pack.rules[j]).channel == c && pattern_matches(
            pack.rules[j].pattern,
            line,
        )
}

/// A channel is taken before position `i + 1` when it was taken before `i`
/// or rule `i` plays on it and recognises the line.
pub proof fn lemma_channel_taken_step(pack: SoundPackView, line: Seq<u8>, c: int, i: int)
    requires
        0 <= i,
    ensures
        channel_taken(pack, line, c, i + 1) == (channel_taken(pack, line, c, i) || (
        pack.rules[i].channel == c && pattern_matches(pack.rules[i].pattern, line))),
{
    reveal(channel_taken);
    if channel_taken(pack, line, c, i + 1) {
        let j = choose|j: int|
            0 <= j < i + 1 && (#[trigger] pack.rules[j]).channel == c && pattern_matches(
                pack.rules[j].pattern,
                line,
            );
        if j < i {
            assert(channel_taken(pack, line, c, i));
        }
    }
    if channel_taken(pack, line, c, i) {
        let j = choose|j: int|
            0 <= j < i && (#[trigger] pack.rules[j]).channel == c && pattern_matches(
                pack.rules[j].pattern,
                line,
            );
        assert(0 <= j < i + 1 && pack.rules[j].channel == c);
    }
    if pack.rules[i].channel == c && pattern_matches(pack.rules[i].pattern, line) {
        assert(0 <= i < i + 1 && pack.rules[i].channel == c);
    }
}

/// Rule `i` counts for `line`: it recognises the line, and no rule declared
/// before it on the same channel does.
#[verifier::opaque]
pub open spec fn claims(pack: SoundPackView, line: Seq<u8>, i: int) -> bool {
    &&& pattern_matches(pack.rules[i].pattern, line)
    &&& !channel_taken(pack, line, pack.rules[i].channel as int, i)
}

/// The rules among the first `n` that count for `line`, in declaration
/// order.
pub open spec fn claimed(pack: SoundPackView, line: Seq<u8>, n: nat) -> Seq<int>
    decreases n,
{
    if n == 0 {
        Seq::empty()
    } else {
        let before = claimed(pack, line, (n - 1) as nat);
        if claims(pack, line, n - 1) {
            before.push(n - 1)
        } else {
            before
        }
    }
}

/// Whenever a rule recognises a line, some rule at or before it on the same
/// channel counts for the line.
pub proof fn lemma_channel_is_served(pack: SoundPackView, line: Seq<u8>, i: int)
    requires
        0 <= i,
        pattern_matches(pack.rules[i].pattern, line),
    ensures
        exists|j: int|
            0 <= j <= i && #[trigger] claims(pack, line, j) && pack.rules[j].channel
                == pack.rules[i].channel,
    decreases i,
{
    reveal(channel_taken);
    reveal(claims);
    if claims(pack, line, i) {
        assert(0 <= i <= i && claims(pack, line, i));
    } else {
        let c = pack.rules[i].channel as int;
        let earlier = choose|j: int|
            0 <= j < i && (#[trigger] pack.rules[j]).channel == c && pattern_matches(
                pack.rules[j].pattern,
                line,
            );
        lemma_channel_is_served(pack, line, earlier);
        let j = choose|j: int|
            0 <= j <= earlier && #[trigger] claims(pack, line, j) && pack.rules[j].channel
                == pack.rules[earlier].channel;
        assert(0 <= j <= i && claims(pack, line, j));
    }
}

/// Two rules that both count for a line play on different channels.
pub proof fn lemma_claims_differ_in_channel(pack: SoundPackView, line: Seq<u8>, i: int, j: int)
    requires
        0 <= i < j,
        claims(pack, line, i),
        claims(pack, line, j),
    ensures
        pack.rules[i].channel != pack.rules[j].channel,
{
    reveal(channel_taken);
    reveal(claims);
    if pack.rules[i].channel == pack.rules[j].channel {
        assert(0 <= i < j && pack.rules[i].channel == pack.rules[j].channel as int);
        assert(channel_taken(pack, line, pack.rules[j].channel as int, j));
    }
}

/// The rules that count for a line are listed completely and in declaration
/// order: each listed position counts, each position that counts is listed,
/// and the list rises.
pub proof fn lemma_claimed_lists_claims(pack: SoundPackView, line: Seq<u8>, n: nat)
    ensures
        claimed(pack, line, n).len() <= n,
        forall|k: int|
            0 <= k < claimed(pack, line, n).len() ==> {
                &&& 0 <= (#[trigger] claimed(pack, line, n)[k]) < n
                &&& claims(pack, line, claimed(pack, line, n)[k])
            },
        forall|i: int|
            0 <= i < n && #[trigger] claims(pack, line, i) ==> claimed(pack, line, n).contains(i),
        forall|a: int, b: int|
            0 <= a < b < claimed(pack, line, n).len() ==> (#[trigger] claimed(pack, line, n)[a]) < (
            #[trigger] claimed(pack, line, n)[b]),
    decreases n,
{
    let picked = claimed(pack, line, n);
    if n > 0 {
        let before = claimed(pack, line, (n - 1) as nat);
        lemma_claimed_lists_claims(pack, line, (n - 1) as nat);
        assert forall|i: int| 0 <= i < n && #[trigger] claims(pack, line, i) implies picked.contains(
            i,
        ) by {
            if i < n - 1 {
                assert(before.contains(i));
                let k = choose|k: int| 0 <= k < before.len() && before[k] == i;
                assert(picked[k] == i);
            } else {
                assert(picked[picked.len() - 1] == i);
            }
        }
        assert forall|a: int, b: int| 0 <= a < b < picked.len() implies (#[trigger] picked[a]) < (
        #[trigger] picked[b]) by {
            assert(picked[a] == before[a]);
            if b < before.len() {
                assert(picked[b] == before[b]);
            }
        }
    }
}

/// Of the rules that recognise a line, the first on each channel counts and
/// no other: no two rules that count share a channel, and every rule that
/// recognises the line finds its channel served by a rule that counts and is
/// declared no later. So a line that two rules on two channels recognise
/// sets off both, and a line that two rules on one channel recognise sets
/// off only the first.
pub proof fn lemma_first_match_per_channel(pack: SoundPackView, line: Seq<u8>, n: nat)
    ensures
        forall|a: int, b: int|
            0 <= a < b < claimed(pack, line, n).len() ==> pack.rules[(#[trigger] claimed(
                pack,
                line,
                n,
            )[a])].channel != pack.rules[(#[trigger] claimed(pack, line, n)[b])].channel,
        forall|i: int|
            0 <= i < n && #[trigger] pattern_matches(pack.rules[i].pattern, line) ==> exists|
                k: int,
            |
                0 <= k < claimed(pack, line, n).len() && (#[trigger] claimed(pack, line, n)[k])
                    <= i && pack.rules[claimed(pack, line, n)[k]].channel == pack.rules[i].channel,
{
    let picked = claimed(pack, line, n);
    lemma_claimed_lists_claims(pack, line, n);
    assert forall|a: int, b: int| 0 <= a < b < picked.len() implies pack.rules[(
    #[trigger] picked[a])].channel != pack.rules[(#[trigger] picked[b])].channel by {
        lemma_claims_differ_in_channel(pack, line, picked[a], picked[b]);
    }
    assert forall|i: int|
        0 <= i < n && #[trigger] pattern_matches(pack.rules[i].pattern, line) implies exists|
        k: int,
    |
        0 <= k < picked.len() && (#[trigger] picked[k]) <= i && pack.rules[picked[k]].channel
            == pack.rules[i].channel by {
        lemma_channel_is_served(pack, line, i);
        let j = choose|j: int|
            0 <= j <= i && #[trigger] claims(pack, line, j) && pack.rules[j].channel
                == pack.rules[i].channel;
        assert(picked.contains(j));
        let k = choose|k: int| 0 <= k < picked.len() && picked[k] == j;
        assert(0 <= k < picked.len() && picked[k] <= i);
    }
}

/// Two rules that recognise one line: on one channel only the one declared
/// first can count, the later one never does; on two channels neither stands
/// in the other's way, and each of the two channels is served by a rule of
/// its own that counts for the line.
pub proof fn lemma_two_rules_one_line(pack: SoundPackView, line: Seq<u8>, i: int, j: int)
    requires
        0 <= i < j < pack.rules.len(),
        pattern_matches(pack.rules[i].pattern, line),
        pattern_matches(pack.rules[j].pattern, line),
    ensures
        pack.rules[i].channel == pack.rules[j].channel ==> !claims(pack, line, j),
        pack.rules[i].channel != pack.rules[j].channel ==> exists|a: int, b: int|
            0 <= a <= i && 0 <= b <= j && a != b && #[trigger] claims(pack, line, a)
                && #[trigger] claims(pack, line, b) && pack.rules[a].channel
                == pack.rules[i].channel && pack.rules[b].channel == pack.rules[j].channel,
        forall|k: int|
            0 <= k < pack.rules.len() && #[trigger] claims(pack, line, k) ==> claimed(
                pack,
                line,
                pack.rules.len(),
            ).contains(k),
{
    if pack.rules[i].channel == pack.rules[j].channel {
        assert(channel_taken(pack, line, pack.rules[j].channel as int, j)) by {
            reveal(channel_taken);
            assert(0 <= i < j && pack.rules[i].channel == pack.rules[j].channel as int);
        }
        assert(!claims(pack, line, j)) by {
            reveal(claims);
        }
    } else {
        lemma_channel_is_served(pack, line, i);
        lemma_channel_is_served(pack, line, j);
        let a = choose|a: int|
            0 <= a <= i && #[trigger] claims(pack, line, a) && pack.rules[a].channel
                == pack.rules[i].channel;
        let b = choose|b: int|
            0 <= b <= j && #[trigger] claims(pack, line, b) && pack.rules[b].channel
                == pack.rules[j].channel;
        assert(a != b);
        assert(0 <= a <= i && 0 <= b <= j && a != b && claims(pack, line, a) && claims(
            pack,
            line,
            b,
        ));
    }
    lemma_claimed_lists_claims(pack, line, pack.rules.len());
}

/// What a matcher stands for.
pub struct MatcherView {
    pub rng: u64,
    pub states: Seq<RuleStateView>,
}

/// The matcher fits the soundpack: it remembers one state for each rule, and
/// each state points into its rule's pool.
pub open spec fn matcher_wf(matcher: MatcherView, pack: SoundPackView) -> bool {
    &&& matcher.states.len() == pack.rules.len()
    &&& forall|i: int|
        0 <= i < matcher.states.len() ==> state_wf(#[trigger] matcher.states[i], pack.rules[i])
}

/// What evaluating a line comes to.
pub struct Resolved {
    pub matcher: MatcherView,
    pub actions: Seq<TriggerAction>,
}

/// The decisions of the rules `picked`, taken one after the other, each on
/// what the one before left behind.
pub open spec fn resolve_all(
    pack: SoundPackView,
    picked: Seq<int>,
    matcher: MatcherView,
    now: u64,
) -> Resolved
    decreases picked.len(),
{
    if picked.len() == 0 {
        Resolved { matcher, actions: Seq::empty() }
    } else {
        let before = resolve_all(pack, picked.drop_last(), matcher, now);
        let i = picked.last();
        let rule = pack.rules[i];
        let fired = fire_rule(
            rule,
            pack.channels[rule.channel as int].name,
            before.matcher.states[i],
            before.matcher.rng,
            now,
        );
        Resolved {
            matcher: MatcherView {
                rng: fired.rng,
                states: before.matcher.states.update(i, fired.state),
            },
            actions: before.actions.push(fired.action),
        }
    }
}

/// What evaluating `line` against `pack` comes to: the decision of every
/// rule that counts for the line, in declaration order.
pub open spec fn evaluated(
    pack: SoundPackView,
    line: Seq<u8>,
    matcher: MatcherView,
    now: u64,
) -> Resolved {
    resolve_all(pack, claimed(pack, line, pack.rules.len()), matcher, now)
}

/// Evaluating a line gives one decision for each rule that counts, in the
/// same order, on that rule's channel and in that rule's play mode; a
/// decision fires only where its rule's probability is above zero; and the
/// matcher still fits the soundpack afterwards.
pub proof fn lemma_actions_follow_rules(
    pack: SoundPackView,
    picked: Seq<int>,
    matcher: MatcherView,
    now: u64,
)
    requires
        matcher_wf(matcher, pack),
        forall|k: int| 0 <= k < picked.len() ==> 0 <= #[trigger] picked[k] < pack.rules.len(),
    ensures
        ({
            let resolved = resolve_all(pack, picked, matcher, now);
            &&& resolved.matcher.states.len() == matcher.states.len()
            &&& resolved.actions.len() == picked.len()
            &&& forall|k: int|
                0 <= k < picked.len() ==> {
                    let rule = pack.rules[picked[k]];
                    &&& (#[trigger] resolved.actions[k]).channel
                        == pack.channels[rule.channel as int].name
                    &&& resolved.actions[k].play_mode == rule.play_mode
                    &&& resolved.actions[k].fire ==> rule.probability > 0
                }
        }),
    decreases picked.len(),
{
    if picked.len() > 0 {
        let head = picked.drop_last();
        lemma_actions_follow_rules(pack, head, matcher, now);
        let before = resolve_all(pack, head, matcher, now);
        let resolved = resolve_all(pack, picked, matcher, now);
        assert forall|k: int| 0 <= k < picked.len() implies {
            let rule = pack.rules[picked[k]];
            &&& (#[trigger] resolved.actions[k]).channel == pack.channels[rule.channel as int].name
            &&& resolved.actions[k].play_mode == rule.play_mode
            &&& resolved.actions[k].fire ==> rule.probability > 0
        } by {
            if k < head.len() {
                assert(head[k] == picked[k]);
                assert(resolved.actions[k] == before.actions[k]);
            }
        }
    }
}

/// The per-rule memory and the random source of the rule matcher.
#[derive(Debug)]
pub struct RuleMatcher {
    rng: Rng,
    states: Vec<RuleState>,
}

impl View for RuleMatcher {
    type V = MatcherView;

    closed spec fn view(&self) -> MatcherView {
        MatcherView { rng: self.rng@, states: state_views(self.states@) }
    }
}

fn refill(n: usize) -> (bag: Vec<usize>)
    ensures
        bag@ == full_bag(n as nat),
{
    let mut bag: Vec<usize> = Vec::new();
    let mut i: usize = 0;
    while i < n
        invariant
            i <= n,
            bag@.len() == i,
            forall|k: int| 0 <= k < i ==> bag@[k] == k as usize,
        decreases n - i,
    {
        bag.push(i);
        i += 1;
    }
    assert(bag@ =~= full_bag(n as nat));
    bag
}

impl RuleMatcher {
    /// A matcher for `pack` in which no rule has fired yet, drawing from the
    /// generator that starts at `seed`.
    pub fn new(pack: &SoundPack, seed: u64) -> (matcher: RuleMatcher)
        ensures
            matcher@.rng == seed,
            matcher@.states == Seq::new(pack@.rules.len(), |i: int| fresh_state()),
            matcher_wf(matcher@, pack@),
    {
        let mut states: Vec<RuleState> = Vec::new();
        let n = pack.rule_count();
        let mut i: usize = 0;
        while i < n
            invariant
                i <= n,
                states@.len() == i,
                forall|k: int| 0 <= k < i ==> (#[trigger] states@[k])@ == fresh_state(),
            decreases n - i,
        {
            states.push(RuleState { last_fired: None, next: 0, bag: Vec::new() });
            i += 1;
        }
        let matcher = RuleMatcher { rng: Rng::new(seed), states };
        assert(matcher@.states =~= Seq::new(pack@.rules.len(), |i: int| fresh_state()));
        matcher
    }

    /// A matcher for no rules at all.
    pub fn idle(seed: u64) -> (matcher: RuleMatcher)
        ensures
            matcher@.rng == seed,
            matcher@.states == Seq::<RuleStateView>::empty(),
    {
        let matcher = RuleMatcher { rng: Rng::new(seed), states: Vec::new() };
        assert(matcher@.states =~= Seq::<RuleStateView>::empty());
        matcher
    }

    /// Tests whether the matcher fits `pack`: whether it was made for a
    /// soundpack with these rules.
    pub fn fits(&self, pack: &SoundPack) -> (fit: bool)
        ensures
            fit == matcher_wf(self@, pack@),
    {
        if self.states.len() != pack.rule_count() {
            return false;
        }
        let mut i: usize = 0;
        while i < self.states.len()
            invariant
                i <= self.states.len(),
                self@.states.len() == pack@.rules.len(),
                forall|k: int| 0 <= k < i ==> state_wf(#[trigger] self@.states[k], pack@.rules[k]),
            decreases self.states.len() - i,
        {
            assert(self.states@[i as int]@ == self@.states[i as int]);
            if !state_fits(&self.states[i], pack.rule(i)) {
                return false;
            }
            i += 1;
        }
        true
    }

    /// The state of the random source.
    pub fn rng_state(&self) -> (state: u64)
        ensures
            state == self@.rng,
    {
        self.rng.state
    }

    fn fire(&mut self, i: usize, rule: &Rule, channel: &String, now: u64) -> (action:
        TriggerAction)
        requires
            i < old(self)@.states.len(),
            state_wf(old(self)@.states[i as int], rule@),
        ensures
            ({
                let fired = fire_rule(
                    rule@,
                    *channel,
                    old(self)@.states[i as int],
                    old(self)@.rng,
                    now,
                );
                &&& action == fired.action
                &&& final(self)@.rng == fired.rng
                &&& final(self)@.states == old(self)@.states.update(i as int, fired.state)
                &&& state_wf(fired.state, rule@)
            }),
    {
        let ghost before = self@;
        assert(self.states@[i as int]@ == before.states[i as int]);
        let (action, state) = decide(rule, channel, &self.states[i], &mut self.rng, now);
        self.states[i] = state;
        assert(self@.states =~= before.states.update(i as int, state@));
        action
    }

    /// Evaluates `line` against the rules of `pack` at time `now`, in
    /// milliseconds, and returns the decision of every rule that counts for
    /// the line, in declaration order.
    ///
    /// The matcher has to be one that was made for `pack`; [`Self::fits`]
    /// tests that.
    pub fn evaluate(&mut self, line: &[u8], pack: &SoundPack, now: u64) -> (actions: Vec<
        TriggerAction,
    >)
        requires
            matcher_wf(old(self)@, pack@),
        ensures
            final(self)@ == evaluated(pack@, line@, old(self)@, now).matcher,
            actions@ == evaluated(pack@, line@, old(self)@, now).actions,
            matcher_wf(final(self)@, pack@),
    {
        pack.well_formed();
        let ghost start = self@;
        let mut actions: Vec<TriggerAction> = Vec::new();
        let mut taken: Vec<bool> = Vec::new();
        let channel_count = pack.channel_count();
        let mut c: usize = 0;
        while c < channel_count
            invariant
                c <= channel_count,
                taken@.len() == c,
                forall|k: int| 0 <= k < c ==> !taken@[k],
            decreases channel_count - c,
        {
            taken.push(false);
            c += 1;
        }
        let n = pack.rule_count();
        let mut i: usize = 0;
        assert forall|k: int| 0 <= k < taken@.len() implies !channel_taken(pack@, line@, k, 0) by {
            reveal(channel_taken);
        }
        while i < n
            invariant
                i <= n,
                n == pack@.rules.len(),
                pack@.wf(),
                taken@.len() == pack@.channels.len(),
                forall|k: int|
                    0 <= k < taken@.len() ==> taken@[k] == channel_taken(pack@, line@, k, i as int),
                matcher_wf(self@, pack@),
                self@ == resolve_all(pack@, claimed(pack@, line@, i as nat), start, now).matcher,
                actions@ == resolve_all(pack@, claimed(pack@, line@, i as nat), start, now).actions,
            decreases n - i,
        {
            let rule = pack.rule(i);
            let ghost view = pack@.rules[i as int];
            assert(rule_wf(view, pack@.channels.len()));
            let ch = rule.channel;
            let counts = !taken[ch] && rule.pattern.matches(line);
            assert(counts == claims(pack@, line@, i as int)) by {
                reveal(claims);
            }
            if counts {
                let ghost before = self@;
                let ghost picked = claimed(pack@, line@, (i + 1) as nat);
                assert(picked.drop_last() =~= claimed(pack@, line@, i as nat));
                let action = self.fire(i, rule, &pack.channel(ch).name, now);
                actions.push(action);
                assert forall|k: int| 0 <= k < self@.states.len() implies state_wf(
                    #[trigger] self@.states[k],
                    pack@.rules[k],
                ) by {
                    if k != i {
                        assert(self@.states[k] == before.states[k]);
                    }
                }
                taken.set(ch, true);
            }
            assert forall|k: int| 0 <= k < taken@.len() implies taken@[k] == channel_taken(
                pack@,
                line@,
                k,
                i + 1,
            ) by {
                lemma_channel_taken_step(pack@, line@, k, i as int);
            }
            i += 1;
        }
        actions
    }
}

fn state_fits(state: &RuleState, rule: &Rule) -> (fit: bool)
    ensures
        fit == state_wf(state@, rule@),
{
    let n = rule.clips.len();
    if n > 0 && state.next >= n {
        return false;
    }
    let mut a: usize = 0;
    while a < state.bag.len()
        invariant
            a <= state.bag.len(),
            n == rule@.clips.len(),
            forall|k: int| 0 <= k < a ==> #[trigger] state.bag@[k] < n,
            forall|x: int, y: int| 0 <= x < y < a ==> state.bag@[x] != state.bag@[y],
        decreases state.bag.len() - a,
    {
        if state.bag[a] >= n {
            return false;
        }
        let mut b: usize = 0;
        while b < a
            invariant
                b <= a < state.bag.len(),
                forall|x: int| 0 <= x < b ==> state.bag@[x] != state.bag@[a as int],
            decreases a - b,
        {
            if state.bag[b] == state.bag[a] {
                return false;
            }
            b += 1;
        }
        a += 1;
    }
    true
}

fn passes(rule: &Rule, state: &RuleState, rng: &mut Rng, now: u64) -> (fire: bool)
    ensures
        fire == fires(rule@, state@, old(rng)@, now),
        final(rng)@ == rng_advance(old(rng)@),
{
    let draw: u32 = (rng.next() % (FULL_PROBABILITY as u64)) as u32;
    let held = match state.last_fired {
        Some(then) => then <= now && now - then < rule.timeout_ms,
        None => false,
    };
    !held && draw < rule.probability
}

fn pick(rule: &Rule, state: &RuleState, rng: &mut Rng) -> (picked: (Option<String>, usize, Vec<
    usize,
>))
    requires
        state_wf(state@, rule@),
    ensures
        ({
            let wanted = pick_clip(rule@, state@, old(rng)@);
            &&& picked.0 == wanted.clip
            &&& picked.1 == wanted.next
            &&& picked.2@ == wanted.bag
            &&& final(rng)@ == wanted.rng
            &&& rule@.clips.len() > 0 ==> picked.1 < rule@.clips.len()
            &&& forall|k: int| 0 <= k < picked.2@.len() ==> #[trigger] picked.2@[k] < rule@.clips.len()
            &&& no_repeats(picked.2@)
        }),
{
    let only_stops = match rule.play_mode {
        PlayMode::LoopStop => true,
        _ => false,
    };
    if only_stops || rule.clips.len() == 0 {
        return (None, state.next, refill_from(&state.bag));
    }
    let sequential = match rule.policy {
        SelectionPolicy::Sequential => true,
        SelectionPolicy::RandomUniform => false,
    };
    if sequential {
        let next = if state.next + 1 >= rule.clips.len() {
            0
        } else {
            state.next + 1
        };
        return (Some(rule.clips[state.next].clone()), next, refill_from(&state.bag));
    }
    let mut bag = if state.bag.len() == 0 {
        refill(rule.clips.len())
    } else {
        refill_from(&state.bag)
    };
    let ghost whole = bag@;
    let size: u64 = bag.len() as u64;
    let pick: usize = (rng.next() % size) as usize;
    let k = bag.remove(pick);
    assert(k == whole[pick as int]);
    assert forall|j: int| 0 <= j < bag@.len() implies #[trigger] bag@[j] < rule@.clips.len() by {
        if j < pick {
            assert(bag@[j] == whole[j]);
        } else {
            assert(bag@[j] == whole[j + 1]);
        }
    }
    assert forall|a: int, b: int| 0 <= a < b < bag@.len() implies bag@[a] != bag@[b] by {
        let x = if a < pick { a } else { a + 1 };
        let y = if b < pick { b } else { b + 1 };
        assert(bag@[a] == whole[x] && bag@[b] == whole[y]);
    }
    (Some(rule.clips[k].clone()), state.next, bag)
}

fn decide(rule: &Rule, channel: &String, state: &RuleState, rng: &mut Rng, now: u64) -> (decided:
    (TriggerAction, RuleState))
    requires
        state_wf(state@, rule@),
    ensures
        ({
            let fired = fire_rule(rule@, *channel, state@, old(rng)@, now);
            &&& decided.0 == fired.action
            &&& decided.1@ == fired.state
            &&& final(rng)@ == fired.rng
            &&& state_wf(fired.state, rule@)
        }),
{
    if !passes(rule, state, rng, now) {
        let kept = RuleState {
            last_fired: state.last_fired,
            next: state.next,
            bag: refill_from(&state.bag),
        };
        return (
            TriggerAction { channel: channel.clone(), clip: None, play_mode: rule.play_mode, fire: false },
            kept,
        );
    }
    let (clip, next, bag) = pick(rule, state, rng);
    (
        TriggerAction { channel: channel.clone(), clip, play_mode: rule.play_mode, fire: true },
        RuleState { last_fired: Some(now), next, bag },
    )
}

fn refill_from(bag: &Vec<usize>) -> (copy: Vec<usize>)
    ensures
        copy@ == bag@,
{
    let mut copy: Vec<usize> = Vec::new();
    let mut i: usize = 0;
    while i < bag.len()
        invariant
            i <= bag.len(),
            copy@ == bag@.subrange(0, i as int),
        decreases bag.len() - i,
    {
        copy.push(bag[i]);
        assert(copy@ =~= bag@.subrange(0, i + 1));
        i += 1;
    }
    assert(bag@.subrange(0, i as int) =~= bag@);
    copy
}

} // verus!
