//! The simulation frame: the state of the world at one tick, the events
//! that wait to be applied to it, and the step that leads to the next
//! tick.
//!
//! A frame is either complete, and then safe to read, or in progress.
//! A step begins by applying the queued events in the order in which they
//! arrived, which records what each player intends for the tick. Then the
//! bots, the projectiles and the terrain are advanced, which is not the
//! business of this module: whoever does it gets at them through
//! `kbots_mut`, `kinematic_projectiles_mut` and `heightmap_phy_mut`. The
//! step ends by counting the frame and marking it complete.

use crate::error::CoreError;
use crate::heightmap_phy::{flat, HeightmapPhy, HeightmapView};
use crate::id::{allocate, IdValue, PlayerId};
use crate::input_state::{InputState, InputStateView};
use crate::mobile::{KBot, KinematicProjectile};
use std::collections::{HashMap, HashSet};
use vstd::prelude::*;

verus! {

broadcast use vstd::std_specs::hash::group_hash_axioms;

/// Someone who plays: the bots that are theirs, by identifier, and the
/// team they play for.
#[derive(Debug, PartialEq, Eq)]
pub struct Player {
    pub id: PlayerId,
    pub mobiles: HashSet<IdValue>,
    pub team: u8,
}

/// The mathematical content of a player.
pub struct PlayerView {
    pub id: IdValue,
    pub mobiles: Set<IdValue>,
    pub team: u8,
}

impl View for Player {
    type V = PlayerView;

    open spec fn view(&self) -> PlayerView {
        PlayerView { id: self.id@, mobiles: self.mobiles@, team: self.team }
    }
}

impl Player {
    /// A player without bots, in team 0, with an identifier drawn at
    /// random.
    pub fn new() -> (player: Player)
        ensures
            player@.mobiles == Set::<IdValue>::empty(),
            player@.team == 0,
    {
        let id: PlayerId = allocate();
        Player { id, mobiles: HashSet::new(), team: 0 }
    }
}

/// What a player intends for one tick: the state of their input devices,
/// the bots they have selected, and the point of the world under their
/// cursor, if there is one.
#[derive(Debug, PartialEq, Eq)]
pub struct PlayerIntent {
    pub input_state: InputState,
    pub selected: HashSet<IdValue>,
    pub mouse_world_pos: Option<[u32; 3]>,
}

/// The mathematical content of an intent.
pub struct IntentView {
    pub input_state: InputStateView,
    pub selected: Set<IdValue>,
    pub mouse_world_pos: Option<[u32; 3]>,
}

impl View for PlayerIntent {
    type V = IntentView;

    open spec fn view(&self) -> IntentView {
        IntentView {
            input_state: self.input_state@,
            selected: self.selected@,
            mouse_world_pos: self.mouse_world_pos,
        }
    }
}

/// How long the parts of a step took, in nanoseconds. For information
/// only: nothing is decided by these.
#[derive(Debug, Clone, Copy, PartialEq, Eq)]
pub struct FrameProfiler {
    pub total: u64,
    pub update_units: u64,
    pub handle_events: u64,
}

impl Default for FrameProfiler {
    fn default() -> (profiler: FrameProfiler)
        ensures
            profiler == (FrameProfiler { total: 0, update_units: 0, handle_events: 0 }),
    {
        FrameProfiler { total: 0, update_units: 0, handle_events: 0 }
    }
}

/// Something that waits to be applied to a frame.
#[derive(Debug, PartialEq, Eq)]
pub enum FrameEvent {
    /// What one player intends for the tick.
    PlayerInput {
        id: PlayerId,
        input_state: InputState,
        selected: HashSet<IdValue>,
        mouse_world_pos: Option<[u32; 3]>,
    },
    /// A whole frame, to take the place of the current one.
    ReplaceFrame(Frame),
}

/// The state of the world at one tick.
#[derive(Debug, PartialEq, Eq)]
pub struct Frame {
    number: i32,
    players: HashMap<IdValue, Player>,
    kbots: HashMap<IdValue, KBot>,
    kinematic_projectiles: HashMap<IdValue, KinematicProjectile>,
    intents: HashMap<IdValue, PlayerIntent>,
    events: Vec<FrameEvent>,
    heightmap_phy: HeightmapPhy,
    complete: bool,
    frame_profiler: FrameProfiler,
}

/// The world of a frame, without the queue and the timings.
pub struct StateView {
    pub number: i32,
    pub players: Map<IdValue, PlayerView>,
    pub kbots: Map<IdValue, KBot>,
    pub kinematic_projectiles: Map<IdValue, KinematicProjectile>,
    pub intents: Map<IdValue, IntentView>,
    pub heightmap_phy: HeightmapView,
    pub complete: bool,
}

/// The mathematical content of an event. Of a frame that is to replace
/// the current one, it holds the world: whatever waits in the queue of
/// such a frame is discarded when it takes the place of the current one.
pub enum EventView {
    PlayerInput { id: IdValue, intent: IntentView },
    ReplaceFrame { state: StateView },
}

/// The mathematical content of a frame.
pub struct FrameView {
    pub state: StateView,
    pub events: Seq<EventView>,
    pub frame_profiler: FrameProfiler,
}

impl Frame {
    /// The world of this frame.
    pub closed spec fn state(&self) -> StateView {
        StateView {
            number: self.number,
            players: self.players@.map_values(|p: Player| p@),
            kbots: self.kbots@,
            kinematic_projectiles: self.kinematic_projectiles@,
            intents: self.intents@.map_values(|i: PlayerIntent| i@),
            heightmap_phy: self.heightmap_phy@,
            complete: self.complete,
        }
    }

    /// The world of a frame is the world in its view. It is what an
    /// event that carries the frame holds of it.
    pub proof fn lemma_state_is_viewed(&self)
        ensures
            self.state() == self@.state,
    {
    }
}

impl View for FrameEvent {
    type V = EventView;

    open spec fn view(&self) -> EventView {
        match *self {
            FrameEvent::PlayerInput { id, input_state, selected, mouse_world_pos } => {
                EventView::PlayerInput {
                    id: id@,
                    intent: IntentView {
                        input_state: input_state@,
                        selected: selected@,
                        mouse_world_pos,
                    },
                }
            },
            FrameEvent::ReplaceFrame(frame) => EventView::ReplaceFrame { state: frame.state() },
        }
    }
}

impl View for Frame {
    type V = FrameView;

    closed spec fn view(&self) -> FrameView {
        FrameView {
            state: self.state(),
            events: self.events@.map_values(|e: FrameEvent| e@),
            frame_profiler: self.frame_profiler,
        }
    }
}

/// A world may take the place of the current one if it is complete and
/// its number is one that can still be counted up. A frame with any
/// other world is malformed as a replacement.
pub open spec fn snapshot_ok(state: StateView) -> bool {
    &&& state.complete
    &&& 0 <= state.number < i32::MAX
}

/// Every frame replacement among the events carries a world that may
/// take the place of the current one.
pub open spec fn replacements_ok(events: Seq<EventView>) -> bool {
    forall|i: int|
        0 <= i < events.len() && (#[trigger] events[i]) is ReplaceFrame ==> snapshot_ok(
            events[i]->state,
        )
}

/// Why a queue that would hold the given events is refused, if it is. A
/// frame replacement among other events is an invalid sequence; a frame
/// replacement that is alone but malformed is corrupt data.
pub open spec fn refusal(events: Seq<EventView>) -> Option<CoreError> {
    if !queue_ok(events) {
        Some(CoreError::InvalidEventSequence)
    } else if !replacements_ok(events) {
        Some(CoreError::CorruptData)
    } else {
        None
    }
}

/// A queue is in order if a frame replacement, where there is one, is
/// the only event in it.
pub open spec fn queue_ok(events: Seq<EventView>) -> bool {
    forall|i: int| 0 <= i < events.len() && (#[trigger] events[i]) is ReplaceFrame ==> events.len() == 1
}

/// The world at the start of a step: in progress, with no intent
/// recorded yet.
pub open spec fn cleared(s: StateView) -> StateView {
    StateView { intents: Map::empty(), complete: false, ..s }
}

/// The world after one event was applied. The input of a player who is
/// in the world becomes that player's intent; the input of anyone else is
/// dropped. A frame replacement puts its world in the place of the
/// current one, in progress and without intents.
pub open spec fn apply_event(s: StateView, e: EventView) -> StateView {
    match e {
        EventView::PlayerInput { id, intent } => if s.players.contains_key(id) {
            StateView { intents: s.intents.insert(id, intent), ..s }
        } else {
            s
        },
        EventView::ReplaceFrame { state } => cleared(state),
    }
}

/// The world after the events were applied, the first one first.
pub open spec fn apply_events(s: StateView, events: Seq<EventView>) -> StateView
    decreases events.len(),
{
    if events.len() == 0 {
        s
    } else {
        apply_event(apply_events(s, events.drop_last()), events.last())
    }
}

/// The world after a step has begun: the events that waited are applied
/// to the world as it was, in progress and without intents.
pub open spec fn begun(f: FrameView) -> StateView {
    apply_events(cleared(f.state), f.events)
}

/// The world after a step has ended: counted, and complete.
pub open spec fn finished(s: StateView) -> StateView {
    StateView { number: (s.number + 1) as i32, complete: true, ..s }
}

/// The world after a whole step in which nothing but the events acted.
pub open spec fn stepped(f: FrameView) -> StateView {
    finished(begun(f))
}

/// Applying events that a queue accepts keeps the world in progress, and
/// keeps its number within the range that can be counted up if it was
/// there before.
pub proof fn lemma_apply_events_in_progress(s: StateView, events: Seq<EventView>)
    requires
        !s.complete,
        replacements_ok(events),
    ensures
        !apply_events(s, events).complete,
        0 <= s.number < i32::MAX ==> 0 <= apply_events(s, events).number < i32::MAX,
        0 <= s.number ==> 0 <= apply_events(s, events).number,
    decreases events.len(),
{
    if events.len() > 0 {
        let front = events.drop_last();
        assert forall|i: int| 0 <= i < front.len() && (#[trigger] front[i])
            is ReplaceFrame implies snapshot_ok(front[i]->state) by {
            assert(front[i] == events[i]);
        }
        lemma_apply_events_in_progress(s, front);
        assert(events.last() == events[events.len() - 1]);
    }
}

/// A step is a function of the world and the queue alone: two frames
/// with the same world and the same events, whatever their timings, step
/// to the same world.
pub proof fn law_step_deterministic(f1: FrameView, f2: FrameView)
    requires
        f1.state == f2.state,
        f1.events == f2.events,
    ensures
        stepped(f1) == stepped(f2),
        stepped(f1).number == stepped(f2).number,
        stepped(f1).players == stepped(f2).players,
        stepped(f1).kbots == stepped(f2).kbots,
        stepped(f1).kinematic_projectiles == stepped(f2).kinematic_projectiles,
        stepped(f1).heightmap_phy == stepped(f2).heightmap_phy,
        stepped(f1).complete == stepped(f2).complete,
{
}

/// A step counts the frame up by exactly one and leaves it complete,
/// unless the frame was replaced, and then it is the number of the
/// replacement that is counted up.
pub proof fn law_step_counts(f: FrameView)
    requires
        0 <= f.state.number < i32::MAX,
        replacements_ok(f.events),
    ensures
        stepped(f).complete,
        stepped(f).number == begun(f).number + 1,
        (forall|i: int| 0 <= i < f.events.len() ==> !((#[trigger] f.events[i]) is ReplaceFrame))
            ==> stepped(f).number == f.state.number + 1,
{
    lemma_apply_events_in_progress(cleared(f.state), f.events);
    if forall|i: int| 0 <= i < f.events.len() ==> !((#[trigger] f.events[i]) is ReplaceFrame) {
        lemma_inputs_keep_world(cleared(f.state), f.events);
    }
}

/// The inputs of players change the intents and nothing else.
pub proof fn lemma_inputs_keep_world(s: StateView, events: Seq<EventView>)
    requires
        forall|i: int| 0 <= i < events.len() ==> !((#[trigger] events[i]) is ReplaceFrame),
    ensures
        apply_events(s, events) == (StateView { intents: apply_events(s, events).intents, ..s }),
        forall|id: IdValue|
            apply_events(s, events).intents.contains_key(id) ==> s.intents.contains_key(id)
                || s.players.contains_key(id),
    decreases events.len(),
{
    if events.len() > 0 {
        let front = events.drop_last();
        assert forall|i: int| 0 <= i < front.len() implies !((#[trigger] front[i])
            is ReplaceFrame) by {
            assert(front[i] == events[i]);
        }
        lemma_inputs_keep_world(s, front);
        assert(!(events[events.len() - 1] is ReplaceFrame));
    }
}

/// An event that names a player who is not in the world changes nothing.
pub proof fn law_unknown_player_dropped(s: StateView, id: IdValue, intent: IntentView)
    requires
        !s.players.contains_key(id),
    ensures
        apply_event(s, EventView::PlayerInput { id, intent }) == s,
{
}

/// The mathematical content of a run of events.
pub open spec fn event_views(events: Seq<FrameEvent>) -> Seq<EventView> {
    events.map_values(|e: FrameEvent| e@)
}

/// The frame that Frame::new makes: tick 0 of an empty world on flat
/// terrain of 16 by 16 texels, complete, with nothing queued.
pub open spec fn initial_frame() -> FrameView {
    FrameView {
        state: StateView {
            number: 0,
            players: Map::empty(),
            kbots: Map::empty(),
            kinematic_projectiles: Map::empty(),
            intents: Map::empty(),
            heightmap_phy: flat(16, 16),
            complete: true,
        },
        events: Seq::empty(),
        frame_profiler: FrameProfiler { total: 0, update_units: 0, handle_events: 0 },
    }
}

impl Frame {
    /// The queue is one that would be accepted, and the number is not
    /// negative.
    pub open spec fn wf(&self) -> bool {
        &&& queue_ok(self@.events)
        &&& replacements_ok(self@.events)
        &&& 0 <= self@.state.number
    }

    /// Whether the queue is one that would be accepted and the number is
    /// not negative. Both hold of every frame that the functions of this
    /// module hand out.
    pub fn is_well_formed(&self) -> (ok: bool)
        ensures
            ok == self.wf(),
    {
        let replaced: bool = Self::has_replacement(&self.events);
        let valid: bool = Self::replacements_valid(&self.events);
        proof {
            let events = self@.events;
            assert(events == event_views(self.events@));
            if replaced {
                let i = choose|i: int| 0 <= i < events.len() && (#[trigger] events[i]) is ReplaceFrame;
                assert(events[i] is ReplaceFrame);
            }
        }
        self.number >= 0 && (!replaced || self.events.len() == 1) && valid
    }

    /// Tick 0 of an empty world on flat terrain of 16 by 16 texels.
    pub fn new() -> (frame: Frame)
        ensures
            frame.wf(),
            frame@ == initial_frame(),
    {
        let frame = Frame {
            number: 0,
            players: HashMap::new(),
            kbots: HashMap::new(),
            kinematic_projectiles: HashMap::new(),
            intents: HashMap::new(),
            events: Vec::new(),
            heightmap_phy: HeightmapPhy::new(16, 16),
            complete: true,
            frame_profiler: FrameProfiler::default(),
        };
        proof {
            assert(frame@.state.players =~= Map::empty());
            assert(frame@.state.intents =~= Map::empty());
            assert(frame@.events =~= Seq::empty());
        }
        frame
    }

    /// The number of this tick.
    pub fn number(&self) -> (number: i32)
        ensures
            number == self@.state.number,
    {
        self.number
    }

    /// Whether no step is in progress, so that the frame is safe to read.
    pub fn is_complete(&self) -> (complete: bool)
        ensures
            complete == self@.state.complete,
    {
        self.complete
    }

    /// The frame, if it is safe to read: if no step is in progress.
    pub fn current(&self) -> (frame: Option<&Frame>)
        ensures
            match frame {
                Some(f) => self@.state.complete && *f == *self,
                None => !self@.state.complete,
            },
    {
        if self.complete {
            Some(self)
        } else {
            None
        }
    }

    /// The live bots, by identifier.
    pub fn kbots(&self) -> (kbots: &HashMap<IdValue, KBot>)
        ensures
            kbots@ == self@.state.kbots,
    {
        &self.kbots
    }

    /// The live bots, by identifier, for whoever moves them.
    pub fn kbots_mut(&mut self) -> (kbots: &mut HashMap<IdValue, KBot>)
        ensures
            kbots@ == old(self)@.state.kbots,
            final(self)@ == (FrameView {
                state: StateView { kbots: final(kbots)@, ..old(self)@.state },
                ..old(self)@
            }),
    {
        &mut self.kbots
    }

    /// The projectiles in flight, by identifier.
    pub fn kinematic_projectiles(&self) -> (shots: &HashMap<IdValue, KinematicProjectile>)
        ensures
            shots@ == self@.state.kinematic_projectiles,
    {
        &self.kinematic_projectiles
    }

    /// The projectiles in flight, by identifier, for whoever moves them.
    pub fn kinematic_projectiles_mut(&mut self) -> (shots: &mut HashMap<
        IdValue,
        KinematicProjectile,
    >)
        ensures
            shots@ == old(self)@.state.kinematic_projectiles,
            final(self)@ == (FrameView {
                state: StateView {
                    kinematic_projectiles: final(shots)@,
                    ..old(self)@.state
                },
                ..old(self)@
            }),
    {
        &mut self.kinematic_projectiles
    }

    /// The heights of the terrain.
    pub fn heightmap_phy(&self) -> (map: &HeightmapPhy)
        ensures
            map@ == self@.state.heightmap_phy,
    {
        &self.heightmap_phy
    }

    /// The heights of the terrain, for whoever shapes it.
    pub fn heightmap_phy_mut(&mut self) -> (map: &mut HeightmapPhy)
        ensures
            map@ == old(self)@.state.heightmap_phy,
            final(self)@ == (FrameView {
                state: StateView { heightmap_phy: final(map)@, ..old(self)@.state },
                ..old(self)@
            }),
    {
        &mut self.heightmap_phy
    }

    /// How long the parts of the last step took.
    pub fn frame_profiler(&self) -> (profiler: FrameProfiler)
        ensures
            profiler == self@.frame_profiler,
    {
        self.frame_profiler
    }

    /// Notes how long the parts of a step took.
    pub fn set_frame_profiler(&mut self, profiler: FrameProfiler)
        ensures
            final(self)@ == (FrameView { frame_profiler: profiler, ..old(self)@ }),
    {
        self.frame_profiler = profiler;
    }

    /// The number of events that wait.
    pub fn pending_events(&self) -> (count: usize)
        ensures
            count == self@.events.len(),
    {
        self.events.len()
    }

    /// The player with the given identifier, if there is one.
    pub fn player(&self, id: PlayerId) -> (player: Option<&Player>)
        ensures
            match player {
                Some(p) => self@.state.players.contains_key(id@) && p@
                    == self@.state.players[id@],
                None => !self@.state.players.contains_key(id@),
            },
    {
        let key: IdValue = id.value();
        self.players.get(&key)
    }

    /// What the player with the given identifier intends for this tick,
    /// if an intent was recorded.
    pub fn intent(&self, id: PlayerId) -> (intent: Option<&PlayerIntent>)
        ensures
            match intent {
                Some(i) => self@.state.intents.contains_key(id@) && i@
                    == self@.state.intents[id@],
                None => !self@.state.intents.contains_key(id@),
            },
    {
        let key: IdValue = id.value();
        self.intents.get(&key)
    }

    /// Puts a player into the world, in the place of whoever had the same
    /// identifier.
    pub fn add_player(&mut self, player: Player)
        ensures
            final(self)@ == (FrameView {
                state: StateView {
                    players: old(self)@.state.players.insert(player.id@, player@),
                    ..old(self)@.state
                },
                ..old(self)@
            }),
    {
        let key: IdValue = player.id.value();
        self.players.insert(key, player);
        proof {
            assert(self@.state.players =~= old(self)@.state.players.insert(player.id@, player@));
        }
    }

    /// Whether the first of the given events replaces the frame.
    fn starts_with_replacement(events: &Vec<FrameEvent>) -> (found: bool)
        ensures
            found == (events@.len() > 0 && event_views(events@)[0] is ReplaceFrame),
    {
        if events.len() == 0 {
            false
        } else {
            match &events[0] {
                FrameEvent::ReplaceFrame(_) => true,
                FrameEvent::PlayerInput { .. } => false,
            }
        }
    }

    /// Whether one of the given events replaces the frame.
    fn has_replacement(events: &Vec<FrameEvent>) -> (found: bool)
        ensures
            found == exists|i: int|
                0 <= i < events@.len() && (#[trigger] event_views(events@)[i]) is ReplaceFrame,
    {
        let mut i: usize = 0;
        while i < events.len()
            invariant
                i <= events@.len(),
                forall|k: int| 0 <= k < i ==> !((#[trigger] event_views(events@)[k]) is ReplaceFrame),
            decreases events@.len() - i,
        {
            match &events[i] {
                FrameEvent::ReplaceFrame(_) => {
                    assert(event_views(events@)[i as int] is ReplaceFrame);
                    return true;
                },
                FrameEvent::PlayerInput { .. } => {},
            }
            i += 1;
        }
        false
    }

    /// Whether every frame replacement among the given events carries a
    /// world that may take the place of the current one.
    fn replacements_valid(events: &Vec<FrameEvent>) -> (valid: bool)
        ensures
            valid == replacements_ok(event_views(events@)),
    {
        let mut i: usize = 0;
        while i < events.len()
            invariant
                i <= events@.len(),
                forall|k: int|
                    0 <= k < i && (#[trigger] event_views(events@)[k]) is ReplaceFrame
                        ==> snapshot_ok(event_views(events@)[k]->state),
            decreases events@.len() - i,
        {
            match &events[i] {
                FrameEvent::ReplaceFrame(frame) => {
                    if !(frame.complete && 0 <= frame.number && frame.number < i32::MAX) {
                        assert(event_views(events@)[i as int] is ReplaceFrame);
                        assert(!snapshot_ok(event_views(events@)[i as int]->state));
                        return false;
                    }
                },
                FrameEvent::PlayerInput { .. } => {},
            }
            i += 1;
        }
        true
    }

    /// Queues the given events behind those that wait already, in their
    /// order. A frame replacement can only be queued alone: if the queue
    /// would hold one together with anything else, the events are
    /// rejected as an invalid sequence. A frame replacement that is
    /// alone is accepted if the frame it carries is complete and has a
    /// number from 0 to the largest that can still be counted up;
    /// otherwise it is malformed and rejected as corrupt data. Events
    /// that wait in the queue of the carried frame are no fault: they
    /// are discarded when the frame takes its place. Where events are
    /// rejected, nothing changes.
    pub fn submit(&mut self, events: Vec<FrameEvent>) -> (done: Result<(), CoreError>)
        requires
            old(self).wf(),
        ensures
            final(self).wf(),
            match refusal(old(self)@.events + event_views(events@)) {
                None => {
                    &&& done is Ok
                    &&& final(self)@ == (FrameView {
                        events: old(self)@.events + event_views(events@),
                        ..old(self)@
                    })
                },
                Some(e) => {
                    &&& done == Err::<(), CoreError>(e)
                    &&& final(self)@ == old(self)@
                },
            },
    {
        let ghost queue = self@.events;
        let ghost more = event_views(events@);
        let waiting: usize = self.events.len();
        let coming: usize = events.len();
        let old_has: bool = Self::starts_with_replacement(&self.events);
        let new_has: bool = Self::has_replacement(&events);
        let alone: bool = (waiting == 1 && coming == 0) || (waiting == 0 && coming == 1);
        proof {
            assert(queue == event_views(self.events@));
            if old_has || new_has {
                let i = if old_has {
                    0
                } else {
                    waiting + choose|i: int|
                        0 <= i < events@.len() && (#[trigger] more[i]) is ReplaceFrame
                };
                assert((queue + more)[i] is ReplaceFrame);
            } else {
                assert forall|i: int| 0 <= i < (queue + more).len() implies !((#[trigger] (queue
                    + more)[i]) is ReplaceFrame) by {
                    if i < waiting {
                        assert(queue[i] == (queue + more)[i]);
                        if queue[i] is ReplaceFrame {
                            assert(queue.len() == 1);
                        }
                    } else {
                        assert(more[i - waiting] == (queue + more)[i]);
                    }
                }
            }
        }
        if (old_has || new_has) && !alone {
            return Err(CoreError::InvalidEventSequence);
        }
        let valid: bool = Self::replacements_valid(&events);
        proof {
            if valid {
                assert forall|i: int| 0 <= i < (queue + more).len() && (#[trigger] (queue
                    + more)[i]) is ReplaceFrame implies snapshot_ok((queue + more)[i]->state) by {
                    if i < waiting {
                        assert(queue[i] == (queue + more)[i]);
                    } else {
                        assert(more[i - waiting] == (queue + more)[i]);
                    }
                }
            } else {
                let i = choose|i: int|
                    0 <= i < more.len() && (#[trigger] more[i]) is ReplaceFrame && !snapshot_ok(
                        more[i]->state,
                    );
                assert((queue + more)[waiting + i] == more[i]);
            }
        }
        if !valid {
            return Err(CoreError::CorruptData);
        }
        let mut events = events;
        self.events.append(&mut events);
        proof {
            assert(self@.events =~= queue + more);
        }
        Ok(())
    }

    /// Queues one event behind those that wait already. It is rejected,
    /// and nothing changes, under the rules of `submit`: as an invalid
    /// sequence if the queue would hold a frame replacement together
    /// with anything else, as corrupt data if it is a frame replacement
    /// that is alone but malformed.
    pub fn push_event(&mut self, event: FrameEvent) -> (done: Result<(), CoreError>)
        requires
            old(self).wf(),
        ensures
            final(self).wf(),
            match refusal(old(self)@.events.push(event@)) {
                None => {
                    &&& done is Ok
                    &&& final(self)@ == (FrameView {
                        events: old(self)@.events.push(event@),
                        ..old(self)@
                    })
                },
                Some(e) => {
                    &&& done == Err::<(), CoreError>(e)
                    &&& final(self)@ == old(self)@
                },
            },
    {
        let mut events: Vec<FrameEvent> = Vec::new();
        events.push(event);
        proof {
            assert(event_views(events@) =~= seq![event@]);
            assert(old(self)@.events + seq![event@] =~= old(self)@.events.push(event@));
        }
        self.submit(events)
    }

    /// Applies one event to a frame in progress.
    fn apply(&mut self, event: FrameEvent)
        requires
            old(self)@.events.len() == 0,
        ensures
            final(self)@ == (FrameView {
                state: apply_event(old(self)@.state, event@),
                ..old(self)@
            }),
    {
        match event {
            FrameEvent::PlayerInput { id, input_state, selected, mouse_world_pos } => {
                let key: IdValue = id.value();
                if self.players.contains_key(&key) {
                    let intent = PlayerIntent { input_state, selected, mouse_world_pos };
                    self.intents.insert(key, intent);
                    proof {
                        assert(self@.state.intents =~= old(self)@.state.intents.insert(
                            key,
                            intent@,
                        ));
                    }
                }
            },
            FrameEvent::ReplaceFrame(frame) => {
                let profiler: FrameProfiler = self.frame_profiler;
                *self = frame;
                self.frame_profiler = profiler;
                self.events = Vec::new();
                self.intents = HashMap::new();
                self.complete = false;
                proof {
                    assert(self@.state.intents =~= Map::empty());
                    assert(self@.events =~= old(self)@.events);
                }
            },
        }
    }

    /// Begins a step: the frame is in progress from now on, and the
    /// events that waited are applied in the order in which they arrived,
    /// after which none waits.
    pub fn begin_step(&mut self)
        requires
            old(self).wf(),
        ensures
            final(self).wf(),
            final(self)@ == (FrameView {
                state: begun(old(self)@),
                events: Seq::empty(),
                ..old(self)@
            }),
            !final(self)@.state.complete,
            old(self)@.state.number < i32::MAX ==> final(self)@.state.number < i32::MAX,
    {
        let mut events: Vec<FrameEvent> = Vec::new();
        core::mem::swap(&mut events, &mut self.events);
        self.intents = HashMap::new();
        self.complete = false;
        let ghost queue = old(self)@.events;
        let ghost start = cleared(old(self)@.state);
        proof {
            assert(self@.state.intents =~= Map::empty());
            assert(self@.events =~= Seq::empty());
            assert(event_views(events@) == queue);
            lemma_apply_events_in_progress(start, queue);
        }
        // Take the events from the back of a reversed queue, so that the
        // first to arrive is the first to be applied.
        let mut reversed: Vec<FrameEvent> = Vec::new();
        while events.len() > 0
            invariant
                event_views(reversed@) + event_views(events@).reverse() == queue.reverse(),
            decreases events@.len(),
        {
            let ghost before = event_views(events@);
            let ghost done = event_views(reversed@);
            let event = events.pop().unwrap();
            reversed.push(event);
            proof {
                assert(event_views(events@) =~= before.drop_last());
                assert(event_views(reversed@) =~= done.push(before.last()));
                assert(before.reverse() =~= seq![before.last()] + before.drop_last().reverse());
                assert(done.push(before.last()) + before.drop_last().reverse() =~= done
                    + before.reverse());
            }
        }
        proof {
            assert(event_views(events@).reverse() =~= Seq::<EventView>::empty());
            assert(event_views(reversed@) =~= queue.reverse());
        }
        let ghost mut applied: int = 0;
        while reversed.len() > 0
            invariant
                0 <= applied <= queue.len(),
                event_views(reversed@) == queue.subrange(applied, queue.len() as int).reverse(),
                self@ == (FrameView {
                    state: apply_events(start, queue.subrange(0, applied)),
                    events: Seq::empty(),
                    ..old(self)@
                }),
            decreases reversed@.len(),
        {
            let ghost rest = event_views(reversed@);
            let event = reversed.pop().unwrap();
            proof {
                let tail = queue.subrange(applied, queue.len() as int);
                assert(rest.len() == tail.len());
                assert(rest.last() == tail.reverse()[tail.len() - 1]);
                assert(event@ == queue[applied]);
                let shorter = queue.subrange(applied + 1, queue.len() as int);
                assert(event_views(reversed@) =~= rest.drop_last());
                assert(rest.drop_last().len() == shorter.reverse().len());
                assert forall|k: int| 0 <= k < shorter.len() implies rest.drop_last()[k]
                    == shorter.reverse()[k] by {
                    assert(rest[k] == tail.reverse()[k]);
                    assert(tail.reverse()[k] == tail[tail.len() - 1 - k]);
                    assert(shorter.reverse()[k] == shorter[shorter.len() - 1 - k]);
                }
                assert(event_views(reversed@) =~= shorter.reverse());
                assert(queue.subrange(0, applied + 1).drop_last() =~= queue.subrange(0, applied));
            }
            self.apply(event);
            proof {
                applied = applied + 1;
            }
        }
        proof {
            assert(reversed@.len() == 0);
            assert(queue.subrange(applied, queue.len() as int).reverse().len() == 0);
            assert(queue.subrange(0, applied) =~= queue);
        }
    }

    /// Ends a step: the frame is counted, and complete. The timings are
    /// those that the caller measured.
    pub fn finish_step(&mut self, profiler: FrameProfiler)
        requires
            old(self).wf(),
            old(self)@.state.number < i32::MAX,
        ensures
            final(self).wf(),
            final(self)@ == (FrameView {
                state: finished(old(self)@.state),
                frame_profiler: profiler,
                ..old(self)@
            }),
    {
        self.number = self.number + 1;
        self.complete = true;
        self.frame_profiler = profiler;
    }

    /// Takes the frame to the next tick: queues the given events behind
    /// those that wait already, applies them all, counts the frame and
    /// leaves it complete. Nothing but the events acts on the world. The
    /// events are rejected under the rules of `submit`, as an invalid
    /// sequence or, for a malformed frame replacement, as corrupt data;
    /// then no step takes place and the frame stays as it was, in every
    /// field.
    pub fn step(&mut self, events: Vec<FrameEvent>) -> (done: Result<(), CoreError>)
        requires
            old(self).wf(),
            old(self)@.state.number < i32::MAX,
        ensures
            final(self).wf(),
            match refusal(old(self)@.events + event_views(events@)) {
                None => {
                    &&& done is Ok
                    &&& final(self)@ == (FrameView {
                        state: stepped(
                            FrameView {
                                events: old(self)@.events + event_views(events@),
                                ..old(self)@
                            },
                        ),
                        events: Seq::empty(),
                        ..old(self)@
                    })
                },
                Some(e) => {
                    &&& done == Err::<(), CoreError>(e)
                    &&& final(self)@ == old(self)@
                },
            },
    {
        match self.submit(events) {
            Ok(()) => {
                let profiler: FrameProfiler = self.frame_profiler;
                self.begin_step();
                self.finish_step(profiler);
                Ok(())
            },
            Err(e) => Err(e),
        }
    }
}

} // verus!
