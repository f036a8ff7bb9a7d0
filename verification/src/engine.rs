//! The decisions of the audio engine. The engine runs in a thread of its own
//! that owns the output device; that thread receives commands, asks this
//! module what to do with each one and with each tick of its clock, does it
//! (loads a file, plays, pauses, stops, seeks, answers with a snapshot) and
//! reports back whether a load succeeded. Everything the engine decides about
//! the queue and about whether a track is loaded is decided here.
use vstd::prelude::*;

use crate::queue::{
    input_views, InputView, QueueModel, QueueState, QueueTrack, QueueTrackInput, RepeatMode,
    TrackView,
};

verus! {

/// A command for the engine, as far as its decisions go. Seeking to a
/// position and setting the volume carry values the engine hands straight to
/// the player; here they are only named.
pub enum EngineCommand {
    /// Plays a loose file, outside the queue (the queue is emptied).
    Load { path: String, autoplay: bool },
    Play,
    Pause,
    Stop,
    Seek,
    /// Replaces the whole queue and starts at `start_index` when given and
    /// valid, else at the track the modes pick.
    SetQueue { items: Vec<QueueTrackInput>, start_index: Option<usize>, autoplay: bool },
    AddToQueue(Vec<QueueTrackInput>),
    RemoveFromQueue(u64),
    /// Removes the tracks under a folder that is no longer watched.
    RemoveQueueItemsUnder(String),
    ReorderQueue { item_id: u64, new_index: usize },
    ClearQueue,
    PlayQueueItem(u64),
    NextTrack,
    PreviousTrack,
    /// Toggles play and pause (the media key of the operating system).
    TogglePlayPause,
    SetShuffle(bool),
    SetRepeatMode(RepeatMode),
    GetQueueState,
}

/// What the engine thread does with the player after a decision.
#[derive(Debug, PartialEq)]
pub enum PlayerAction {
    Nothing,
    /// Loads the file and plays it (or leaves it paused), then reports with
    /// [`EngineState::track_loaded`] whether that worked.
    LoadTrack { path: String, autoplay: bool },
    Play,
    /// Pauses and saves the queue with the position reached.
    PauseAndSave,
    /// Stops the player; nothing is loaded any more.
    Stop,
    /// Seeks; when that works, saves the queue with the new position.
    Seek,
    /// Answers with a snapshot of the queue.
    Snapshot,
}

pub enum ActionView {
    Nothing,
    LoadTrack { path: Seq<char>, autoplay: bool },
    Play,
    PauseAndSave,
    Stop,
    Seek,
    Snapshot,
}

impl View for PlayerAction {
    type V = ActionView;

    open spec fn view(&self) -> ActionView {
        match self {
            PlayerAction::Nothing => ActionView::Nothing,
            PlayerAction::LoadTrack { path, autoplay } => ActionView::LoadTrack { path: path@, autoplay: *autoplay },
            PlayerAction::Play => ActionView::Play,
            PlayerAction::PauseAndSave => ActionView::PauseAndSave,
            PlayerAction::Stop => ActionView::Stop,
            PlayerAction::Seek => ActionView::Seek,
            PlayerAction::Snapshot => ActionView::Snapshot,
        }
    }
}

/// What a command leads to: the action for the player, and whether the queue
/// changed (then the engine saves it and tells the interface).
pub struct Decision {
    pub action: PlayerAction,
    pub queue_changed: bool,
}

/// What a tick of the engine's clock leads to.
#[derive(Debug, PartialEq)]
pub enum TickAction {
    /// Nothing is loaded: nothing to do.
    Idle,
    /// A track is playing or paused: report the progress.
    Progress,
    /// The track ended and the queue gave the next one: load it and play it.
    /// If loading fails, playback has ended.
    LoadNext { path: String },
    /// The track ended and nothing follows: stop; playback has ended.
    Ended,
}

/// The state of the engine as far as its decisions go.
pub struct EngineState {
    pub queue: QueueState,
    /// Whether a track is loaded in the player.
    pub has_track: bool,
}

pub struct EngineModel {
    pub queue: QueueModel,
    pub has_track: bool,
}

impl View for EngineState {
    type V = EngineModel;

    open spec fn view(&self) -> EngineModel {
        EngineModel { queue: self.queue@, has_track: self.has_track }
    }
}

/// The action that plays what the queue gave, or stops when it gave nothing.
pub open spec fn apply_track(t: Option<TrackView>, autoplay: bool) -> ActionView {
    match t {
        Some(t) => ActionView::LoadTrack { path: t.path, autoplay },
        None => ActionView::Stop,
    }
}

/// Whether a track is still loaded after that action (a load reports later).
pub open spec fn loaded_after(t: Option<TrackView>, has_track: bool) -> bool {
    match t {
        Some(_) => has_track,
        None => false,
    }
}

/// What replacing the queue with `inputs` and starting at `start_index` (or
/// where the modes say) may lead to: `q` the queue after, `t` the track to
/// play. With shuffle on, the new queue is shuffled with the starting track
/// first.
pub open spec fn set_queue_outcome(
    old: QueueModel,
    inputs: Seq<InputView>,
    start_index: Option<usize>,
    q: QueueModel,
    t: Option<TrackView>,
) -> bool {
    let fresh = old.set_items_result(inputs);
    let (started, track) = match start_index {
        Some(i) => if i < fresh.items.len() {
            (fresh.play_item_result(fresh.items[i as int].id), Some(fresh.items[i as int]))
        } else if fresh.items.len() == 0 {
            (fresh, None)
        } else {
            (QueueModel { current: Some(fresh.items[0].id), ..fresh }, Some(fresh.items[0]))
        },
        None => if fresh.items.len() == 0 {
            (fresh, None)
        } else {
            (QueueModel { current: Some(fresh.items[0].id), ..fresh }, Some(fresh.items[0]))
        },
    };
    &&& t == track
    &&& q == started.with_items(q.items)
    &&& if started.shuffle {
        crate::queue::shuffled_keeping_current(started.items, started.current, q.items)
    } else {
        q.items == started.items
    }
}

/// What a command leads to, for a model of the engine before (`old`) and after
/// (`new`) it, the action `a` and whether the queue changed. `paused` is
/// whether the player was paused when the command came.
pub open spec fn command_outcome(
    old: EngineModel,
    cmd: EngineCommand,
    paused: bool,
    new: EngineModel,
    a: ActionView,
    changed: bool,
) -> bool {
    let q = old.queue;
    match cmd {
        EngineCommand::Load { path, autoplay } => {
            &&& new == EngineModel { queue: q.clear_result(), ..old }
            &&& a == ActionView::LoadTrack { path: path@, autoplay }
            &&& changed
        },
        EngineCommand::Play => new == old && a == ActionView::Play && !changed,
        EngineCommand::Pause => new == old && a == ActionView::PauseAndSave && !changed,
        EngineCommand::Stop => {
            &&& new == EngineModel { has_track: false, ..old }
            &&& a == ActionView::Stop
            &&& !changed
        },
        EngineCommand::Seek => new == old && a == ActionView::Seek && !changed,
        EngineCommand::TogglePlayPause => {
            &&& new == old
            &&& !changed
            &&& a == if !old.has_track {
                ActionView::Nothing
            } else if paused {
                ActionView::Play
            } else {
                ActionView::PauseAndSave
            }
        },
        EngineCommand::SetQueue { items, start_index, autoplay } => {
            &&& changed
            &&& exists|t: Option<TrackView>| #[trigger]
                set_queue_outcome(q, input_views(items@), start_index, new.queue, t)
                    && a == apply_track(t, autoplay) && new.has_track == loaded_after(t, old.has_track)
        },
        EngineCommand::AddToQueue(items) => {
            &&& new == EngineModel { queue: q.add_items_result(input_views(items@)), ..old }
            &&& a == ActionView::Nothing
            &&& changed
        },
        EngineCommand::RemoveFromQueue(id) => {
            &&& new == EngineModel { queue: q.remove_result(id), ..old }
            &&& a == ActionView::Nothing
            &&& changed
        },
        EngineCommand::RemoveQueueItemsUnder(root) => {
            &&& new.queue == q.remove_under_result(root@)
            &&& changed
            &&& if q.current_under(root@) {
                a == ActionView::Stop && !new.has_track
            } else {
                a == ActionView::Nothing && new.has_track == old.has_track
            }
        },
        EngineCommand::ReorderQueue { item_id, new_index } => {
            &&& new == EngineModel { queue: q.reorder_result(item_id, new_index), ..old }
            &&& a == ActionView::Nothing
            &&& changed
        },
        EngineCommand::ClearQueue => {
            &&& new == EngineModel { queue: q.clear_result(), has_track: false }
            &&& a == ActionView::Stop
            &&& changed
        },
        EngineCommand::PlayQueueItem(id) => {
            let t = crate::queue::find_track(q.items, id);
            &&& new.queue == (if t is Some {
                q.play_item_result(id)
            } else {
                q
            })
            &&& a == apply_track(t, true)
            &&& new.has_track == loaded_after(t, old.has_track)
            &&& changed
        },
        EngineCommand::NextTrack => {
            &&& exists|t: Option<TrackView>| #[trigger]
                q.next_outcome(new.queue, t) && a == apply_track(t, true) && new.has_track == loaded_after(
                    t,
                    old.has_track,
                )
            &&& changed
        },
        EngineCommand::PreviousTrack => {
            let (pq, t) = q.previous_result();
            &&& new.queue == pq
            &&& match t {
                Some(tr) => a == apply_track(t, true) && new.has_track == old.has_track && changed,
                None => a == ActionView::Nothing && new.has_track == old.has_track && !changed,
            }
        },
        EngineCommand::SetShuffle(enabled) => {
            &&& new.has_track == old.has_track
            &&& new.queue == (QueueModel { items: new.queue.items, shuffle: enabled, ..q })
            &&& (if enabled {
                crate::queue::shuffled_keeping_current(q.items, q.current, new.queue.items)
            } else {
                new.queue.items == q.items
            })
            &&& a == ActionView::Nothing
            &&& changed
        },
        EngineCommand::SetRepeatMode(mode) => {
            &&& new == EngineModel { queue: QueueModel { repeat: mode, ..q }, ..old }
            &&& a == ActionView::Nothing
            &&& changed
        },
        EngineCommand::GetQueueState => new == old && a == ActionView::Snapshot && !changed,
    }
}

/// Whether a command can be taken without running out of track ids.
pub open spec fn command_fits(q: QueueModel, cmd: EngineCommand) -> bool {
    match cmd {
        EngineCommand::SetQueue { items, .. } => q.next_id + items@.len() <= u64::MAX,
        EngineCommand::AddToQueue(items) => q.next_id + items@.len() <= u64::MAX,
        _ => true,
    }
}

/// The queue as it is saved between sessions: the tracks without their ids
/// (which are handed out afresh at every start), where the current track
/// stands, and the modes.
pub struct PersistedQueue {
    pub items: Vec<QueueTrackInput>,
    pub current_index: Option<usize>,
    pub shuffle: bool,
    pub repeat: RepeatMode,
}

pub open spec fn saved_inputs(items: Seq<TrackView>) -> Seq<InputView> {
    items.map_values(|t: TrackView| InputView { path: t.path, track_id: t.track_id })
}

/// The queue after restoring a saved one onto `q`: the saved tracks with fresh
/// ids after `q`'s last one, no history, the saved modes, and the track at
/// `current_index` (when there is one) made current.
pub open spec fn restored_queue(
    q: QueueModel,
    items: Seq<InputView>,
    current_index: Option<usize>,
    shuffle: bool,
    repeat: RepeatMode,
) -> QueueModel {
    let base = QueueModel { shuffle, repeat, ..q.set_items_result(items) };
    match current_index {
        Some(i) => if i < items.len() {
            base.play_item_result(base.items[i as int].id)
        } else {
            base
        },
        None => base,
    }
}

impl EngineState {
    pub open spec fn wf(self) -> bool {
        self.queue@.wf()
    }

    /// An empty queue and nothing loaded.
    pub fn new() -> (r: Self)
        ensures
            r.wf(),
            !r.has_track,
            r.queue@ == (QueueModel {
                items: seq![],
                next_id: 0,
                current: None,
                history: seq![],
                shuffle: false,
                repeat: RepeatMode::Off,
            }),
    {
        EngineState { queue: QueueState::new(), has_track: false }
    }

    /// Reports whether loading the file of the last `LoadTrack` worked.
    pub fn track_loaded(&mut self, ok: bool)
        ensures
            final(self).has_track == ok,
            final(self).queue@ == old(self).queue@,
    {
        self.has_track = ok;
    }

    /// Plays what the queue gave (the returned action), or stops.
    fn apply(&mut self, track: Option<QueueTrack>, autoplay: bool) -> (a: PlayerAction)
        ensures
            a@ == apply_track(
                match track {
                    Some(t) => Some(t@),
                    None => None,
                },
                autoplay,
            ),
            final(self).has_track == loaded_after(
                match track {
                    Some(t) => Some(t@),
                    None => None,
                },
                old(self).has_track,
            ),
            final(self).queue@ == old(self).queue@,
    {
        match track {
            Some(t) => PlayerAction::LoadTrack { path: t.path, autoplay },
            None => {
                self.has_track = false;
                PlayerAction::Stop
            },
        }
    }

    /// Decides what a command does to the queue and to the player.
    pub fn handle_command(&mut self, cmd: EngineCommand, paused: bool) -> (d: Decision)
        requires
            old(self).wf(),
            command_fits(old(self)@.queue, cmd),
        ensures
            final(self).wf(),
            command_outcome(old(self)@, cmd, paused, final(self)@, d.action@, d.queue_changed),
    {
        let ghost before = self@;
        let ghost c = cmd;
        match cmd {
            EngineCommand::Load { path, autoplay } => {
                self.queue.clear();
                Decision { action: PlayerAction::LoadTrack { path, autoplay }, queue_changed: true }
            },
            EngineCommand::Play => Decision { action: PlayerAction::Play, queue_changed: false },
            EngineCommand::Pause => Decision { action: PlayerAction::PauseAndSave, queue_changed: false },
            EngineCommand::Stop => {
                self.has_track = false;
                Decision { action: PlayerAction::Stop, queue_changed: false }
            },
            EngineCommand::Seek => Decision { action: PlayerAction::Seek, queue_changed: false },
            EngineCommand::TogglePlayPause => {
                let action = if !self.has_track {
                    PlayerAction::Nothing
                } else if paused {
                    PlayerAction::Play
                } else {
                    PlayerAction::PauseAndSave
                };
                Decision { action, queue_changed: false }
            },
            EngineCommand::SetQueue { items, start_index, autoplay } => {
                let ghost ins = input_views(items@);
                self.queue.set_items(items);
                let ghost fresh = self.queue@;
                let start_id = match start_index {
                    Some(i) => {
                        let tracks = self.queue.items();
                        if i < tracks.len() {
                            Some(tracks[i].id)
                        } else {
                            None
                        }
                    },
                    None => None,
                };
                proof {
                    if let Some(i) = start_index {
                        if i < fresh.items.len() {
                            assert(start_id == Some(fresh.items[i as int].id));
                        } else {
                            assert(start_id is None);
                        }
                    }
                }
                let chosen = match start_id {
                    Some(id) => self.queue.play_item(id),
                    None => self.queue.next(),
                };
                proof {
                    if let Some(i) = start_index {
                        if i < fresh.items.len() {
                            crate::queue::lemma_index_of_id(fresh.items, i as int);
                        }
                    }
                }
                self.queue.reshuffle_if_active();
                let ghost t = crate::queue::track_opt_view(chosen);
                let action = self.apply(chosen, autoplay);
                proof {
                    assert(set_queue_outcome(before.queue, ins, start_index, self.queue@, t));
                }
                Decision { action, queue_changed: true }
            },
            EngineCommand::AddToQueue(items) => {
                self.queue.add_items(items);
                Decision { action: PlayerAction::Nothing, queue_changed: true }
            },
            EngineCommand::RemoveFromQueue(id) => {
                self.queue.remove(id);
                Decision { action: PlayerAction::Nothing, queue_changed: true }
            },
            EngineCommand::RemoveQueueItemsUnder(root) => {
                let affected = self.queue.remove_under(root.as_str());
                let action = if affected {
                    self.has_track = false;
                    PlayerAction::Stop
                } else {
                    PlayerAction::Nothing
                };
                Decision { action, queue_changed: true }
            },
            EngineCommand::ReorderQueue { item_id, new_index } => {
                self.queue.reorder(item_id, new_index);
                Decision { action: PlayerAction::Nothing, queue_changed: true }
            },
            EngineCommand::ClearQueue => {
                self.queue.clear();
                self.has_track = false;
                Decision { action: PlayerAction::Stop, queue_changed: true }
            },
            EngineCommand::PlayQueueItem(id) => {
                let t = self.queue.play_item(id);
                let action = self.apply(t, true);
                Decision { action, queue_changed: true }
            },
            EngineCommand::NextTrack => {
                let t = self.queue.next();
                let action = self.apply(t, true);
                Decision { action, queue_changed: true }
            },
            EngineCommand::PreviousTrack => {
                // Without history (first or only track) nothing happens: what
                // plays must not be cut off for lack of somewhere to go back to.
                match self.queue.previous() {
                    Some(t) => {
                        let action = self.apply(Some(t), true);
                        Decision { action, queue_changed: true }
                    },
                    None => Decision { action: PlayerAction::Nothing, queue_changed: false },
                }
            },
            EngineCommand::SetShuffle(enabled) => {
                self.queue.set_shuffle(enabled);
                Decision { action: PlayerAction::Nothing, queue_changed: true }
            },
            EngineCommand::SetRepeatMode(mode) => {
                self.queue.set_repeat(mode);
                Decision { action: PlayerAction::Nothing, queue_changed: true }
            },
            EngineCommand::GetQueueState => Decision { action: PlayerAction::Snapshot, queue_changed: false },
        }
    }

    /// Decides what a tick of the clock does, given whether the player has run
    /// out of audio. Returns the action and whether the queue changed.
    pub fn on_tick(&mut self, player_empty: bool) -> (r: (TickAction, bool))
        requires
            old(self).wf(),
        ensures
            final(self).wf(),
            !old(self).has_track ==> r.0 == TickAction::Idle && final(self)@ == old(self)@ && !r.1,
            old(self).has_track && !player_empty ==> r.0 == TickAction::Progress && final(self)@ == old(self)@
                && !r.1,
            old(self).has_track && player_empty ==> exists|t: Option<TrackView>| #[trigger]
                old(self)@.queue.next_outcome(final(self)@.queue, t) && match t {
                    Some(tr) => r.0 matches TickAction::LoadNext { path } && path@ == tr.path
                        && final(self).has_track && r.1,
                    None => r.0 == TickAction::Ended && !final(self).has_track && !r.1,
                },
    {
        if !self.has_track {
            return (TickAction::Idle, false);
        }
        if !player_empty {
            return (TickAction::Progress, false);
        }
        self.has_track = false;
        let next = self.queue.next();
        let ghost t = crate::queue::track_opt_view(next);
        match next {
            Some(track) => {
                self.has_track = true;
                (TickAction::LoadNext { path: track.path }, true)
            },
            None => (TickAction::Ended, false),
        }
    }

    /// The queue to save: its tracks without ids, where the current one stands,
    /// and the modes.
    pub fn persisted(&self) -> (p: PersistedQueue)
        requires
            self.wf(),
        ensures
            input_views(p.items@) == saved_inputs(self.queue@.items),
            match p.current_index {
                Some(i) => self.queue@.current_index() == Some(i as int),
                None => self.queue@.current_index() is None,
            },
            p.shuffle == self.queue@.shuffle,
            p.repeat == self.queue@.repeat,
    {
        let tracks = self.queue.items();
        let ghost tv = self.queue@.items;
        let mut items: Vec<QueueTrackInput> = Vec::new();
        let mut i: usize = 0;
        while i < tracks.len()
            invariant
                crate::queue::track_views(tracks@) == tv,
                i <= tracks@.len(),
                input_views(items@) =~= saved_inputs(tv).take(i as int),
            decreases tracks@.len() - i,
        {
            let t = &tracks[i];
            let ghost prev = items@;
            let input = QueueTrackInput { path: t.path.clone(), track_id: t.track_id };
            items.push(input);
            assert(tv[i as int] == t@);
            assert(input_views(items@) =~= input_views(prev).push(input@));
            assert(input_views(items@) =~= saved_inputs(tv).take(i as int + 1));
            i = i + 1;
        }
        assert(saved_inputs(tv).take(i as int) =~= saved_inputs(tv));
        PersistedQueue {
            items,
            current_index: self.queue.current_index(),
            shuffle: self.queue.shuffle(),
            repeat: self.queue.repeat(),
        }
    }

    /// Restores a saved queue at start-up: its tracks, its modes (without
    /// shuffling again: the saved order is already the one to keep) and its
    /// current track, which is returned to be loaded paused.
    pub fn restore(&mut self, saved: PersistedQueue) -> (r: Option<QueueTrack>)
        requires
            old(self).wf(),
            old(self)@.queue.next_id + saved.items@.len() <= u64::MAX,
        ensures
            final(self).wf(),
            final(self).has_track == old(self).has_track,
            final(self)@.queue == restored_queue(
                old(self)@.queue,
                input_views(saved.items@),
                saved.current_index,
                saved.shuffle,
                saved.repeat,
            ),
            saved_inputs(final(self)@.queue.items) == input_views(saved.items@),
            final(self)@.queue.history.len() == 0,
            match saved.current_index {
                Some(i) => if i < saved.items@.len() {
                    &&& final(self)@.queue.current_index() == Some(i as int)
                    &&& r matches Some(t) && t@ == final(self)@.queue.items[i as int]
                } else {
                    final(self)@.queue.current is None && r is None
                },
                None => final(self)@.queue.current is None && r is None,
            },
    {
        let ghost ins = input_views(saved.items@);
        self.queue.set_items(saved.items);
        proof {
            assert(saved_inputs(self.queue@.items) =~= ins);
        }
        self.queue.set_shuffle_flag(saved.shuffle);
        self.queue.set_repeat(saved.repeat);
        let start_id = match saved.current_index {
            Some(i) => {
                let tracks = self.queue.items();
                if i < tracks.len() {
                    Some(tracks[i].id)
                } else {
                    None
                }
            },
            None => None,
        };
        match saved.current_index {
            Some(i) => if start_id.is_some() {
                let id = start_id.unwrap();
                let ghost q = self.queue@;
                assert(id == q.items[i as int].id);
                proof {
                    crate::queue::lemma_index_of_id(q.items, i as int);
                }
                let t = self.queue.play_item(id);
                proof {
                    crate::queue::lemma_index_of_id(self.queue@.items, i as int);
                }
                t
            } else {
                None
            },
            None => None,
        }
    }
}

/// `Pause` always pauses the player and saves the queue, and changes nothing
/// else, whether or not the player was already paused.
pub proof fn law_pause_pauses_and_saves(
    old: EngineModel,
    paused: bool,
    new: EngineModel,
    a: ActionView,
    changed: bool,
)
    requires
        command_outcome(old, EngineCommand::Pause, paused, new, a, changed),
    ensures
        a == ActionView::PauseAndSave,
        new == old,
        !changed,
{
}

/// On a loaded track that is playing, the play/pause toggle does just what
/// `Pause` does.
pub proof fn law_toggle_on_a_playing_track_is_pause(
    old: EngineModel,
    new_pause: EngineModel,
    a_pause: ActionView,
    changed_pause: bool,
    new_toggle: EngineModel,
    a_toggle: ActionView,
    changed_toggle: bool,
)
    requires
        old.has_track,
        command_outcome(old, EngineCommand::Pause, false, new_pause, a_pause, changed_pause),
        command_outcome(old, EngineCommand::TogglePlayPause, false, new_toggle, a_toggle, changed_toggle),
    ensures
        a_toggle == a_pause,
        a_toggle == ActionView::PauseAndSave,
        new_toggle == new_pause,
        changed_toggle == changed_pause,
{
}

/// Saving the queue and restoring it gives back the same tracks (paths and
/// library ids) in the same order, the same current track at the same place,
/// and the same modes.
pub proof fn law_saved_queue_restores_the_same_queue(
    before: QueueModel,
    saved_items: Seq<InputView>,
    saved_current: Option<usize>,
    after: QueueModel,
)
    requires
        before.wf(),
        saved_items == saved_inputs(before.items),
        match saved_current {
            Some(i) => before.current_index() == Some(i as int),
            None => before.current_index() is None,
        },
        saved_inputs(after.items) == saved_items,
        match saved_current {
            Some(i) => if i < saved_items.len() {
                after.current_index() == Some(i as int)
            } else {
                after.current is None
            },
            None => after.current is None,
        },
    ensures
        after.items.len() == before.items.len(),
        forall|k: int|
            0 <= k < before.items.len() ==> (#[trigger] after.items[k]).path == before.items[k].path
                && after.items[k].track_id == before.items[k].track_id,
        after.current_index() == before.current_index(),
{
    assert(saved_inputs(after.items).len() == after.items.len());
    assert(saved_inputs(before.items).len() == before.items.len());
    assert forall|k: int| 0 <= k < before.items.len() implies (#[trigger] after.items[k]).path == before.items[k].path
        && after.items[k].track_id == before.items[k].track_id by {
        assert(saved_inputs(after.items)[k] == saved_inputs(before.items)[k]);
        assert(saved_inputs(after.items)[k] == InputView { path: after.items[k].path, track_id: after.items[k].track_id });
        assert(saved_inputs(before.items)[k] == InputView { path: before.items[k].path, track_id: before.items[k].track_id });
    }
    if saved_current is Some {
        let i = saved_current->0;
        assert(i < before.items.len());
    }
}

} // verus!
