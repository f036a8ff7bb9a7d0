use audio_player::engine::{EngineCommand, EngineState, PersistedQueue, PlayerAction, TickAction};
use audio_player::queue::{QueueTrackInput, RepeatMode};

fn input(p: &str, id: Option<i64>) -> QueueTrackInput {
    QueueTrackInput { path: p.to_string(), track_id: id }
}

#[test]
fn persisted_queue_round_trips_items_current_track_and_modes() {
    let mut engine = EngineState::new();
    engine.handle_command(
        EngineCommand::SetQueue {
            items: vec![input("a.mp3", Some(1)), input("b.mp3", Some(2)), input("c.mp3", None)],
            start_index: None,
            autoplay: false,
        },
        false,
    );
    engine.queue.next(); // b <- queda como actual
    engine.queue.set_repeat(RepeatMode::Track);

    let saved = engine.persisted();
    assert_eq!(saved.items.len(), 3);
    assert_eq!(saved.items[1].path, "b.mp3");
    assert_eq!(saved.current_index, Some(1), "b es la pista actual, en la posición 1");
    assert!(!saved.shuffle);
    assert_eq!(saved.repeat, RepeatMode::Track);

    let mut restored = EngineState::new();
    let track = restored.restore(saved).expect("debería restaurar la pista actual");
    assert_eq!(track.path, "b.mp3");
    assert_eq!(restored.queue.current_index(), Some(1));
    assert_eq!(restored.queue.repeat(), RepeatMode::Track);
    let paths: Vec<&str> = restored.queue.items().iter().map(|t| t.path.as_str()).collect();
    assert_eq!(paths, vec!["a.mp3", "b.mp3", "c.mp3"]);
    assert_eq!(restored.queue.items()[2].track_id, None);
}

#[test]
fn restore_keeps_the_saved_order_even_with_shuffle_on() {
    let mut engine = EngineState::new();
    let saved = PersistedQueue {
        items: vec![input("x.mp3", None), input("y.mp3", None), input("z.mp3", None)],
        current_index: Some(2),
        shuffle: true,
        repeat: RepeatMode::Off,
    };
    let track = engine.restore(saved).unwrap();
    assert_eq!(track.path, "z.mp3");
    assert!(engine.queue.shuffle());
    let paths: Vec<&str> = engine.queue.items().iter().map(|t| t.path.as_str()).collect();
    assert_eq!(paths, vec!["x.mp3", "y.mp3", "z.mp3"]);
}

#[test]
fn restore_numbers_the_tracks_afresh_with_no_history() {
    let mut engine = EngineState::new();
    let saved = PersistedQueue {
        items: vec![input("x.mp3", Some(9)), input("y.mp3", None)],
        current_index: Some(1),
        shuffle: false,
        repeat: RepeatMode::Queue,
    };
    let track = engine.restore(saved).unwrap();
    assert_eq!(track.id, 2);
    let ids: Vec<u64> = engine.queue.items().iter().map(|t| t.id).collect();
    assert_eq!(ids, vec![1, 2]);
    assert_eq!(engine.queue.last_id(), 2);
    assert_eq!(engine.queue.current_id(), Some(2));
    assert!(!engine.queue.has_previous());
    assert_eq!(engine.queue.repeat(), RepeatMode::Queue);

    let mut out_of_range = EngineState::new();
    let saved = PersistedQueue {
        items: vec![input("x.mp3", None)],
        current_index: Some(5),
        shuffle: false,
        repeat: RepeatMode::Off,
    };
    assert!(out_of_range.restore(saved).is_none());
    assert_eq!(out_of_range.queue.current_id(), None);
    assert_eq!(out_of_range.queue.items().len(), 1);
}

#[test]
fn set_queue_starts_at_the_given_index_and_loads_it() {
    let mut engine = EngineState::new();
    let d = engine.handle_command(
        EngineCommand::SetQueue {
            items: vec![input("a.mp3", None), input("b.mp3", None)],
            start_index: Some(1),
            autoplay: true,
        },
        false,
    );
    assert!(d.queue_changed);
    assert_eq!(d.action, PlayerAction::LoadTrack { path: "b.mp3".to_string(), autoplay: true });
    engine.track_loaded(true);
    assert!(engine.has_track);
}

#[test]
fn set_queue_with_nothing_to_play_stops() {
    let mut engine = EngineState::new();
    let d = engine.handle_command(
        EngineCommand::SetQueue { items: vec![], start_index: Some(0), autoplay: true },
        false,
    );
    assert_eq!(d.action, PlayerAction::Stop);
    assert!(!engine.has_track);
}

#[test]
fn previous_without_history_does_not_interrupt_playback() {
    let mut engine = EngineState::new();
    engine.handle_command(
        EngineCommand::SetQueue { items: vec![input("a.mp3", None)], start_index: None, autoplay: true },
        false,
    );
    engine.track_loaded(true);
    let d = engine.handle_command(EngineCommand::PreviousTrack, false);
    assert_eq!(d.action, PlayerAction::Nothing);
    assert!(!d.queue_changed);
    assert!(engine.has_track);
}

#[test]
fn toggle_plays_or_pauses_only_with_a_track() {
    let mut engine = EngineState::new();
    assert_eq!(engine.handle_command(EngineCommand::TogglePlayPause, true).action, PlayerAction::Nothing);
    engine.track_loaded(true);
    assert_eq!(engine.handle_command(EngineCommand::TogglePlayPause, true).action, PlayerAction::Play);
    assert_eq!(
        engine.handle_command(EngineCommand::TogglePlayPause, false).action,
        PlayerAction::PauseAndSave
    );
}

#[test]
fn end_of_track_advances_then_ends() {
    let mut engine = EngineState::new();
    engine.handle_command(
        EngineCommand::SetQueue {
            items: vec![input("a.mp3", None), input("b.mp3", None)],
            start_index: None,
            autoplay: true,
        },
        false,
    );
    engine.track_loaded(true);
    assert_eq!(engine.on_tick(false), (TickAction::Progress, false));
    assert_eq!(
        engine.on_tick(true),
        (TickAction::LoadNext { path: "b.mp3".to_string() }, true)
    );
    assert_eq!(engine.on_tick(true), (TickAction::Ended, false));
    assert!(!engine.has_track);
    assert_eq!(engine.on_tick(true), (TickAction::Idle, false));
}

#[test]
fn removing_the_folder_of_the_current_track_stops_it() {
    let mut engine = EngineState::new();
    engine.handle_command(
        EngineCommand::SetQueue {
            items: vec![input("/m/a/1.mp3", None), input("/m/b/2.mp3", None)],
            start_index: None,
            autoplay: true,
        },
        false,
    );
    engine.track_loaded(true);
    let d = engine.handle_command(EngineCommand::RemoveQueueItemsUnder("/m/a".to_string()), false);
    assert_eq!(d.action, PlayerAction::Stop);
    assert!(!engine.has_track);
    assert_eq!(engine.queue.items().len(), 1);
    let d = engine.handle_command(EngineCommand::ClearQueue, false);
    assert_eq!(d.action, PlayerAction::Stop);
    assert!(engine.queue.items().is_empty());
}

#[test]
fn load_empties_the_queue_and_loads_the_file() {
    let mut engine = EngineState::new();
    engine.handle_command(EngineCommand::AddToQueue(vec![input("a.mp3", None)]), false);
    let d = engine.handle_command(
        EngineCommand::Load { path: "/x.mp3".to_string(), autoplay: false },
        false,
    );
    assert_eq!(d.action, PlayerAction::LoadTrack { path: "/x.mp3".to_string(), autoplay: false });
    assert!(engine.queue.items().is_empty());
}
