use audio_player::queue::{QueueState, QueueTrackInput, RepeatMode};
use std::collections::HashSet;

fn inputs(paths: &[&str]) -> Vec<QueueTrackInput> {
    paths
        .iter()
        .map(|p| QueueTrackInput {
            path: (*p).to_string(),
            track_id: None,
        })
        .collect()
}

fn ids(state: &QueueState) -> Vec<u64> {
    state.items().iter().map(|t| t.id).collect()
}

#[test]
fn sequential_next_walks_through_the_queue_in_order() {
    let mut q = QueueState::default();
    q.set_items(inputs(&["a.mp3", "b.mp3", "c.mp3"]));
    let [id_a, id_b, id_c] = ids(&q)[..] else {
        panic!("se esperaban 3 ítems")
    };

    assert_eq!(q.next().map(|t| t.id), Some(id_a));
    assert_eq!(q.next().map(|t| t.id), Some(id_b));
    assert_eq!(q.next().map(|t| t.id), Some(id_c));
    assert_eq!(
        q.next(),
        None,
        "sin repeat, al final de la cola no hay siguiente"
    );
}

#[test]
fn has_previous_reflects_whether_previous_would_return_a_track() {
    let mut q = QueueState::default();
    q.set_items(inputs(&["a.mp3", "b.mp3"]));
    assert!(!q.has_previous(), "sin historial no hay pista anterior");

    q.next(); // a
    assert!(
        !q.has_previous(),
        "en la primera pista todavía no hay historial"
    );

    q.next(); // b
    assert!(q.has_previous(), "ahora sí hay una pista anterior (a)");

    q.previous();
    assert!(!q.has_previous(), "de vuelta en a, sin más historial");
}

#[test]
fn repeat_queue_wraps_around_to_the_first_track() {
    let mut q = QueueState::default();
    q.set_items(inputs(&["a.mp3", "b.mp3"]));
    q.set_repeat(RepeatMode::Queue);
    let id_a = q.items()[0].id;

    q.next();
    q.next();
    let wrapped = q.next();
    assert_eq!(wrapped.map(|t| t.id), Some(id_a));
}

#[test]
fn repeat_track_keeps_returning_the_same_track() {
    let mut q = QueueState::default();
    q.set_items(inputs(&["a.mp3", "b.mp3"]));
    let id_a = q.next().unwrap().id;
    q.set_repeat(RepeatMode::Track);

    assert_eq!(q.next().map(|t| t.id), Some(id_a));
    assert_eq!(q.next().map(|t| t.id), Some(id_a));
    assert_eq!(q.next().map(|t| t.id), Some(id_a));
}

#[test]
fn previous_walks_back_through_history() {
    let mut q = QueueState::default();
    q.set_items(inputs(&["a.mp3", "b.mp3", "c.mp3"]));
    let [id_a, id_b, id_c] = ids(&q)[..] else {
        panic!("se esperaban 3 ítems")
    };

    q.next(); // a
    q.next(); // b
    q.next(); // c
    assert_eq!(q.current_id(), Some(id_c));

    assert_eq!(q.previous().map(|t| t.id), Some(id_b));
    assert_eq!(q.previous().map(|t| t.id), Some(id_a));
    assert_eq!(
        q.previous(),
        None,
        "no hay más historial antes de la primera pista"
    );
}

#[test]
fn enabling_shuffle_keeps_current_track_first_and_preserves_the_rest() {
    let mut q = QueueState::default();
    q.set_items(inputs(&["a.mp3", "b.mp3", "c.mp3", "d.mp3", "e.mp3"]));
    let current = q.next().unwrap().id; // deja "a" como actual
    let original: HashSet<u64> = ids(&q).into_iter().collect();

    q.set_shuffle(true);

    assert_eq!(
        q.items()[0].id,
        current,
        "la pista actual debe quedar primera tras mezclar"
    );
    let after: HashSet<u64> = ids(&q).into_iter().collect();
    assert_eq!(after, original, "mezclar no debe perder ni duplicar ítems");
}

#[test]
fn set_shuffle_flag_does_not_reorder_items() {
    let mut q = QueueState::default();
    q.set_items(inputs(&["a.mp3", "b.mp3", "c.mp3", "d.mp3", "e.mp3"]));
    let original_order: Vec<u64> = ids(&q);

    q.set_shuffle_flag(true);

    assert!(q.shuffle(), "la bandera sí debe quedar activada");
    assert_eq!(
        ids(&q),
        original_order,
        "a diferencia de set_shuffle, no debería reordenar nada"
    );
}

#[test]
fn reshuffle_if_active_reorders_a_freshly_replaced_queue_keeping_current_first() {
    let mut q = QueueState::default();
    q.set_shuffle_flag(true); // aleatorio ya estaba activo antes de elegir esta pista

    q.set_items(inputs(&["a.mp3", "b.mp3", "c.mp3", "d.mp3", "e.mp3"]));
    let original_order: Vec<u64> = ids(&q);
    let chosen = q.items()[2].id; // el usuario elige "c" de la biblioteca
    q.play_item(chosen);

    q.reshuffle_if_active();

    assert_eq!(
        q.items()[0].id,
        chosen,
        "la pista elegida debe quedar primera tras mezclar"
    );
    assert_ne!(
        ids(&q),
        original_order,
        "reemplazar la cola con aleatorio activo debe mezclarla, no dejarla en el orden original"
    );
}

#[test]
fn reshuffle_if_active_does_nothing_when_shuffle_is_off() {
    let mut q = QueueState::default();
    q.set_items(inputs(&["a.mp3", "b.mp3", "c.mp3", "d.mp3", "e.mp3"]));
    q.play_item(q.items()[2].id);
    let original_order: Vec<u64> = ids(&q);

    q.reshuffle_if_active();

    assert_eq!(
        ids(&q),
        original_order,
        "sin aleatorio no debe tocar el orden"
    );
}

#[test]
fn shuffle_visits_every_track_exactly_once_before_repeating() {
    let mut q = QueueState::default();
    q.set_items(inputs(&["a.mp3", "b.mp3", "c.mp3", "d.mp3"]));
    q.set_shuffle(true);

    let mut visited = Vec::new();
    for _ in 0..4 {
        visited.push(
            q.next()
                .expect("debería haber pista mientras queden en la cola")
                .id,
        );
    }

    let mut sorted = visited.clone();
    sorted.sort_unstable();
    let mut expected = ids(&q);
    expected.sort_unstable();
    assert_eq!(
        sorted, expected,
        "debe visitar cada pista exactamente una vez"
    );

    // Sin repeat, al llegar al final no hay más.
    assert_eq!(q.next(), None);
}

#[test]
fn shuffle_with_repeat_queue_reshuffles_after_exhausting() {
    let mut q = QueueState::default();
    q.set_items(inputs(&["a.mp3", "b.mp3", "c.mp3"]));
    q.set_shuffle(true);
    q.set_repeat(RepeatMode::Queue);

    // Recorre 2 ciclos completos sin quedarse sin pistas.
    for _ in 0..6 {
        assert!(q.next().is_some());
    }
}

#[test]
fn removing_current_track_keeps_it_playing_but_hides_it_from_items() {
    let mut q = QueueState::default();
    q.set_items(inputs(&["a.mp3", "b.mp3"]));
    let id_a = q.next().unwrap().id;

    q.remove(id_a);

    assert_eq!(
        q.current_id(),
        Some(id_a),
        "sigue sonando aunque ya no esté en la lista"
    );
    assert!(q.items().iter().all(|t| t.id != id_a));
    assert_eq!(q.items().len(), 1);
}

#[test]
fn remove_under_clears_current_id_when_current_track_is_under_the_removed_root() {
    let mut q = QueueState::default();
    q.set_items(inputs(&[
        "/music/folder-a/a.mp3",
        "/music/folder-a/b.mp3",
        "/music/folder-b/c.mp3",
    ]));
    q.next(); // a, bajo folder-a

    let affected = q.remove_under("/music/folder-a");

    assert!(affected, "la pista actual estaba bajo la carpeta quitada");
    assert_eq!(
        q.current_id(),
        None,
        "a diferencia de remove(), acá sí se limpia: la carpeta ya no es parte de la biblioteca"
    );
    let paths: Vec<&str> = q.items().iter().map(|t| t.path.as_str()).collect();
    assert_eq!(
        paths,
        vec!["/music/folder-b/c.mp3"],
        "solo debería sobrevivir la pista fuera de folder-a"
    );
}

#[test]
fn remove_under_leaves_current_id_untouched_when_not_affected() {
    let mut q = QueueState::default();
    q.set_items(inputs(&["/music/folder-a/a.mp3", "/music/folder-b/c.mp3"]));
    q.next(); // a
    let id_a = q.current_id();
    q.next(); // c, bajo folder-b

    let affected = q.remove_under("/music/folder-a");

    assert!(
        !affected,
        "la pista actual (c) no está bajo la carpeta quitada"
    );
    assert_ne!(q.current_id(), id_a);
    assert_eq!(q.items().len(), 1);
    assert_eq!(q.items()[0].path, "/music/folder-b/c.mp3");
}

#[test]
fn previous_skips_history_entries_that_were_removed() {
    let mut q = QueueState::default();
    q.set_items(inputs(&["a.mp3", "b.mp3", "c.mp3"]));
    let id_a = q.items()[0].id;
    let id_b = q.items()[1].id;

    q.next(); // a
    q.next(); // b
    q.remove(id_a);
    q.next(); // c

    // El historial tiene [a, b], pero a ya no existe: previous() debe saltarlo.
    assert_eq!(q.previous().map(|t| t.id), Some(id_b));
}

#[test]
fn reorder_moves_item_to_the_requested_position() {
    let mut q = QueueState::default();
    q.set_items(inputs(&["a.mp3", "b.mp3", "c.mp3"]));
    let id_a = q.items()[0].id;

    q.reorder(id_a, 2);

    let paths: Vec<&str> = q.items().iter().map(|t| t.path.as_str()).collect();
    assert_eq!(paths, vec!["b.mp3", "c.mp3", "a.mp3"]);
}

#[test]
fn play_item_pushes_previous_current_onto_history() {
    let mut q = QueueState::default();
    q.set_items(inputs(&["a.mp3", "b.mp3", "c.mp3"]));
    let id_a = q.items()[0].id;
    let id_c = q.items()[2].id;

    q.play_item(id_a);
    q.play_item(id_c);

    assert_eq!(q.current_id(), Some(id_c));
    assert_eq!(q.previous().map(|t| t.id), Some(id_a));
}

#[test]
fn clear_resets_everything() {
    let mut q = QueueState::default();
    q.set_items(inputs(&["a.mp3", "b.mp3"]));
    q.next();
    q.set_shuffle(true);

    q.clear();

    assert!(q.items().is_empty());
    assert_eq!(q.current_id(), None);
    assert_eq!(q.next(), None);
    assert_eq!(q.previous(), None);
}

#[test]
fn empty_queue_next_returns_none() {
    let mut q = QueueState::default();
    assert_eq!(q.next(), None);
}

// Further cases of this library.

#[test]
fn ids_are_handed_out_in_order_and_never_reused() {
    let mut q = QueueState::new();
    q.set_items(inputs(&["a.mp3", "b.mp3"]));
    assert_eq!(ids(&q), vec![1, 2]);
    q.add_items(inputs(&["c.mp3"]));
    assert_eq!(ids(&q), vec![1, 2, 3]);
    q.set_items(inputs(&["d.mp3"]));
    assert_eq!(ids(&q), vec![4]);
}

#[test]
fn add_items_keeps_the_current_track() {
    let mut q = QueueState::new();
    q.set_items(inputs(&["a.mp3"]));
    let id_a = q.next().unwrap().id;
    q.add_items(inputs(&["b.mp3"]));
    assert_eq!(q.current_id(), Some(id_a));
    assert_eq!(q.current().map(|t| t.path.as_str()), Some("a.mp3"));
    assert_eq!(q.next().map(|t| t.path), Some("b.mp3".to_string()));
}

#[test]
fn reorder_clamps_a_far_index_and_ignores_unknown_ids() {
    let mut q = QueueState::new();
    q.set_items(inputs(&["a.mp3", "b.mp3", "c.mp3"]));
    let id_b = q.items()[1].id;
    q.reorder(id_b, 99);
    let paths: Vec<&str> = q.items().iter().map(|t| t.path.as_str()).collect();
    assert_eq!(paths, vec!["a.mp3", "c.mp3", "b.mp3"]);
    q.reorder(1000, 0);
    let paths: Vec<&str> = q.items().iter().map(|t| t.path.as_str()).collect();
    assert_eq!(paths, vec!["a.mp3", "c.mp3", "b.mp3"]);
}

#[test]
fn play_item_of_unknown_id_changes_nothing() {
    let mut q = QueueState::new();
    q.set_items(inputs(&["a.mp3"]));
    assert_eq!(q.play_item(77), None);
    assert_eq!(q.current_id(), None);
}

#[test]
fn current_index_follows_the_current_track() {
    let mut q = QueueState::new();
    q.set_items(inputs(&["a.mp3", "b.mp3", "c.mp3"]));
    assert_eq!(q.current_index(), None);
    q.next();
    q.next();
    assert_eq!(q.current_index(), Some(1));
}

#[test]
fn remove_drops_the_track_from_history() {
    let mut q = QueueState::new();
    q.set_items(inputs(&["a.mp3", "b.mp3"]));
    let id_a = q.next().unwrap().id;
    q.next();
    q.remove(id_a);
    assert!(!q.has_previous());
    assert_eq!(q.previous(), None);
}
