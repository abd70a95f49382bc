use st_loop::scene::Scene;

#[test]
fn new_scene_is_empty() {
    let s = Scene::new();
    assert!(s.sequences.is_empty());
}

#[test]
fn remove_sequence_removes_every_occurrence_and_keeps_order() {
    let mut s = Scene::new();
    for id in [3usize, 1, 3, 2, 3] {
        s.add_sequence(id);
    }
    s.remove_sequence(3);
    assert_eq!(s.sequences, vec![1, 2]);
    s.remove_sequence(7);
    assert_eq!(s.sequences, vec![1, 2]);
}
