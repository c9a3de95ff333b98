use oxmap::files::{export_target, save_target};

#[test]
fn fresh_session_saves_to_graph_mmd() {
    assert_eq!(save_target(None), "graph.mmd");
    assert_eq!(export_target(None), "graph.mmd");
}

#[test]
fn saves_keep_an_mmd_path_and_change_other_extensions() {
    assert_eq!(save_target(Some("maps/ideas.mmd")), "maps/ideas.mmd");
    assert_eq!(save_target(Some("maps/ideas.json")), "maps/ideas.mmd");
    assert_eq!(save_target(Some("notes")), "notes.mmd");
    assert_eq!(save_target(Some("a.b/c")), "a.b/c.mmd");
    assert_eq!(save_target(Some(".hidden")), ".hidden.mmd");
    assert_eq!(save_target(Some("x.tar.gz")), "x.tar.mmd");
}

#[test]
fn exports_always_set_the_mmd_extension() {
    assert_eq!(export_target(Some("maps/ideas.json")), "maps/ideas.mmd");
    assert_eq!(export_target(Some("maps/ideas.mmd")), "maps/ideas.mmd");
    assert_eq!(export_target(Some("plain")), "plain.mmd");
}
