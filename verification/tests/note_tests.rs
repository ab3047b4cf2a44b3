use planner::app_state::AppState;
use planner::notes::NotesController;

#[test]
fn test_create_and_edit_note() {
    let mut nc = NotesController::new();
    let n = nc.create_note("Title", "Body");
    assert_eq!(n.title, "Title");
    assert_eq!(n.content, "Body");
    assert!(n.categories.is_empty());
    let stored = nc.get_note(n.id).unwrap();
    assert_eq!(stored.title, "Title");
    assert!(nc.edit_note_content(n.id, "New body").is_ok());
    assert!(nc.edit_note_title(n.id, "New title").is_ok());
    let stored = nc.get_note(n.id).unwrap();
    assert_eq!(stored.content, "New body");
    assert_eq!(stored.title, "New title");
    assert_eq!(nc.edit_note_content(n.id.wrapping_add(1), "x"), Err("Note not found".to_string()));
    assert_eq!(nc.edit_note_title(n.id.wrapping_add(1), "x"), Err("Note not found".to_string()));
}

#[test]
fn test_delete_note() {
    let mut nc = NotesController::new();
    let n = nc.create_note("A", "");
    let removed = nc.delete_note(n.id).unwrap();
    assert_eq!(removed.title, "A");
    assert!(nc.get_note(n.id).is_none());
    assert_eq!(nc.delete_note(n.id).unwrap_err(), "Note not found");
}

#[test]
fn test_categories() {
    let mut nc = NotesController::new();
    let n = nc.create_note("A", "");
    let c = nc.create_category("Work", Some("ff0000"));
    assert_eq!(c.color.as_deref(), Some("ff0000"));
    assert_eq!(nc.assign_category(n.id, c.id.wrapping_add(1)), Err("Category does not exist".to_string()));
    assert_eq!(nc.assign_category(n.id.wrapping_add(1), c.id), Err("Note not found".to_string()));
    assert!(nc.assign_category(n.id, c.id).is_ok());
    assert!(nc.has_category(n.id, c.id));
    assert!(nc.assign_category(n.id, c.id).is_ok());
    assert_eq!(nc.get_note(n.id).unwrap().categories.len(), 1);
    assert!(nc.remove_category(n.id, c.id).is_ok());
    assert!(!nc.has_category(n.id, c.id));
    assert_eq!(nc.remove_category(n.id, c.id.wrapping_add(1)), Err("Category does not exist".to_string()));
    assert!(!nc.has_category(n.id.wrapping_add(1), c.id));
}

#[test]
fn test_filter_by_category() {
    let mut nc = NotesController::new();
    let a = nc.create_note("A", "");
    let b = nc.create_note("B", "");
    let c = nc.create_category("Home", None);
    nc.assign_category(b.id, c.id).unwrap();
    let listed = nc.filter_by_category(c.id);
    assert_eq!(listed.len(), 1);
    assert_eq!(listed[0].id, b.id);
    assert!(listed.iter().all(|n| n.id != a.id));
}

#[test]
fn test_get_notes_newest_first() {
    let mut nc = NotesController::new();
    let ids: Vec<u128> = (0..3).map(|i| nc.create_note(&format!("n{}", i), "").id).collect();
    nc.notes.get_mut(&ids[0]).unwrap().last_update = 10;
    nc.notes.get_mut(&ids[1]).unwrap().last_update = 30;
    nc.notes.get_mut(&ids[2]).unwrap().last_update = 20;
    let listed: Vec<u64> = nc.get_notes().iter().map(|n| n.last_update).collect();
    assert_eq!(listed, vec![30, 20, 10]);
}

#[test]
fn test_get_categories_by_name() {
    let mut nc = NotesController::new();
    nc.create_category("zeta", None);
    nc.create_category("Alpha", None);
    nc.create_category("beta", None);
    let names: Vec<String> = nc.get_categories().into_iter().map(|c| c.name).collect();
    assert_eq!(names, vec!["Alpha", "beta", "zeta"]);
}

#[test]
fn test_app_notes() {
    let mut app = AppState::new();
    app.create_note("New note");
    let notes = app.get_notes();
    assert_eq!(notes.len(), 1);
    assert_eq!(notes[0].title, "New note");
    assert_eq!(notes[0].content, "");
    let id = notes[0].id;
    app.create_category("Ideas", Some("00ff00"));
    let cat = app.get_categories()[0].id;
    assert!(app.assign_category(id, cat).is_ok());
    assert!(app.has_category(id, cat));
    assert_eq!(app.filter_by_category(cat).len(), 1);
    assert!(app.remove_category(id, cat).is_ok());
    assert!(app.filter_by_category(cat).is_empty());
    assert!(app.edit_note_title(id, "T").is_ok());
    assert!(app.edit_note_content(id, "C").is_ok());
    assert_eq!(app.get_note(id).unwrap().content, "C");
    assert!(app.delete_note(id).is_ok());
    assert!(app.get_note(id).is_none());
}

#[test]
fn test_assign_then_remove_category_round_trip() {
    let mut nc = NotesController::new();
    let n = nc.create_note("N", "c");
    let cat = nc.create_category("Work", None);
    assert!(nc.assign_category(n.id, cat.id).is_ok());
    assert!(nc.has_category(n.id, cat.id));
    assert!(nc.remove_category(n.id, cat.id).is_ok());
    assert!(!nc.has_category(n.id, cat.id));
    assert!(nc.notes[&n.id].categories.is_empty());
}
