use slovo::gesture::{Gesture, NewGesture};
use slovo::seed::{default_gestures, insert_default_gestures, update_gesture_description};
use slovo::table::{GestureTable, InsertOutcome};

fn row(id: i64, name: &str, video: &str, description: &str) -> Gesture {
    Gesture {
        id,
        name: name.to_string(),
        video_filename: video.to_string(),
        description: Some(description.to_string()),
        category: Some("basic".to_string()),
    }
}

fn seeded_rows() -> Vec<Gesture> {
    vec![
        row(1, "Victory", "victory.gif", "Победа / V знак"),
        row(2, "Thumbs Up", "thumbs_up.gif", "Большой палец вверх"),
        row(3, "Thumbs Down", "thumbs_down.gif", "Большой палец вниз"),
        row(4, "Pointing", "pointing.gif", "Указательный палец"),
        row(5, "OK", "ok.gif", "OK жест"),
    ]
}

#[test]
fn new_table_is_empty() {
    let t = GestureTable::new();
    assert_eq!(t.len(), 0);
    assert!(t.rows().is_empty());
    assert_eq!(t.find_by_id(1), None);
}

#[test]
fn default_gestures_are_the_five_basic_seeds() {
    let d = default_gestures();
    assert_eq!(d.len(), 5);
    assert_eq!(d[0].name, "Victory");
    assert_eq!(d[0].video_filename, "victory.gif");
    assert_eq!(d[0].description.as_deref(), Some("Победа / V знак"));
    assert_eq!(d[4].name, "OK");
    assert_eq!(d[4].description.as_deref(), Some("OK жест"));
    assert!(d.iter().all(|g| g.category.as_deref() == Some("basic")));
}

#[test]
fn seeding_an_empty_table_stores_every_seed_in_order() {
    let mut t = GestureTable::new();
    insert_default_gestures(&mut t);
    assert_eq!(t.rows(), &seeded_rows());
}

#[test]
fn seeding_twice_is_seeding_once() {
    let mut t = GestureTable::new();
    insert_default_gestures(&mut t);
    insert_default_gestures(&mut t);
    assert_eq!(t.rows(), &seeded_rows());
}

#[test]
fn seeding_skips_names_already_stored() {
    let mut t = GestureTable::new();
    let mine = NewGesture {
        name: "OK".to_string(),
        video_filename: "mine.gif".to_string(),
        description: None,
        category: None,
    };
    assert_eq!(t.insert_or_ignore(mine), InsertOutcome::Inserted(1));
    insert_default_gestures(&mut t);
    assert_eq!(t.len(), 5);
    assert_eq!(t.rows()[0].video_filename, "mine.gif");
    assert_eq!(t.rows()[0].description, None);
    assert_eq!(t.rows()[1].id, 2);
    assert_eq!(t.rows()[1].name, "Victory");
    assert_eq!(t.rows()[4].name, "Pointing");
    assert_eq!(t.rows()[4].id, 5);
}

#[test]
fn insert_of_a_known_name_is_ignored() {
    let mut t = GestureTable::new();
    insert_default_gestures(&mut t);
    let again = NewGesture {
        name: "Victory".to_string(),
        video_filename: "other.gif".to_string(),
        description: None,
        category: Some("other".to_string()),
    };
    assert_eq!(t.insert_or_ignore(again), InsertOutcome::Ignored);
    assert_eq!(t.rows(), &seeded_rows());
}

#[test]
fn insert_of_a_new_name_takes_the_next_id_and_reads_back() {
    let mut t = GestureTable::new();
    insert_default_gestures(&mut t);
    let wave = NewGesture {
        name: "Wave".to_string(),
        video_filename: "wave.gif".to_string(),
        description: None,
        category: None,
    };
    assert_eq!(t.insert_or_ignore(wave), InsertOutcome::Inserted(6));
    let found = t.find_by_id(6).unwrap();
    assert_eq!(found.name, "Wave");
    assert_eq!(found.video_filename, "wave.gif");
    assert_eq!(found.description, None);
    assert_eq!(found.category, None);
    assert!(t.contains_name(&"Wave".to_string()));
    assert!(!t.contains_name(&"Fist".to_string()));
}

#[test]
fn update_then_find_reads_the_new_description() {
    let mut t = GestureTable::new();
    insert_default_gestures(&mut t);
    update_gesture_description(&mut t, 3, Some("Палец вниз".to_string()));
    let g = t.find_by_id(3).unwrap();
    assert_eq!(g.description.as_deref(), Some("Палец вниз"));
    assert_eq!(g.name, "Thumbs Down");
    assert_eq!(g.category.as_deref(), Some("basic"));
    let mut expected = seeded_rows();
    expected[2].description = Some("Палец вниз".to_string());
    assert_eq!(t.rows(), &expected);
}

#[test]
fn update_to_none_clears_the_description() {
    let mut t = GestureTable::new();
    insert_default_gestures(&mut t);
    update_gesture_description(&mut t, 1, None);
    assert_eq!(t.find_by_id(1).unwrap().description, None);
    assert_eq!(t.find_by_id(2).unwrap().description.as_deref(), Some("Большой палец вверх"));
}

#[test]
fn update_of_an_unknown_id_changes_nothing() {
    let mut t = GestureTable::new();
    insert_default_gestures(&mut t);
    update_gesture_description(&mut t, 42, Some("x".to_string()));
    assert_eq!(t.rows(), &seeded_rows());
    assert!(!t.set_description(0, None));
    assert!(t.set_description(5, None));
}

#[test]
fn second_update_wins() {
    let mut t = GestureTable::new();
    insert_default_gestures(&mut t);
    update_gesture_description(&mut t, 2, Some("first".to_string()));
    update_gesture_description(&mut t, 2, Some("second".to_string()));
    assert_eq!(t.find_by_id(2).unwrap().description.as_deref(), Some("second"));
}
