use slovo::detail::{animation_path, description_draft, saved_description, with_saved_description};
use slovo::gesture::Gesture;

fn victory(description: Option<&str>) -> Gesture {
    Gesture {
        id: 1,
        name: "Victory".to_string(),
        video_filename: "victory.gif".to_string(),
        description: description.map(|d| d.to_string()),
        category: Some("basic".to_string()),
    }
}

#[test]
fn draft_starts_from_the_stored_description() {
    assert_eq!(description_draft(&victory(Some("Победа"))), "Победа");
    assert_eq!(description_draft(&victory(None)), "");
}

#[test]
fn an_empty_saved_text_shows_no_description() {
    assert_eq!(saved_description(String::new()), None);
    assert_eq!(saved_description("x".to_string()), Some("x".to_string()));
}

#[test]
fn saving_changes_only_the_description() {
    let g = victory(Some("old"));
    let saved = with_saved_description(&g, "new".to_string());
    assert_eq!(saved, victory(Some("new")));
    let cleared = with_saved_description(&g, String::new());
    assert_eq!(cleared, victory(None));
}

#[test]
fn animation_path_joins_folder_and_file() {
    assert_eq!(animation_path("/assets/gifs", "victory.gif"), "/assets/gifs/victory.gif");
    assert_eq!(animation_path("", "ok.gif"), "/ok.gif");
}
