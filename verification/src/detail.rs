use vstd::prelude::*;
use vstd::string::StringExecFns;

use crate::gesture::{copy_text, text_view, Gesture, GestureView};

verus! {

/// The text the description editor of a gesture starts with: its description, or an
/// empty text where it has none.
pub fn description_draft(g: &Gesture) -> (r: String)
    ensures
        r@ == match g@.description {
            Some(d) => d,
            None => Seq::<char>::empty(),
        },
{
    match &g.description {
        Some(d) => d.clone(),
        None => String::new(),
    }
}

/// The description a gesture shows after `text` was saved: none for an empty text.
pub fn saved_description(text: String) -> (r: Option<String>)
    ensures
        text_view(r) == if text@.len() == 0 {
            None
        } else {
            Some(text@)
        },
{
    if text.as_str().is_empty() {
        None
    } else {
        Some(text)
    }
}

/// The gesture as shown after its description was saved as `text`; its other columns
/// stay as they were.
pub fn with_saved_description(g: &Gesture, text: String) -> (r: Gesture)
    ensures
        r@ == (GestureView {
            description: if text@.len() == 0 {
                None
            } else {
                Some(text@)
            },
            ..g@
        }),
{
    Gesture {
        id: g.id,
        name: g.name.clone(),
        video_filename: g.video_filename.clone(),
        description: saved_description(text),
        category: copy_text(&g.category),
    }
}

/// The path of a gesture's animation inside the animations folder `base`.
pub fn animation_path(base: &str, video_filename: &str) -> (r: String)
    ensures
        r@ == base@ + "/"@ + video_filename@,
{
    let mut r = base.to_owned();
    r.append("/");
    r.append(video_filename);
    r
}

} // verus!
