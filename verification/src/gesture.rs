use vstd::prelude::*;

verus! {

/// One row of the `gestures` table: what the screens read back from storage.
#[derive(Debug, Clone, PartialEq, Eq)]
pub struct Gesture {
    pub id: i64,
    pub name: String,
    pub video_filename: String,
    pub description: Option<String>,
    pub category: Option<String>,
}

/// The values of a row that is about to be inserted; the table assigns the id.
#[derive(Debug, Clone, PartialEq, Eq)]
pub struct NewGesture {
    pub name: String,
    pub video_filename: String,
    pub description: Option<String>,
    pub category: Option<String>,
}

/// Mathematical form of a stored row.
pub struct GestureView {
    pub id: int,
    pub name: Seq<char>,
    pub video_filename: Seq<char>,
    pub description: Option<Seq<char>>,
    pub category: Option<Seq<char>>,
}

/// Mathematical form of a row to insert.
pub struct NewGestureView {
    pub name: Seq<char>,
    pub video_filename: Seq<char>,
    pub description: Option<Seq<char>>,
    pub category: Option<Seq<char>>,
}

/// The characters of an optional text column (`NULL` stays `None`).
pub open spec fn text_view(o: Option<String>) -> Option<Seq<char>> {
    match o {
        Some(s) => Some(s@),
        None => None,
    }
}

impl View for Gesture {
    type V = GestureView;

    open spec fn view(&self) -> GestureView {
        GestureView {
            id: self.id as int,
            name: self.name@,
            video_filename: self.video_filename@,
            description: text_view(self.description),
            category: text_view(self.category),
        }
    }
}

impl View for NewGesture {
    type V = NewGestureView;

    open spec fn view(&self) -> NewGestureView {
        NewGestureView {
            name: self.name@,
            video_filename: self.video_filename@,
            description: text_view(self.description),
            category: text_view(self.category),
        }
    }
}

impl NewGestureView {
    /// The stored row that inserting these values under `id` produces.
    pub open spec fn with_id(self, id: int) -> GestureView {
        GestureView {
            id,
            name: self.name,
            video_filename: self.video_filename,
            description: self.description,
            category: self.category,
        }
    }
}

/// Copies an optional text column.
pub fn copy_text(o: &Option<String>) -> (r: Option<String>)
    ensures
        text_view(r) == text_view(*o),
{
    match o {
        Some(s) => Some(s.clone()),
        None => None,
    }
}

impl Gesture {
    /// A copy of the row with every column equal.
    pub fn duplicate(&self) -> (r: Gesture)
        ensures
            r@ == self@,
    {
        Gesture {
            id: self.id,
            name: self.name.clone(),
            video_filename: self.video_filename.clone(),
            description: copy_text(&self.description),
            category: copy_text(&self.category),
        }
    }
}

impl NewGesture {
    /// A row to insert with a description and a category.
    pub fn described(name: &str, video_filename: &str, description: &str, category: &str) -> (r:
        NewGesture)
        ensures
            r@ == (NewGestureView {
                name: name@,
                video_filename: video_filename@,
                description: Some(description@),
                category: Some(category@),
            }),
    {
        NewGesture {
            name: name.to_owned(),
            video_filename: video_filename.to_owned(),
            description: Some(description.to_owned()),
            category: Some(category.to_owned()),
        }
    }
}

} // verus!
