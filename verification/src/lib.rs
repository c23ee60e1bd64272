//! The gesture catalogue of a sign-language helper: the `gestures` table with its
//! constraints, the seed rows and description edits, the grouping by category that the
//! home screen shows, and the values that the detail screen derives from a row.

pub mod catalog;
pub mod detail;
pub mod gesture;
pub mod seed;
pub mod table;
pub mod text;

pub use catalog::{category_label, group_by_category, settings_category, CategoryGroup};
pub use detail::{animation_path, description_draft, saved_description, with_saved_description};
pub use gesture::{Gesture, NewGesture};
pub use seed::{default_gestures, insert_default_gestures, update_gesture_description};
pub use table::{GestureTable, InsertOutcome};
