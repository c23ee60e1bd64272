use vstd::prelude::*;

use crate::gesture::{text_view, NewGesture, NewGestureView};
use crate::table::{
    lemma_inserts_cover, lemma_inserts_idempotent, lemma_inserts_store_each_new_value, GestureTable,
    TableView,
};

verus! {

/// A seed row in the `basic` category.
pub open spec fn basic_gesture(name: Seq<char>, video: Seq<char>, description: Seq<char>) -> NewGestureView {
    NewGestureView {
        name,
        video_filename: video,
        description: Some(description),
        category: Some("basic"@),
    }
}

/// The seed rows, in the order they are inserted.
pub open spec fn default_gesture_views() -> Seq<NewGestureView> {
    seq![
        basic_gesture("Victory"@, "victory.gif"@, "Победа / V знак"@),
        basic_gesture("Thumbs Up"@, "thumbs_up.gif"@, "Большой палец вверх"@),
        basic_gesture("Thumbs Down"@, "thumbs_down.gif"@, "Большой палец вниз"@),
        basic_gesture("Pointing"@, "pointing.gif"@, "Указательный палец"@),
        basic_gesture("OK"@, "ok.gif"@, "OK жест"@),
    ]
}

/// The seed rows: five basic hand gestures with their animation file and description.
pub fn default_gestures() -> (r: Vec<NewGesture>)
    ensures
        r@.map_values(|g: NewGesture| g@) == default_gesture_views(),
{
    let mut r: Vec<NewGesture> = Vec::new();
    r.push(NewGesture::described("Victory", "victory.gif", "Победа / V знак", "basic"));
    r.push(NewGesture::described("Thumbs Up", "thumbs_up.gif", "Большой палец вверх", "basic"));
    r.push(NewGesture::described("Thumbs Down", "thumbs_down.gif", "Большой палец вниз", "basic"));
    r.push(NewGesture::described("Pointing", "pointing.gif", "Указательный палец", "basic"));
    r.push(NewGesture::described("OK", "ok.gif", "OK жест", "basic"));
    assert(r@.map_values(|g: NewGesture| g@) =~= default_gesture_views());
    r
}

/// Inserts the seed rows with `INSERT OR IGNORE`, in order: a seed whose name is already
/// stored is skipped, every other one gets the next id.
pub fn insert_default_gestures(table: &mut GestureTable)
    ensures
        final(table)@ == old(table)@.after_inserts(default_gesture_views()),
{
    let mut pending = default_gestures();
    let ghost all = default_gesture_views();
    let ghost start = table@;
    let mut k: usize = 0;
    assert(all.take(0) =~= Seq::<NewGestureView>::empty());
    assert(pending@.map_values(|g: NewGesture| g@) =~= all.skip(0));
    while pending.len() > 0
        invariant
            all == default_gesture_views(),
            k <= all.len(),
            pending@.map_values(|g: NewGesture| g@) == all.skip(k as int),
            table@ == start.after_inserts(all.take(k as int)),
        decreases pending.len(),
    {
        let ghost before = pending@.map_values(|g: NewGesture| g@);
        assert(before.len() == pending@.len());
        assert(k < all.len());
        let g = pending.remove(0);
        assert(g@ == before[0]);
        assert(before[0] == all[k as int]);
        assert(all.take(k + 1).drop_last() =~= all.take(k as int));
        let _ = table.insert_or_ignore(g);
        assert(pending@.map_values(|g: NewGesture| g@) =~= all.skip(k + 1)) by {
            assert(pending@.map_values(|g: NewGesture| g@) =~= before.drop_first());
        }
        k = k + 1;
    }
    assert(all.take(k as int) =~= all);
}

/// `UPDATE gestures SET description = ? WHERE id = ?`: the row with this id, if there is
/// one, takes the new description (`None` clears it); nothing else changes.
pub fn update_gesture_description(table: &mut GestureTable, id: i64, description: Option<String>)
    ensures
        final(table)@ == old(table)@.after_update(id as int, text_view(description)),
{
    let _ = table.set_description(id, description);
}

/// Seeding twice leaves the table as seeding once.
pub proof fn lemma_seeding_is_idempotent(t: TableView)
    ensures
        t.after_inserts(default_gesture_views()).after_inserts(default_gesture_views()) == t.after_inserts(
            default_gesture_views(),
        ),
{
    lemma_inserts_idempotent(t, default_gesture_views());
}

/// After seeding, every seed name is stored, unless the table has used up its ids.
pub proof fn lemma_seeding_stores_every_seed(t: TableView)
    ensures
        forall|k: int|
            0 <= k < default_gesture_views().len() ==> t.after_inserts(
                default_gesture_views(),
            ).has_name(#[trigger] default_gesture_views()[k].name) || t.after_inserts(
                default_gesture_views(),
            ).last_id >= i64::MAX,
{
    lemma_inserts_cover(t, default_gesture_views());
}


/// Seeding stores every seed whose name the table did not hold with exactly the seed's
/// values (video, description, category), whatever else the table held, as long as ids do
/// not run out.
pub proof fn lemma_seeding_stores_each_new_seed(t: TableView, k: int)
    requires
        0 <= t.last_id,
        0 <= k < default_gesture_views().len(),
        !t.has_name(default_gesture_views()[k].name),
        t.last_id + default_gesture_views().len() <= i64::MAX,
    ensures
        exists|i: int|
            0 <= i < t.after_inserts(default_gesture_views()).rows.len() && (#[trigger] t.after_inserts(
                default_gesture_views(),
            ).rows[i]).name == default_gesture_views()[k].name && t.after_inserts(
                default_gesture_views(),
            ).rows[i].video_filename == default_gesture_views()[k].video_filename
                && t.after_inserts(default_gesture_views()).rows[i].description
                == default_gesture_views()[k].description && t.after_inserts(
                default_gesture_views(),
            ).rows[i].category == default_gesture_views()[k].category,
{
    let d = default_gesture_views();
    reveal_strlit("Victory");
    reveal_strlit("Thumbs Up");
    reveal_strlit("Thumbs Down");
    reveal_strlit("Pointing");
    reveal_strlit("OK");
    assert(d[0].name.len() == 7);
    assert(d[1].name.len() == 9);
    assert(d[2].name.len() == 11);
    assert(d[3].name.len() == 8);
    assert(d[4].name.len() == 2);
    assert forall|j: int| 0 <= j < d.len() && j != k implies (#[trigger] d[j]).name != d[k].name by {
        assert(d[j].name.len() != d[k].name.len());
    }
    lemma_inserts_store_each_new_value(t, d, k);
}

} // verus!
