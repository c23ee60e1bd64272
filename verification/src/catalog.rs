use vstd::prelude::*;

use crate::gesture::{Gesture, GestureView};
use crate::text::{
    lemma_precedes_irreflexive, lemma_precedes_total, lemma_precedes_transitive, precedes,
    text_precedes,
};

verus! {

/// The gestures of one category, as the home screen lists them.
#[derive(Debug, Clone, PartialEq, Eq)]
pub struct CategoryGroup {
    pub category: String,
    pub gestures: Vec<Gesture>,
}

pub struct CategoryGroupView {
    pub category: Seq<char>,
    pub gestures: Seq<GestureView>,
}

impl View for CategoryGroup {
    type V = CategoryGroupView;

    open spec fn view(&self) -> CategoryGroupView {
        CategoryGroupView {
            category: self.category@,
            gestures: self.gestures@.map_values(|g: Gesture| g@),
        }
    }
}

/// The heading of gestures stored without a category ("no category").
pub open spec fn uncategorized() -> Seq<char> {
    "Без категории"@
}

/// The heading a gesture is listed under: its category, or [`uncategorized`].
pub open spec fn label_of(g: GestureView) -> Seq<char> {
    match g.category {
        Some(c) => c,
        None => uncategorized(),
    }
}

/// The gestures of `s` listed under `label`, in their order in `s`.
pub open spec fn with_label(s: Seq<GestureView>, label: Seq<char>) -> Seq<GestureView>
    decreases s.len(),
{
    if s.len() == 0 {
        Seq::empty()
    } else if label_of(s.last()) == label {
        with_label(s.drop_last(), label).push(s.last())
    } else {
        with_label(s.drop_last(), label)
    }
}

/// `groups` lists the gestures of `input` by heading: one group per heading that occurs,
/// headings in strictly ascending order, each group holding exactly the gestures of
/// `input` under its heading, in input order.
pub open spec fn is_grouping(input: Seq<GestureView>, groups: Seq<CategoryGroupView>) -> bool {
    &&& forall|i: int, j: int|
        0 <= i < j < groups.len() ==> text_precedes(
            #[trigger] groups[i].category,
            #[trigger] groups[j].category,
        )
    &&& forall|i: int|
        0 <= i < groups.len() ==> (#[trigger] groups[i]).gestures == with_label(
            input,
            groups[i].category,
        )
    &&& forall|i: int| 0 <= i < groups.len() ==> (#[trigger] groups[i]).gestures.len() > 0
    &&& forall|k: int|
        0 <= k < input.len() ==> exists|i: int|
            0 <= i < groups.len() && (#[trigger] groups[i]).category == label_of(#[trigger] input[k])
}

/// The heading a gesture is listed under.
pub fn category_label(g: &Gesture) -> (r: String)
    ensures
        r@ == label_of(g@),
        g@.category matches Some(c) ==> r@ == c,
        g@.category is None ==> r@ == "Без категории"@,
{
    match &g.category {
        Some(c) => c.clone(),
        None => "Без категории".to_owned(),
    }
}

/// The category cell of the settings table: the category, or "без категории" ("no
/// category") where there is none.
pub fn settings_category(g: &Gesture) -> (r: String)
    ensures
        r@ == match g@.category {
            Some(c) => c,
            None => "без категории"@,
        },
{
    match &g.category {
        Some(c) => c.clone(),
        None => "без категории".to_owned(),
    }
}

/// No gesture of `s` is under `label`, so none is listed there.
proof fn lemma_with_label_absent(s: Seq<GestureView>, label: Seq<char>)
    requires
        forall|k: int| 0 <= k < s.len() ==> label_of(#[trigger] s[k]) != label,
    ensures
        with_label(s, label) == Seq::<GestureView>::empty(),
    decreases s.len(),
{
    if s.len() > 0 {
        assert(label_of(s[s.len() - 1]) != label);
        assert forall|k: int| 0 <= k < s.drop_last().len() implies label_of(
            #[trigger] s.drop_last()[k],
        ) != label by {
            assert(s[k] == s.drop_last()[k]);
        }
        lemma_with_label_absent(s.drop_last(), label);
    }
}

/// Each gesture is in the list of its own heading.
pub proof fn lemma_with_label_contains(s: Seq<GestureView>, k: int)
    requires
        0 <= k < s.len(),
    ensures
        with_label(s, label_of(s[k])).contains(s[k]),
    decreases s.len(),
{
    let label = label_of(s[k]);
    if k == s.len() - 1 {
        assert(with_label(s, label).last() == s[k]);
    } else {
        assert(s.drop_last()[k] == s[k]);
        lemma_with_label_contains(s.drop_last(), k);
        let prev = with_label(s.drop_last(), label);
        let j = choose|j: int| 0 <= j < prev.len() && prev[j] == s[k];
        if label_of(s.last()) == label {
            assert(with_label(s, label)[j] == s[k]);
        }
    }
}

/// Each heading lists only gestures under that heading.
pub proof fn lemma_with_label_only(s: Seq<GestureView>, label: Seq<char>)
    ensures
        forall|j: int|
            0 <= j < with_label(s, label).len() ==> label_of(#[trigger] with_label(s, label)[j])
                == label,
    decreases s.len(),
{
    if s.len() > 0 {
        lemma_with_label_only(s.drop_last(), label);
        let prev = with_label(s.drop_last(), label);
        assert forall|j: int| 0 <= j < with_label(s, label).len() implies label_of(
            #[trigger] with_label(s, label)[j],
        ) == label by {
            if j < prev.len() {
                assert(with_label(s, label)[j] == prev[j]);
            }
        }
    }
}

/// Groups the gestures by heading, headings in ascending order; within a group the
/// gestures keep their input order.
pub fn group_by_category(gestures: &Vec<Gesture>) -> (groups: Vec<CategoryGroup>)
    ensures
        is_grouping(gestures@.map_values(|g: Gesture| g@), groups@.map_values(|c: CategoryGroup| c@)),
        forall|i: int|
            0 <= i < groups@.len() ==> (#[trigger] groups@[i])@.gestures == gestures@.map_values(
                |g: Gesture| g@,
            ).filter(|g: GestureView| label_of(g) == groups@[i]@.category),
{
    let ghost input = gestures@.map_values(|g: Gesture| g@);
    let mut groups: Vec<CategoryGroup> = Vec::new();
    let n = gestures.len();
    let mut i: usize = 0;
    proof {
        assert(input.take(0) =~= Seq::<GestureView>::empty());
        assert(groups@.map_values(|c: CategoryGroup| c@) =~= Seq::<CategoryGroupView>::empty());
    }
    while i < n
        invariant
            n == gestures@.len(),
            input == gestures@.map_values(|g: Gesture| g@),
            i <= n,
            is_grouping(input.take(i as int), groups@.map_values(|c: CategoryGroup| c@)),
        decreases n - i,
    {
        let g = &gestures[i];
        let label = category_label(g);
        let ghost gv = input[i as int];
        let ghost before = groups@.map_values(|c: CategoryGroup| c@);
        let ghost seen = input.take(i as int);
        let ghost now = input.take(i + 1);
        assert(now.drop_last() =~= seen);
        assert(now.last() == gv);
        // find the first heading that does not come before `label`
        let m = groups.len();
        let mut p: usize = 0;
        while p < m && precedes(groups[p].category.as_str(), label.as_str())
            invariant
                m == groups@.len(),
                p <= m,
                before == groups@.map_values(|c: CategoryGroup| c@),
                forall|q: int| 0 <= q < p ==> text_precedes(#[trigger] before[q].category, label@),
            decreases m - p,
        {
            p = p + 1;
        }
        if p < m && groups[p].category == label {
            // the heading is known: append to its group
            let mut grp = groups.remove(p);
            grp.gestures.push(g.duplicate());
            let ghost new_group = grp@;
            groups.insert(p, grp);
            proof {
                let after = groups@.map_values(|c: CategoryGroup| c@);
                assert(after =~= before.update(p as int, new_group));
                assert(new_group.gestures =~= before[p as int].gestures.push(gv));
                assert forall|q: int| 0 <= q < after.len() implies (#[trigger] after[q]).gestures
                    == with_label(now, after[q].category) by {
                    if q != p {
                        lemma_precedes_irreflexive(label@);
                        if q < p {
                            assert(before[q].category != label@);
                        } else {
                            assert(text_precedes(before[p as int].category, before[q].category));
                            lemma_precedes_irreflexive(before[q].category);
                        }
                    }
                }
                assert forall|k: int| 0 <= k < now.len() implies exists|j: int|
                    0 <= j < after.len() && (#[trigger] after[j]).category == label_of(
                        #[trigger] now[k],
                    ) by {
                    if k < i {
                        assert(now[k] == seen[k]);
                        let j = choose|j: int|
                            0 <= j < before.len() && (#[trigger] before[j]).category == label_of(
                                seen[k],
                            );
                        assert(after[j].category == before[j].category);
                    } else {
                        assert(after[p as int].category == label_of(now[k]));
                    }
                }
            }
        } else {
            // a new heading: insert its group where the order puts it
            let mut members: Vec<Gesture> = Vec::new();
            members.push(g.duplicate());
            let grp = CategoryGroup { category: label, gestures: members };
            let ghost new_group = grp@;
            groups.insert(p, grp);
            proof {
                let after = groups@.map_values(|c: CategoryGroup| c@);
                assert(after =~= before.insert(p as int, new_group));
                let lv = new_group.category;
                // no group so far has this heading
                assert forall|q: int| 0 <= q < before.len() implies (#[trigger] before[q]).category
                    != lv by {
                    if q < p {
                        lemma_precedes_irreflexive(lv);
                    } else {
                        lemma_precedes_total(before[p as int].category, lv);
                        if q > p {
                            assert(text_precedes(before[p as int].category, before[q].category));
                            lemma_precedes_total(lv, before[q].category);
                            if before[q].category == lv {
                                lemma_precedes_irreflexive(lv);
                            }
                        }
                    }
                }
                assert forall|k: int| 0 <= k < seen.len() implies label_of(#[trigger] seen[k])
                    != lv by {
                    let j = choose|j: int|
                        0 <= j < before.len() && (#[trigger] before[j]).category == label_of(
                            seen[k],
                        );
                    assert(before[j].category != lv);
                }
                lemma_with_label_absent(seen, lv);
                assert(new_group.gestures =~= seq![gv]);
                assert(with_label(now, lv) =~= seq![gv]);
                // ordering
                assert forall|a: int, b: int| 0 <= a < b < after.len() implies text_precedes(
                    #[trigger] after[a].category,
                    #[trigger] after[b].category,
                ) by {
                    if b < p {
                    } else if a < p && b == p {
                    } else if a < p && b > p {
                        assert(text_precedes(before[a].category, before[p as int].category)
                            || !(p < before.len())) by {
                            if p < before.len() {
                            }
                        }
                        assert(after[b] == before[b - 1]);
                        assert(text_precedes(before[a].category, before[b - 1].category));
                    } else if a == p {
                        assert(after[b] == before[b - 1]);
                        lemma_precedes_total(before[p as int].category, lv);
                        if b - 1 == p {
                        } else {
                            assert(text_precedes(before[p as int].category, before[b - 1].category));
                            lemma_precedes_transitive(lv, before[p as int].category, before[b - 1].category);
                        }
                    } else {
                        assert(after[a] == before[a - 1]);
                        assert(after[b] == before[b - 1]);
                    }
                }
                assert forall|q: int| 0 <= q < after.len() implies (#[trigger] after[q]).gestures
                    == with_label(now, after[q].category) by {
                    if q < p {
                        assert(after[q] == before[q]);
                    } else if q > p {
                        assert(after[q] == before[q - 1]);
                    }
                }
                assert forall|q: int| 0 <= q < after.len() implies (#[trigger] after[q]).gestures.len()
                    > 0 by {
                    if q < p {
                        assert(after[q] == before[q]);
                    } else if q > p {
                        assert(after[q] == before[q - 1]);
                    }
                }
                assert forall|k: int| 0 <= k < now.len() implies exists|j: int|
                    0 <= j < after.len() && (#[trigger] after[j]).category == label_of(
                        #[trigger] now[k],
                    ) by {
                    if k < i {
                        assert(now[k] == seen[k]);
                        let j = choose|j: int|
                            0 <= j < before.len() && (#[trigger] before[j]).category == label_of(
                                seen[k],
                            );
                        if j < p {
                            assert(after[j] == before[j]);
                        } else {
                            assert(after[j + 1] == before[j]);
                        }
                    } else {
                        assert(after[p as int].category == label_of(now[k]));
                    }
                }
            }
        }
        i = i + 1;
    }
    proof {
        assert(input.take(n as int) =~= input);
        let out = groups@.map_values(|c: CategoryGroup| c@);
        assert forall|q: int| 0 <= q < groups@.len() implies (#[trigger] groups@[q])@.gestures
            == input.filter(|g: GestureView| label_of(g) == groups@[q]@.category) by {
            assert(out[q] == groups@[q]@);
            lemma_grouping_keeps_input_order(input, out, q);
        }
    }
    groups
}

/// Every gesture is listed in exactly one group: the one of its heading.
pub proof fn lemma_grouping_places_each_gesture(
    input: Seq<GestureView>,
    groups: Seq<CategoryGroupView>,
    k: int,
)
    requires
        is_grouping(input, groups),
        0 <= k < input.len(),
    ensures
        exists|i: int|
            0 <= i < groups.len() && (#[trigger] groups[i]).category == label_of(input[k])
                && groups[i].gestures.contains(input[k]),
        forall|i: int|
            0 <= i < groups.len() && (#[trigger] groups[i]).gestures.contains(input[k])
                ==> groups[i].category == label_of(input[k]),
{
    let i = choose|i: int|
        0 <= i < groups.len() && (#[trigger] groups[i]).category == label_of(input[k]);
    lemma_with_label_contains(input, k);
    assert(groups[i].gestures.contains(input[k]));
    assert forall|j: int|
        0 <= j < groups.len() && (#[trigger] groups[j]).gestures.contains(input[k]) implies groups[j].category
        == label_of(input[k]) by {
        lemma_with_label_only(input, groups[j].category);
        let x = choose|x: int| 0 <= x < groups[j].gestures.len() && groups[j].gestures[x] == input[k];
        assert(with_label(input, groups[j].category)[x] == input[k]);
    }
}


/// A gesture with a category is listed under exactly that category, whole; one without a
/// category is listed under "Без категории".
pub proof fn lemma_heading_is_the_category(g: GestureView)
    ensures
        g.category matches Some(c) ==> label_of(g) == c,
        g.category is None ==> label_of(g) == "Без категории"@,
{
}

/// The gestures under a heading are exactly the input's gestures with that heading, as a
/// subsequence of the input in input order.
pub proof fn lemma_with_label_is_filter(s: Seq<GestureView>, label: Seq<char>)
    ensures
        with_label(s, label) == s.filter(|g: GestureView| label_of(g) == label),
    decreases s.len(),
{
    reveal(Seq::filter);
    if s.len() > 0 {
        lemma_with_label_is_filter(s.drop_last(), label);
    }
}

/// A gesture appended to the input is appended at the end of its heading's list and
/// leaves every other heading's list as it was.
pub proof fn lemma_with_label_push(s: Seq<GestureView>, x: GestureView, label: Seq<char>)
    ensures
        label_of(x) == label ==> with_label(s.push(x), label) == with_label(s, label).push(x),
        label_of(x) != label ==> with_label(s.push(x), label) == with_label(s, label),
{
    assert(s.push(x).drop_last() =~= s);
}

/// Each group of a grouping lists the input's gestures under its heading, in input order.
pub proof fn lemma_grouping_keeps_input_order(
    input: Seq<GestureView>,
    groups: Seq<CategoryGroupView>,
    i: int,
)
    requires
        is_grouping(input, groups),
        0 <= i < groups.len(),
    ensures
        groups[i].gestures == input.filter(|g: GestureView| label_of(g) == groups[i].category),
{
    lemma_with_label_is_filter(input, groups[i].category);
}

} // verus!
