use vstd::prelude::*;

verus! {

use crate::item::{Item, ItemView, opt_view, views};
use crate::select::{
    TodoPicker,
    SelView,
    resolve_last,
    resolve_first,
    last_match,
    opt_int,
    find_last,
    find_first,
};

/// The list after setting the done flag of item `i` to `target`.
pub open spec fn set_done(items: Seq<ItemView>, i: int, target: bool) -> Seq<ItemView> {
    items.update(
        i,
        ItemView { title: items[i].title, due: items[i].due, done: target },
    )
}

/// The list after a toggle with a given selector: the selected item's flag set
/// where the selector resolves (last-match-wins), the list unchanged where it
/// does not.
pub open spec fn toggle_spec(items: Seq<ItemView>, sel: SelView, target: bool) -> Seq<ItemView> {
    match resolve_last(sel, items) {
        Some(i) => set_done(items, i, target),
        None => items,
    }
}

/// The survivors of a bulk delete: the items that are not done, in order.
pub open spec fn keep_undone(items: Seq<ItemView>) -> Seq<ItemView> {
    items.filter(|iv: ItemView| !iv.done)
}

/// The victims of a bulk delete: the done items, in order.
pub open spec fn only_done(items: Seq<ItemView>) -> Seq<ItemView> {
    items.filter(|iv: ItemView| iv.done)
}

/// Appends one item with the given title and due date, not yet done; every
/// prior item keeps its place.
pub fn add(todos: &mut Vec<Item>, title: String, due: Option<String>)
    ensures
        views(final(todos)@) == views(old(todos)@).push(
            ItemView { title: title@, due: opt_view(due), done: false },
        ),
{
    let ghost pre = views(todos@);
    let it = Item { title, due, done: false };
    let ghost iv = it@;
    todos.push(it);
    proof {
        assert(views(todos@) =~= pre.push(iv));
    }
}

/// Replaces the title of item `index` when the new title is non-empty, and
/// sets its due date in any case; an out-of-range index changes nothing.
pub fn edit(todos: &mut Vec<Item>, index: usize, title: String, due: Option<String>) -> (r: bool)
    ensures
        ({
            let pre = views(old(todos)@);
            let post = views(final(todos)@);
            if (index as int) < pre.len() {
                r && post == pre.update(
                    index as int,
                    ItemView {
                        title: if title@.len() > 0 {
                            title@
                        } else {
                            pre[index as int].title
                        },
                        due: opt_view(due),
                        done: pre[index as int].done,
                    },
                )
            } else {
                !r && post == pre
            }
        }),
{
    let ghost pre = views(todos@);
    proof {
        assert(pre.len() == todos@.len());
    }
    if index < todos.len() {
        let old_it = todos.remove(index);
        let new_title = if title.unicode_len() > 0 {
            title
        } else {
            old_it.title
        };
        let it = Item { title: new_title, due, done: old_it.done };
        let ghost iv = it@;
        todos.insert(index, it);
        proof {
            assert(todos@ =~= old(todos)@.update(index as int, it));
            assert(views(todos@) =~= pre.update(index as int, iv));
            assert(pre[index as int] == old(todos)@[index as int]@);
        }
        true
    } else {
        false
    }
}

/// Sets the done flag of the selected item to `target`, resolving title
/// prefixes last-match-wins; returns the changed position, or `None` when the
/// selector resolves to nothing and the list stays unchanged.
pub fn done_toggler(todos: &mut Vec<Item>, picker: TodoPicker, target: bool) -> (r: Option<usize>)
    ensures
        views(final(todos)@) == toggle_spec(views(old(todos)@), picker@, target),
        opt_int(r) == resolve_last(picker@, views(old(todos)@)),
{
    let ghost pre = views(todos@);
    proof {
        assert(pre.len() == todos@.len());
    }
    let changed: Option<usize> = match &picker {
        TodoPicker::Index(index) => {
            if *index < todos.len() {
                Some(*index)
            } else {
                None
            }
        },
        TodoPicker::Title(title) => find_last(todos, title),
    };
    proof {
        assert(opt_int(changed) == resolve_last(picker@, pre));
    }
    match changed {
        Some(i) => {
            let old_it = todos.remove(i);
            let it = Item { title: old_it.title, due: old_it.due, done: target };
            let ghost iv = it@;
            todos.insert(i, it);
            proof {
                assert(todos@ =~= old(todos)@.update(i as int, it));
                assert(views(todos@) =~= pre.update(i as int, iv));
                assert(iv == ItemView { title: pre[i as int].title, due: pre[i as int].due, done: target });
                assert(views(todos@) =~= set_done(pre, i as int, target));
            }
            Some(i)
        },
        None => None,
    }
}

/// Marks the selected item done.
pub fn done(todos: &mut Vec<Item>, picker: TodoPicker) -> (r: Option<usize>)
    ensures
        views(final(todos)@) == toggle_spec(views(old(todos)@), picker@, true),
        opt_int(r) == resolve_last(picker@, views(old(todos)@)),
{
    done_toggler(todos, picker, true)
}

/// Marks the selected item not done.
pub fn undone(todos: &mut Vec<Item>, picker: TodoPicker) -> (r: Option<usize>)
    ensures
        views(final(todos)@) == toggle_spec(views(old(todos)@), picker@, false),
        opt_int(r) == resolve_last(picker@, views(old(todos)@)),
{
    done_toggler(todos, picker, false)
}

/// Removes the selected item, resolving title prefixes first-match-wins, and
/// returns it; later items shift down one place. `None` when the selector
/// resolves to nothing, and the list stays unchanged.
pub fn delete(todos: &mut Vec<Item>, picker: TodoPicker) -> (r: Option<Item>)
    ensures
        ({
            let pre = views(old(todos)@);
            match resolve_first(picker@, pre) {
                Some(i) => r is Some && (r->0)@ == pre[i] && views(final(todos)@) == pre.remove(i),
                None => r is None && views(final(todos)@) == pre,
            }
        }),
{
    let ghost pre = views(todos@);
    proof {
        assert(pre.len() == todos@.len());
    }
    let delete_id: Option<usize> = match &picker {
        TodoPicker::Index(index) => {
            if *index < todos.len() {
                Some(*index)
            } else {
                None
            }
        },
        TodoPicker::Title(title) => find_first(todos, title),
    };
    proof {
        assert(opt_int(delete_id) == resolve_first(picker@, pre));
    }
    match delete_id {
        Some(i) => {
            let it = todos.remove(i);
            proof {
                assert(views(todos@) =~= pre.remove(i as int));
            }
            Some(it)
        },
        None => None,
    }
}

/// Removes every done item, keeping the survivors in their order; returns the
/// removed items in their original order.
pub fn delete_done(todos: &mut Vec<Item>) -> (r: Vec<Item>)
    ensures
        views(final(todos)@) == keep_undone(views(old(todos)@)),
        views(r@) == only_done(views(old(todos)@)),
{
    let ghost pre = views(todos@);
    proof {
        reveal(Seq::filter);
        assert(pre.len() == todos@.len());
        assert(pre.take(0) =~= Seq::<ItemView>::empty());
        assert(pre.skip(0) =~= pre);
        assert(views(Seq::<Item>::empty()) =~= Seq::<ItemView>::empty());
    }
    let mut kept: Vec<Item> = Vec::new();
    let mut removed: Vec<Item> = Vec::new();
    let ghost mut k: int = 0;
    while todos.len() > 0
        invariant
            0 <= k <= pre.len(),
            todos@.len() == pre.len() - k,
            views(todos@) == pre.skip(k),
            views(kept@) == keep_undone(pre.take(k)),
            views(removed@) == only_done(pre.take(k)),
        decreases todos@.len(),
    {
        let it = todos.remove(0);
        let ghost iv = it@;
        proof {
            reveal(Seq::filter);
            assert(iv == pre.skip(k)[0]);
            assert(pre.skip(k)[0] == pre[k]);
            assert(views(todos@) =~= pre.skip(k).drop_first());
            assert(pre.skip(k).drop_first() =~= pre.skip(k + 1));
            assert(pre.take(k + 1).drop_last() =~= pre.take(k));
            assert(pre.take(k + 1).last() == pre[k]);
        }
        if it.done {
            removed.push(it);
            proof {
                assert(views(removed@) =~= only_done(pre.take(k)).push(iv));
                assert(only_done(pre.take(k + 1)) == only_done(pre.take(k)).push(pre[k]));
                assert(keep_undone(pre.take(k + 1)) == keep_undone(pre.take(k)));
            }
        } else {
            kept.push(it);
            proof {
                assert(views(kept@) =~= keep_undone(pre.take(k)).push(iv));
                assert(keep_undone(pre.take(k + 1)) == keep_undone(pre.take(k)).push(pre[k]));
                assert(only_done(pre.take(k + 1)) == only_done(pre.take(k)));
            }
        }
        proof {
            k = k + 1;
        }
    }
    proof {
        assert(pre.take(pre.len() as int) =~= pre);
        assert(views(todos@).len() == 0);
    }
    todos.append(&mut kept);
    proof {
        assert(views(todos@) =~= keep_undone(pre));
    }
    removed
}

proof fn lemma_last_match_bounds(items: Seq<ItemView>, pat: Seq<char>)
    ensures
        match last_match(items, pat) {
            Some(i) => 0 <= i < items.len(),
            None => true,
        },
    decreases items.len(),
{
    if items.len() > 0 && !crate::strutil::title_matches(items.last().title, pat) {
        lemma_last_match_bounds(items.drop_last(), pat);
    }
}

proof fn lemma_last_match_same_titles(a: Seq<ItemView>, b: Seq<ItemView>, pat: Seq<char>)
    requires
        a.len() == b.len(),
        forall|j: int| 0 <= j < a.len() ==> a[j].title == b[j].title,
    ensures
        last_match(a, pat) == last_match(b, pat),
    decreases a.len(),
{
    if a.len() > 0 {
        assert(a.last().title == b.last().title);
        assert forall|j: int| 0 <= j < a.drop_last().len() implies a.drop_last()[j].title
            == b.drop_last()[j].title by {
            assert(a.drop_last()[j] == a[j]);
            assert(b.drop_last()[j] == b[j]);
        }
        lemma_last_match_same_titles(a.drop_last(), b.drop_last(), pat);
    }
}

/// Law: a toggle is idempotent. Applying the same toggle twice, with the same
/// selector and target state, leaves what the first application left.
pub proof fn lemma_toggle_idempotent(items: Seq<ItemView>, sel: SelView, target: bool)
    ensures
        toggle_spec(toggle_spec(items, sel, target), sel, target) == toggle_spec(
            items,
            sel,
            target,
        ),
{
    let once = toggle_spec(items, sel, target);
    match resolve_last(sel, items) {
        None => {
        },
        Some(i) => {
            match sel {
                SelView::Index(n) => {
                },
                SelView::Title(t) => {
                    lemma_last_match_bounds(items, t);
                    assert forall|j: int| 0 <= j < items.len() implies items[j].title
                        == once[j].title by {}
                    lemma_last_match_same_titles(items, once, t);
                },
            }
            assert(resolve_last(sel, once) == Some(i));
            assert(set_done(once, i, target) =~= once);
        },
    }
}

/// Law: toggling a resolved item and then setting it back to its original
/// done flag, with the same selector, restores the original list.
pub proof fn lemma_toggle_restore(items: Seq<ItemView>, sel: SelView, target: bool)
    requires
        resolve_last(sel, items) is Some,
    ensures
        ({
            let i = resolve_last(sel, items)->0;
            toggle_spec(toggle_spec(items, sel, target), sel, items[i].done) == items
        }),
{
    let i = resolve_last(sel, items)->0;
    let once = toggle_spec(items, sel, target);
    match sel {
        SelView::Index(n) => {
        },
        SelView::Title(t) => {
            lemma_last_match_bounds(items, t);
            assert forall|j: int| 0 <= j < items.len() implies items[j].title == once[j].title by {}
            lemma_last_match_same_titles(items, once, t);
        },
    }
    assert(resolve_last(sel, once) == Some(i));
    assert(set_done(once, i, items[i].done) =~= items);
}

} // verus!
