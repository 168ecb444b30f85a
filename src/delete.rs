//! Deleting what a filter reaches from an `hcl_edit` body, in place.
//!
//! At the last segment every matching attribute, block or object entry is
//! removed whole; before it, the traversal goes into every matching block's
//! body and every matching attribute or entry whose value is an object.
//! Nothing matching is no error: the body is left as it was.
use vstd::prelude::*;

use crate::edit_tree::{
    attr_value_mut, block_body_mut, body_len, edit_entries, edit_items, entry_count, entry_key,
    entry_value_mut, item_head, remove_entry, remove_item, EditItem, EntryKey, ItemHead, KeyHead,
};
use crate::matching::{labels_match, labels_satisfied};
use crate::parser::{field_views, Field, FieldView};

verus! {

/// A delete never fails; the type is kept so that callers handle a `Result`.
#[derive(Debug)]
pub struct DeleteError {}

/// Whether a segment matches a structure: an attribute by its key, a block by
/// its identifier and labels.
pub open spec fn item_matches(f: FieldView, it: EditItem) -> bool {
    match it {
        EditItem::Attr { key, .. } => key == f.name,
        EditItem::Block { ident, labels, .. } => ident == f.name && labels_match(f.labels, labels),
    }
}

/// Whether an object key names `name`, as an identifier or as a string.
pub open spec fn key_named(k: EntryKey, name: Seq<char>) -> bool {
    k == EntryKey::Ident(name) || k == EntryKey::Str(name)
}

/// The structures that a segment does not match, in order.
pub open spec fn kept_items(f: FieldView, items: Seq<EditItem>) -> Seq<EditItem>
    decreases items.len(),
{
    if items.len() == 0 {
        Seq::empty()
    } else {
        let rest = kept_items(f, items.drop_last());
        if item_matches(f, items.last()) {
            rest
        } else {
            rest.push(items.last())
        }
    }
}

/// The object entries whose key does not name `name`, in order.
pub open spec fn kept_entries(name: Seq<char>, es: Seq<(EntryKey, hcl_edit::expr::Expression)>) -> Seq<
    (EntryKey, hcl_edit::expr::Expression),
>
    decreases es.len(),
{
    if es.len() == 0 {
        Seq::empty()
    } else {
        let rest = kept_entries(name, es.drop_last());
        if key_named(es.last().0, name) {
            rest
        } else {
            rest.push(es.last())
        }
    }
}

/// `new` is `old` after deleting with the segments from `k` on.
pub open spec fn body_deleted(
    fs: Seq<FieldView>,
    k: int,
    old: hcl_edit::structure::Body,
    new: hcl_edit::structure::Body,
) -> bool
    decreases fs.len() - k, 1int, 0int,
{
    if 0 <= k && k + 1 == fs.len() {
        edit_items(new) == kept_items(fs[k], edit_items(old))
    } else if 0 <= k && k + 1 < fs.len() {
        items_deleted(fs, k, edit_items(old), edit_items(new))
    } else {
        new == old
    }
}

/// Before the last segment: the structures correspond one to one, and each
/// matching one has been deleted into.
pub open spec fn items_deleted(
    fs: Seq<FieldView>,
    k: int,
    o: Seq<EditItem>,
    n: Seq<EditItem>,
) -> bool
    decreases fs.len() - k, 0int, o.len(),
{
    if o.len() == 0 {
        n.len() == 0
    } else {
        n.len() > 0 && items_deleted(fs, k, o.drop_last(), n.drop_last()) && item_deleted(
            fs,
            k,
            o.last(),
            n.last(),
        )
    }
}

pub open spec fn item_deleted(fs: Seq<FieldView>, k: int, o: EditItem, n: EditItem) -> bool
    decreases fs.len() - k, 0int, 0int,
{
    if 0 <= k && k + 1 < fs.len() && item_matches(fs[k], o) {
        match o {
            EditItem::Attr { key, value, decor } => n is Attr && n->Attr_key == key
                && n->Attr_decor == decor && expr_deleted(
                fs,
                k + 1,
                value,
                n->Attr_value,
            ),
            EditItem::Block { ident, labels, body } => n is Block && n->Block_ident == ident
                && n->Block_labels == labels && body_deleted(fs, k + 1, body, n->Block_body),
        }
    } else {
        n == o
    }
}

/// `new` is the expression `old` after deleting with the segments from `k`
/// on: an object loses its named entries (at the last segment) or has them
/// deleted into; any other expression stays as it is.
pub open spec fn expr_deleted(
    fs: Seq<FieldView>,
    k: int,
    old: hcl_edit::expr::Expression,
    new: hcl_edit::expr::Expression,
) -> bool
    decreases fs.len() - k, 1int, 0int,
{
    match edit_entries(old) {
        None => new == old,
        Some(es) => if 0 <= k && k + 1 == fs.len() {
            edit_entries(new) == Some(kept_entries(fs[k].name, es))
        } else if 0 <= k && k + 1 < fs.len() {
            edit_entries(new) is Some && entries_deleted(fs, k, es, edit_entries(new)->Some_0)
        } else {
            new == old
        },
    }
}

pub open spec fn entries_deleted(
    fs: Seq<FieldView>,
    k: int,
    o: Seq<(EntryKey, hcl_edit::expr::Expression)>,
    n: Seq<(EntryKey, hcl_edit::expr::Expression)>,
) -> bool
    decreases fs.len() - k, 0int, o.len(),
{
    if o.len() == 0 {
        n.len() == 0
    } else {
        n.len() > 0 && entries_deleted(fs, k, o.drop_last(), n.drop_last()) && entry_deleted(
            fs,
            k,
            o.last(),
            n.last(),
        )
    }
}

pub open spec fn entry_deleted(
    fs: Seq<FieldView>,
    k: int,
    o: (EntryKey, hcl_edit::expr::Expression),
    n: (EntryKey, hcl_edit::expr::Expression),
) -> bool
    decreases fs.len() - k, 0int, 0int,
{
    if 0 <= k && k + 1 < fs.len() && key_named(o.0, fs[k].name) {
        n.0 == o.0 && expr_deleted(fs, k + 1, o.1, n.1)
    } else {
        n == o
    }
}

/// Whether a segment matches the structure that `h` was read from.
pub(crate) fn head_matches(f: &Field, h: &ItemHead) -> (r: bool)
    ensures
        forall|it: EditItem| crate::edit_tree::head_of(*h, it) ==> r == item_matches(f@, it),
{
    match h {
        ItemHead::Attr { key } => *key == f.name,
        ItemHead::Block { ident, labels } => *ident == f.name && labels_satisfied(
            &f.labels,
            labels,
        ),
    }
}

/// Whether `name` names the object key that `h` was read from.
pub(crate) fn key_matches(name: &String, h: &KeyHead) -> (r: bool)
    ensures
        forall|k: EntryKey| crate::edit_tree::key_of(*h, k) ==> r == key_named(k, name@),
{
    match h {
        KeyHead::Ident(n) => *n == *name,
        KeyHead::Str(n) => *n == *name,
        KeyHead::Other => false,
    }
}

/// Deletes from `body` with the segments from `k` on.
fn delete_in_body(fields: &Vec<Field>, k: usize, body: &mut hcl_edit::structure::Body)
    requires
        k < fields@.len(),
    ensures
        body_deleted(field_views(fields@), k as int, *old(body), *final(body)),
    decreases fields@.len() - k,
{
    let ghost fv = field_views(fields@);
    assert(fv.len() == fields@.len());
    let ghost o = edit_items(*body);
    let f = &fields[k];
    if k == fields.len() - 1 {
        let mut n = body_len(body);
        let mut i: usize = 0;
        let ghost mut j: int = 0;
        while i < n
            invariant
                fv == field_views(fields@),
                fv.len() == fields@.len(),
                k < fields@.len() <= usize::MAX,
                f@ == fv[k as int],
                0 <= j <= o.len(),
                n == edit_items(*body).len(),
                i <= n,
                edit_items(*body) == kept_items(f@, o.take(j)) + o.skip(j),
                i == kept_items(f@, o.take(j)).len(),
                n - i == o.len() - j,
            decreases n - i,
        {
            let ghost cur = edit_items(*body);
            assert(o.take(j + 1).drop_last() =~= o.take(j));
            assert(cur[i as int] == o[j]);
            let h = item_head(body, i);
            if head_matches(f, &h) {
                remove_item(body, i);
                assert(edit_items(*body) =~= kept_items(f@, o.take(j + 1)) + o.skip(j + 1));
                n = n - 1;
            } else {
                assert(edit_items(*body) =~= kept_items(f@, o.take(j + 1)) + o.skip(j + 1));
                i = i + 1;
            }
            proof {
                j = j + 1;
            }
        }
        assert(o.take(j) =~= o);
        assert(edit_items(*body) =~= kept_items(f@, o));
    } else {
        let n = body_len(body);
        let mut i: usize = 0;
        while i < n
            invariant
                fv == field_views(fields@),
                fv.len() == fields@.len(),
                k < fields@.len() <= usize::MAX,
                f@ == fv[k as int],
                k + 1 < fv.len(),
                n == o.len(),
                i <= n,
                edit_items(*body).len() == n,
                forall|j: int| i <= j < n ==> edit_items(*body)[j] == o[j],
                items_deleted(fv, k as int, o.take(i as int), edit_items(*body).take(i as int)),
            decreases n - i,
        {
            let ghost cur = edit_items(*body);
            let h = item_head(body, i);
            let hit = head_matches(f, &h);
            match h {
                ItemHead::Attr { .. } => {
                    if hit {
                        let v = attr_value_mut(body, i);
                        delete_in_expr(fields, k + 1, v);
                    }
                },
                ItemHead::Block { .. } => {
                    if hit {
                        let b = block_body_mut(body, i);
                        delete_in_body(fields, k + 1, b);
                    }
                },
            }
            let ghost now = edit_items(*body);
            assert(o.take(i + 1).drop_last() =~= o.take(i as int));
            assert(now.take(i + 1).drop_last() =~= now.take(i as int));
            assert(now.take(i as int) =~= cur.take(i as int));
            assert(item_deleted(fv, k as int, o[i as int], now[i as int]));
            i = i + 1;
        }
        assert(o.take(n as int) =~= o);
        assert(edit_items(*body).take(n as int) =~= edit_items(*body));
    }
}

/// Deletes from the value `e` with the segments from `k` on.
fn delete_in_expr(fields: &Vec<Field>, k: usize, e: &mut hcl_edit::expr::Expression)
    requires
        k < fields@.len(),
    ensures
        expr_deleted(field_views(fields@), k as int, *old(e), *final(e)),
    decreases fields@.len() - k,
{
    let ghost fv = field_views(fields@);
    assert(fv.len() == fields@.len());
    let count = entry_count(e);
    let mut n = match count {
        Some(n) => n,
        None => {
            return ;
        },
    };
    let ghost o = edit_entries(*e)->Some_0;
    let name = &fields[k].name;
    if k == fields.len() - 1 {
        let mut i: usize = 0;
        let ghost mut j: int = 0;
        while i < n
            invariant
                fv == field_views(fields@),
                fv.len() == fields@.len(),
                k < fields@.len() <= usize::MAX,
                name@ == fv[k as int].name,
                0 <= j <= o.len(),
                edit_entries(*e) is Some,
                n == edit_entries(*e)->Some_0.len(),
                i <= n,
                edit_entries(*e)->Some_0 == kept_entries(name@, o.take(j)) + o.skip(j),
                i == kept_entries(name@, o.take(j)).len(),
                n - i == o.len() - j,
            decreases n - i,
        {
            let ghost cur = edit_entries(*e)->Some_0;
            assert(o.take(j + 1).drop_last() =~= o.take(j));
            assert(cur[i as int] == o[j]);
            let h = entry_key(e, i);
            if key_matches(name, &h) {
                remove_entry(e, i);
                assert(edit_entries(*e)->Some_0 =~= kept_entries(name@, o.take(j + 1)) + o.skip(
                    j + 1,
                ));
                n = n - 1;
            } else {
                assert(edit_entries(*e)->Some_0 =~= kept_entries(name@, o.take(j + 1)) + o.skip(
                    j + 1,
                ));
                i = i + 1;
            }
            proof {
                j = j + 1;
            }
        }
        assert(o.take(j) =~= o);
        assert(edit_entries(*e)->Some_0 =~= kept_entries(name@, o));
    } else {
        let mut i: usize = 0;
        while i < n
            invariant
                fv == field_views(fields@),
                fv.len() == fields@.len(),
                k < fields@.len() <= usize::MAX,
                name@ == fv[k as int].name,
                k + 1 < fv.len(),
                n == o.len(),
                i <= n,
                edit_entries(*e) is Some,
                edit_entries(*e)->Some_0.len() == n,
                forall|j: int| i <= j < n ==> edit_entries(*e)->Some_0[j] == o[j],
                entries_deleted(
                    fv,
                    k as int,
                    o.take(i as int),
                    edit_entries(*e)->Some_0.take(i as int),
                ),
            decreases n - i,
        {
            let ghost cur = edit_entries(*e)->Some_0;
            let h = entry_key(e, i);
            if key_matches(name, &h) {
                let v = entry_value_mut(e, i);
                delete_in_expr(fields, k + 1, v);
            }
            let ghost now = edit_entries(*e)->Some_0;
            assert(o.take(i + 1).drop_last() =~= o.take(i as int));
            assert(now.take(i + 1).drop_last() =~= now.take(i as int));
            assert(now.take(i as int) =~= cur.take(i as int));
            assert(entry_deleted(fv, k as int, o[i as int], now[i as int]));
            i = i + 1;
        }
        assert(o.take(n as int) =~= o);
        assert(edit_entries(*e)->Some_0.take(n as int) =~= edit_entries(*e)->Some_0);
    }
}

/// Removes from `body` everything that the filter `fields` reaches. Without
/// segments nothing is removed.
pub fn delete(fields: Vec<Field>, body: &mut hcl_edit::structure::Body) -> (r: Result<
    (),
    DeleteError,
>)
    ensures
        r is Ok,
        fields@.len() == 0 ==> *final(body) == *old(body),
        fields@.len() > 0 ==> body_deleted(field_views(fields@), 0, *old(body), *final(body)),
{
    if fields.len() > 0 {
        delete_in_body(&fields, 0, body);
    }
    Ok(())
}

} // verus!
