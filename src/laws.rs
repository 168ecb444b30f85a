//! Properties of the engines, stated over the same views as their contracts
//! and proved.
use vstd::prelude::*;

use crate::delete::{
    body_deleted, expr_deleted, item_matches, kept_entries, kept_items, key_named,
};
use crate::edit_tree::{
    edit_entries, edit_items, names_attr, new_entry_key, redecorated, EditItem, EntryKey,
};
use crate::matching::labels_match;
use crate::parser::FieldView;
use crate::query::{attr_hits, block_hits, body_hits, query_spec, QueryResult};
use crate::read_tree::{read_items, ReadItem};
use crate::write::{
    appended_attr, body_written, entries_written, entry_written, expr_written, has_attr, has_entry,
    item_written, items_written, last_attr_decor,
};

verus! {

/// What a write at the last segment makes of one structure.
pub open spec fn written_at_end(name: Seq<char>, v: hcl_edit::expr::Expression, it: EditItem) -> EditItem {
    match it {
        EditItem::Attr { key, decor, .. } => if key == name {
            EditItem::Attr { key, value: v, decor }
        } else {
            it
        },
        EditItem::Block { .. } => it,
    }
}

proof fn lemma_items_written_at_end(
    fs: Seq<FieldView>,
    k: int,
    v: hcl_edit::expr::Expression,
    o: Seq<EditItem>,
    n: Seq<EditItem>,
)
    requires
        0 <= k && k + 1 == fs.len(),
        items_written(fs, k, v, o, n),
    ensures
        n.len() == o.len(),
        forall|i: int| 0 <= i < o.len() ==> n[i] == written_at_end(fs[k].name, v, #[trigger] o[i]),
    decreases o.len(),
{
    if o.len() > 0 {
        lemma_items_written_at_end(fs, k, v, o.drop_last(), n.drop_last());
        assert(item_written(fs, k, v, o.last(), n.last()));
        assert forall|i: int| 0 <= i < o.len() implies n[i] == written_at_end(
            fs[k].name,
            v,
            #[trigger] o[i],
        ) by {
            if i < o.len() - 1 {
                assert(o[i] == o.drop_last()[i]);
                assert(n[i] == n.drop_last()[i]);
            }
        }
    }
}

proof fn lemma_has_attr_index(items: Seq<EditItem>, name: Seq<char>)
    ensures
        has_attr(items, name) <==> exists|i: int| 0 <= i < items.len() && names_attr(#[trigger] items[i], name),
    decreases items.len(),
{
    if items.len() > 0 {
        lemma_has_attr_index(items.drop_last(), name);
        if has_attr(items.drop_last(), name) {
            let i = choose|i: int| 0 <= i < items.drop_last().len() && names_attr(#[trigger] items.drop_last()[i], name);
            assert(items[i] == items.drop_last()[i]);
        }
        if exists|i: int| 0 <= i < items.len() && names_attr(#[trigger] items[i], name) {
            let i = choose|i: int| 0 <= i < items.len() && names_attr(#[trigger] items[i], name);
            if i < items.len() - 1 {
                assert(items.drop_last()[i] == items[i]);
            }
        }
    }
}

/// Reading back a write: after writing `v` at a top-level name, the body has
/// an attribute of that name, and every attribute of that name holds `v`.
/// The body's other structures, and the decoration of each attribute, are
/// those of the old body (see `body_written`).
pub proof fn lemma_write_then_read(
    f: FieldView,
    v: hcl_edit::expr::Expression,
    old: hcl_edit::structure::Body,
    new: hcl_edit::structure::Body,
)
    requires
        body_written(seq![f], 0, v, old, new),
    ensures
        has_attr(edit_items(new), f.name),
        forall|i: int|
            0 <= i < edit_items(new).len() && names_attr(#[trigger] edit_items(new)[i], f.name)
                ==> edit_items(new)[i]->Attr_value == v,
{
    let fs = seq![f];
    assert(fs[0] == f);
    let o = edit_items(old);
    let n = edit_items(new);
    lemma_has_attr_index(o, f.name);
    lemma_has_attr_index(n, f.name);
    if has_attr(o, f.name) {
        lemma_items_written_at_end(fs, 0, v, o, n);
        let i = choose|i: int| 0 <= i < o.len() && names_attr(#[trigger] o[i], f.name);
        assert(n[i] == written_at_end(f.name, v, o[i]));
        assert(names_attr(n[i], f.name));
        assert forall|i: int| 0 <= i < n.len() && names_attr(#[trigger] n[i], f.name) implies n[i]->Attr_value == v by {
            assert(n[i] == written_at_end(f.name, v, o[i]));
        }
    } else {
        let m = n.drop_last();
        lemma_items_written_at_end(fs, 0, v, o, m);
        assert(names_attr(n[n.len() - 1], f.name));
        assert forall|i: int| 0 <= i < n.len() && names_attr(#[trigger] n[i], f.name) implies n[i]->Attr_value == v by {
            if i < n.len() - 1 {
                assert(n[i] == m[i]);
                assert(m[i] == written_at_end(f.name, v, o[i]));
            }
        }
    }
}

/// Writing, at a top-level name, the value that every attribute of that name
/// already holds changes none of the body's structures.
pub proof fn lemma_write_same_value(
    f: FieldView,
    v: hcl_edit::expr::Expression,
    old: hcl_edit::structure::Body,
    new: hcl_edit::structure::Body,
)
    requires
        body_written(seq![f], 0, v, old, new),
        has_attr(edit_items(old), f.name),
        forall|i: int|
            0 <= i < edit_items(old).len() && names_attr(#[trigger] edit_items(old)[i], f.name)
                ==> edit_items(old)[i]->Attr_value == v,
    ensures
        edit_items(new) == edit_items(old),
{
    let o = edit_items(old);
    let n = edit_items(new);
    assert(seq![f][0] == f);
    lemma_items_written_at_end(seq![f], 0, v, o, n);
    assert forall|i: int| 0 <= i < o.len() implies n[i] == o[i] by {
        assert(n[i] == written_at_end(f.name, v, o[i]));
    }
    assert(n =~= o);
}

/// A write at a top-level name that no attribute has adds `name = v` at the
/// end of the body, with the decoration of the body's last attribute where
/// it has one, and leaves every other structure as it was.
pub proof fn lemma_write_appends(
    f: FieldView,
    v: hcl_edit::expr::Expression,
    old: hcl_edit::structure::Body,
    new: hcl_edit::structure::Body,
)
    requires
        body_written(seq![f], 0, v, old, new),
        !has_attr(edit_items(old), f.name),
    ensures
        edit_items(new).len() == edit_items(old).len() + 1,
        edit_items(new).drop_last() == edit_items(old),
        appended_attr(edit_items(new).last(), f.name, v, last_attr_decor(edit_items(old))),
{
    let o = edit_items(old);
    let n = edit_items(new);
    assert(seq![f][0] == f);
    lemma_has_attr_index(o, f.name);
    let m = n.drop_last();
    lemma_items_written_at_end(seq![f], 0, v, o, m);
    assert forall|i: int| 0 <= i < o.len() implies m[i] == o[i] by {
        assert(m[i] == written_at_end(f.name, v, o[i]));
    }
    assert(m =~= o);
}

proof fn lemma_kept_items(f: FieldView, items: Seq<EditItem>)
    ensures
        forall|i: int|
            0 <= i < kept_items(f, items).len() ==> !item_matches(f, #[trigger] kept_items(f, items)[i])
                && items.contains(kept_items(f, items)[i]),
    decreases items.len(),
{
    if items.len() > 0 {
        let rest = kept_items(f, items.drop_last());
        lemma_kept_items(f, items.drop_last());
        assert forall|i: int| 0 <= i < rest.len() implies items.contains(#[trigger] rest[i]) by {
            let j = choose|j: int| 0 <= j < items.drop_last().len() && items.drop_last()[j] == rest[i];
            assert(items[j] == rest[i]);
        }
        assert(items[items.len() - 1] == items.last());
    }
}

/// Deleting at a top-level segment removes structures whole: what is left is
/// a structure of the body that the segment does not match, unchanged, and
/// every structure it does not match is left, in order.
pub proof fn lemma_delete_whole(
    f: FieldView,
    old: hcl_edit::structure::Body,
    new: hcl_edit::structure::Body,
)
    requires
        body_deleted(seq![f], 0, old, new),
    ensures
        edit_items(new) == kept_items(f, edit_items(old)),
        forall|i: int|
            0 <= i < edit_items(new).len() ==> !item_matches(f, #[trigger] edit_items(new)[i])
                && edit_items(old).contains(edit_items(new)[i]),
{
    lemma_kept_items(f, edit_items(old));
}

proof fn lemma_kept_entries(name: Seq<char>, es: Seq<(EntryKey, hcl_edit::expr::Expression)>)
    ensures
        forall|i: int|
            0 <= i < kept_entries(name, es).len() ==> !key_named(
                (#[trigger] kept_entries(name, es)[i]).0,
                name,
            ),
    decreases es.len(),
{
    if es.len() > 0 {
        let rest = kept_entries(name, es.drop_last());
        lemma_kept_entries(name, es.drop_last());
        assert forall|i: int| 0 <= i < kept_entries(name, es).len() implies !key_named(
            (#[trigger] kept_entries(name, es)[i]).0,
            name,
        ) by {
            if i < rest.len() {
                assert(kept_entries(name, es)[i] == rest[i]);
            }
        }
    }
}

/// Deleting the last segment of a path inside an object keeps the object: it
/// is still an object, without entries of that name (possibly empty).
pub proof fn lemma_delete_keeps_object(
    fs: Seq<FieldView>,
    k: int,
    old: hcl_edit::expr::Expression,
    new: hcl_edit::expr::Expression,
)
    requires
        0 <= k && k + 1 == fs.len(),
        edit_entries(old) is Some,
        expr_deleted(fs, k, old, new),
    ensures
        edit_entries(new) is Some,
        forall|i: int|
            0 <= i < edit_entries(new)->Some_0.len() ==> !key_named(
                (#[trigger] edit_entries(new)->Some_0[i]).0,
                fs[k].name,
            ),
{
    lemma_kept_entries(fs[k].name, edit_entries(old)->Some_0);
}

/// The number of structures among `items` that a name names: attributes by
/// their key, blocks by their identifier.
pub open spec fn named_count(items: Seq<ReadItem>, name: Seq<char>) -> nat
    decreases items.len(),
{
    if items.len() == 0 {
        0
    } else {
        named_count(items.drop_last(), name) + match items.last() {
            ReadItem::Attr { key, .. } => if key == name {
                1nat
            } else {
                0nat
            },
            ReadItem::Block { ident, .. } => if ident == name {
                1nat
            } else {
                0nat
            },
        }
    }
}

proof fn lemma_hits_count(f: FieldView, items: Seq<ReadItem>)
    requires
        f.labels.len() == 0,
    ensures
        attr_hits(f.name, items).len() + block_hits(f, items).len() == named_count(items, f.name),
    decreases items.len(),
{
    if items.len() > 0 {
        lemma_hits_count(f, items.drop_last());
    }
}

/// Fan-out: a segment without labels matches every structure of its name, so
/// a one-segment query gives one result for each of them.
pub proof fn lemma_query_fan_out(f: FieldView, b: hcl::Body)
    requires
        f.labels.len() == 0,
    ensures
        query_spec(seq![f], b).len() == named_count(read_items(b), f.name),
{
    lemma_hits_count(f, read_items(b));
}

/// The blocks among `items` whose identifier is `name`, in document order.
pub open spec fn named_blocks(items: Seq<ReadItem>, name: Seq<char>) -> Seq<QueryResult>
    decreases items.len(),
{
    if items.len() == 0 {
        Seq::empty()
    } else {
        let rest = named_blocks(items.drop_last(), name);
        match items.last() {
            ReadItem::Block { ident, block, .. } => if ident == name {
                rest.push(QueryResult::Block(block))
            } else {
                rest
            },
            ReadItem::Attr { .. } => rest,
        }
    }
}

proof fn lemma_unlabeled_block_hits(f: FieldView, items: Seq<ReadItem>)
    requires
        f.labels.len() == 0,
    ensures
        block_hits(f, items) == named_blocks(items, f.name),
    decreases items.len(),
{
    if items.len() > 0 {
        lemma_unlabeled_block_hits(f, items.drop_last());
    }
}

proof fn lemma_no_attr_hits(name: Seq<char>, items: Seq<ReadItem>)
    requires
        forall|i: int| 0 <= i < items.len() ==> !(#[trigger] items[i] is Attr && items[i]->Attr_key == name),
    ensures
        attr_hits(name, items) == Seq::<QueryResult>::empty(),
    decreases items.len(),
{
    if items.len() > 0 {
        assert(items.last() == items[items.len() - 1]);
        assert forall|i: int| 0 <= i < items.drop_last().len() implies !(
        #[trigger] items.drop_last()[i] is Attr && items.drop_last()[i]->Attr_key == name) by {
            assert(items.drop_last()[i] == items[i]);
        }
        lemma_no_attr_hits(name, items.drop_last());
    }
}

/// Fan-out, result by result: where no attribute has the name, a segment
/// without labels gives exactly the blocks of that name, each once, in
/// document order.
pub proof fn lemma_query_fan_out_blocks(f: FieldView, b: hcl::Body)
    requires
        f.labels.len() == 0,
        forall|i: int|
            0 <= i < read_items(b).len() ==> !(#[trigger] read_items(b)[i] is Attr
                && read_items(b)[i]->Attr_key == f.name),
    ensures
        query_spec(seq![f], b) == named_blocks(read_items(b), f.name),
{
    assert(seq![f][0] == f);
    lemma_no_attr_hits(f.name, read_items(b));
    lemma_unlabeled_block_hits(f, read_items(b));
    assert(body_hits(f, b) =~= named_blocks(read_items(b), f.name));
}

/// A block is matched when some label of the segment equals some label of the
/// block (or the segment asks for none); the segment's labels need not all be
/// the block's.
pub proof fn lemma_query_labels_any(
    f: FieldView,
    b: hcl::Body,
    labels: Seq<Seq<char>>,
    block: hcl::Block,
)
    requires
        read_items(b) == seq![ReadItem::Block { ident: f.name, labels, block }],
    ensures
        query_spec(seq![f], b) == if labels_match(f.labels, labels) {
            seq![QueryResult::Block(block)]
        } else {
            Seq::<QueryResult>::empty()
        },
{
    let items = read_items(b);
    assert(seq![f][0] == f);
    assert(items.drop_last() =~= Seq::<ReadItem>::empty());
    assert(attr_hits(f.name, items.drop_last()) =~= Seq::<QueryResult>::empty());
    assert(block_hits(f, items.drop_last()) =~= Seq::<QueryResult>::empty());
    assert(attr_hits(f.name, items) =~= Seq::<QueryResult>::empty());
    assert(body_hits(f, b) =~= block_hits(f, items));
}

/// Every attribute or object entry that the segments from `k` on reach in
/// `b` holds `v`: at the last segment the attributes of that name (or the
/// entries of that name, which may keep their old decoration); before it, the
/// bodies of the matching blocks and the matching values that are objects.
pub open spec fn body_holds(
    fs: Seq<FieldView>,
    k: int,
    v: hcl_edit::expr::Expression,
    b: hcl_edit::structure::Body,
) -> bool
    decreases fs.len() - k, 1int, 0int,
{
    items_hold(fs, k, v, edit_items(b))
}

pub open spec fn items_hold(
    fs: Seq<FieldView>,
    k: int,
    v: hcl_edit::expr::Expression,
    items: Seq<EditItem>,
) -> bool
    decreases fs.len() - k, 0int, items.len(),
{
    items.len() == 0 || (items_hold(fs, k, v, items.drop_last()) && item_holds(
        fs,
        k,
        v,
        items.last(),
    ))
}

pub open spec fn item_holds(
    fs: Seq<FieldView>,
    k: int,
    v: hcl_edit::expr::Expression,
    it: EditItem,
) -> bool
    decreases fs.len() - k, 0int, 0int,
{
    if 0 <= k < fs.len() && item_matches(fs[k], it) {
        match it {
            EditItem::Attr { value, .. } => if k + 1 == fs.len() {
                value == v
            } else {
                expr_holds(fs, k + 1, v, value)
            },
            EditItem::Block { body, .. } => k + 1 < fs.len() ==> body_holds(fs, k + 1, v, body),
        }
    } else {
        true
    }
}

pub open spec fn expr_holds(
    fs: Seq<FieldView>,
    k: int,
    v: hcl_edit::expr::Expression,
    e: hcl_edit::expr::Expression,
) -> bool
    decreases fs.len() - k, 1int, 0int,
{
    match edit_entries(e) {
        None => true,
        Some(es) => entries_hold(fs, k, v, es),
    }
}

pub open spec fn entries_hold(
    fs: Seq<FieldView>,
    k: int,
    v: hcl_edit::expr::Expression,
    es: Seq<(EntryKey, hcl_edit::expr::Expression)>,
) -> bool
    decreases fs.len() - k, 0int, es.len(),
{
    es.len() == 0 || (entries_hold(fs, k, v, es.drop_last()) && entry_holds(fs, k, v, es.last()))
}

pub open spec fn entry_holds(
    fs: Seq<FieldView>,
    k: int,
    v: hcl_edit::expr::Expression,
    e: (EntryKey, hcl_edit::expr::Expression),
) -> bool
    decreases fs.len() - k, 0int, 0int,
{
    if 0 <= k < fs.len() && key_named(e.0, fs[k].name) {
        if k + 1 == fs.len() {
            e.1 == v || exists|w: hcl_edit::expr::Expression| e.1 == redecorated(v, w)
        } else {
            expr_holds(fs, k + 1, v, e.1)
        }
    } else {
        true
    }
}

proof fn lemma_body_holds(
    fs: Seq<FieldView>,
    k: int,
    v: hcl_edit::expr::Expression,
    old: hcl_edit::structure::Body,
    new: hcl_edit::structure::Body,
)
    requires
        0 <= k < fs.len(),
        body_written(fs, k, v, old, new),
    ensures
        body_holds(fs, k, v, new),
    decreases fs.len() - k, 1int, 0int,
{
    let o = edit_items(old);
    let n = edit_items(new);
    if k + 1 == fs.len() && !has_attr(o, fs[k].name) {
        lemma_items_hold(fs, k, v, o, n.drop_last());
        assert(n.last() is Attr);
        assert(item_holds(fs, k, v, n.last()));
    } else {
        lemma_items_hold(fs, k, v, o, n);
    }
}

proof fn lemma_items_hold(
    fs: Seq<FieldView>,
    k: int,
    v: hcl_edit::expr::Expression,
    o: Seq<EditItem>,
    n: Seq<EditItem>,
)
    requires
        0 <= k < fs.len(),
        items_written(fs, k, v, o, n),
    ensures
        items_hold(fs, k, v, n),
    decreases fs.len() - k, 0int, o.len(),
{
    if o.len() > 0 {
        lemma_items_hold(fs, k, v, o.drop_last(), n.drop_last());
        lemma_item_holds(fs, k, v, o.last(), n.last());
    }
}

proof fn lemma_item_holds(
    fs: Seq<FieldView>,
    k: int,
    v: hcl_edit::expr::Expression,
    o: EditItem,
    n: EditItem,
)
    requires
        0 <= k < fs.len(),
        item_written(fs, k, v, o, n),
    ensures
        item_holds(fs, k, v, n),
    decreases fs.len() - k, 0int, 0int,
{
    if item_matches(fs[k], o) {
        match o {
            EditItem::Attr { value, .. } => {
                if k + 1 < fs.len() {
                    lemma_expr_holds(fs, k + 1, v, value, n->Attr_value);
                }
            },
            EditItem::Block { body, .. } => {
                if k + 1 < fs.len() {
                    lemma_body_holds(fs, k + 1, v, body, n->Block_body);
                }
            },
        }
    }
}

proof fn lemma_expr_holds(
    fs: Seq<FieldView>,
    k: int,
    v: hcl_edit::expr::Expression,
    old: hcl_edit::expr::Expression,
    new: hcl_edit::expr::Expression,
)
    requires
        0 <= k < fs.len(),
        expr_written(fs, k, v, old, new),
    ensures
        expr_holds(fs, k, v, new),
    decreases fs.len() - k, 1int, 0int,
{
    match edit_entries(old) {
        None => {},
        Some(es) => {
            let ns = edit_entries(new)->Some_0;
            if k + 1 == fs.len() && !has_entry(es, fs[k].name) {
                lemma_entries_hold(fs, k, v, es, ns.drop_last());
                assert(key_named(new_entry_key(fs[k].name), fs[k].name));
                assert(entry_holds(fs, k, v, ns.last()));
            } else {
                lemma_entries_hold(fs, k, v, es, ns);
            }
        },
    }
}

proof fn lemma_entries_hold(
    fs: Seq<FieldView>,
    k: int,
    v: hcl_edit::expr::Expression,
    o: Seq<(EntryKey, hcl_edit::expr::Expression)>,
    n: Seq<(EntryKey, hcl_edit::expr::Expression)>,
)
    requires
        0 <= k < fs.len(),
        entries_written(fs, k, v, o, n),
    ensures
        entries_hold(fs, k, v, n),
    decreases fs.len() - k, 0int, o.len(),
{
    if o.len() > 0 {
        lemma_entries_hold(fs, k, v, o.drop_last(), n.drop_last());
        assert(entry_written(fs, k, v, o.last(), n.last()));
        if key_named(o.last().0, fs[k].name) {
            if k + 1 == fs.len() {
                assert(n.last().1 == redecorated(v, o.last().1));
                assert(exists|w: hcl_edit::expr::Expression| n.last().1 == redecorated(v, w));
            } else {
                lemma_expr_holds(fs, k + 1, v, o.last().1, n.last().1);
            }
        }
        assert(entry_holds(fs, k, v, n.last()));
    }
}

/// Reading back a write along any path: after a write that succeeded, every
/// attribute or object entry that the filter reaches holds the written value
/// (an entry may keep the decoration of the value it had).
pub proof fn lemma_write_reads_back(
    fs: Seq<FieldView>,
    v: hcl_edit::expr::Expression,
    old: hcl_edit::structure::Body,
    new: hcl_edit::structure::Body,
)
    requires
        fs.len() > 0,
        body_written(fs, 0, v, old, new),
    ensures
        body_holds(fs, 0, v, new),
{
    lemma_body_holds(fs, 0, v, old, new);
}

} // verus!
