//! Writing a value where a filter points in an `hcl_edit` body, in place.
//!
//! At the last segment every matching attribute (or object entry) gets the
//! value; where the body (or object) has none of that name, one is added at
//! its end. Before the last segment the traversal goes into every matching block
//! and every matching attribute or entry, whose value must then be an object.
//! The body is checked first: a write that fails changes nothing.
use vstd::prelude::*;

use crate::delete::{head_matches, item_matches, key_matches, key_named};
use crate::edit_tree::{
    attr_value, attr_value_mut, block_body, block_body_mut, body_len, copy_expr, edit_entries,
    edit_items, entry_count, entry_key, entry_value, entry_value_mut, is_hcl_ident, item_head, names_attr,
    push_attr, push_attr_like, push_ident_entry, push_string_entry, entry_unterminated, terminate_entry, new_entry_key, redecorated, copy_with_decor, valid_ident, EditItem, EntryKey, ItemHead,
};
use crate::parser::{field_views, Field, FieldView};

verus! {

/// Why a write was refused.
#[derive(Clone, Copy, Debug, PartialEq, Eq)]
pub enum WriteErrorKind {
    /// a segment before the last matched an attribute or entry whose value is
    /// no object
    NotTraversable,
    /// the last segment matched a block, whose body a value cannot replace
    BlockBodyExpected,
    /// the attribute to add has a name that is no valid identifier
    InvalidKey,
}

/// The sentence that says why a write was refused.
pub open spec fn reason_text(kind: WriteErrorKind) -> Seq<char> {
    match kind {
        WriteErrorKind::NotTraversable => "cannot write through non-object expression"@,
        WriteErrorKind::BlockBodyExpected => "cannot replace a block's body with a value"@,
        WriteErrorKind::InvalidKey => "the new attribute's name is not a valid identifier"@,
    }
}

/// A write that was refused, and why.
#[derive(Clone, Debug)]
pub struct WriteError {
    kind: WriteErrorKind,
}

impl WriteError {
    fn new(kind: WriteErrorKind) -> (r: WriteError)
        ensures
            r.spec_kind() == kind,
    {
        WriteError { kind }
    }

    pub closed spec fn spec_kind(&self) -> WriteErrorKind {
        self.kind
    }

    /// Why the write was refused.
    pub fn kind(&self) -> (r: WriteErrorKind)
        ensures
            r == self.spec_kind(),
    {
        self.kind
    }

    /// A sentence that says why the write was refused.
    pub fn reason(&self) -> (r: String)
        ensures
            r@ == reason_text(self.spec_kind()),
    {
        let s = match self.kind {
            WriteErrorKind::NotTraversable => "cannot write through non-object expression",
            WriteErrorKind::BlockBodyExpected => "cannot replace a block's body with a value",
            WriteErrorKind::InvalidKey => "the new attribute's name is not a valid identifier",
        };
        s.to_owned()
    }
}

/// Whether `items` hold an attribute whose key is `name`.
pub open spec fn has_attr(items: Seq<EditItem>, name: Seq<char>) -> bool
    decreases items.len(),
{
    items.len() > 0 && (has_attr(items.drop_last(), name) || names_attr(items.last(), name))
}

pub open spec fn first_fault(a: Option<WriteErrorKind>, b: Option<WriteErrorKind>) -> Option<
    WriteErrorKind,
> {
    match a {
        Some(e) => Some(e),
        None => b,
    }
}

/// The first fault, in document order, that writing with the segments from
/// `k` on meets in a body; `None` where there is none.
pub open spec fn body_fault(fs: Seq<FieldView>, k: int, b: hcl_edit::structure::Body) -> Option<
    WriteErrorKind,
>
    decreases fs.len() - k, 1int, 0int,
{
    if 0 <= k < fs.len() {
        first_fault(
            items_fault(fs, k, edit_items(b)),
            if k + 1 == fs.len() && !has_attr(edit_items(b), fs[k].name) && !is_hcl_ident(
                fs[k].name,
            ) {
                Some(WriteErrorKind::InvalidKey)
            } else {
                None
            },
        )
    } else {
        None
    }
}

pub open spec fn items_fault(fs: Seq<FieldView>, k: int, items: Seq<EditItem>) -> Option<
    WriteErrorKind,
>
    decreases fs.len() - k, 0int, items.len(),
{
    if items.len() == 0 {
        None
    } else {
        first_fault(items_fault(fs, k, items.drop_last()), item_fault(fs, k, items.last()))
    }
}

pub open spec fn item_fault(fs: Seq<FieldView>, k: int, it: EditItem) -> Option<WriteErrorKind>
    decreases fs.len() - k, 0int, 0int,
{
    if 0 <= k < fs.len() && item_matches(fs[k], it) {
        match it {
            EditItem::Attr { value, .. } => if k + 1 == fs.len() {
                None
            } else {
                expr_fault(fs, k + 1, value)
            },
            EditItem::Block { body, .. } => if k + 1 == fs.len() {
                Some(WriteErrorKind::BlockBodyExpected)
            } else {
                body_fault(fs, k + 1, body)
            },
        }
    } else {
        None
    }
}

/// The first fault that writing with the segments from `k` on meets in the
/// value of an attribute or entry: it must be an object.
pub open spec fn expr_fault(fs: Seq<FieldView>, k: int, e: hcl_edit::expr::Expression) -> Option<
    WriteErrorKind,
>
    decreases fs.len() - k, 1int, 0int,
{
    match edit_entries(e) {
        None => Some(WriteErrorKind::NotTraversable),
        Some(es) => entries_fault(fs, k, es),
    }
}

pub open spec fn entries_fault(
    fs: Seq<FieldView>,
    k: int,
    es: Seq<(EntryKey, hcl_edit::expr::Expression)>,
) -> Option<WriteErrorKind>
    decreases fs.len() - k, 0int, es.len(),
{
    if es.len() == 0 {
        None
    } else {
        first_fault(entries_fault(fs, k, es.drop_last()), entry_fault(fs, k, es.last()))
    }
}

pub open spec fn entry_fault(
    fs: Seq<FieldView>,
    k: int,
    e: (EntryKey, hcl_edit::expr::Expression),
) -> Option<WriteErrorKind>
    decreases fs.len() - k, 0int, 0int,
{
    if 0 <= k && k + 1 < fs.len() && key_named(e.0, fs[k].name) {
        expr_fault(fs, k + 1, e.1)
    } else {
        None
    }
}

/// The decoration of the last attribute among `items`, if there is one.
pub open spec fn last_attr_decor(items: Seq<EditItem>) -> Option<hcl_edit::Decor>
    decreases items.len(),
{
    if items.len() == 0 {
        None
    } else {
        match items.last() {
            EditItem::Attr { decor, .. } => Some(decor),
            EditItem::Block { .. } => last_attr_decor(items.drop_last()),
        }
    }
}

/// Whether `it` is the attribute `name = v` added by a write, with the
/// decoration of the sibling attribute `sibling` where there is one.
pub open spec fn appended_attr(
    it: EditItem,
    name: Seq<char>,
    v: hcl_edit::expr::Expression,
    sibling: Option<hcl_edit::Decor>,
) -> bool {
    match it {
        EditItem::Attr { key, value, decor } => key == name && value == v && match sibling {
            Some(d) => decor == d,
            None => true,
        },
        EditItem::Block { .. } => false,
    }
}

/// `new` is `old` after writing `v` with the segments from `k` on: the
/// structures correspond one to one, and at the last segment an attribute
/// `name = v` is added at the end where none of that name was there, with
/// the decoration of the body's last attribute where it has one.
pub open spec fn body_written(
    fs: Seq<FieldView>,
    k: int,
    v: hcl_edit::expr::Expression,
    old: hcl_edit::structure::Body,
    new: hcl_edit::structure::Body,
) -> bool
    decreases fs.len() - k, 1int, 0int,
{
    let o = edit_items(old);
    let n = edit_items(new);
    if 0 <= k && k + 1 == fs.len() && !has_attr(o, fs[k].name) {
        n.len() == o.len() + 1 && items_written(fs, k, v, o, n.drop_last()) && appended_attr(
            n.last(),
            fs[k].name,
            v,
            last_attr_decor(o),
        )
    } else if 0 <= k && k < fs.len() {
        items_written(fs, k, v, o, n)
    } else {
        new == old
    }
}

pub open spec fn items_written(
    fs: Seq<FieldView>,
    k: int,
    v: hcl_edit::expr::Expression,
    o: Seq<EditItem>,
    n: Seq<EditItem>,
) -> bool
    decreases fs.len() - k, 0int, o.len(),
{
    if o.len() == 0 {
        n.len() == 0
    } else {
        n.len() > 0 && items_written(fs, k, v, o.drop_last(), n.drop_last()) && item_written(
            fs,
            k,
            v,
            o.last(),
            n.last(),
        )
    }
}

pub open spec fn item_written(
    fs: Seq<FieldView>,
    k: int,
    v: hcl_edit::expr::Expression,
    o: EditItem,
    n: EditItem,
) -> bool
    decreases fs.len() - k, 0int, 0int,
{
    if 0 <= k < fs.len() && item_matches(fs[k], o) {
        match o {
            EditItem::Attr { key, value, decor } => if k + 1 == fs.len() {
                n == EditItem::Attr { key, value: v, decor }
            } else {
                n is Attr && n->Attr_key == key && n->Attr_decor == decor && expr_written(
                    fs,
                    k + 1,
                    v,
                    value,
                    n->Attr_value,
                )
            },
            EditItem::Block { ident, labels, body } => if k + 1 == fs.len() {
                n == o
            } else {
                n is Block && n->Block_ident == ident && n->Block_labels == labels
                    && body_written(fs, k + 1, v, body, n->Block_body)
            },
        }
    } else {
        n == o
    }
}

/// `new` is the object `old` after writing `v` with the segments from `k`
/// on: its named entries get `v`, in the old value's decoration (at the last
/// segment), or are written into; at the last segment an entry `name = v` is
/// added at the end where no key names `name`.
pub open spec fn expr_written(
    fs: Seq<FieldView>,
    k: int,
    v: hcl_edit::expr::Expression,
    old: hcl_edit::expr::Expression,
    new: hcl_edit::expr::Expression,
) -> bool
    decreases fs.len() - k, 1int, 0int,
{
    match edit_entries(old) {
        None => new == old,
        Some(es) => edit_entries(new) is Some && {
            let ns = edit_entries(new)->Some_0;
            if 0 <= k && k + 1 == fs.len() && !has_entry(es, fs[k].name) {
                ns.len() == es.len() + 1 && entries_written(fs, k, v, es, ns.drop_last())
                    && ns.last() == (new_entry_key(fs[k].name), v)
            } else {
                entries_written(fs, k, v, es, ns)
            }
        },
    }
}

/// Whether some key among `es` names `name`.
pub open spec fn has_entry(es: Seq<(EntryKey, hcl_edit::expr::Expression)>, name: Seq<char>) -> bool
    decreases es.len(),
{
    es.len() > 0 && (has_entry(es.drop_last(), name) || key_named(es.last().0, name))
}

pub open spec fn entries_written(
    fs: Seq<FieldView>,
    k: int,
    v: hcl_edit::expr::Expression,
    o: Seq<(EntryKey, hcl_edit::expr::Expression)>,
    n: Seq<(EntryKey, hcl_edit::expr::Expression)>,
) -> bool
    decreases fs.len() - k, 0int, o.len(),
{
    if o.len() == 0 {
        n.len() == 0
    } else {
        n.len() > 0 && entries_written(fs, k, v, o.drop_last(), n.drop_last()) && entry_written(
            fs,
            k,
            v,
            o.last(),
            n.last(),
        )
    }
}

pub open spec fn entry_written(
    fs: Seq<FieldView>,
    k: int,
    v: hcl_edit::expr::Expression,
    o: (EntryKey, hcl_edit::expr::Expression),
    n: (EntryKey, hcl_edit::expr::Expression),
) -> bool
    decreases fs.len() - k, 0int, 0int,
{
    if 0 <= k < fs.len() && key_named(o.0, fs[k].name) {
        if k + 1 == fs.len() {
            n == (o.0, redecorated(v, o.1))
        } else {
            n.0 == o.0 && expr_written(fs, k + 1, v, o.1, n.1)
        }
    } else {
        n == o
    }
}

/// The first fault that writing with the segments from `k` on would meet in
/// `body`.
fn check_body(fields: &Vec<Field>, k: usize, body: &hcl_edit::structure::Body) -> (r: Option<
    WriteErrorKind,
>)
    requires
        k < fields@.len(),
    ensures
        r == body_fault(field_views(fields@), k as int, *body),
    decreases fields@.len() - k,
{
    let ghost fv = field_views(fields@);
    assert(fv.len() == fields@.len());
    let ghost o = edit_items(*body);
    let len = fields.len();
    let f = &fields[k];
    let n = body_len(body);
    let mut found = false;
    let mut i: usize = 0;
    while i < n
        invariant
            fv == field_views(fields@),
            fv.len() == fields@.len(),
            len == fields@.len(),
            k < len,
            f@ == fv[k as int],
            o == edit_items(*body),
            n == o.len(),
            i <= n,
            items_fault(fv, k as int, o.take(i as int)) is None,
            found == has_attr(o.take(i as int), f.name@),
        decreases n - i,
    {
        assert(o.take(i + 1).drop_last() =~= o.take(i as int));
        assert(o.take(i + 1).last() == o[i as int]);
        let h = item_head(body, i);
        let hit = head_matches(f, &h);
        match h {
            ItemHead::Attr { .. } => {
                if hit {
                    found = true;
                    if k + 1 < len {
                        let v = attr_value(body, i);
                        let e = check_expr(fields, k + 1, v);
                        if e.is_some() {
                            proof {
                                lemma_items_fault_first(fv, k as int, o, i as int);
                            }
                            return e;
                        }
                    }
                }
            },
            ItemHead::Block { .. } => {
                if hit {
                    if k + 1 == len {
                        proof {
                            lemma_items_fault_first(fv, k as int, o, i as int);
                        }
                        return Some(WriteErrorKind::BlockBodyExpected);
                    }
                    let b = block_body(body, i);
                    let e = check_body(fields, k + 1, b);
                    if e.is_some() {
                        proof {
                            lemma_items_fault_first(fv, k as int, o, i as int);
                        }
                        return e;
                    }
                }
            },
        }
        i += 1;
    }
    assert(o.take(n as int) =~= o);
    if k + 1 == len && !found && !valid_ident(f.name.as_str()) {
        return Some(WriteErrorKind::InvalidKey);
    }
    None
}

/// The first fault that writing with the segments from `k` on would meet in
/// the value `e`.
fn check_expr(fields: &Vec<Field>, k: usize, e: &hcl_edit::expr::Expression) -> (r: Option<
    WriteErrorKind,
>)
    requires
        k < fields@.len(),
    ensures
        r == expr_fault(field_views(fields@), k as int, *e),
    decreases fields@.len() - k,
{
    let ghost fv = field_views(fields@);
    assert(fv.len() == fields@.len());
    let n = match entry_count(e) {
        Some(n) => n,
        None => {
            return Some(WriteErrorKind::NotTraversable);
        },
    };
    let ghost o = edit_entries(*e)->Some_0;
    let len = fields.len();
    let name = &fields[k].name;
    let mut i: usize = 0;
    while i < n
        invariant
            fv == field_views(fields@),
            fv.len() == fields@.len(),
            len == fields@.len(),
            k < len,
            name@ == fv[k as int].name,
            edit_entries(*e) == Some(o),
            n == o.len(),
            i <= n,
            entries_fault(fv, k as int, o.take(i as int)) is None,
        decreases n - i,
    {
        assert(o.take(i + 1).drop_last() =~= o.take(i as int));
        assert(o.take(i + 1).last() == o[i as int]);
        let h = entry_key(e, i);
        if key_matches(name, &h) && k + 1 < len {
            let v = entry_value(e, i);
            let r = check_expr(fields, k + 1, v);
            if r.is_some() {
                proof {
                    lemma_entries_fault_first(fv, k as int, o, i as int);
                }
                return r;
            }
        }
        i += 1;
    }
    assert(o.take(n as int) =~= o);
    None
}

/// Writes `value` into `body` with the segments from `k` on.
fn write_body(
    fields: &Vec<Field>,
    k: usize,
    body: &mut hcl_edit::structure::Body,
    value: &hcl_edit::expr::Expression,
)
    requires
        k < fields@.len(),
        body_fault(field_views(fields@), k as int, *old(body)) is None,
    ensures
        body_written(field_views(fields@), k as int, *value, *old(body), *final(body)),
    decreases fields@.len() - k,
{
    let ghost fv = field_views(fields@);
    assert(fv.len() == fields@.len());
    let ghost o = edit_items(*body);
    let len = fields.len();
    let f = &fields[k];
    let n = body_len(body);
    let mut found = false;
    let mut sibling: Option<usize> = None;
    let mut i: usize = 0;
    while i < n
        invariant
            fv == field_views(fields@),
            fv.len() == fields@.len(),
            len == fields@.len(),
            k < len,
            f@ == fv[k as int],
            n == o.len(),
            i <= n,
            items_fault(fv, k as int, o) is None,
            edit_items(*body).len() == n,
            forall|j: int| i <= j < n ==> edit_items(*body)[j] == o[j],
            forall|j: int|
                0 <= j < i && (#[trigger] o[j]) is Attr ==> edit_items(*body)[j] is Attr
                    && edit_items(*body)[j]->Attr_decor == o[j]->Attr_decor,
            items_written(fv, k as int, *value, o.take(i as int), edit_items(*body).take(i as int)),
            found == has_attr(o.take(i as int), f.name@),
            match sibling {
                Some(j) => j < i && o[j as int] is Attr && last_attr_decor(o.take(i as int)) == Some(
                    o[j as int]->Attr_decor,
                ),
                None => last_attr_decor(o.take(i as int)) is None,
            },
        decreases n - i,
    {
        let ghost cur = edit_items(*body);
        proof {
            lemma_items_fault_item(fv, k as int, o, i as int);
        }
        assert(o.take(i + 1).drop_last() =~= o.take(i as int));
        assert(o.take(i + 1).last() == o[i as int]);
        let h = item_head(body, i);
        let hit = head_matches(f, &h);
        match h {
            ItemHead::Attr { .. } => {
                sibling = Some(i);
                if hit {
                    found = true;
                    let v = attr_value_mut(body, i);
                    if k + 1 == len {
                        *v = copy_expr(value);
                    } else {
                        write_expr(fields, k + 1, v, value);
                    }
                }
            },
            ItemHead::Block { .. } => {
                if hit && k + 1 < len {
                    let b = block_body_mut(body, i);
                    write_body(fields, k + 1, b, value);
                }
            },
        }
        let ghost now = edit_items(*body);
        assert(now.take(i + 1).drop_last() =~= now.take(i as int));
        assert(now.take(i as int) =~= cur.take(i as int));
        assert(item_written(fv, k as int, *value, o[i as int], now[i as int]));
        assert forall|j: int|
            0 <= j < i + 1 && (#[trigger] o[j]) is Attr implies now[j] is Attr && now[j]->Attr_decor
                == o[j]->Attr_decor by {
            if j < i {
                assert(now[j] == now.take(i as int)[j]);
                assert(cur[j] == cur.take(i as int)[j]);
            }
        }
        i += 1;
    }
    assert(o.take(n as int) =~= o);
    assert(edit_items(*body).take(n as int) =~= edit_items(*body));
    if k + 1 == len && !found {
        let ghost before = edit_items(*body);
        proof {
            lemma_no_attr_after_write(fv, k as int, *value, o, before);
        }
        match sibling {
            Some(j) => push_attr_like(body, f.name.as_str(), copy_expr(value), j),
            None => push_attr(body, f.name.as_str(), copy_expr(value)),
        }
        assert(edit_items(*body).drop_last() =~= before);
    }
}

/// Writes `value` into the object `e` with the segments from `k` on.
fn write_expr(
    fields: &Vec<Field>,
    k: usize,
    e: &mut hcl_edit::expr::Expression,
    value: &hcl_edit::expr::Expression,
)
    requires
        k < fields@.len(),
        expr_fault(field_views(fields@), k as int, *old(e)) is None,
    ensures
        expr_written(field_views(fields@), k as int, *value, *old(e), *final(e)),
    decreases fields@.len() - k,
{
    let ghost fv = field_views(fields@);
    assert(fv.len() == fields@.len());
    let n = match entry_count(e) {
        Some(n) => n,
        None => {
            return ;
        },
    };
    let ghost o = edit_entries(*e)->Some_0;
    let len = fields.len();
    let name = &fields[k].name;
    let mut found = false;
    let mut i: usize = 0;
    while i < n
        invariant
            fv == field_views(fields@),
            fv.len() == fields@.len(),
            len == fields@.len(),
            k < len,
            name@ == fv[k as int].name,
            n == o.len(),
            i <= n,
            found == has_entry(o.take(i as int), name@),
            entries_fault(fv, k as int, o) is None,
            edit_entries(*e) is Some,
            edit_entries(*e)->Some_0.len() == n,
            forall|j: int| i <= j < n ==> edit_entries(*e)->Some_0[j] == o[j],
            entries_written(
                fv,
                k as int,
                *value,
                o.take(i as int),
                edit_entries(*e)->Some_0.take(i as int),
            ),
        decreases n - i,
    {
        let ghost cur = edit_entries(*e)->Some_0;
        proof {
            lemma_entries_fault_entry(fv, k as int, o, i as int);
        }
        assert(o.take(i + 1).drop_last() =~= o.take(i as int));
        let h = entry_key(e, i);
        if key_matches(name, &h) {
            found = true;
            let v = entry_value_mut(e, i);
            if k + 1 == len {
                *v = copy_with_decor(value, v);
            } else {
                write_expr(fields, k + 1, v, value);
            }
        }
        let ghost now = edit_entries(*e)->Some_0;
        assert(now.take(i + 1).drop_last() =~= now.take(i as int));
        assert(now.take(i as int) =~= cur.take(i as int));
        assert(entry_written(fv, k as int, *value, o[i as int], now[i as int]));
        i += 1;
    }
    assert(o.take(n as int) =~= o);
    assert(edit_entries(*e)->Some_0.take(n as int) =~= edit_entries(*e)->Some_0);
    if k + 1 == len && !found {
        let ghost before = edit_entries(*e)->Some_0;
        proof {
            lemma_no_entry_after_write(fv, k as int, *value, o, before);
        }
        // the entry that was last needs a separator before the new one
        if n > 0 && entry_unterminated(e, n - 1) {
            terminate_entry(e, n - 1);
        }
        if valid_ident(name.as_str()) {
            push_ident_entry(e, name.as_str(), copy_expr(value));
        } else {
            push_string_entry(e, name.as_str(), copy_expr(value));
        }
        assert(edit_entries(*e)->Some_0.drop_last() =~= before);
    }
}

/// Where the items as a whole have no fault, neither has any one of them.
proof fn lemma_items_fault_item(fs: Seq<FieldView>, k: int, items: Seq<EditItem>, i: int)
    requires
        items_fault(fs, k, items) is None,
        0 <= i < items.len(),
    ensures
        item_fault(fs, k, items[i]) is None,
    decreases items.len(),
{
    if i < items.len() - 1 {
        lemma_items_fault_item(fs, k, items.drop_last(), i);
    }
}

proof fn lemma_entries_fault_entry(
    fs: Seq<FieldView>,
    k: int,
    es: Seq<(EntryKey, hcl_edit::expr::Expression)>,
    i: int,
)
    requires
        entries_fault(fs, k, es) is None,
        0 <= i < es.len(),
    ensures
        entry_fault(fs, k, es[i]) is None,
    decreases es.len(),
{
    if i < es.len() - 1 {
        lemma_entries_fault_entry(fs, k, es.drop_last(), i);
    }
}

/// The first item with a fault decides the fault of all of them.
proof fn lemma_items_fault_first(fs: Seq<FieldView>, k: int, items: Seq<EditItem>, i: int)
    requires
        0 <= i < items.len(),
        items_fault(fs, k, items.take(i)) is None,
        item_fault(fs, k, items[i]) is Some,
    ensures
        items_fault(fs, k, items) == item_fault(fs, k, items[i]),
    decreases items.len(),
{
    if i == items.len() - 1 {
        assert(items.drop_last() =~= items.take(i));
    } else {
        assert(items.drop_last().take(i) =~= items.take(i));
        lemma_items_fault_first(fs, k, items.drop_last(), i);
    }
}

proof fn lemma_entries_fault_first(
    fs: Seq<FieldView>,
    k: int,
    es: Seq<(EntryKey, hcl_edit::expr::Expression)>,
    i: int,
)
    requires
        0 <= i < es.len(),
        entries_fault(fs, k, es.take(i)) is None,
        entry_fault(fs, k, es[i]) is Some,
    ensures
        entries_fault(fs, k, es) == entry_fault(fs, k, es[i]),
    decreases es.len(),
{
    if i == es.len() - 1 {
        assert(es.drop_last() =~= es.take(i));
    } else {
        assert(es.drop_last().take(i) =~= es.take(i));
        lemma_entries_fault_first(fs, k, es.drop_last(), i);
    }
}

/// Writing keeps the keys of object entries, so an object without a key of
/// a name has none after the write either.
proof fn lemma_no_entry_after_write(
    fs: Seq<FieldView>,
    k: int,
    v: hcl_edit::expr::Expression,
    o: Seq<(EntryKey, hcl_edit::expr::Expression)>,
    n: Seq<(EntryKey, hcl_edit::expr::Expression)>,
)
    requires
        0 <= k < fs.len(),
        entries_written(fs, k, v, o, n),
        !has_entry(o, fs[k].name),
    ensures
        forall|i: int| 0 <= i < n.len() ==> !key_named((#[trigger] n[i]).0, fs[k].name),
        n.len() == o.len(),
    decreases o.len(),
{
    if o.len() > 0 {
        assert(!key_named(o.last().0, fs[k].name));
        lemma_no_entry_after_write(fs, k, v, o.drop_last(), n.drop_last());
        assert forall|i: int| 0 <= i < n.len() implies !key_named((#[trigger] n[i]).0, fs[k].name) by {
            if i < n.len() - 1 {
                assert(n[i] == n.drop_last()[i]);
            } else {
                assert(n[i] == n.last());
                assert(entry_written(fs, k, v, o.last(), n.last()));
            }
        }
    }
}

/// Writing keeps the keys of attributes, so a body without an attribute of a
/// name has none after the write either.
proof fn lemma_no_attr_after_write(
    fs: Seq<FieldView>,
    k: int,
    v: hcl_edit::expr::Expression,
    o: Seq<EditItem>,
    n: Seq<EditItem>,
)
    requires
        0 <= k < fs.len(),
        items_written(fs, k, v, o, n),
        !has_attr(o, fs[k].name),
    ensures
        forall|i: int|
            0 <= i < n.len() ==> !names_attr(#[trigger] n[i], fs[k].name),
        n.len() == o.len(),
    decreases o.len(),
{
    if o.len() > 0 {
        assert(!names_attr(o.last(), fs[k].name));
        lemma_no_attr_after_write(fs, k, v, o.drop_last(), n.drop_last());
        assert forall|i: int| 0 <= i < n.len() implies !names_attr(#[trigger] n[i], fs[k].name) by {
            if i < n.len() - 1 {
                assert(n[i] == n.drop_last()[i]);
            } else {
                assert(n[i] == n.last());
                assert(item_written(fs, k, v, o.last(), n.last()));
                match o.last() {
                    EditItem::Attr { key, .. } => {
                        assert(key != fs[k].name);
                        assert(n.last() == o.last());
                    },
                    EditItem::Block { .. } => {},
                }
            }
        }
    }
}

/// Writes `value` wherever the filter `fields` points in `body`, adding an
/// attribute where the last segment names none. A write that fails leaves
/// `body` as it was; without segments nothing is written.
pub fn write(
    fields: Vec<Field>,
    body: &mut hcl_edit::structure::Body,
    value: &hcl_edit::expr::Expression,
) -> (r: Result<(), WriteError>)
    ensures
        fields@.len() == 0 ==> r is Ok && *final(body) == *old(body),
        fields@.len() > 0 ==> match body_fault(field_views(fields@), 0, *old(body)) {
            Some(kind) => r matches Err(e) && e.spec_kind() == kind && *final(body) == *old(body),
            None => r is Ok && body_written(field_views(fields@), 0, *value, *old(body), *final(body)),
        },
{
    if fields.len() == 0 {
        return Ok(());
    }
    match check_body(&fields, 0, body) {
        Some(kind) => Err(WriteError::new(kind)),
        None => {
            write_body(&fields, 0, body, value);
            Ok(())
        },
    }
}

} // verus!
