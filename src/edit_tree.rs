//! Index-based access to an `hcl_edit` body, the tree that writes and deletes
//! change in place.
//!
//! The body keeps the document's layout (white space, comments); the proofs
//! see only what `edit_items` and `edit_entries` name, and each accessor below
//! states its effect over those names. Every change goes through `hcl_edit`,
//! so what no accessor touches keeps its text.
use vstd::prelude::*;

use crate::parser::string_views;

verus! {

#[verifier::external_type_specification]
#[verifier::external_body]
pub struct ExEditBody(hcl_edit::structure::Body);

#[verifier::external_type_specification]
#[verifier::external_body]
pub struct ExEditExpression(hcl_edit::expr::Expression);

#[verifier::external_type_specification]
#[verifier::external_body]
pub struct ExDecor(hcl_edit::Decor);

/// One structure of an editable body, as the traversals read it: an
/// attribute with its key, value and own decoration (the white space and
/// comments around it), or a block.
pub ghost enum EditItem {
    Attr { key: Seq<char>, value: hcl_edit::expr::Expression, decor: hcl_edit::Decor },
    Block { ident: Seq<char>, labels: Seq<Seq<char>>, body: hcl_edit::structure::Body },
}

/// The key of an object entry: an identifier, a string, or another
/// expression (which no segment names).
pub ghost enum EntryKey {
    Ident(Seq<char>),
    Str(Seq<char>),
    Other,
}

/// The structures of an editable body, in document order.
pub uninterp spec fn edit_items(b: hcl_edit::structure::Body) -> Seq<EditItem>;

/// The entries of an object expression, in order; `None` where the expression
/// is no object.
pub uninterp spec fn edit_entries(e: hcl_edit::expr::Expression) -> Option<
    Seq<(EntryKey, hcl_edit::expr::Expression)>,
>;

/// The expression `v` carrying the decoration (the white space and comments
/// around it) of `like`.
pub uninterp spec fn redecorated(
    v: hcl_edit::expr::Expression,
    like: hcl_edit::expr::Expression,
) -> hcl_edit::expr::Expression;

/// Whether a text is a valid HCL identifier.
pub uninterp spec fn is_hcl_ident(s: Seq<char>) -> bool;

/// Whether a structure is an attribute whose key is `name`.
pub open spec fn names_attr(it: EditItem, name: Seq<char>) -> bool {
    match it {
        EditItem::Attr { key, .. } => key == name,
        EditItem::Block { .. } => false,
    }
}

/// The key that a new object entry named `name` gets: an identifier where
/// `name` is one, a string otherwise.
pub open spec fn new_entry_key(name: Seq<char>) -> EntryKey {
    if is_hcl_ident(name) {
        EntryKey::Ident(name)
    } else {
        EntryKey::Str(name)
    }
}

/// What the traversals read of a structure: its key, or its identifier and
/// labels.
pub enum ItemHead {
    Attr { key: String },
    Block { ident: String, labels: Vec<String> },
}

pub open spec fn head_of(h: ItemHead, it: EditItem) -> bool {
    match (h, it) {
        (ItemHead::Attr { key }, EditItem::Attr { key: k, .. }) => key@ == k,
        (ItemHead::Block { ident, labels }, EditItem::Block { ident: i, labels: l, .. }) => ident@
            == i && string_views(labels@) == l,
        _ => false,
    }
}

/// What the traversals read of an object key.
pub enum KeyHead {
    Ident(String),
    Str(String),
    Other,
}

pub open spec fn key_of(h: KeyHead, k: EntryKey) -> bool {
    match h {
        KeyHead::Ident(n) => k == EntryKey::Ident(n@),
        KeyHead::Str(n) => k == EntryKey::Str(n@),
        KeyHead::Other => k == EntryKey::Other,
    }
}

/// Relies on `hcl_edit::structure::Body::len`: the number of structures.
#[verifier::external_body]
pub(crate) fn body_len(b: &hcl_edit::structure::Body) -> (r: usize)
    ensures
        r == edit_items(*b).len(),
{
    b.len()
}

/// Relies on `hcl_edit::structure::Body::get` and the public `key`, `ident`
/// and `labels` fields: the key of an attribute, or the identifier and labels
/// of a block.
#[verifier::external_body]
pub(crate) fn item_head(b: &hcl_edit::structure::Body, i: usize) -> (r: ItemHead)
    requires
        i < edit_items(*b).len(),
    ensures
        head_of(r, edit_items(*b)[i as int]),
{
    match b.get(i).unwrap() {
        hcl_edit::structure::Structure::Attribute(a) => ItemHead::Attr {
            key: a.key.as_str().to_string(),
        },
        hcl_edit::structure::Structure::Block(bl) => ItemHead::Block {
            ident: bl.ident.as_str().to_string(),
            labels: bl.labels.iter().map(|l| l.as_str().to_string()).collect(),
        },
    }
}

/// Relies on `hcl_edit::structure::Body::get_mut`: the value of the attribute
/// at `i`, to change in place.
#[verifier::external_body]
pub(crate) fn attr_value_mut(b: &mut hcl_edit::structure::Body, i: usize) -> (r:
    &mut hcl_edit::expr::Expression)
    requires
        i < edit_items(*old(b)).len(),
        edit_items(*old(b))[i as int] is Attr,
    ensures
        *r == edit_items(*old(b))[i as int]->Attr_value,
        edit_items(*final(b)) == edit_items(*old(b)).update(
            i as int,
            EditItem::Attr {
                key: edit_items(*old(b))[i as int]->Attr_key,
                value: *final(r),
                decor: edit_items(*old(b))[i as int]->Attr_decor,
            },
        ),
{
    &mut b.get_mut(i).and_then(|s| s.as_attribute_mut()).unwrap().value
}

/// Relies on `hcl_edit::structure::Body::get`: the value of the attribute at
/// `i`.
#[verifier::external_body]
pub(crate) fn attr_value(b: &hcl_edit::structure::Body, i: usize) -> (r:
    &hcl_edit::expr::Expression)
    requires
        i < edit_items(*b).len(),
        edit_items(*b)[i as int] is Attr,
    ensures
        *r == edit_items(*b)[i as int]->Attr_value,
{
    &b.get(i).and_then(|s| s.as_attribute()).unwrap().value
}

/// Relies on `hcl_edit::structure::Body::get_mut`: the body of the block at
/// `i`, to change in place.
#[verifier::external_body]
pub(crate) fn block_body_mut(b: &mut hcl_edit::structure::Body, i: usize) -> (r:
    &mut hcl_edit::structure::Body)
    requires
        i < edit_items(*old(b)).len(),
        edit_items(*old(b))[i as int] is Block,
    ensures
        *r == edit_items(*old(b))[i as int]->Block_body,
        edit_items(*final(b)) == edit_items(*old(b)).update(
            i as int,
            EditItem::Block {
                ident: edit_items(*old(b))[i as int]->Block_ident,
                labels: edit_items(*old(b))[i as int]->Block_labels,
                body: *final(r),
            },
        ),
{
    &mut b.get_mut(i).and_then(|s| s.as_block_mut()).unwrap().body
}

/// Relies on `hcl_edit::structure::Body::get`: the body of the block at `i`.
#[verifier::external_body]
pub(crate) fn block_body(b: &hcl_edit::structure::Body, i: usize) -> (r:
    &hcl_edit::structure::Body)
    requires
        i < edit_items(*b).len(),
        edit_items(*b)[i as int] is Block,
    ensures
        *r == edit_items(*b)[i as int]->Block_body,
{
    &b.get(i).and_then(|s| s.as_block()).unwrap().body
}

/// Relies on `hcl_edit::structure::Body::remove`: the structure at `i` is
/// taken out, the others keep their order.
#[verifier::external_body]
pub(crate) fn remove_item(b: &mut hcl_edit::structure::Body, i: usize)
    requires
        i < edit_items(*old(b)).len(),
    ensures
        edit_items(*final(b)) == edit_items(*old(b)).remove(i as int),
{
    b.remove(i);
}

/// Relies on `hcl_edit::Ident::try_new`: whether `s` is a valid identifier.
#[verifier::external_body]
pub(crate) fn valid_ident(s: &str) -> (r: bool)
    ensures
        r == is_hcl_ident(s@),
{
    hcl_edit::Ident::try_new(s).is_ok()
}

/// Relies on `hcl_edit::structure::Body::push` and `Attribute::new`: a new
/// attribute at the end, with the default decoration (the body has no
/// attribute of that key, so `push` keeps it).
#[verifier::external_body]
pub(crate) fn push_attr(
    b: &mut hcl_edit::structure::Body,
    key: &str,
    value: hcl_edit::expr::Expression,
)
    requires
        is_hcl_ident(key@),
        forall|i: int|
            0 <= i < edit_items(*old(b)).len() ==> !names_attr(#[trigger] edit_items(*old(b))[i], key@),
    ensures
        edit_items(*final(b)).len() == edit_items(*old(b)).len() + 1,
        edit_items(*final(b)).drop_last() == edit_items(*old(b)),
        edit_items(*final(b)).last() is Attr,
        edit_items(*final(b)).last()->Attr_key == key@,
        edit_items(*final(b)).last()->Attr_value == value,
{
    b.push(hcl_edit::structure::Attribute::new(hcl_edit::Ident::new(key), value));
}

/// Relies on `hcl_edit::structure::Body::push`, `Attribute::new` and
/// `hcl_edit::Decorate::{decor, decorated}`: a new attribute at the end, with
/// the decoration of the attribute at `j` (the body has no attribute of that
/// key, so `push` keeps it).
#[verifier::external_body]
pub(crate) fn push_attr_like(
    b: &mut hcl_edit::structure::Body,
    key: &str,
    value: hcl_edit::expr::Expression,
    j: usize,
)
    requires
        is_hcl_ident(key@),
        j < edit_items(*old(b)).len(),
        edit_items(*old(b))[j as int] is Attr,
        forall|i: int|
            0 <= i < edit_items(*old(b)).len() ==> !names_attr(#[trigger] edit_items(*old(b))[i], key@),
    ensures
        edit_items(*final(b)) == edit_items(*old(b)).push(
            EditItem::Attr { key: key@, value, decor: edit_items(*old(b))[j as int]->Attr_decor },
        ),
{
    let sibling = b.get(j).and_then(|s| s.as_attribute()).unwrap();
    let decor = hcl_edit::Decorate::decor(sibling).clone();
    let attr = hcl_edit::structure::Attribute::new(hcl_edit::Ident::new(key), value);
    b.push(hcl_edit::Decorate::decorated(attr, decor));
}

/// Relies on `hcl_edit::expr::Expression`'s derived `Clone`: an equal copy.
#[verifier::external_body]
pub(crate) fn copy_expr(e: &hcl_edit::expr::Expression) -> (r: hcl_edit::expr::Expression)
    ensures
        r == *e,
{
    e.clone()
}

/// Relies on `hcl_edit::Decorate::{decor, decorated}` for expressions: a copy
/// of `v` with the decoration of `like`.
#[verifier::external_body]
pub(crate) fn copy_with_decor(
    v: &hcl_edit::expr::Expression,
    like: &hcl_edit::expr::Expression,
) -> (r: hcl_edit::expr::Expression)
    ensures
        r == redecorated(*v, *like),
{
    hcl_edit::Decorate::decorated(v.clone(), hcl_edit::Decorate::decor(like).clone())
}

/// Relies on `hcl_edit::expr::Expression::as_object` and `Object::len`: the
/// number of entries of an object, `None` for any other expression.
#[verifier::external_body]
pub(crate) fn entry_count(e: &hcl_edit::expr::Expression) -> (r: Option<usize>)
    ensures
        match r {
            Some(n) => edit_entries(*e) is Some && n == edit_entries(*e)->Some_0.len(),
            None => edit_entries(*e) is None,
        },
{
    e.as_object().map(|o| o.len())
}

/// Relies on `Object::iter`, `ObjectKey::{as_ident, as_expr}` and
/// `Expression::as_str`: the key of the entry at `i`.
#[verifier::external_body]
pub(crate) fn entry_key(e: &hcl_edit::expr::Expression, i: usize) -> (r: KeyHead)
    requires
        edit_entries(*e) is Some,
        i < edit_entries(*e)->Some_0.len(),
    ensures
        key_of(r, edit_entries(*e)->Some_0[i as int].0),
{
    let (k, _) = e.as_object().unwrap().iter().nth(i).unwrap();
    match (k.as_ident(), k.as_expr().and_then(|x| x.as_str())) {
        (Some(id), _) => KeyHead::Ident(id.as_str().to_string()),
        (None, Some(s)) => KeyHead::Str(s.to_string()),
        (None, None) => KeyHead::Other,
    }
}

/// Relies on `Object::iter_mut` and `ObjectValue::expr_mut`: the value of the
/// entry at `i`, to change in place.
#[verifier::external_body]
pub(crate) fn entry_value_mut(e: &mut hcl_edit::expr::Expression, i: usize) -> (r:
    &mut hcl_edit::expr::Expression)
    requires
        edit_entries(*old(e)) is Some,
        i < edit_entries(*old(e))->Some_0.len(),
    ensures
        *r == edit_entries(*old(e))->Some_0[i as int].1,
        edit_entries(*final(e)) == Some(
            edit_entries(*old(e))->Some_0.update(
                i as int,
                (edit_entries(*old(e))->Some_0[i as int].0, *final(r)),
            ),
        ),
{
    e.as_object_mut().unwrap().iter_mut().nth(i).unwrap().1.expr_mut()
}

/// Relies on `Object::iter` and `ObjectValue::expr`: the value of the entry
/// at `i`.
#[verifier::external_body]
pub(crate) fn entry_value(e: &hcl_edit::expr::Expression, i: usize) -> (r:
    &hcl_edit::expr::Expression)
    requires
        edit_entries(*e) is Some,
        i < edit_entries(*e)->Some_0.len(),
    ensures
        *r == edit_entries(*e)->Some_0[i as int].1,
{
    e.as_object().unwrap().iter().nth(i).unwrap().1.expr()
}

/// Relies on `Object::iter` and `ObjectValue::terminator`: whether the entry
/// at `i` ends without a comma or a line break.
#[verifier::external_body]
pub(crate) fn entry_unterminated(e: &hcl_edit::expr::Expression, i: usize) -> bool
    requires
        edit_entries(*e) is Some,
        i < edit_entries(*e)->Some_0.len(),
{
    let (_, v) = e.as_object().unwrap().iter().nth(i).unwrap();
    v.terminator() == hcl_edit::expr::ObjectValueTerminator::None
}

/// Relies on `Object::iter_mut` and `ObjectValue::set_terminator`: the entry at
/// `i` ends with a comma; keys and values stay as they are.
#[verifier::external_body]
pub(crate) fn terminate_entry(e: &mut hcl_edit::expr::Expression, i: usize)
    requires
        edit_entries(*old(e)) is Some,
        i < edit_entries(*old(e))->Some_0.len(),
    ensures
        edit_entries(*final(e)) == edit_entries(*old(e)),
{
    let (_, v) = e.as_object_mut().unwrap().iter_mut().nth(i).unwrap();
    v.set_terminator(hcl_edit::expr::ObjectValueTerminator::Comma);
}

/// Relies on `Object::insert`: a new entry with an identifier key at the end
/// (the object has no key of that name, so `insert` adds it last).
#[verifier::external_body]
pub(crate) fn push_ident_entry(
    e: &mut hcl_edit::expr::Expression,
    name: &str,
    value: hcl_edit::expr::Expression,
)
    requires
        is_hcl_ident(name@),
        edit_entries(*old(e)) is Some,
        forall|i: int|
            0 <= i < edit_entries(*old(e))->Some_0.len() ==> (#[trigger] edit_entries(
                *old(e),
            )->Some_0[i]).0 != EntryKey::Ident(name@),
    ensures
        edit_entries(*final(e)) == Some(
            edit_entries(*old(e))->Some_0.push((EntryKey::Ident(name@), value)),
        ),
{
    let key = hcl_edit::expr::ObjectKey::from(hcl_edit::Ident::new(name));
    e.as_object_mut().unwrap().insert(key, value);
}

/// Relies on `Object::insert`: a new entry with a string key at the end (the
/// object has no key of that name, so `insert` adds it last).
#[verifier::external_body]
pub(crate) fn push_string_entry(
    e: &mut hcl_edit::expr::Expression,
    name: &str,
    value: hcl_edit::expr::Expression,
)
    requires
        edit_entries(*old(e)) is Some,
        forall|i: int|
            0 <= i < edit_entries(*old(e))->Some_0.len() ==> (#[trigger] edit_entries(
                *old(e),
            )->Some_0[i]).0 != EntryKey::Str(name@),
    ensures
        edit_entries(*final(e)) == Some(
            edit_entries(*old(e))->Some_0.push((EntryKey::Str(name@), value)),
        ),
{
    let key = hcl_edit::expr::ObjectKey::from(hcl_edit::expr::Expression::from(name));
    e.as_object_mut().unwrap().insert(key, value);
}

/// Relies on `Object::remove`: the entry at `i` is taken out (an object's
/// keys are distinct, so removing by the key of entry `i` removes just that
/// entry), the others keep their order.
#[verifier::external_body]
pub(crate) fn remove_entry(e: &mut hcl_edit::expr::Expression, i: usize)
    requires
        edit_entries(*old(e)) is Some,
        i < edit_entries(*old(e))->Some_0.len(),
    ensures
        edit_entries(*final(e)) == Some(edit_entries(*old(e))->Some_0.remove(i as int)),
{
    let o = e.as_object_mut().unwrap();
    let k = o.iter().nth(i).unwrap().0.clone();
    o.remove(&k);
}

} // verus!
