//! Read access to an `hcl` body, the tree that queries run over.
//!
//! The body is opaque to the proofs; `read_items` names what it holds, and
//! each accessor below states its result over that name.
use vstd::prelude::*;

use crate::parser::string_views;

verus! {

#[verifier::external_type_specification]
#[verifier::external_body]
pub struct ExReadBody(hcl::Body);

#[verifier::external_type_specification]
#[verifier::external_body]
pub struct ExReadBlock(hcl::Block);

#[verifier::external_type_specification]
#[verifier::external_body]
pub struct ExReadExpression(hcl::Expression);

#[verifier::external_type_specification]
#[verifier::external_body]
pub struct ExReadError(hcl::Error);

/// One structure of a body, as the query engine reads it.
pub ghost enum ReadItem {
    Attr { key: Seq<char>, expr: hcl::Expression },
    Block { ident: Seq<char>, labels: Seq<Seq<char>>, block: hcl::Block },
}

/// How an object key names its entry: as an identifier or as a string.
pub ghost enum KeyName {
    Ident(Seq<char>),
    Str(Seq<char>),
}

/// The structures of a body, in document order.
pub uninterp spec fn read_items(b: hcl::Body) -> Seq<ReadItem>;

/// The body of a block.
pub uninterp spec fn read_block_body(b: hcl::Block) -> hcl::Body;

/// The value bound to a key in an object expression; `None` where the
/// expression is no object or has no such key.
pub uninterp spec fn read_entry(e: hcl::Expression, key: KeyName) -> Option<hcl::Expression>;

/// The canonical text of an expression.
pub uninterp spec fn expr_text(e: hcl::Expression) -> Seq<char>;

/// The canonical text of a block.
pub uninterp spec fn block_text(b: hcl::Block) -> Seq<char>;

/// One structure of a body, copied out of it.
pub enum ReadEntry {
    Attr { key: String, expr: hcl::Expression },
    Block { ident: String, labels: Vec<String>, block: hcl::Block },
}

impl View for ReadEntry {
    type V = ReadItem;

    open spec fn view(&self) -> ReadItem {
        match self {
            ReadEntry::Attr { key, expr } => ReadItem::Attr { key: key@, expr: *expr },
            ReadEntry::Block { ident, labels, block } => ReadItem::Block {
                ident: ident@,
                labels: string_views(labels@),
                block: *block,
            },
        }
    }
}

/// An object key name to look up.
pub enum KeyRef {
    Ident(String),
    Str(String),
}

impl View for KeyRef {
    type V = KeyName;

    open spec fn view(&self) -> KeyName {
        match self {
            KeyRef::Ident(n) => KeyName::Ident(n@),
            KeyRef::Str(n) => KeyName::Str(n@),
        }
    }
}

/// Relies on `hcl::Body`'s public vector of structures: its length.
#[verifier::external_body]
pub(crate) fn read_len(b: &hcl::Body) -> (r: usize)
    ensures
        r == read_items(*b).len(),
{
    b.0.len()
}

/// Relies on `hcl::Attribute::{key, expr}`, `hcl::Block::{identifier, labels}`
/// and `hcl::BlockLabel::as_str`: the structure at `i`, copied out.
#[verifier::external_body]
pub(crate) fn read_item(b: &hcl::Body, i: usize) -> (r: ReadEntry)
    requires
        i < read_items(*b).len(),
    ensures
        r@ == read_items(*b)[i as int],
{
    match &b.0[i] {
        hcl::Structure::Attribute(a) => ReadEntry::Attr {
            key: a.key().to_string(),
            expr: a.expr().clone(),
        },
        hcl::Structure::Block(bl) => ReadEntry::Block {
            ident: bl.identifier().to_string(),
            labels: bl.labels().iter().map(|l| l.as_str().to_string()).collect(),
            block: bl.clone(),
        },
    }
}

/// Relies on `hcl::Block::body`: a copy of the block's body.
#[verifier::external_body]
pub(crate) fn block_body(b: &hcl::Block) -> (r: hcl::Body)
    ensures
        r == read_block_body(*b),
{
    b.body().clone()
}

/// Relies on `hcl::Identifier::new` and the object map's `get`: the value
/// under an identifier key or a string key (an invalid identifier is no key).
#[verifier::external_body]
pub(crate) fn object_entry(e: &hcl::Expression, key: &KeyRef) -> (r: Option<hcl::Expression>)
    ensures
        r == read_entry(*e, key@),
{
    let hcl::Expression::Object(o) = e else { return None };
    let k = match key {
        KeyRef::Ident(n) => match hcl::Identifier::new(n.as_str()) {
            Ok(id) => hcl::ObjectKey::Identifier(id),
            Err(_) => return None,
        },
        KeyRef::Str(n) => hcl::ObjectKey::Expression(hcl::Expression::String(n.clone())),
    };
    o.get(&k).cloned()
}

/// Relies on `hcl::format::to_string`: the canonical text of an expression
/// (its documentation: formatting a value as a string cannot fail).
#[verifier::external_body]
pub(crate) fn format_expr(e: &hcl::Expression) -> (r: Result<String, hcl::Error>)
    ensures
        r is Ok,
        r matches Ok(s) ==> s@ == expr_text(*e),
{
    hcl::format::to_string(e)
}

/// Relies on `hcl::format::to_string`: the canonical text of a block (its
/// documentation: formatting a value as a string cannot fail).
#[verifier::external_body]
pub(crate) fn format_block(b: &hcl::Block) -> (r: Result<String, hcl::Error>)
    ensures
        r is Ok,
        r matches Ok(s) ==> s@ == block_text(*b),
{
    hcl::format::to_string(b)
}

} // verus!
