//! Queries over an `hcl` body: every part of the document that a filter
//! reaches.
//!
//! The first segment is matched against the root body; each further segment
//! is matched against every result so far, and the results of all of them,
//! in order, are the new results.
use vstd::prelude::*;

use crate::matching::{labels_match, labels_satisfied};
use crate::parser::{field_views, Field, FieldView};
use crate::read_tree::{
    block_body, block_text, expr_text, format_block, format_expr, object_entry, read_block_body,
    read_entry, read_item, read_items, read_len, KeyName, KeyRef, ReadEntry, ReadItem,
};

verus! {

/// A part of an HCL document that matched a filter.
pub enum QueryResult {
    /// an expression (an attribute's value, or a value inside an object)
    Expr(hcl::Expression),
    /// a block
    Block(hcl::Block),
}

/// A query result could not be rendered as text. Rendering does not fail
/// (see `QueryResult::to_string`); the type keeps the `Result` that callers
/// handle.
#[derive(Debug)]
pub struct FormatError {}

impl QueryResult {
    /// The canonical HCL text of the result; rendering never fails.
    pub fn to_string(&self) -> (r: Result<String, FormatError>)
        ensures
            r is Ok,
            r matches Ok(s) ==> s@ == match self {
                QueryResult::Expr(e) => expr_text(*e),
                QueryResult::Block(b) => block_text(*b),
            },
    {
        let s = match self {
            QueryResult::Expr(e) => format_expr(e),
            QueryResult::Block(b) => format_block(b),
        };
        match s {
            Ok(s) => Ok(s),
            Err(_) => Err(FormatError {  }),
        }
    }
}

/// The values of the attributes among `items` whose key is `name`, in order.
pub open spec fn attr_hits(name: Seq<char>, items: Seq<ReadItem>) -> Seq<QueryResult>
    decreases items.len(),
{
    if items.len() == 0 {
        Seq::empty()
    } else {
        let rest = attr_hits(name, items.drop_last());
        match items.last() {
            ReadItem::Attr { key, expr } => if key == name {
                rest.push(QueryResult::Expr(expr))
            } else {
                rest
            },
            ReadItem::Block { .. } => rest,
        }
    }
}

/// The blocks among `items` that a segment matches, in order.
pub open spec fn block_hits(f: FieldView, items: Seq<ReadItem>) -> Seq<QueryResult>
    decreases items.len(),
{
    if items.len() == 0 {
        Seq::empty()
    } else {
        let rest = block_hits(f, items.drop_last());
        match items.last() {
            ReadItem::Block { ident, labels, block } => if ident == f.name && labels_match(
                f.labels,
                labels,
            ) {
                rest.push(QueryResult::Block(block))
            } else {
                rest
            },
            ReadItem::Attr { .. } => rest,
        }
    }
}

/// What one segment matches in a body: the matching attributes' values, then
/// the matching blocks.
pub open spec fn body_hits(f: FieldView, b: hcl::Body) -> Seq<QueryResult> {
    attr_hits(f.name, read_items(b)) + block_hits(f, read_items(b))
}

pub open spec fn found(o: Option<hcl::Expression>) -> Seq<QueryResult> {
    match o {
        Some(e) => seq![QueryResult::Expr(e)],
        None => Seq::empty(),
    }
}

/// What one segment matches from one earlier result: in an object, the value
/// under the identifier key and then the one under the string key; in a
/// block, what it matches in the block's body; in any other expression,
/// nothing.
pub open spec fn result_hits(f: FieldView, r: QueryResult) -> Seq<QueryResult> {
    match r {
        QueryResult::Expr(e) => found(read_entry(e, KeyName::Ident(f.name))) + found(
            read_entry(e, KeyName::Str(f.name)),
        ),
        QueryResult::Block(b) => body_hits(f, read_block_body(b)),
    }
}

/// What one segment matches from each of `rs`, concatenated in order.
pub open spec fn results_hits(f: FieldView, rs: Seq<QueryResult>) -> Seq<QueryResult>
    decreases rs.len(),
{
    if rs.len() == 0 {
        Seq::empty()
    } else {
        results_hits(f, rs.drop_last()) + result_hits(f, rs.last())
    }
}

/// The results of a whole filter on a body.
pub open spec fn query_spec(fields: Seq<FieldView>, b: hcl::Body) -> Seq<QueryResult>
    decreases fields.len(),
{
    if fields.len() == 0 {
        Seq::empty()
    } else if fields.len() == 1 {
        body_hits(fields[0], b)
    } else {
        results_hits(fields.last(), query_spec(fields.drop_last(), b))
    }
}

/// The values of the attributes of `body` whose key is `name`.
fn attr_query(name: &String, body: &hcl::Body) -> (r: Vec<QueryResult>)
    ensures
        r@ == attr_hits(name@, read_items(*body)),
{
    let ghost items = read_items(*body);
    let n = read_len(body);
    let mut matches: Vec<QueryResult> = Vec::new();
    let mut i: usize = 0;
    while i < n
        invariant
            items == read_items(*body),
            n == items.len(),
            i <= n,
            matches@ == attr_hits(name@, items.take(i as int)),
        decreases n - i,
    {
        assert(items.take(i + 1).drop_last() =~= items.take(i as int));
        match read_item(body, i) {
            ReadEntry::Attr { key, expr } => {
                if key == *name {
                    matches.push(QueryResult::Expr(expr));
                }
            },
            ReadEntry::Block { .. } => {},
        }
        i += 1;
    }
    assert(items.take(n as int) =~= items);
    matches
}

/// The blocks of `body` that `field` matches.
fn block_query(field: &Field, body: &hcl::Body) -> (r: Vec<QueryResult>)
    ensures
        r@ == block_hits(field@, read_items(*body)),
{
    let ghost items = read_items(*body);
    let n = read_len(body);
    let mut matches: Vec<QueryResult> = Vec::new();
    let mut i: usize = 0;
    while i < n
        invariant
            items == read_items(*body),
            n == items.len(),
            i <= n,
            matches@ == block_hits(field@, items.take(i as int)),
        decreases n - i,
    {
        assert(items.take(i + 1).drop_last() =~= items.take(i as int));
        match read_item(body, i) {
            ReadEntry::Block { ident, labels, block } => {
                if ident == field.name && labels_satisfied(&field.labels, &labels) {
                    matches.push(QueryResult::Block(block));
                }
            },
            ReadEntry::Attr { .. } => {},
        }
        i += 1;
    }
    assert(items.take(n as int) =~= items);
    matches
}

/// What `field` matches in `body`.
fn body_query(field: &Field, body: &hcl::Body) -> (r: Vec<QueryResult>)
    ensures
        r@ == body_hits(field@, *body),
{
    let mut matches = attr_query(&field.name, body);
    let mut blocks = block_query(field, body);
    matches.append(&mut blocks);
    matches
}

/// What `field` matches from each of `results`.
fn result_query(field: &Field, results: Vec<QueryResult>) -> (r: Vec<QueryResult>)
    ensures
        r@ == results_hits(field@, results@),
{
    let mut matches: Vec<QueryResult> = Vec::new();
    let mut i: usize = 0;
    while i < results.len()
        invariant
            i <= results@.len(),
            matches@ == results_hits(field@, results@.take(i as int)),
        decreases results@.len() - i,
    {
        assert(results@.take(i + 1).drop_last() =~= results@.take(i as int));
        let ghost before = matches@;
        match &results[i] {
            QueryResult::Expr(e) => {
                if let Some(v) = object_entry(e, &KeyRef::Ident(field.name.clone())) {
                    matches.push(QueryResult::Expr(v));
                }
                if let Some(v) = object_entry(e, &KeyRef::Str(field.name.clone())) {
                    matches.push(QueryResult::Expr(v));
                }
                assert(matches@ =~= before + result_hits(field@, results@[i as int]));
            },
            QueryResult::Block(b) => {
                let inner = block_body(b);
                let mut found = body_query(field, &inner);
                matches.append(&mut found);
            },
        }
        i += 1;
    }
    assert(results@.take(results@.len() as int) =~= results@);
    matches
}

/// Every part of `body` that the filter `fields` reaches, in order: a result
/// list with several entries means that several parts matched. The segments
/// are used up.
pub fn query(fields: &mut Vec<Field>, body: &hcl::Body) -> (r: Vec<QueryResult>)
    requires
        old(fields)@.len() > 0,
    ensures
        r@ == query_spec(field_views(old(fields)@), *body),
        final(fields)@.len() == 0,
{
    let ghost fv = field_views(fields@);
    let mut results = body_query(&fields[0], body);
    assert(fv.take(1).drop_last() =~= Seq::<FieldView>::empty());
    let mut k: usize = 1;
    while k < fields.len()
        invariant
            fv == field_views(fields@),
            1 <= k <= fields@.len(),
            results@ == query_spec(fv.take(k as int), *body),
        decreases fields@.len() - k,
    {
        assert(fv.take(k + 1).drop_last() =~= fv.take(k as int));
        results = result_query(&fields[k], results);
        k += 1;
    }
    assert(fv.take(fields@.len() as int) =~= fv);
    fields.clear();
    results
}

} // verus!
