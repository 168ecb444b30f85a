//! First-match lookups over an `hcl` body: where a query gives every match,
//! a lookup follows only the first one at each step.
use vstd::prelude::*;

use crate::parser::string_views;
use crate::read_tree::{
    block_body, object_entry, read_block_body, read_entry, read_item, read_items, read_len,
    KeyName, KeyRef, ReadEntry, ReadItem,
};

verus! {

/// What a lookup found: a value, or the body of a block.
pub enum LookupResult {
    Expr(hcl::Expression),
    Body(hcl::Body),
}

/// The value of the first attribute among `items` whose key is `name`.
pub open spec fn first_attr(name: Seq<char>, items: Seq<ReadItem>) -> Option<hcl::Expression>
    decreases items.len(),
{
    if items.len() == 0 {
        None
    } else {
        match items[0] {
            ReadItem::Attr { key, expr } if key == name => Some(expr),
            _ => first_attr(name, items.subrange(1, items.len() as int)),
        }
    }
}

/// The body of the first block among `items` whose identifier is `name`.
pub open spec fn first_block_body(name: Seq<char>, items: Seq<ReadItem>) -> Option<hcl::Body>
    decreases items.len(),
{
    if items.len() == 0 {
        None
    } else {
        match items[0] {
            ReadItem::Block { ident, block, .. } if ident == name => Some(read_block_body(block)),
            _ => first_block_body(name, items.subrange(1, items.len() as int)),
        }
    }
}

/// The first attribute of a name in a body, or else the first block's body.
pub open spec fn body_lookup_spec(name: Seq<char>, b: hcl::Body) -> Option<LookupResult> {
    match first_attr(name, read_items(b)) {
        Some(e) => Some(LookupResult::Expr(e)),
        None => match first_block_body(name, read_items(b)) {
            Some(body) => Some(LookupResult::Body(body)),
            None => None,
        },
    }
}

/// One step of a lookup from what the previous steps found: in an object, the
/// value under the identifier key `name`; in a body, as in `body_lookup_spec`.
pub open spec fn result_lookup_spec(name: Seq<char>, r: Option<LookupResult>) -> Option<
    LookupResult,
> {
    match r {
        None => None,
        Some(LookupResult::Expr(e)) => match read_entry(e, KeyName::Ident(name)) {
            Some(v) => Some(LookupResult::Expr(v)),
            None => None,
        },
        Some(LookupResult::Body(b)) => body_lookup_spec(name, b),
    }
}

/// What a lookup of the names `names` finds in a body.
pub open spec fn lookup_spec(names: Seq<Seq<char>>, b: hcl::Body) -> Option<LookupResult>
    decreases names.len(),
{
    if names.len() == 0 {
        None
    } else if names.len() == 1 {
        body_lookup_spec(names[0], b)
    } else {
        result_lookup_spec(names.last(), lookup_spec(names.drop_last(), b))
    }
}

fn attr_lookup(name: &String, body: &hcl::Body) -> (r: Option<hcl::Expression>)
    ensures
        r == first_attr(name@, read_items(*body)),
{
    let ghost items = read_items(*body);
    let n = read_len(body);
    let mut i: usize = 0;
    assert(items.subrange(0, n as int) =~= items);
    while i < n
        invariant
            items == read_items(*body),
            n == items.len(),
            i <= n,
            first_attr(name@, items) == first_attr(name@, items.subrange(i as int, n as int)),
        decreases n - i,
    {
        let ghost rest = items.subrange(i as int, n as int);
        assert(rest.subrange(1, rest.len() as int) =~= items.subrange(i + 1, n as int));
        match read_item(body, i) {
            ReadEntry::Attr { key, expr } => {
                if key == *name {
                    return Some(expr);
                }
            },
            ReadEntry::Block { .. } => {},
        }
        i += 1;
    }
    None
}

fn block_lookup(name: &String, body: &hcl::Body) -> (r: Option<hcl::Body>)
    ensures
        r == first_block_body(name@, read_items(*body)),
{
    let ghost items = read_items(*body);
    let n = read_len(body);
    let mut i: usize = 0;
    assert(items.subrange(0, n as int) =~= items);
    while i < n
        invariant
            items == read_items(*body),
            n == items.len(),
            i <= n,
            first_block_body(name@, items) == first_block_body(
                name@,
                items.subrange(i as int, n as int),
            ),
        decreases n - i,
    {
        let ghost rest = items.subrange(i as int, n as int);
        assert(rest.subrange(1, rest.len() as int) =~= items.subrange(i + 1, n as int));
        match read_item(body, i) {
            ReadEntry::Block { ident, block, .. } => {
                if ident == *name {
                    return Some(block_body(&block));
                }
            },
            ReadEntry::Attr { .. } => {},
        }
        i += 1;
    }
    None
}

fn body_lookup(name: &String, body: &hcl::Body) -> (r: Option<LookupResult>)
    ensures
        r == body_lookup_spec(name@, *body),
{
    if let Some(value) = attr_lookup(name, body) {
        return Some(LookupResult::Expr(value));
    }
    match block_lookup(name, body) {
        Some(b) => Some(LookupResult::Body(b)),
        None => None,
    }
}

fn result_lookup(name: &String, found: Option<LookupResult>) -> (r: Option<LookupResult>)
    ensures
        r == result_lookup_spec(name@, found),
{
    match found {
        None => None,
        Some(LookupResult::Expr(e)) => match object_entry(&e, &KeyRef::Ident(name.clone())) {
            Some(v) => Some(LookupResult::Expr(v)),
            None => None,
        },
        Some(LookupResult::Body(b)) => body_lookup(name, &b),
    }
}

/// Follows the names `fields` from `body`, taking the first match at each
/// step: an attribute before a block, and in an object the identifier key.
/// The names are used up.
pub fn lookup_field(fields: &mut Vec<String>, body: &hcl::Body) -> (r: Option<LookupResult>)
    requires
        old(fields)@.len() > 0,
    ensures
        r == lookup_spec(string_views(old(fields)@), *body),
        final(fields)@.len() == 0,
{
    let ghost names = string_views(fields@);
    let mut found = body_lookup(&fields[0], body);
    let mut k: usize = 1;
    while k < fields.len()
        invariant
            names == string_views(fields@),
            1 <= k <= fields@.len(),
            found == lookup_spec(names.take(k as int), *body),
        decreases fields@.len() - k,
    {
        assert(names.take(k + 1).drop_last() =~= names.take(k as int));
        found = result_lookup(&fields[k], found);
        k += 1;
    }
    assert(names.take(fields@.len() as int) =~= names);
    fields.clear();
    found
}

} // verus!
