//! Names of items and worlds, as the metadata sheets give them.

use crate::text::{push_signed_decimal, signed_decimal};
use vstd::prelude::*;
use vstd::string::StringExecFns;

verus! {

/// One row of a sheet, reduced to the fields that were asked for.
#[derive(Debug, Clone)]
pub struct Row<T> {
    pub fields: T,
}

/// An item, by what its sheet says of it.
#[derive(Debug, Clone)]
pub struct Item {
    pub name: String,
}

/// A world, by what its sheet says of it.
#[derive(Debug, Clone)]
pub struct World {
    pub name: String,
}

/// The address that answers with the English name of one row of a sheet,
/// under the address `base` of the sheets.
pub open spec fn sheet_url(base: Seq<char>, sheet: Seq<char>, id: int) -> Seq<char> {
    base + sheet + "/"@ + signed_decimal(id) + "?language=en&fields=Name"@
}

fn name_url(base: &str, sheet: &str, id: i32) -> (r: String)
    ensures
        r@ == sheet_url(base@, sheet@, id as int),
{
    let mut out = String::from_str(base);
    out.append(sheet);
    out.append("/");
    push_signed_decimal(&mut out, id as i64);
    out.append("?language=en&fields=Name");
    out
}

/// The address that answers with the name of an item.
pub fn item_url(base: &str, id: i32) -> (r: String)
    ensures
        r@ == sheet_url(base@, "Item"@, id as int),
{
    name_url(base, "Item", id)
}

/// The address that answers with the name of a world.
pub fn world_url(base: &str, id: i32) -> (r: String)
    ensures
        r@ == sheet_url(base@, "World"@, id as int),
{
    name_url(base, "World", id)
}

impl<T> Row<T> {
    /// The fields of the row.
    pub fn into_fields(self) -> (r: T)
        ensures
            r == self.fields,
    {
        self.fields
    }
}

} // verus!
