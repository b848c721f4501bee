//! What travels over the market feed.

use crate::errors::Failure;
use vstd::prelude::*;

verus! {

/// The control message that asks the feed for one channel.
#[derive(Debug, Clone)]
pub struct SubscribeEvent<'a> {
    pub event: &'a str,
    pub channel: &'a str,
}

/// One market offer.
#[derive(Debug, Clone, Copy, PartialEq, Eq, Structural)]
pub struct Listing {
    pub unit_price: i32,
    pub quantity: i32,
    pub hq: bool,
}

/// The listings that one inbound frame adds for an item on a world, in wire
/// order.
#[derive(Debug, Clone)]
pub struct ListingsAddEvent {
    pub item_id: i32,
    pub world_id: i32,
    pub listings: Vec<Listing>,
}

/// The fields of one listing as a frame holds them: each with its value, or
/// with none where the frame has no such field.
#[derive(Debug, Clone, Copy, PartialEq, Eq, Structural)]
pub struct ListingFields {
    pub price_per_unit: Option<i64>,
    pub quantity: Option<i64>,
    pub hq: Option<bool>,
}

/// How many listings an event holds at most: more do not fit into one frame,
/// and the count of the listings of an event is held in 32 bits.
pub const MAX_LISTINGS: usize = 0xffff_ffff;

/// The fields of one frame as it holds them: each with its value, or with
/// none where the frame has no such field.
#[derive(Debug)]
pub struct EventFields {
    pub item: Option<i64>,
    pub world: Option<i64>,
    pub listings: Option<Vec<ListingFields>>,
}

/// The number as an identifier, a price or a quantity, where there is one
/// and it is in their range.
pub open spec fn in_range(field: Option<i64>) -> Option<i32> {
    match field {
        Some(value) => if i32::MIN <= value <= i32::MAX {
            Some(value as i32)
        } else {
            None
        },
        None => None,
    }
}

impl ListingFields {
    /// The listing that the fields make, where each field has a value and
    /// the numbers are in range.
    pub open spec fn listing(self) -> Option<Listing> {
        match (in_range(self.price_per_unit), in_range(self.quantity), self.hq) {
            (Some(unit_price), Some(quantity), Some(hq)) => Some(
                Listing { unit_price, quantity, hq },
            ),
            _ => None,
        }
    }

    /// The listing that the fields make, where each field has a value and
    /// the numbers are in range.
    pub fn decode(&self) -> (r: Option<Listing>)
        ensures
            r == self.listing(),
    {
        match (narrow(self.price_per_unit), narrow(self.quantity), self.hq) {
            (Some(unit_price), Some(quantity), Some(hq)) => Some(
                Listing { unit_price, quantity, hq },
            ),
            _ => None,
        }
    }
}

fn narrow(field: Option<i64>) -> (r: Option<i32>)
    ensures
        r == in_range(field),
{
    match field {
        Some(value) => if -0x8000_0000 <= value && value <= 0x7fff_ffff {
            Some(value as i32)
        } else {
            None
        },
        None => None,
    }
}

/// The listings that the fields make, in their order, where every one of
/// them makes a listing.
pub open spec fn listings_of(fields: Seq<ListingFields>) -> Option<Seq<Listing>>
    decreases fields.len(),
{
    if fields.len() == 0 {
        Some(Seq::empty())
    } else {
        match (listings_of(fields.drop_last()), fields.last().listing()) {
            (Some(listings), Some(listing)) => Some(listings.push(listing)),
            _ => None,
        }
    }
}

/// One listing that cannot be made leaves no listings at all.
proof fn lemma_one_bad_listing_spoils(fields: Seq<ListingFields>, i: int)
    requires
        0 <= i < fields.len(),
        fields[i].listing() is None,
    ensures
        listings_of(fields) is None,
    decreases fields.len(),
{
    if i < fields.len() - 1 {
        lemma_one_bad_listing_spoils(fields.drop_last(), i);
    }
}

impl EventFields {
    /// The event that the fields make, where the item, the world and the
    /// listings are there, every number is in range, and the listings are no
    /// more than `MAX_LISTINGS`.
    pub open spec fn event(self) -> Option<(i32, i32, Seq<Listing>)> {
        match (in_range(self.item), in_range(self.world), self.listings) {
            (Some(item_id), Some(world_id), Some(fields)) => match listings_of(fields@) {
                Some(listings) => if fields@.len() <= MAX_LISTINGS {
                    Some((item_id, world_id, listings))
                } else {
                    None
                },
                None => None,
            },
            _ => None,
        }
    }

    /// The event that the fields make. A field that is missing, or a number
    /// out of range, in the frame or in one of its listings, fails the whole
    /// frame, and so do more listings than `MAX_LISTINGS`.
    pub fn decode(&self) -> (r: Result<ListingsAddEvent, Failure>)
        ensures
            match r {
                Ok(event) => {
                    &&& self.event() == Some((event.item_id, event.world_id, event.listings@))
                    &&& event.listings@.len() <= MAX_LISTINGS
                },
                Err(failure) => failure == Failure::Decode && self.event() is None,
            },
    {
        let item_id = match narrow(self.item) {
            Some(value) => value,
            None => {
                return Err(Failure::Decode);
            },
        };
        let world_id = match narrow(self.world) {
            Some(value) => value,
            None => {
                return Err(Failure::Decode);
            },
        };
        let fields = match &self.listings {
            Some(fields) => fields,
            None => {
                return Err(Failure::Decode);
            },
        };
        if fields.len() > MAX_LISTINGS {
            return Err(Failure::Decode);
        }
        let mut listings: Vec<Listing> = Vec::new();
        let mut i: usize = 0;
        assert(fields@.take(0) =~= Seq::<ListingFields>::empty());
        while i < fields.len()
            invariant
                i <= fields.len() <= MAX_LISTINGS,
                self.listings == Some(*fields),
                listings@.len() == i,
                listings_of(fields@.take(i as int)) == Some(listings@),
            decreases fields.len() - i,
        {
            proof {
                assert(fields@.take(i + 1).drop_last() =~= fields@.take(i as int));
            }
            match fields[i].decode() {
                Some(listing) => {
                    listings.push(listing);
                },
                None => {
                    proof {
                        lemma_one_bad_listing_spoils(fields@, i as int);
                    }
                    return Err(Failure::Decode);
                },
            }
            i += 1;
        }
        assert(fields@.take(i as int) =~= fields@);
        Ok(ListingsAddEvent { item_id, world_id, listings })
    }
}

} // verus!
