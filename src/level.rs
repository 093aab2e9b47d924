//! Price levels as the feed sends them, and how they are read.
use vstd::prelude::*;

use crate::decimal::{decimal_units, parse_units};

verus! {

/// A price level as it arrives from the feed: `[price, volume, timestamp]`, sometimes with
/// a trailing flag. `fields` is `None` where the value is not an array; otherwise it holds
/// one entry per element, `Some(text)` where the element is a string.
pub struct WireLevel {
    pub fields: Option<Vec<Option<String>>>,
}

/// A price level read from the feed. Amounts are in units of 10^-8.
#[derive(Clone, Copy, Debug, PartialEq, Eq, Structural)]
pub struct PriceLevel {
    pub price: u64,
    pub volume: u64,
    pub timestamp: Option<u64>,
}

/// A full-depth message of the feed: the levels that replace the whole book.
pub struct BookSnapshot {
    pub bids: Vec<WireLevel>,
    pub asks: Vec<WireLevel>,
}

/// An incremental message of the feed: levels to upsert (or, with volume zero, remove).
pub struct BookDelta {
    pub bids: Vec<WireLevel>,
    pub asks: Vec<WireLevel>,
}

/// Why a book update was refused.
#[derive(Clone, Copy, Debug, PartialEq, Eq, Structural)]
pub enum BookError {
    /// A price level's price or volume is not a non-negative decimal number.
    MalformedLevel,
}

impl WireLevel {
    /// Builds a level from its elements, each `Some(text)` for a string element.
    pub fn from_fields(fields: Vec<Option<String>>) -> (r: WireLevel)
        ensures
            r.fields == Some(fields),
    {
        WireLevel { fields: Some(fields) }
    }

    /// Builds a level from three strings: price, volume and timestamp.
    pub fn from_strs(price: &str, volume: &str, timestamp: &str) -> (r: WireLevel)
        ensures
            r.text_at(0) == Some(price@),
            r.text_at(1) == Some(volume@),
            r.text_at(2) == Some(timestamp@),
            r.field_count() == Some(3nat),
    {
        let mut fields: Vec<Option<String>> = Vec::new();
        fields.push(Some(price.to_owned()));
        fields.push(Some(volume.to_owned()));
        fields.push(Some(timestamp.to_owned()));
        WireLevel { fields: Some(fields) }
    }

    /// How many elements the level has, `None` where it is not an array.
    pub open spec fn field_count(&self) -> Option<nat> {
        match self.fields {
            Some(v) => Some(v@.len()),
            None => None,
        }
    }

    /// The text of element `i`, where the level is an array and that element is a string.
    pub open spec fn text_at(&self, i: int) -> Option<Seq<char>> {
        match self.fields {
            Some(v) => if 0 <= i < v@.len() {
                match v@[i] {
                    Some(t) => Some(t@),
                    None => None,
                }
            } else {
                None
            },
            None => None,
        }
    }
}

/// The amount that element `i` spells, where it is a string of decimal text.
pub open spec fn amount_at(w: WireLevel, i: int) -> Option<u64> {
    match w.text_at(i) {
        Some(t) => decimal_units(t),
        None => None,
    }
}

/// The timestamp of a level: absent where the third element is empty or not a string;
/// `Some(None)` there, `Some(Some(units))` for decimal text, `None` for other text.
pub open spec fn timestamp_of(w: WireLevel) -> Option<Option<u64>> {
    match w.text_at(2) {
        Some(t) => if t.len() == 0 {
            Some(None)
        } else {
            match decimal_units(t) {
                Some(u) => Some(Some(u)),
                None => None,
            }
        },
        None => Some(None),
    }
}

/// What a wire level reads as: `None` where it is malformed, that is where it is not an
/// array of at least three elements, its price or volume is not decimal text, or its
/// timestamp is non-empty text that is not decimal.
pub open spec fn parsed_level(w: WireLevel) -> Option<PriceLevel> {
    match w.field_count() {
        Some(n) => if n >= 3 && amount_at(w, 0) is Some && amount_at(w, 1) is Some && timestamp_of(
            w,
        ) is Some {
            Some(
                PriceLevel {
                    price: amount_at(w, 0)->0,
                    volume: amount_at(w, 1)->0,
                    timestamp: timestamp_of(w)->0,
                },
            )
        } else {
            None
        },
        None => None,
    }
}

/// Whether every level of `ws` reads.
pub open spec fn all_parse(ws: Seq<WireLevel>) -> bool {
    forall|i: int| 0 <= i < ws.len() ==> (#[trigger] parsed_level(ws[i])) is Some
}

/// What the levels of `ws` read as, in order (meaningful where `all_parse(ws)`).
pub open spec fn parsed_levels(ws: Seq<WireLevel>) -> Seq<PriceLevel> {
    ws.map_values(|w: WireLevel| parsed_level(w)->0)
}

fn amount_of(fields: &Vec<Option<String>>, i: usize) -> (r: Option<u64>)
    requires
        i < fields@.len(),
    ensures
        r == (match fields@[i as int] {
            Some(t) => decimal_units(t@),
            None => None,
        }),
{
    match &fields[i] {
        Some(t) => parse_units(t.as_str()),
        None => None,
    }
}

/// Reads one level of the feed.
pub fn parse_price_level(level: &WireLevel) -> (r: Result<PriceLevel, BookError>)
    ensures
        match r {
            Ok(l) => parsed_level(*level) == Some(l),
            Err(e) => parsed_level(*level) is None && e == BookError::MalformedLevel,
        },
{
    let fields = match &level.fields {
        Some(f) => f,
        None => {
            return Err(BookError::MalformedLevel);
        },
    };
    if fields.len() < 3 {
        return Err(BookError::MalformedLevel);
    }
    let price = match amount_of(fields, 0) {
        Some(p) => p,
        None => {
            return Err(BookError::MalformedLevel);
        },
    };
    let volume = match amount_of(fields, 1) {
        Some(v) => v,
        None => {
            return Err(BookError::MalformedLevel);
        },
    };
    let timestamp = match &fields[2] {
        Some(t) => if t.as_str().is_empty() {
            None
        } else {
            match parse_units(t.as_str()) {
                Some(u) => Some(u),
                None => {
                    return Err(BookError::MalformedLevel);
                },
            }
        },
        None => None,
    };
    Ok(PriceLevel { price, volume, timestamp })
}

/// Reads every level of one side of a feed message, or fails on the first malformed one.
pub fn parse_price_levels(levels: &Vec<WireLevel>) -> (r: Result<Vec<PriceLevel>, BookError>)
    ensures
        match r {
            Ok(v) => all_parse(levels@) && v@ == parsed_levels(levels@),
            Err(e) => !all_parse(levels@) && e == BookError::MalformedLevel,
        },
{
    let mut out: Vec<PriceLevel> = Vec::new();
    let mut i: usize = 0;
    while i < levels.len()
        invariant
            i <= levels@.len(),
            out@.len() == i,
            forall|k: int| 0 <= k < i ==> (#[trigger] parsed_level(levels@[k])) is Some,
            forall|k: int| 0 <= k < i ==> out@[k] == parsed_level(levels@[k])->0,
        decreases levels@.len() - i,
    {
        match parse_price_level(&levels[i]) {
            Ok(l) => {
                out.push(l);
            },
            Err(e) => {
                return Err(e);
            },
        }
        i = i + 1;
    }
    assert(out@ =~= parsed_levels(levels@));
    Ok(out)
}

} // verus!
