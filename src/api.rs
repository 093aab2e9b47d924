//! Answers of the query surface: snapshot lookup and history range, with their errors.
use vstd::prelude::*;
use vstd::string::StringExecFns;

use crate::decimal::{all_digits, digits_value, is_digit, lemma_digits_value_prefix};
use crate::snapshot::Snapshot;
use crate::store::SnapshotStore;

verus! {

/// An error of the query surface, with the HTTP status that it maps to.
#[derive(Clone, Debug)]
pub enum ApiError {
    /// Bad request (400): invalid input.
    BadRequest(String),
    /// Not found (404): nothing is stored for the key.
    NotFound(String),
    /// Internal error (500).
    Internal(String),
}

impl ApiError {
    pub fn bad_request(msg: &str) -> (r: ApiError)
        ensures
            r matches ApiError::BadRequest(m) && m@ == msg@,
    {
        ApiError::BadRequest(msg.to_owned())
    }

    pub fn not_found(msg: &str) -> (r: ApiError)
        ensures
            r matches ApiError::NotFound(m) && m@ == msg@,
    {
        ApiError::NotFound(msg.to_owned())
    }

    pub fn internal(msg: &str) -> (r: ApiError)
        ensures
            r matches ApiError::Internal(m) && m@ == msg@,
    {
        ApiError::Internal(msg.to_owned())
    }

    /// The HTTP status code of the error.
    pub fn status(&self) -> (r: u16)
        ensures
            r == match self {
                ApiError::BadRequest(_) => 400u16,
                ApiError::NotFound(_) => 404u16,
                ApiError::Internal(_) => 500u16,
            },
    {
        match self {
            ApiError::BadRequest(_) => 400,
            ApiError::NotFound(_) => 404,
            ApiError::Internal(_) => 500,
        }
    }

    /// The text of the error.
    pub fn message(&self) -> (r: &String)
        ensures
            r == match self {
                ApiError::BadRequest(m) => m,
                ApiError::NotFound(m) => m,
                ApiError::Internal(m) => m,
            },
    {
        match self {
            ApiError::BadRequest(m) => m,
            ApiError::NotFound(m) => m,
            ApiError::Internal(m) => m,
        }
    }
}

/// The digits of integer text, after an optional sign.
pub open spec fn unsigned_part(s: Seq<char>) -> Seq<char> {
    if s.len() > 0 && (s[0] == '-' || s[0] == '+') {
        s.skip(1)
    } else {
        s
    }
}

/// The integer that text denotes: an optional `+` or `-`, then one or more digits, with
/// the value within the range of an `i64`.
pub open spec fn integer_of(s: Seq<char>) -> Option<i64> {
    let d = unsigned_part(s);
    let negative = s.len() > 0 && s[0] == '-';
    let v: int = if negative {
        -digits_value(d)
    } else {
        digits_value(d) as int
    };
    if d.len() > 0 && all_digits(d) && i64::MIN <= v <= i64::MAX {
        Some(v as i64)
    } else {
        None
    }
}

/// Reads a timestamp given as integer text.
pub fn parse_timestamp(text: &str) -> (r: Option<i64>)
    ensures
        r == integer_of(text@),
{
    let ghost t = text@;
    if !text.is_ascii() {
        proof {
            let k = choose|k: int| 0 <= k < t.len() && !('\0' <= #[trigger] t[k] <= '\u{7f}');
            let d = unsigned_part(t);
            if d.len() > 0 && all_digits(d) {
                if d.len() < t.len() {
                    if k > 0 {
                        assert(is_digit(d[k - 1]));
                    }
                } else {
                    assert(is_digit(d[k]));
                }
            }
        }
        return None;
    }
    let bytes = text.as_bytes();
    let n = bytes.len();
    proof {
        vstd::string::is_ascii_spec_bytes(text);
        assert forall|k: int| 0 <= k < t.len() implies (#[trigger] t[k]) as int == bytes@[k] as int by {
            assert(bytes@[k] == t[k] as u8);
        }
    }
    let negative = n > 0 && bytes[0] == 45;
    let start: usize = if n > 0 && (bytes[0] == 45 || bytes[0] == 43) {
        1
    } else {
        0
    };
    let ghost d = unsigned_part(t);
    proof {
        if n > 0 {
            assert(t[0] as int == bytes@[0] as int);
        }
        assert(d =~= t.skip(start as int));
        assert(negative == (t.len() > 0 && t[0] == '-'));
    }
    if start == n {
        return None;
    }
    let mut value: u64 = 0;
    let mut i: usize = start;
    while i < n
        invariant
            t == text@,
            n == t.len(),
            bytes@.len() == n,
            start <= i <= n,
            d =~= t.skip(start as int),
            d == unsigned_part(t),
            forall|k: int| 0 <= k < n ==> (#[trigger] t[k]) as int == bytes@[k] as int,
            all_digits(d.take(i - start)),
            value == digits_value(d.take(i - start)),
        decreases n - i,
    {
        let b = bytes[i];
        proof {
            assert(t[i as int] as int == b as int);
            assert(d[i - start] == t[i as int]);
        }
        if b < 48 || b > 57 {
            proof {
                assert(!is_digit(d[i - start]));
            }
            return None;
        }
        proof {
            assert(d.take(i - start + 1).drop_last() =~= d.take(i - start));
        }
        let next = match value.checked_mul(10) {
            Some(w) => w.checked_add((b - 48) as u64),
            None => None,
        };
        match next {
            Some(w) => {
                value = w;
            },
            None => {
                proof {
                    lemma_digits_value_prefix(d, i - start + 1);
                }
                return None;
            },
        }
        proof {
            let c = i - start + 1;
            assert forall|k: int| 0 <= k < c implies is_digit(#[trigger] d.take(c)[k]) by {
                if k < c - 1 {
                    assert(d.take(c)[k] == d.take(c - 1)[k]);
                }
            }
        }
        i = i + 1;
    }
    proof {
        assert(d.take(n - start) =~= d);
    }
    if negative {
        if value <= 9223372036854775807 {
            Some(-(value as i64))
        } else if value == 9223372036854775808 {
            Some(-9223372036854775807i64 - 1)
        } else {
            None
        }
    } else if value <= 9223372036854775807 {
        Some(value as i64)
    } else {
        None
    }
}

/// The answer to a snapshot query: the snapshot of `ticker` at the timestamp that
/// `timestamp_text` gives; bad request where that text is no integer, not found where
/// nothing is archived there.
pub fn snapshot_at(store: &SnapshotStore, ticker: &str, timestamp_text: &str) -> (r: Result<
    Snapshot,
    ApiError,
>)
    requires
        store.wf(),
    ensures
        match integer_of(timestamp_text@) {
            None => r matches Err(ApiError::BadRequest(_)),
            Some(t) => match r {
                Ok(s) => store@.contains_key((ticker@, t)) && s@ == store@[(ticker@, t)],
                Err(e) => !store@.contains_key((ticker@, t)) && e is NotFound,
            },
        },
{
    let timestamp = match parse_timestamp(timestamp_text) {
        Some(t) => t,
        None => {
            return Err(
                ApiError::bad_request("Invalid timestamp format. Expected a Unix timestamp (integer)"),
            );
        },
    };
    match store.get_snapshot(ticker, timestamp) {
        Some(s) => Ok(s),
        None => {
            let msg = String::from_str("No snapshot found for ticker ").concat(ticker).concat(
                " at timestamp: ",
            ).concat(timestamp_text);
            Err(ApiError::NotFound(msg))
        },
    }
}

/// The answer to a history query: the earliest and latest archived timestamps of
/// `ticker`, not found where none is archived.
pub fn history_range_of(store: &SnapshotStore, ticker: &str) -> (r: Result<(i64, i64), ApiError>)
    requires
        store.wf(),
    ensures
        match r {
            Ok((lo, hi)) => {
                &&& store@.contains_key((ticker@, lo))
                &&& store@.contains_key((ticker@, hi))
                &&& forall|t: i64| #[trigger] store@.contains_key((ticker@, t)) ==> lo <= t && t <= hi
            },
            Err(e) => e is NotFound && forall|t: i64| !(#[trigger] store@.contains_key((ticker@, t))),
        },
{
    match store.get_history_range(ticker) {
        Some(range) => Ok(range),
        None => {
            let msg = String::from_str("No history available for ticker ").concat(ticker).concat(
                ". No snapshots have been stored yet.",
            );
            Err(ApiError::NotFound(msg))
        },
    }
}

} // verus!
