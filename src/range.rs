use headers::Header;
use std::ops::Bound;
use vstd::prelude::*;

verus! {

/// The first range that the `Range` header text `h` asks of a body of
/// `full_len` bytes, with its open bounds as `None`; `None` when the text is not
/// a valid `Range` header or asks for nothing satisfiable.
pub uninterp spec fn first_range_of(h: Seq<char>, full_len: u64) -> Option<(Option<u64>, Option<u64>)>;

/// Relies on `headers::Range` (decoded from the text through
/// `http::HeaderValue::from_str` and `Header::decode`) and its
/// `satisfiable_ranges`: the first range it yields, each bound as `Some` when
/// included and `None` when open. A range with an open start is a suffix, which
/// it turns into an included start and an open end.
#[verifier::external_body]
fn first_satisfiable(h: &str, full_len: u64) -> (r: Option<(Option<u64>, Option<u64>)>)
    ensures
        r == first_range_of(h@, full_len),
        r matches Some((None, e)) ==> e is None,
{
    let v = http::HeaderValue::from_str(h).ok()?;
    let range = headers::Range::decode(&mut std::iter::once(&v)).ok()?;
    let (s, e) = range.satisfiable_ranges(full_len).next()?;
    let s = if let Bound::Included(x) = s { Some(x) } else { None };
    let e = if let Bound::Included(x) = e { Some(x) } else { None };
    Some((s, e))
}

/// The first requested range of an optional `Range` header text.
pub open spec fn first_of(range: Option<&str>, full_len: u64) -> Option<(Option<u64>, Option<u64>)> {
    match range {
        Some(t) => first_range_of(t@, full_len),
        None => None,
    }
}

/// The inclusive byte range served from a body of `full_len` bytes, given
/// the first requested range (if any) with its open bounds as `None`: the
/// start defaults to 0 and the end to the last byte; there is none when the
/// end passes the last byte or the start passes the end.
pub open spec fn resolved(first: Option<(Option<u64>, Option<u64>)>, full_len: u64) -> Option<
    (u64, u64),
> {
    let last = full_len - 1;
    let (s, e) = match first {
        Some((s, e)) => (
            match s {
                Some(x) => x as int,
                None => 0int,
            },
            match e {
                Some(x) => x as int,
                None => last,
            },
        ),
        None => (0int, last),
    };
    if e > last || s > e {
        None
    } else {
        Some((s as u64, e as u64))
    }
}

/// Resolves the first requested range against a body of `full_len` bytes.
pub fn resolve_bounds(first: Option<(Option<u64>, Option<u64>)>, full_len: u64) -> (r: Option<
    (u64, u64),
>)
    ensures
        r == resolved(first, full_len),
        r matches Some((s, e)) ==> s <= e < full_len,
{
    if full_len == 0 {
        return None;
    }
    let last = full_len - 1;
    let (start, end) = match first {
        Some((s, e)) => (
            match s {
                Some(x) => x,
                None => 0,
            },
            match e {
                Some(x) => x,
                None => last,
            },
        ),
        None => (0, last),
    };
    if end > last || start > end {
        None
    } else {
        Some((start, end))
    }
}

/// The first range that an optional `Range` header text asks of a body of
/// `full_len` bytes, with its open bounds as `None`.
pub fn first_range(range: Option<&str>, full_len: u64) -> (r: Option<(Option<u64>, Option<u64>)>)
    ensures
        r == first_of(range, full_len),
{
    match range {
        Some(h) => first_satisfiable(h, full_len),
        None => None,
    }
}

/// Resolves an optional `Range` header text against a body of `full_len`
/// bytes.
pub fn resolve_range(range: Option<&str>, full_len: u64) -> (r: Option<(u64, u64)>)
    ensures
        r == resolved(first_of(range, full_len), full_len),
        r matches Some((s, e)) ==> s <= e < full_len,
{
    resolve_bounds(first_range(range, full_len), full_len)
}

} // verus!
