//! Locating the numeric fields of a forecast request body, an object such as
//! `{"outflow": 1000, "range": 3}`. Turning the text of a field into a number
//! is left to the caller.
use vstd::prelude::*;
use crate::bytes::copy_range;
use crate::request::{trim_start, COLON, CR, LF, SP, TAB};

verus! {

pub const QUOTE: u8 = 34;
pub const COMMA: u8 = 44;
pub const CLOSE_BRACE: u8 = 125;

/// `pat` occurs in `s` at position `i`.
pub open spec fn occurs_at(s: Seq<u8>, pat: Seq<u8>, i: int) -> bool {
    0 <= i && i + pat.len() <= s.len() && s.subrange(i, i + pat.len()) == pat
}

/// The first position at or after `i` where `pat` occurs in `s`, or
/// `s.len()` where it does not.
pub open spec fn first_occurrence(s: Seq<u8>, pat: Seq<u8>, i: int) -> int
    decreases s.len() + 1 - i,
{
    if i < 0 || i + pat.len() > s.len() {
        s.len() as int
    } else if occurs_at(s, pat, i) {
        i
    } else {
        first_occurrence(s, pat, i + 1)
    }
}

/// A byte that ends the text of a value.
pub open spec fn is_delimiter(b: u8) -> bool {
    b == COMMA || b == CLOSE_BRACE || b == SP || b == TAB || b == CR || b == LF
}

/// The first delimiter in `v` at or after `i`, or `v.len()`.
pub open spec fn delimiter_from(v: Seq<u8>, i: int) -> int
    decreases v.len() - i,
{
    if i < 0 || i >= v.len() {
        v.len() as int
    } else if is_delimiter(v[i]) {
        i
    } else {
        delimiter_from(v, i + 1)
    }
}

/// `key` between double quotes.
pub open spec fn quoted(key: Seq<u8>) -> Seq<u8> {
    seq![QUOTE] + key + seq![QUOTE]
}

/// The text of the value of field `key` in `body`: after the first quoted
/// occurrence of the key come optional spaces, a colon, optional spaces, and
/// then the value, which runs to the next comma, closing brace or white
/// space. `None` where the key does not occur, no colon follows it, or the
/// value is empty.
pub open spec fn field_spec(body: Seq<u8>, key: Seq<u8>) -> Option<Seq<u8>> {
    let at = first_occurrence(body, quoted(key), 0);
    if at >= body.len() {
        None
    } else {
        let rest = trim_start(body.subrange(at + quoted(key).len(), body.len() as int));
        if rest.len() == 0 || rest[0] != COLON {
            None
        } else {
            let v = trim_start(rest.drop_first());
            let t = v.subrange(0, delimiter_from(v, 0));
            if t.len() == 0 {
                None
            } else {
                Some(t)
            }
        }
    }
}

proof fn lemma_delimiter_bounds(v: Seq<u8>, i: int)
    requires
        0 <= i <= v.len(),
    ensures
        i <= delimiter_from(v, i) <= v.len(),
    decreases v.len() - i,
{
    if i < v.len() && !is_delimiter(v[i]) {
        lemma_delimiter_bounds(v, i + 1);
    }
}

proof fn lemma_first_occurrence_bounds(s: Seq<u8>, pat: Seq<u8>, i: int)
    requires
        0 <= i,
    ensures
        first_occurrence(s, pat, i) < s.len() ==> occurs_at(s, pat, first_occurrence(s, pat, i)),
        first_occurrence(s, pat, i) <= s.len(),
    decreases s.len() + 1 - i,
{
    if i + pat.len() <= s.len() && !occurs_at(s, pat, i) {
        lemma_first_occurrence_bounds(s, pat, i + 1);
    }
}

fn occurs(s: &[u8], pat: &[u8], i: usize) -> (r: bool)
    requires
        i + pat@.len() <= s@.len(),
    ensures
        r == occurs_at(s@, pat@, i as int),
{
    let n = s.len();
    let mut j: usize = 0;
    while j < pat.len()
        invariant
            n == s@.len(),
            i + pat@.len() <= s@.len(),
            j <= pat@.len(),
            forall|k: int| 0 <= k < j ==> s@[i + k] == pat@[k],
        decreases pat@.len() - j,
    {
        assert(i + j < s@.len());
        if s[i + j] != pat[j] {
            assert(s@.subrange(i as int, i + pat@.len())[j as int] != pat@[j as int]);
            return false;
        }
        j = j + 1;
    }
    assert(s@.subrange(i as int, i + pat@.len()) =~= pat@);
    true
}

fn first_occurrence_of(s: &[u8], pat: &[u8]) -> (r: usize)
    ensures
        r == first_occurrence(s@, pat@, 0),
{
    if pat.len() > s.len() {
        return s.len();
    }
    if pat.len() == 0 {
        assert(s@.subrange(0, 0) =~= pat@);
        return 0;
    }
    let mut i: usize = 0;
    while i <= s.len() - pat.len()
        invariant
            1 <= pat@.len() <= s@.len(),
            i <= s@.len() - pat@.len() + 1,
            first_occurrence(s@, pat@, 0) == first_occurrence(s@, pat@, i as int),
        decreases s@.len() - pat@.len() + 1 - i,
    {
        if occurs(s, pat, i) {
            return i;
        }
        i = i + 1;
    }
    s.len()
}

fn skip_ows(v: &[u8], from: usize) -> (r: usize)
    requires
        from <= v@.len(),
    ensures
        from <= r <= v@.len(),
        trim_start(v@.subrange(from as int, v@.len() as int)) == v@.subrange(r as int, v@.len() as int),
{
    let mut a = from;
    while a < v.len() && (v[a] == SP || v[a] == TAB)
        invariant
            from <= a <= v@.len(),
            trim_start(v@.subrange(from as int, v@.len() as int)) == trim_start(
                v@.subrange(a as int, v@.len() as int),
            ),
        decreases v@.len() - a,
    {
        assert(v@.subrange(a as int, v@.len() as int).drop_first() =~= v@.subrange(
            a + 1,
            v@.len() as int,
        ));
        a = a + 1;
    }
    a
}

fn quoted_key(key: &[u8]) -> (r: Vec<u8>)
    ensures
        r@ == quoted(key@),
{
    let mut r: Vec<u8> = Vec::new();
    r.push(QUOTE);
    crate::bytes::append(&mut r, key);
    r.push(QUOTE);
    assert(r@ =~= quoted(key@));
    r
}

/// The text of the value of field `key` in `body`; see `field_spec`.
pub fn field_text(body: &[u8], key: &[u8]) -> (r: Option<Vec<u8>>)
    ensures
        match r {
            Some(t) => field_spec(body@, key@) == Some(t@),
            None => field_spec(body@, key@) is None,
        },
{
    let pat = quoted_key(key);
    let at = first_occurrence_of(body, pat.as_slice());
    if at >= body.len() {
        return None;
    }
    proof {
        lemma_first_occurrence_bounds(body@, pat@, 0);
    }
    let a = skip_ows(body, at + pat.len());
    if a >= body.len() || body[a] != COLON {
        return None;
    }
    let b = skip_ows(body, a + 1);
    let ghost rest = body@.subrange(a as int, body@.len() as int);
    assert(rest.drop_first() =~= body@.subrange(a + 1, body@.len() as int));
    let mut c = b;
    while c < body.len() && !(body[c] == COMMA || body[c] == CLOSE_BRACE || body[c] == SP
        || body[c] == TAB || body[c] == CR || body[c] == LF)
        invariant
            b <= c <= body@.len(),
            delimiter_from(body@.subrange(b as int, body@.len() as int), 0) == delimiter_from(
                body@.subrange(b as int, body@.len() as int),
                c - b,
            ),
        decreases body@.len() - c,
    {
        c = c + 1;
    }
    let ghost v = body@.subrange(b as int, body@.len() as int);
    proof {
        lemma_delimiter_bounds(v, 0);
    }
    assert(v.subrange(0, c - b) =~= body@.subrange(b as int, c as int));
    if c == b {
        return None;
    }
    Some(copy_range(body, b, c))
}

/// The texts of the five fields of a forecast request.
pub struct ForecastFields {
    pub outflow: Vec<u8>,
    pub inflow: Vec<u8>,
    pub range: Vec<u8>,
    pub inflation_rate: Vec<u8>,
    pub inflow_offset: Vec<u8>,
}

/// `outflow`
pub open spec fn outflow_key() -> Seq<u8> {
    seq![111u8, 117, 116, 102, 108, 111, 119]
}

fn outflow_key_bytes() -> (r: Vec<u8>)
    ensures
        r@ == outflow_key(),
{
    let r = vec![111u8, 117, 116, 102, 108, 111, 119];
    assert(r@ =~= outflow_key());
    r
}

/// `inflow`
pub open spec fn inflow_key() -> Seq<u8> {
    seq![105u8, 110, 102, 108, 111, 119]
}

fn inflow_key_bytes() -> (r: Vec<u8>)
    ensures
        r@ == inflow_key(),
{
    let r = vec![105u8, 110, 102, 108, 111, 119];
    assert(r@ =~= inflow_key());
    r
}

/// `range`
pub open spec fn range_key() -> Seq<u8> {
    seq![114u8, 97, 110, 103, 101]
}

fn range_key_bytes() -> (r: Vec<u8>)
    ensures
        r@ == range_key(),
{
    let r = vec![114u8, 97, 110, 103, 101];
    assert(r@ =~= range_key());
    r
}

/// `inflation_rate`
pub open spec fn inflation_rate_key() -> Seq<u8> {
    seq![105u8, 110, 102, 108, 97, 116, 105, 111, 110, 95, 114, 97, 116, 101]
}

fn inflation_rate_key_bytes() -> (r: Vec<u8>)
    ensures
        r@ == inflation_rate_key(),
{
    let r = vec![105u8, 110, 102, 108, 97, 116, 105, 111, 110, 95, 114, 97, 116, 101];
    assert(r@ =~= inflation_rate_key());
    r
}

/// `inflow_offset`
pub open spec fn inflow_offset_key() -> Seq<u8> {
    seq![105u8, 110, 102, 108, 111, 119, 95, 111, 102, 102, 115, 101, 116]
}

fn inflow_offset_key_bytes() -> (r: Vec<u8>)
    ensures
        r@ == inflow_offset_key(),
{
    let r = vec![105u8, 110, 102, 108, 111, 119, 95, 111, 102, 102, 115, 101, 116];
    assert(r@ =~= inflow_offset_key());
    r
}

/// Every field of a forecast request is present in `body`.
pub open spec fn has_forecast_fields(body: Seq<u8>) -> bool {
    &&& field_spec(body, outflow_key()) is Some
    &&& field_spec(body, inflow_key()) is Some
    &&& field_spec(body, range_key()) is Some
    &&& field_spec(body, inflation_rate_key()) is Some
    &&& field_spec(body, inflow_offset_key()) is Some
}

/// The texts of the five fields of a forecast request body; `None` when one
/// of them is missing.
pub fn forecast_fields(body: &[u8]) -> (r: Option<ForecastFields>)
    ensures
        r is Some <==> has_forecast_fields(body@),
        r is Some ==> {
            let f = r->Some_0;
            &&& field_spec(body@, outflow_key()) == Some(f.outflow@)
            &&& field_spec(body@, inflow_key()) == Some(f.inflow@)
            &&& field_spec(body@, range_key()) == Some(f.range@)
            &&& field_spec(body@, inflation_rate_key()) == Some(f.inflation_rate@)
            &&& field_spec(body@, inflow_offset_key()) == Some(f.inflow_offset@)
        },
{
    let outflow = match field_text(body, outflow_key_bytes().as_slice()) {
        Some(t) => t,
        None => return None,
    };
    let inflow = match field_text(body, inflow_key_bytes().as_slice()) {
        Some(t) => t,
        None => return None,
    };
    let range = match field_text(body, range_key_bytes().as_slice()) {
        Some(t) => t,
        None => return None,
    };
    let inflation_rate = match field_text(body, inflation_rate_key_bytes().as_slice()) {
        Some(t) => t,
        None => return None,
    };
    let inflow_offset = match field_text(body, inflow_offset_key_bytes().as_slice()) {
        Some(t) => t,
        None => return None,
    };
    Some(ForecastFields { outflow, inflow, range, inflation_rate, inflow_offset })
}

} // verus!
