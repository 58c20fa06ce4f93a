//! The request framer: request line, header lines up to a blank line, and a
//! body of exactly `Content-Length` bytes, never reading past it.
use vstd::prelude::*;
use crate::bytes::{agree, bytes_eq, copy_range, find, find_from, lemma_find_from_agree, lemma_find_from_bounds};

verus! {

pub const LF: u8 = 10;
pub const CR: u8 = 13;
pub const SP: u8 = 32;
pub const TAB: u8 = 9;
pub const COLON: u8 = 58;

/// A line without its terminating carriage return, if it has one.
pub open spec fn strip_cr(l: Seq<u8>) -> Seq<u8> {
    if l.len() > 0 && l.last() == CR {
        l.drop_last()
    } else {
        l
    }
}

/// Reads lines from position `i` up to the first empty one. Gives the
/// non-empty lines read, in order, and the position just after the empty
/// line; `None` when the input ends before an empty line.
pub open spec fn scan_headers(s: Seq<u8>, i: int) -> Option<(Seq<Seq<u8>>, int)>
    decreases s.len() - i,
{
    let e = find_from(s, LF, i);
    if i < 0 || e < i || e >= s.len() {
        None
    } else {
        let line = strip_cr(s.subrange(i, e));
        if line.len() == 0 {
            Some((Seq::empty(), e + 1))
        } else {
            match scan_headers(s, e + 1) {
                Some((hs, end)) => Some((seq![line] + hs, end)),
                None => None,
            }
        }
    }
}

/// The lines `acc` put in front of the result of a scan.
pub open spec fn prepend(
    acc: Seq<Seq<u8>>,
    o: Option<(Seq<Seq<u8>>, int)>,
) -> Option<(Seq<Seq<u8>>, int)> {
    match o {
        Some((hs, end)) => Some((acc + hs, end)),
        None => None,
    }
}

pub open spec fn views(v: Seq<Vec<u8>>) -> Seq<Seq<u8>> {
    v.map_values(|l: Vec<u8>| l@)
}

/// Reads the header lines that start at `start`, up to the blank line.
fn read_headers(s: &[u8], start: usize) -> (r: Option<(Vec<Vec<u8>>, usize)>)
    requires
        start <= s@.len(),
    ensures
        match r {
            Some((hs, end)) => {
                &&& scan_headers(s@, start as int) == Some((views(hs@), end as int))
                &&& end <= s@.len()
            },
            None => scan_headers(s@, start as int) is None,
        },
{
    let mut hs: Vec<Vec<u8>> = Vec::new();
    let mut pos = start;
    assert(views(hs@) + Seq::<Seq<u8>>::empty() =~= Seq::<Seq<u8>>::empty());
    loop
        invariant
            start <= pos <= s@.len(),
            scan_headers(s@, start as int) == prepend(views(hs@), scan_headers(s@, pos as int)),
        decreases s@.len() - pos,
    {
        let e = find(s, LF, pos);
        if e >= s.len() {
            return None;
        }
        let mut le = e;
        if le > pos && s[le - 1] == CR {
            le = le - 1;
        }
        assert(strip_cr(s@.subrange(pos as int, e as int)) =~= s@.subrange(pos as int, le as int));
        if le == pos {
            proof {
                assert(views(hs@) + Seq::<Seq<u8>>::empty() =~= views(hs@));
            }
            return Some((hs, e + 1));
        }
        let line = copy_range(s, pos, le);
        let ghost old_hs = views(hs@);
        hs.push(line);
        proof {
            assert(views(hs@) =~= old_hs.push(line@));
            match scan_headers(s@, e + 1) {
                Some((rest, end)) => {
                    assert(old_hs + (seq![line@] + rest) =~= old_hs.push(line@) + rest);
                },
                None => {},
            }
        }
        pos = e + 1;
    }
}

pub open spec fn is_ows(b: u8) -> bool {
    b == SP || b == TAB
}

pub open spec fn trim_start(v: Seq<u8>) -> Seq<u8>
    decreases v.len(),
{
    if v.len() > 0 && is_ows(v[0]) {
        trim_start(v.drop_first())
    } else {
        v
    }
}

pub open spec fn trim_end(v: Seq<u8>) -> Seq<u8>
    decreases v.len(),
{
    if v.len() > 0 && is_ows(v.last()) {
        trim_end(v.drop_last())
    } else {
        v
    }
}

pub open spec fn is_digit(b: u8) -> bool {
    48 <= b <= 57
}

/// The number that a string of decimal digits writes.
pub open spec fn digits_value(v: Seq<u8>) -> nat
    decreases v.len(),
{
    if v.len() == 0 {
        0
    } else {
        digits_value(v.drop_last()) * 10 + (v.last() - 48) as nat
    }
}

/// The value of a `Content-Length` header: its digits, read as a number
/// that fits in `usize`; 0 where the value is empty, holds anything but
/// digits, or is too large.
pub open spec fn length_value(v: Seq<u8>) -> nat {
    if v.len() > 0 && (forall|i: int| 0 <= i < v.len() ==> is_digit(#[trigger] v[i]))
        && digits_value(v) <= usize::MAX {
        digits_value(v)
    } else {
        0
    }
}

/// `Content-Length`, byte by byte.
pub open spec fn length_name() -> Seq<u8> {
    seq![67u8, 111, 110, 116, 101, 110, 116, 45, 76, 101, 110, 103, 116, 104]
}

/// The header line names `Content-Length` (case-sensitively) before its first colon.
pub open spec fn is_length_header(h: Seq<u8>) -> bool {
    let c = find_from(h, COLON, 0);
    c < h.len() && h.subrange(0, c) == length_name()
}

/// What follows the first colon, without surrounding spaces and tabs.
pub open spec fn header_value(h: Seq<u8>) -> Seq<u8> {
    trim_end(trim_start(h.subrange(find_from(h, COLON, 0) + 1, h.len() as int)))
}

/// The declared body length: the value of the first `Content-Length` header,
/// or 0 when there is none.
pub open spec fn content_length(hs: Seq<Seq<u8>>) -> nat
    decreases hs.len(),
{
    if hs.len() == 0 {
        0
    } else if is_length_header(hs[0]) {
        length_value(header_value(hs[0]))
    } else {
        content_length(hs.drop_first())
    }
}

proof fn lemma_digits_prefix(v: Seq<u8>, i: int)
    requires
        0 <= i <= v.len(),
    ensures
        digits_value(v.subrange(0, i)) <= digits_value(v),
    decreases v.len(),
{
    if i == v.len() {
        assert(v.subrange(0, i) =~= v);
    } else {
        lemma_digits_prefix(v.drop_last(), i);
        assert(v.drop_last().subrange(0, i) =~= v.subrange(0, i));
    }
}

fn trimmed(v: &[u8]) -> (r: Vec<u8>)
    ensures
        r@ == trim_end(trim_start(v@)),
{
    let mut a: usize = 0;
    assert(v@.subrange(0, v@.len() as int) =~= v@);
    while a < v.len() && (v[a] == SP || v[a] == TAB)
        invariant
            a <= v@.len(),
            trim_start(v@) == trim_start(v@.subrange(a as int, v@.len() as int)),
        decreases v@.len() - a,
    {
        assert(v@.subrange(a as int, v@.len() as int).drop_first() =~= v@.subrange(
            a + 1,
            v@.len() as int,
        ));
        a = a + 1;
    }
    let w = copy_range(v, a, v.len());
    let mut b: usize = w.len();
    assert(w@.subrange(0, w@.len() as int) =~= w@);
    while b > 0 && (w[b - 1] == SP || w[b - 1] == TAB)
        invariant
            b <= w@.len(),
            w@ == trim_start(v@),
            trim_end(w@) == trim_end(w@.subrange(0, b as int)),
        decreases b,
    {
        assert(w@.subrange(0, b as int).drop_last() =~= w@.subrange(0, b - 1));
        b = b - 1;
    }
    assert(w@.subrange(0, w@.len() as int) =~= w@);
    copy_range(&w, 0, b)
}

fn parse_length(v: &[u8]) -> (r: usize)
    ensures
        r == length_value(v@),
{
    if v.len() == 0 {
        return 0;
    }
    let mut acc: usize = 0;
    let mut i: usize = 0;
    while i < v.len()
        invariant
            0 < v@.len(),
            i <= v@.len(),
            acc == digits_value(v@.subrange(0, i as int)),
            forall|j: int| 0 <= j < i ==> is_digit(#[trigger] v@[j]),
        decreases v@.len() - i,
    {
        let c = v[i];
        if c < 48 || c > 57 {
            return 0;
        }
        let d = (c - 48) as usize;
        assert(v@.subrange(0, i + 1).drop_last() =~= v@.subrange(0, i as int));
        if acc > (usize::MAX - d) / 10 {
            proof {
                if forall|j: int| 0 <= j < v@.len() ==> is_digit(#[trigger] v@[j]) {
                    lemma_digits_prefix(v@, i + 1);
                }
            }
            return 0;
        }
        acc = acc * 10 + d;
        i = i + 1;
    }
    assert(v@.subrange(0, v@.len() as int) =~= v@);
    acc
}

fn length_name_bytes() -> (r: Vec<u8>)
    ensures
        r@ == length_name(),
{
    let r = vec![67u8, 111, 110, 116, 101, 110, 116, 45, 76, 101, 110, 103, 116, 104];
    assert(r@ =~= length_name());
    r
}

/// The declared body length of a request with these header lines.
pub fn declared_length(hs: &Vec<Vec<u8>>) -> (r: usize)
    ensures
        r == content_length(views(hs@)),
{
    let name = length_name_bytes();
    let mut i: usize = 0;
    assert(views(hs@).subrange(0, hs@.len() as int) =~= views(hs@));
    while i < hs.len()
        invariant
            i <= hs@.len(),
            name@ == length_name(),
            content_length(views(hs@)) == content_length(views(hs@).subrange(
                i as int,
                hs@.len() as int,
            )),
        decreases hs@.len() - i,
    {
        let h = &hs[i];
        let ghost rest = views(hs@).subrange(i as int, hs@.len() as int);
        assert(rest[0] == h@);
        assert(rest.drop_first() =~= views(hs@).subrange(i + 1, hs@.len() as int));
        let c = find(h, COLON, 0);
        if c < h.len() {
            let hn = copy_range(h, 0, c);
            if bytes_eq(&hn, &name) {
                let v = copy_range(h, c + 1, h.len());
                let t = trimmed(&v);
                return parse_length(&t);
            }
        }
        i = i + 1;
    }
    0
}

/// Why a request could not be framed.
#[derive(PartialEq, Eq, Structural, Clone, Copy, Debug)]
pub enum FrameError {
    /// The input ended before the blank line that closes the head, or the
    /// request line does not hold a method and a path.
    MalformedRequest,
    /// The input ended before the declared body was complete.
    IncompleteBody,
}

/// A framed request.
pub struct Request {
    pub method: Vec<u8>,
    pub path: Vec<u8>,
    /// The header lines, in order, without their line breaks.
    pub headers: Vec<Vec<u8>>,
    pub body: Vec<u8>,
    /// How many bytes of the input the request takes up.
    pub consumed: usize,
}

pub struct RequestModel {
    pub method: Seq<u8>,
    pub path: Seq<u8>,
    pub headers: Seq<Seq<u8>>,
    pub body: Seq<u8>,
    pub consumed: int,
}

impl View for Request {
    type V = RequestModel;

    open spec fn view(&self) -> RequestModel {
        RequestModel {
            method: self.method@,
            path: self.path@,
            headers: views(self.headers@),
            body: self.body@,
            consumed: self.consumed as int,
        }
    }
}

/// The first token of a request line: what precedes its first space.
pub open spec fn method_of(line: Seq<u8>) -> Seq<u8> {
    line.subrange(0, find_from(line, SP, 0))
}

/// The second token of a request line: what follows the first space, up to
/// the next one.
pub open spec fn path_of(line: Seq<u8>) -> Seq<u8> {
    let rest = line.subrange(find_from(line, SP, 0) + 1, line.len() as int);
    rest.subrange(0, find_from(rest, SP, 0))
}

/// A request line names a method and a path, separated by a space.
pub open spec fn line_ok(line: Seq<u8>) -> bool {
    find_from(line, SP, 0) < line.len() && method_of(line).len() > 0 && path_of(line).len() > 0
}

/// The request line of `s`, where `s` holds a line break.
pub open spec fn request_line(s: Seq<u8>) -> Seq<u8> {
    strip_cr(s.subrange(0, find_from(s, LF, 0)))
}

/// Frames the request at the front of `s`, where `s` is all that the
/// connection delivers before it ends.
pub open spec fn frame(s: Seq<u8>) -> Result<RequestModel, FrameError> {
    let e = find_from(s, LF, 0);
    if e >= s.len() || !line_ok(request_line(s)) {
        Err(FrameError::MalformedRequest)
    } else {
        match scan_headers(s, e + 1) {
            None => Err(FrameError::MalformedRequest),
            Some((hs, end)) => {
                let n = content_length(hs);
                if end + n > s.len() {
                    Err(FrameError::IncompleteBody)
                } else {
                    Ok(
                        RequestModel {
                            method: method_of(request_line(s)),
                            path: path_of(request_line(s)),
                            headers: hs,
                            body: s.subrange(end, end + n),
                            consumed: end + n,
                        },
                    )
                }
            },
        }
    }
}

/// How many more bytes a reader that holds `s` may take from the connection
/// without reading past the end of the request: one while the head is
/// incomplete, then what remains of the declared body; 0 once the request is
/// complete.
pub open spec fn wanted(s: Seq<u8>) -> int {
    let e = find_from(s, LF, 0);
    if e >= s.len() {
        1
    } else {
        match scan_headers(s, e + 1) {
            None => 1,
            Some((hs, end)) => {
                let total = end + content_length(hs);
                if total > s.len() {
                    total - s.len()
                } else {
                    0
                }
            },
        }
    }
}

/// Frames the request at the front of `input`, taken as everything the
/// connection delivered before it ended.
pub fn parse_request(input: &[u8]) -> (r: Result<Request, FrameError>)
    ensures
        match r {
            Ok(q) => frame(input@) == Ok::<RequestModel, FrameError>(q@),
            Err(e) => frame(input@) == Err::<RequestModel, FrameError>(e),
        },
{
    let e = find(input, LF, 0);
    if e >= input.len() {
        return Err(FrameError::MalformedRequest);
    }
    let mut le = e;
    if le > 0 && input[le - 1] == CR {
        le = le - 1;
    }
    let line = copy_range(input, 0, le);
    assert(line@ =~= request_line(input@));
    let sp = find(&line, SP, 0);
    if sp >= line.len() {
        return Err(FrameError::MalformedRequest);
    }
    let method = copy_range(&line, 0, sp);
    let rest = copy_range(&line, sp + 1, line.len());
    let sp2 = find(&rest, SP, 0);
    let path = copy_range(&rest, 0, sp2);
    if method.len() == 0 || path.len() == 0 {
        return Err(FrameError::MalformedRequest);
    }
    match read_headers(input, e + 1) {
        None => Err(FrameError::MalformedRequest),
        Some((headers, end)) => {
            let n = declared_length(&headers);
            if n > input.len() - end {
                return Err(FrameError::IncompleteBody);
            }
            let body = copy_range(input, end, end + n);
            Ok(Request { method, path, headers, body, consumed: end + n })
        },
    }
}

/// How many more bytes to read from the connection, given the bytes `s` read
/// so far: see `wanted`.
pub fn bytes_wanted(s: &[u8]) -> (r: usize)
    ensures
        r == wanted(s@),
{
    let e = find(s, LF, 0);
    if e >= s.len() {
        return 1;
    }
    match read_headers(s, e + 1) {
        None => 1,
        Some((headers, end)) => {
            let n = declared_length(&headers);
            let have = s.len() - end;
            if n > have {
                n - have
            } else {
                0
            }
        },
    }
}

proof fn lemma_scan_bounds(s: Seq<u8>, i: int)
    requires
        0 <= i,
        scan_headers(s, i) is Some,
    ensures
        i <= find_from(s, LF, i) < scan_headers(s, i)->Some_0.1 <= s.len(),
    decreases s.len() - i,
{
    let e = find_from(s, LF, i);
    lemma_find_from_bounds(s, LF, i);
    let line = strip_cr(s.subrange(i, e));
    if line.len() != 0 {
        lemma_scan_bounds(s, e + 1);
    }
}

/// A scan that ends inside a common prefix reads the same lines in both.
proof fn lemma_scan_agree(s: Seq<u8>, t: Seq<u8>, i: int, k: int)
    requires
        agree(s, t, k),
        0 <= i,
        scan_headers(s, i) is Some,
        scan_headers(s, i)->Some_0.1 <= k,
    ensures
        scan_headers(t, i) == scan_headers(s, i),
    decreases s.len() - i,
{
    let e = find_from(s, LF, i);
    lemma_scan_bounds(s, i);
    lemma_find_from_bounds(s, LF, i);
    lemma_find_from_agree(s, t, LF, i, k);
    lemma_find_from_bounds(t, LF, i);
    assert(s.subrange(i, e) =~= t.subrange(i, e));
    let line = strip_cr(s.subrange(i, e));
    if line.len() != 0 {
        lemma_scan_agree(s, t, e + 1, k);
    }
}

/// The head of a framed request ends inside it.
proof fn lemma_frame_head(s: Seq<u8>)
    requires
        frame(s) is Ok,
    ensures
        find_from(s, LF, 0) < scan_headers(s, find_from(s, LF, 0) + 1)->Some_0.1,
        scan_headers(s, find_from(s, LF, 0) + 1)->Some_0.1 <= frame(s)->Ok_0.consumed,
{
    let e = find_from(s, LF, 0);
    lemma_find_from_bounds(s, LF, 0);
    lemma_scan_bounds(s, e + 1);
}

/// The framer reads nothing past the end of a request: whatever follows the
/// bytes that a framed request takes up, framing gives the same request.
/// Its body is exactly as long as its `Content-Length` declares.
pub proof fn lemma_frame_ignores_rest(s: Seq<u8>, t: Seq<u8>)
    requires
        frame(s) is Ok,
    ensures
        frame(s)->Ok_0.consumed <= s.len(),
        frame(s)->Ok_0.body.len() == content_length(frame(s)->Ok_0.headers),
        frame(s.subrange(0, frame(s)->Ok_0.consumed) + t) == frame(s),
{
    let c = frame(s)->Ok_0.consumed;
    let u = s.subrange(0, c) + t;
    let e = find_from(s, LF, 0);
    lemma_frame_head(s);
    assert(agree(s, u, c));
    lemma_find_from_agree(s, u, LF, 0, c);
    assert(request_line(s) =~= request_line(u));
    lemma_scan_agree(s, u, e + 1, c);
    let end = scan_headers(s, e + 1)->Some_0.1;
    assert(u.subrange(end, c) =~= s.subrange(end, c));
}

/// A reader that asks `bytes_wanted` before each read takes exactly the bytes
/// of the request: at every shorter prefix it is told to read at least one
/// more byte and never past the end, and at the end it is told to stop.
pub proof fn lemma_wanted_exact(s: Seq<u8>, p: int)
    requires
        frame(s) is Ok,
        0 <= p <= frame(s)->Ok_0.consumed,
    ensures
        p < frame(s)->Ok_0.consumed ==> 1 <= wanted(s.subrange(0, p)),
        p + wanted(s.subrange(0, p)) <= frame(s)->Ok_0.consumed,
        p == frame(s)->Ok_0.consumed ==> wanted(s.subrange(0, p)) == 0,
{
    let c = frame(s)->Ok_0.consumed;
    lemma_frame_head(s);
    let q = s.subrange(0, p);
    assert(agree(q, s, p));
    let e = find_from(q, LF, 0);
    lemma_find_from_bounds(q, LF, 0);
    if p == c {
        let es = find_from(s, LF, 0);
        assert(agree(s, q, p));
        lemma_find_from_agree(s, q, LF, 0, p);
        lemma_scan_agree(s, q, es + 1, p);
    } else if e < q.len() {
        lemma_find_from_agree(q, s, LF, 0, p);
        if scan_headers(q, e + 1) is Some {
            lemma_scan_bounds(q, e + 1);
            lemma_scan_agree(q, s, e + 1, p);
        }
    }
}

} // verus!
