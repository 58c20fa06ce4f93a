//! The framing of responses: status line, `Content-Type`, an exact
//! `Content-Length`, a blank line, then the body.
use vstd::prelude::*;
use crate::bytes::{append, find_from};
use crate::request::{
    content_length, digits_value, frame, is_digit, is_length_header, length_name, line_ok,
    request_line, scan_headers, strip_cr, trim_end, trim_start, COLON, LF, SP,
};
use crate::router::Handler;

verus! {
/// The status of a response.
#[derive(PartialEq, Eq, Structural, Clone, Copy, Debug)]
pub enum Status {
    Success,
    BadRequest,
    NotFound,
    InternalError,
}

/// `HTTP/1.1 200 OK` and CR LF.
pub open spec fn ok_status_line() -> Seq<u8> {
    seq![72u8, 84, 84, 80, 47, 49, 46, 49, 32, 50, 48, 48, 32, 79, 75, 13, 10]
}

fn ok_line() -> (r: Vec<u8>)
    ensures
        r@ == ok_status_line(),
{
    let r = vec![72u8, 84, 84, 80, 47, 49, 46, 49, 32, 50, 48, 48, 32, 79, 75, 13, 10];
    assert(r@ =~= ok_status_line());
    r
}

/// `HTTP/1.1 400 Bad Request` and CR LF.
pub open spec fn bad_request_status_line() -> Seq<u8> {
    seq![72u8, 84, 84, 80, 47, 49, 46, 49, 32, 52, 48, 48, 32, 66, 97, 100, 32, 82, 101, 113, 117, 101, 115, 116, 13, 10]
}

fn bad_request_line() -> (r: Vec<u8>)
    ensures
        r@ == bad_request_status_line(),
{
    let r = vec![72u8, 84, 84, 80, 47, 49, 46, 49, 32, 52, 48, 48, 32, 66, 97, 100, 32, 82, 101, 113, 117, 101, 115, 116, 13, 10];
    assert(r@ =~= bad_request_status_line());
    r
}

/// `HTTP/1.1 404 Not Found` and CR LF.
pub open spec fn not_found_status_line() -> Seq<u8> {
    seq![72u8, 84, 84, 80, 47, 49, 46, 49, 32, 52, 48, 52, 32, 78, 111, 116, 32, 70, 111, 117, 110, 100, 13, 10]
}

fn not_found_line() -> (r: Vec<u8>)
    ensures
        r@ == not_found_status_line(),
{
    let r = vec![72u8, 84, 84, 80, 47, 49, 46, 49, 32, 52, 48, 52, 32, 78, 111, 116, 32, 70, 111, 117, 110, 100, 13, 10];
    assert(r@ =~= not_found_status_line());
    r
}

/// `HTTP/1.1 500 Internal Server Error` and CR LF.
pub open spec fn internal_error_status_line() -> Seq<u8> {
    seq![72u8, 84, 84, 80, 47, 49, 46, 49, 32, 53, 48, 48, 32, 73, 110, 116, 101, 114, 110, 97, 108, 32, 83, 101, 114, 118, 101, 114, 32, 69, 114, 114, 111, 114, 13, 10]
}

fn internal_error_line() -> (r: Vec<u8>)
    ensures
        r@ == internal_error_status_line(),
{
    let r = vec![72u8, 84, 84, 80, 47, 49, 46, 49, 32, 53, 48, 48, 32, 73, 110, 116, 101, 114, 110, 97, 108, 32, 83, 101, 114, 118, 101, 114, 32, 69, 114, 114, 111, 114, 13, 10];
    assert(r@ =~= internal_error_status_line());
    r
}

/// `Content-Type: `
pub open spec fn content_type_name() -> Seq<u8> {
    seq![67u8, 111, 110, 116, 101, 110, 116, 45, 84, 121, 112, 101, 58, 32]
}

fn content_type_prefix() -> (r: Vec<u8>)
    ensures
        r@ == content_type_name(),
{
    let r = vec![67u8, 111, 110, 116, 101, 110, 116, 45, 84, 121, 112, 101, 58, 32];
    assert(r@ =~= content_type_name());
    r
}

/// `Content-Length: `
pub open spec fn content_length_prefix_spec() -> Seq<u8> {
    seq![67u8, 111, 110, 116, 101, 110, 116, 45, 76, 101, 110, 103, 116, 104, 58, 32]
}

fn content_length_prefix() -> (r: Vec<u8>)
    ensures
        r@ == content_length_prefix_spec(),
{
    let r = vec![67u8, 111, 110, 116, 101, 110, 116, 45, 76, 101, 110, 103, 116, 104, 58, 32];
    assert(r@ =~= content_length_prefix_spec());
    r
}

/// CR LF, which ends a line.
pub open spec fn crlf_spec() -> Seq<u8> {
    seq![13u8, 10]
}

fn crlf() -> (r: Vec<u8>)
    ensures
        r@ == crlf_spec(),
{
    let r = vec![13u8, 10];
    assert(r@ =~= crlf_spec());
    r
}

pub open spec fn status_line(st: Status) -> Seq<u8> {
    match st {
        Status::Success => ok_status_line(),
        Status::BadRequest => bad_request_status_line(),
        Status::NotFound => not_found_status_line(),
        Status::InternalError => internal_error_status_line(),
    }
}

/// The decimal digits of `n`, most significant first, without leading zeros.
pub open spec fn decimal(n: nat) -> Seq<u8>
    decreases n,
{
    if n < 10 {
        seq![(48 + n) as u8]
    } else {
        decimal(n / 10).push((48 + n % 10) as u8)
    }
}

/// A whole response: status line, `Content-Type`, a `Content-Length` that
/// gives the body's exact length, a blank line, then the body.
pub open spec fn response_spec(st: Status, content_type: Seq<u8>, body: Seq<u8>) -> Seq<u8> {
    status_line(st) + content_type_name() + content_type + crlf_spec() + content_length_prefix_spec()
        + decimal(body.len()) + crlf_spec() + crlf_spec() + body
}

fn push_decimal(out: &mut Vec<u8>, n: usize)
    ensures
        final(out)@ == old(out)@ + decimal(n as nat),
    decreases n,
{
    if n >= 10 {
        push_decimal(out, n / 10);
    }
    out.push((48 + n % 10) as u8);
    assert(final(out)@ =~= old(out)@ + decimal(n as nat));
}

fn status_bytes(st: Status) -> (r: Vec<u8>)
    ensures
        r@ == status_line(st),
{
    match st {
        Status::Success => ok_line(),
        Status::BadRequest => bad_request_line(),
        Status::NotFound => not_found_line(),
        Status::InternalError => internal_error_line(),
    }
}

/// The bytes of a response with this status, content type and body.
pub fn response(st: Status, content_type: &[u8], body: &[u8]) -> (r: Vec<u8>)
    ensures
        r@ == response_spec(st, content_type@, body@),
{
    let mut r = status_bytes(st);
    append(&mut r, content_type_prefix().as_slice());
    append(&mut r, content_type);
    append(&mut r, crlf().as_slice());
    append(&mut r, content_length_prefix().as_slice());
    push_decimal(&mut r, body.len());
    append(&mut r, crlf().as_slice());
    append(&mut r, crlf().as_slice());
    append(&mut r, body);
    r
}

proof fn lemma_decimal_digits(n: nat)
    ensures
        decimal(n).len() > 0,
        forall|i: int| 0 <= i < decimal(n).len() ==> is_digit(#[trigger] decimal(n)[i]),
        digits_value(decimal(n)) == n,
    decreases n,
{
    let d = decimal(n);
    if n >= 10 {
        lemma_decimal_digits(n / 10);
        assert(d.drop_last() =~= decimal(n / 10));
        assert(d.last() == (48 + n % 10) as u8);
        assert((d.last() - 48) as nat == n % 10);
        assert(digits_value(d) == (n / 10) * 10 + n % 10);
    } else {
        assert(d.drop_last() =~= Seq::<u8>::empty());
        assert(digits_value(d) == digits_value(d.drop_last()) * 10 + (d.last() - 48) as nat);
    }
}

/// The `Content-Length` line that a response carries for a body of `n`
/// bytes reads back, through the request framer's own rule, as `n`.
pub proof fn lemma_declared_length_round_trip(n: nat)
    requires
        n <= usize::MAX,
    ensures
        content_length(seq![content_length_prefix_spec() + decimal(n)]) == n,
{
    lemma_decimal_digits(n);
    let d = decimal(n);
    let line = content_length_prefix_spec() + d;
    let pre = content_length_prefix_spec();
    assert(line.subrange(0, 16) =~= pre);
    assert forall|j: int| 0 <= j < 16 implies line[j] == pre[j] by {
        assert(line.subrange(0, 16)[j] == line[j]);
    }
    reveal_with_fuel(find_from, 16);
    assert(find_from(line, COLON, 0) == 14);
    assert(line.subrange(0, 14) =~= length_name());
    assert(is_length_header(line));
    let after = line.subrange(15, line.len() as int);
    assert(after.drop_first() =~= d);
    assert(trim_start(d) == d);
    assert(trim_start(after) == d);
    assert(trim_end(d) == d);
    let hs = seq![line];
    assert(hs[0] == line);
}

/// `text/html; charset=utf-8`
pub open spec fn html_type_spec() -> Seq<u8> {
    seq![116u8, 101, 120, 116, 47, 104, 116, 109, 108, 59, 32, 99, 104, 97, 114, 115, 101, 116, 61, 117, 116, 102, 45, 56]
}

fn html_type() -> (r: Vec<u8>)
    ensures
        r@ == html_type_spec(),
{
    let r = vec![116u8, 101, 120, 116, 47, 104, 116, 109, 108, 59, 32, 99, 104, 97, 114, 115, 101, 116, 61, 117, 116, 102, 45, 56];
    assert(r@ =~= html_type_spec());
    r
}

/// `text/css`
pub open spec fn css_type_spec() -> Seq<u8> {
    seq![116u8, 101, 120, 116, 47, 99, 115, 115]
}

fn css_type() -> (r: Vec<u8>)
    ensures
        r@ == css_type_spec(),
{
    let r = vec![116u8, 101, 120, 116, 47, 99, 115, 115];
    assert(r@ =~= css_type_spec());
    r
}

/// `application/javascript`
pub open spec fn js_type_spec() -> Seq<u8> {
    seq![97u8, 112, 112, 108, 105, 99, 97, 116, 105, 111, 110, 47, 106, 97, 118, 97, 115, 99, 114, 105, 112, 116]
}

fn js_type() -> (r: Vec<u8>)
    ensures
        r@ == js_type_spec(),
{
    let r = vec![97u8, 112, 112, 108, 105, 99, 97, 116, 105, 111, 110, 47, 106, 97, 118, 97, 115, 99, 114, 105, 112, 116];
    assert(r@ =~= js_type_spec());
    r
}

/// `image/x-icon`
pub open spec fn icon_type_spec() -> Seq<u8> {
    seq![105u8, 109, 97, 103, 101, 47, 120, 45, 105, 99, 111, 110]
}

fn icon_type() -> (r: Vec<u8>)
    ensures
        r@ == icon_type_spec(),
{
    let r = vec![105u8, 109, 97, 103, 101, 47, 120, 45, 105, 99, 111, 110];
    assert(r@ =~= icon_type_spec());
    r
}

/// `application/json`
pub open spec fn json_type_spec() -> Seq<u8> {
    seq![97u8, 112, 112, 108, 105, 99, 97, 116, 105, 111, 110, 47, 106, 115, 111, 110]
}

fn json_type() -> (r: Vec<u8>)
    ensures
        r@ == json_type_spec(),
{
    let r = vec![97u8, 112, 112, 108, 105, 99, 97, 116, 105, 111, 110, 47, 106, 115, 111, 110];
    assert(r@ =~= json_type_spec());
    r
}

/// The content type that a handler answers with.
pub open spec fn content_type_of(h: Handler) -> Seq<u8> {
    match h {
        Handler::Index => html_type_spec(),
        Handler::Styles => css_type_spec(),
        Handler::Scripts => js_type_spec(),
        Handler::Favicon => icon_type_spec(),
        Handler::Forecast => json_type_spec(),
        Handler::NotFound => html_type_spec(),
    }
}

/// The status that a handler answers with when its work succeeds.
pub open spec fn status_of(h: Handler) -> Status {
    match h {
        Handler::NotFound => Status::NotFound,
        _ => Status::Success,
    }
}

/// The content type that `h` answers with.
pub fn content_type(h: Handler) -> (r: Vec<u8>)
    ensures
        r@ == content_type_of(h),
{
    match h {
        Handler::Index => html_type(),
        Handler::Styles => css_type(),
        Handler::Scripts => js_type(),
        Handler::Favicon => icon_type(),
        Handler::Forecast => json_type(),
        Handler::NotFound => html_type(),
    }
}

/// The response of handler `h` whose work produced `body`.
pub fn reply(h: Handler, body: &[u8]) -> (r: Vec<u8>)
    ensures
        r@ == response_spec(status_of(h), content_type_of(h), body@),
{
    let ct = content_type(h);
    let st = match h {
        Handler::NotFound => Status::NotFound,
        _ => Status::Success,
    };
    response(st, ct.as_slice(), body)
}

/// The response to a request that could not be framed or whose body the
/// handler could not use: a 400 with a plain-text explanation.
pub fn bad_request(message: &[u8]) -> (r: Vec<u8>)
    ensures
        r@ == response_spec(Status::BadRequest, text_type_spec(), message@),
{
    let ct = text_type();
    response(Status::BadRequest, ct.as_slice(), message)
}

/// `text/plain; charset=utf-8`
pub open spec fn text_type_spec() -> Seq<u8> {
    seq![116u8, 101, 120, 116, 47, 112, 108, 97, 105, 110, 59, 32, 99, 104, 97, 114, 115, 101, 116, 61, 117, 116, 102, 45, 56]
}

fn text_type() -> (r: Vec<u8>)
    ensures
        r@ == text_type_spec(),
{
    let r = vec![116u8, 101, 120, 116, 47, 112, 108, 97, 105, 110, 59, 32, 99, 104, 97, 114, 115, 101, 116, 61, 117, 116, 102, 45, 56];
    assert(r@ =~= text_type_spec());
    r
}

proof fn lemma_find_exact(s: Seq<u8>, b: u8, i: int, k: int)
    requires
        0 <= i <= k < s.len(),
        s[k] == b,
        forall|j: int| i <= j < k ==> s[j] != b,
    ensures
        find_from(s, b, i) == k,
    decreases k - i,
{
    if i < k {
        lemma_find_exact(s, b, i + 1, k);
    }
}

/// A line `content` followed by CR LF stands in `r` at `off`.
proof fn lemma_line_at(r: Seq<u8>, off: int, content: Seq<u8>)
    requires
        0 <= off,
        off + content.len() + 2 <= r.len(),
        r.subrange(off, off + content.len() + 2) == content + crlf_spec(),
        forall|j: int| 0 <= j < content.len() ==> content[j] != LF,
    ensures
        find_from(r, LF, off) == off + content.len() + 1,
        strip_cr(r.subrange(off, off + content.len() + 1)) == content,
{
    let seg = content + crlf_spec();
    let n = content.len() as int;
    assert forall|j: int| off <= j < off + n + 1 implies r[j] != LF by {
        assert(r.subrange(off, off + n + 2)[j - off] == r[j]);
        if j < off + n {
            assert(seg[j - off] == content[j - off]);
        }
    }
    assert(r.subrange(off, off + n + 2)[n + 1] == r[off + n + 1]);
    lemma_find_exact(r, LF, off, off + n + 1);
    assert(r.subrange(off, off + n + 1).drop_last() =~= content) by {
        assert forall|j: int| 0 <= j < n implies r.subrange(off, off + n + 1)[j] == content[j] by {
            assert(r.subrange(off, off + n + 2)[j] == seg[j]);
        }
    }
    assert(r.subrange(off, off + n + 2)[n] == r[off + n]);
}

/// The status line without its CR LF names a method and a path, in the
/// framer's terms.
proof fn lemma_status_line(st: Status)
    ensures
        status_line(st).len() >= 2,
        status_line(st).subrange(status_line(st).len() - 2, status_line(st).len() as int)
            == crlf_spec(),
        forall|j: int|
            0 <= j < status_line(st).len() - 2 ==> #[trigger] status_line(st)[j] != LF,
        line_ok(status_line(st).subrange(0, status_line(st).len() - 2)),
{
    let sl = status_line(st);
    let line = sl.subrange(0, sl.len() - 2);
    assert(sl.subrange(sl.len() - 2, sl.len() as int) =~= crlf_spec());
    assert forall|j: int| 0 <= j < 8 implies line[j] != SP by {}
    assert(line[8] == SP);
    lemma_find_exact(line, SP, 0, 8);
    let rest = line.subrange(9, line.len() as int);
    assert(rest[3] == SP);
    assert forall|j: int| 0 <= j < 3 implies rest[j] != SP by {}
    lemma_find_exact(rest, SP, 0, 3);
}

/// Neither header line of a response holds a line feed.
proof fn lemma_header_lines_unbroken(ct: Seq<u8>, n: nat)
    requires
        forall|j: int| 0 <= j < ct.len() ==> ct[j] != LF,
    ensures
        forall|j: int|
            0 <= j < (content_type_name() + ct).len() ==> #[trigger] (content_type_name()
                + ct)[j] != LF,
        forall|j: int|
            0 <= j < (content_length_prefix_spec() + decimal(n)).len() ==> #[trigger] (
            content_length_prefix_spec() + decimal(n))[j] != LF,
{
    lemma_decimal_digits(n);
    let l1 = content_type_name() + ct;
    let l2 = content_length_prefix_spec() + decimal(n);
    assert forall|j: int| 0 <= j < l1.len() implies l1[j] != LF by {
        if j >= 14 {
            assert(l1[j] == ct[j - 14]);
        }
    }
    assert forall|j: int| 0 <= j < l2.len() implies l2[j] != LF by {
        if j >= 16 {
            assert(l2[j] == decimal(n)[j - 16]);
        }
    }
}

/// Of a response's two header lines, the second gives the declared length.
proof fn lemma_two_header_length(ct: Seq<u8>, n: nat)
    requires
        n <= usize::MAX,
    ensures
        content_length(seq![content_type_name() + ct, content_length_prefix_spec() + decimal(n)])
            == n,
{
    let l1 = content_type_name() + ct;
    let l2 = content_length_prefix_spec() + decimal(n);
    assert forall|j: int| 0 <= j < 12 implies l1[j] != COLON by {}
    assert(l1[12] == COLON);
    lemma_find_exact(l1, COLON, 0, 12);
    assert(l1.subrange(0, 12).len() != length_name().len());
    assert(!is_length_header(l1));
    lemma_declared_length_round_trip(n);
    assert(seq![l1, l2].drop_first() =~= seq![l2]);
}

/// Read back by the request framer, any response that the writer produces
/// (with a content type free of line breaks) gives exactly its body, its two
/// header lines, and takes up exactly its own length: its `Content-Length`
/// is right.
#[verifier::spinoff_prover]
#[verifier::rlimit(40)]
pub proof fn lemma_response_frames_back(st: Status, ct: Seq<u8>, body: Seq<u8>)
    requires
        forall|j: int| 0 <= j < ct.len() ==> ct[j] != LF,
        body.len() <= usize::MAX,
    ensures
        frame(response_spec(st, ct, body)) is Ok,
        frame(response_spec(st, ct, body))->Ok_0.body == body,
        frame(response_spec(st, ct, body))->Ok_0.consumed == response_spec(st, ct, body).len(),
        frame(response_spec(st, ct, body))->Ok_0.headers == seq![
            content_type_name() + ct,
            content_length_prefix_spec() + decimal(body.len()),
        ],
{
    let r = response_spec(st, ct, body);
    let sl = status_line(st);
    let d = decimal(body.len());
    let l1 = content_type_name() + ct;
    let l2 = content_length_prefix_spec() + d;
    let c = crlf_spec();
    lemma_status_line(st);
    lemma_decimal_digits(body.len());
    let ls = sl.len() - 2;
    let s0 = sl.subrange(0, ls);
    assert(sl =~= s0 + c);
    assert(r =~= (s0 + c) + (l1 + c) + (l2 + c) + c + body);
    let a0 = sl.len() as int;
    let a1 = a0 + l1.len() + 2;
    let a2 = a1 + l2.len() + 2;
    let end = a2 + 2;
    assert(r.subrange(0, a0) =~= s0 + c);
    assert(r.subrange(a0, a1) =~= l1 + c);
    assert(r.subrange(a1, a2) =~= l2 + c);
    assert(r.subrange(a2, end) =~= Seq::<u8>::empty() + c);
    assert(r.subrange(end, r.len() as int) =~= body);
    lemma_header_lines_unbroken(ct, body.len());
    lemma_line_at(r, 0, s0);
    lemma_line_at(r, a0, l1);
    lemma_line_at(r, a1, l2);
    lemma_line_at(r, a2, Seq::<u8>::empty());
    assert(request_line(r) == s0);
    assert(scan_headers(r, a2) == Some((Seq::<Seq<u8>>::empty(), end)));
    assert(seq![l2] + Seq::<Seq<u8>>::empty() =~= seq![l2]);
    assert(scan_headers(r, a1) == Some((seq![l2], end)));
    assert(seq![l1] + seq![l2] =~= seq![l1, l2]);
    assert(scan_headers(r, a0) == Some((seq![l1, l2], end)));
    lemma_two_header_length(ct, body.len());
    assert(r.subrange(end, end + body.len()) =~= body);
}

} // verus!
