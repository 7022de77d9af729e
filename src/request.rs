//! Reading the head of an HTTP/1.x upgrade request from bytes.

use vstd::prelude::*;
use vstd::utf8::{encode_utf8, valid_utf8};
use crate::error::{HandshakeErrorKind, WebSocketError};
use crate::handshake::{trim, trim_bounds, Header, Request};
use crate::message::string_from_utf8;

verus! {

/// The index of the first occurrence of `p` in `s`, or the length of `s`.
pub open spec fn find(s: Seq<u8>, p: Seq<u8>) -> int
    decreases s.len(),
{
    if p.len() == 0 {
        0
    } else if s.len() < p.len() {
        s.len() as int
    } else if s.take(p.len() as int) == p {
        0
    } else {
        1 + find(s.drop_first(), p)
    }
}

/// A line break.
pub open spec fn crlf() -> Seq<u8> {
    seq![13u8, 10u8]
}

/// The empty line that ends a request head, with the break before it.
pub open spec fn head_terminator() -> Seq<u8> {
    seq![13u8, 10u8, 13u8, 10u8]
}

/// `s` cut at each line break.
pub open spec fn split_lines(s: Seq<u8>) -> Seq<Seq<u8>>
    decreases s.len(),
{
    let i = find(s, crlf());
    if 0 <= i && i + 2 <= s.len() {
        seq![s.take(i)] + split_lines(s.skip(i + 2))
    } else {
        seq![s]
    }
}

/// Whether a byte is an ASCII digit.
pub open spec fn is_digit(b: u8) -> bool {
    48 <= b <= 57
}

/// Whether `v` reads `HTTP/x.y` with one digit on each side.
pub open spec fn version_ok(v: Seq<u8>) -> bool {
    &&& v.len() == 8
    &&& v.take(5) == seq![72u8, 84u8, 84u8, 80u8, 47u8]
    &&& is_digit(v[5])
    &&& v[6] == 46
    &&& is_digit(v[7])
}

/// The method of a request line: up to the first space.
pub open spec fn line_method(line: Seq<u8>) -> Seq<u8> {
    line.take(find(line, seq![32u8]))
}

/// What follows the first space of a request line.
pub open spec fn after_method(line: Seq<u8>) -> Seq<u8> {
    line.skip(find(line, seq![32u8]) + 1)
}

/// The target of a request line: between the first two spaces.
pub open spec fn line_target(line: Seq<u8>) -> Seq<u8> {
    after_method(line).take(find(after_method(line), seq![32u8]))
}

/// The version of a request line: after the second space.
pub open spec fn line_version(line: Seq<u8>) -> Seq<u8> {
    after_method(line).skip(find(after_method(line), seq![32u8]) + 1)
}

/// Whether a line reads `METHOD SP TARGET SP HTTP/x.y`, with a method and
/// a target that are not empty and are UTF-8.
pub open spec fn request_line_ok(line: Seq<u8>) -> bool {
    let a = find(line, seq![32u8]);
    let b = find(after_method(line), seq![32u8]);
    &&& 0 < a < line.len()
    &&& 0 < b < after_method(line).len()
    &&& version_ok(line_version(line))
    &&& valid_utf8(line_method(line))
    &&& valid_utf8(line_target(line))
}

/// The name of a header line: up to the first colon.
pub open spec fn line_header_name(line: Seq<u8>) -> Seq<u8> {
    line.take(find(line, seq![58u8]))
}

/// The value of a header line: after the first colon, trimmed.
pub open spec fn line_header_value(line: Seq<u8>) -> Seq<u8> {
    trim(line.skip(find(line, seq![58u8]) + 1))
}

/// Whether a line reads `NAME: VALUE`, with a name that is not empty, in UTF-8.
pub open spec fn header_line_ok(line: Seq<u8>) -> bool {
    let c = find(line, seq![58u8]);
    &&& 0 < c < line.len()
    &&& valid_utf8(line_header_name(line))
    &&& valid_utf8(line_header_value(line))
}

/// Whether the lines of a head make a request.
pub open spec fn head_ok(lines: Seq<Seq<u8>>) -> bool {
    &&& request_line_ok(lines[0])
    &&& forall|i: int| 1 <= i < lines.len() ==> #[trigger] header_line_ok(lines[i])
}

/// Whether `req` is the request that the lines of a head spell.
pub open spec fn request_of_lines(req: Request, lines: Seq<Seq<u8>>) -> bool {
    let v = line_version(lines[0]);
    &&& encode_utf8(req.method@) == line_method(lines[0])
    &&& encode_utf8(req.path@) == line_target(lines[0])
    &&& req.version_major == v[5] - 48
    &&& req.version_minor == v[7] - 48
    &&& req.headers@.len() + 1 == lines.len()
    &&& forall|i: int|
        0 <= i < req.headers@.len() ==> {
            &&& encode_utf8(req.headers@[i].name@) == line_header_name(#[trigger] lines[i + 1])
            &&& encode_utf8(req.headers@[i].value@) == line_header_value(lines[i + 1])
        }
}

/// The first match of `p` in `s` is where nothing matches before `k` and
/// `p` matches at `k`, or nothing matches at all.
proof fn lemma_find_first(s: Seq<u8>, p: Seq<u8>, k: int)
    requires
        p.len() > 0,
        0 <= k,
        forall|j: int|
            0 <= j < k && j + p.len() <= s.len() ==> #[trigger] s.subrange(j, j + p.len()) != p,
        k + p.len() > s.len() || s.subrange(k, k + p.len()) == p,
    ensures
        find(s, p) == if k + p.len() <= s.len() {
            k
        } else {
            s.len() as int
        },
    decreases k,
{
    if s.len() < p.len() {
    } else if k == 0 {
        assert(s.take(p.len() as int) == s.subrange(0, p.len() as int));
    } else {
        let z: int = 0;
        assert(s.take(p.len() as int) == s.subrange(z, z + p.len()));
        assert(s.subrange(z, z + p.len()) != p);
        let t = s.drop_first();
        assert forall|j: int| 0 <= j < k - 1 && j + p.len() <= t.len() implies #[trigger] t.subrange(
            j,
            j + p.len(),
        ) != p by {
            assert(t.subrange(j, j + p.len()) == s.subrange(j + 1, j + 1 + p.len()));
        }
        if k + p.len() <= s.len() {
            assert(t.subrange(k - 1, k - 1 + p.len()) == s.subrange(k, k + p.len()));
        }
        lemma_find_first(t, p, k - 1);
    }
}

/// Whether `p` stands in `v` at `i`.
fn matches_at(v: &[u8], i: usize, p: &[u8]) -> (r: bool)
    requires
        i + p@.len() <= v.len(),
    ensures
        r == (v@.subrange(i as int, i + p@.len()) == p@),
{
    let mut j: usize = 0;
    while j < p.len()
        invariant
            i + p@.len() <= v.len(),
            j <= p@.len(),
            forall|k: int| 0 <= k < j ==> v@[i + k] == p@[k],
        decreases p@.len() - j,
    {
        if v[i + j] != p[j] {
            assert(v@.subrange(i as int, i + p@.len())[j as int] != p@[j as int]);
            return false;
        }
        j = j + 1;
    }
    assert(v@.subrange(i as int, i + p@.len()) =~= p@);
    true
}

/// The index of the first occurrence of `p` in `v` from `start` on, or the
/// length of `v`.
fn find_from(v: &[u8], start: usize, p: &[u8]) -> (r: usize)
    requires
        start <= v@.len(),
        p@.len() > 0,
    ensures
        r == start + find(v@.skip(start as int), p@),
        start <= r <= v@.len(),
        r < v@.len() ==> r + p@.len() <= v@.len() && v@.subrange(r as int, r + p@.len()) == p@,
{
    let ghost s = v@.skip(start as int);
    let mut i: usize = start;
    while i < v.len() && p.len() <= v.len() - i && !matches_at(v, i, p)
        invariant
            s == v@.skip(start as int),
            start <= i <= v@.len(),
            p@.len() > 0,
            forall|j: int|
                0 <= j < i - start && j + p@.len() <= s.len() ==> #[trigger] s.subrange(
                    j,
                    j + p@.len(),
                ) != p@,
        decreases v@.len() - i,
    {
        assert(s.subrange(i - start, i - start + p@.len()) =~= v@.subrange(i as int, i + p@.len()));
        i = i + 1;
    }
    let k = i - start;
    if i < v.len() && p.len() <= v.len() - i {
        assert(s.subrange(k as int, k + p@.len()) =~= v@.subrange(i as int, i + p@.len()));
        proof {
            lemma_find_first(s, p@, k as int);
        }
        i
    } else {
        proof {
            lemma_find_first(s, p@, k as int);
        }
        v.len()
    }
}

/// Reads a request line: method, target and version.
fn parse_request_line(line: &Vec<u8>) -> (r: Option<(String, String, u8, u8)>)
    ensures
        r is Some <==> request_line_ok(line@),
        match r {
            Some((m, t, major, minor)) => {
                &&& encode_utf8(m@) == line_method(line@)
                &&& encode_utf8(t@) == line_target(line@)
                &&& major == line_version(line@)[5] - 48
                &&& minor == line_version(line@)[7] - 48
            },
            None => true,
        },
{
    let space: [u8; 1] = [32];
    assert(space@ =~= seq![32u8]);
    assert(line@.skip(0) == line@);
    let a = find_from(line.as_slice(), 0, &space);
    if a == 0 || a >= line.len() {
        return None;
    }
    let ghost rest = after_method(line@);
    let b = find_from(line.as_slice(), a + 1, &space);
    if b == a + 1 || b >= line.len() {
        return None;
    }
    let ghost v = line_version(line@);
    assert(v == line@.skip(b + 1));
    if line.len() - (b + 1) != 8 {
        return None;
    }
    let s = b + 1;
    if !(line[s] == 72 && line[s + 1] == 84 && line[s + 2] == 84 && line[s + 3] == 80 && line[s
        + 4] == 47) {
        assert(v.take(5)[0] == line[s as int]);
        assert(v.take(5)[1] == line[s + 1]);
        assert(v.take(5)[2] == line[s + 2]);
        assert(v.take(5)[3] == line[s + 3]);
        assert(v.take(5)[4] == line[s + 4]);
        return None;
    }
    assert(v.take(5) =~= seq![72u8, 84u8, 84u8, 80u8, 47u8]);
    let d1 = line[s + 5];
    let d2 = line[s + 7];
    if !(48 <= d1 && d1 <= 57 && line[s + 6] == 46 && 48 <= d2 && d2 <= 57) {
        return None;
    }
    let method_bytes = vstd::slice::slice_to_vec(vstd::slice::slice_subrange(line.as_slice(), 0, a));
    let target_bytes = vstd::slice::slice_to_vec(
        vstd::slice::slice_subrange(line.as_slice(), a + 1, b),
    );
    assert(method_bytes@ == line_method(line@));
    assert(target_bytes@ == line_target(line@));
    let method = match string_from_utf8(method_bytes) {
        Some(m) => m,
        None => {
            return None;
        },
    };
    let target = match string_from_utf8(target_bytes) {
        Some(t) => t,
        None => {
            return None;
        },
    };
    Some((method, target, d1 - 48, d2 - 48))
}

/// Reads a header line: a name, a colon, and a value without the spaces
/// round it.
fn parse_header_line(line: &Vec<u8>) -> (r: Option<Header>)
    ensures
        r is Some <==> header_line_ok(line@),
        r is Some ==> encode_utf8(r->0.name@) == line_header_name(line@) && encode_utf8(
            r->0.value@,
        ) == line_header_value(line@),
{
    let colon: [u8; 1] = [58];
    assert(colon@ =~= seq![58u8]);
    assert(line@.skip(0) == line@);
    let c = find_from(line.as_slice(), 0, &colon);
    if c == 0 || c >= line.len() {
        return None;
    }
    let (lo, hi) = trim_bounds(line, c + 1, line.len());
    assert(line@.subrange(c + 1, line@.len() as int) == line@.skip(c + 1));
    let name_bytes = vstd::slice::slice_to_vec(vstd::slice::slice_subrange(line.as_slice(), 0, c));
    let value_bytes = vstd::slice::slice_to_vec(
        vstd::slice::slice_subrange(line.as_slice(), lo, hi),
    );
    assert(name_bytes@ == line_header_name(line@));
    let name = match string_from_utf8(name_bytes) {
        Some(n) => n,
        None => {
            return None;
        },
    };
    let value = match string_from_utf8(value_bytes) {
        Some(v) => v,
        None => {
            return None;
        },
    };
    Some(Header { name, value })
}

/// One step of cutting lines: the first line, then the lines of the rest.
proof fn lemma_split_step(s: Seq<u8>)
    ensures
        ({
            let i = find(s, crlf());
            &&& 0 <= i && i + 2 <= s.len() ==> split_lines(s) == seq![s.take(i)] + split_lines(
                s.skip(i + 2),
            )
            &&& !(0 <= i && i + 2 <= s.len()) ==> split_lines(s) == seq![s]
        }),
{
}

/// Reads the head of an HTTP/1.x request from the start of `bytes`: the
/// request line, then header lines, up to the first empty line. Gives the
/// request and the number of bytes the head took; an `IoError` where the
/// head is not complete yet.
pub fn parse_request(bytes: &[u8]) -> (r: Result<(Request, usize), WebSocketError>)
    ensures
        ({
            let e = find(bytes@, head_terminator());
            let lines = split_lines(bytes@.take(e));
            &&& e >= bytes@.len() ==> r == Err::<(Request, usize), WebSocketError>(
                WebSocketError::IoError,
            )
            &&& e < bytes@.len() && !head_ok(lines) ==> r == Err::<(Request, usize), WebSocketError>(
                WebSocketError::HandshakeError(HandshakeErrorKind::MalformedRequest),
            )
            &&& e < bytes@.len() && head_ok(lines) ==> match r {
                Ok((req, n)) => n == e + 4 && request_of_lines(req, lines),
                Err(_) => false,
            }
        }),
{
    let terminator: [u8; 4] = [13, 10, 13, 10];
    assert(terminator@ =~= head_terminator());
    assert(bytes@.skip(0) == bytes@);
    let e = find_from(bytes, 0, &terminator);
    if e >= bytes.len() {
        return Err(WebSocketError::IoError);
    }
    let head = vstd::slice::slice_to_vec(vstd::slice::slice_subrange(bytes, 0, e));
    let ghost lines = split_lines(head@);
    assert(head@ == bytes@.take(e as int));
    let line_break: [u8; 2] = [13, 10];
    assert(line_break@ =~= crlf());
    let mut pos: usize = 0;
    let mut method = String::new();
    let mut path = String::new();
    let mut major: u8 = 0;
    let mut minor: u8 = 0;
    let mut headers: Vec<Header> = Vec::new();
    let mut first = true;
    let ghost mut done: Seq<Seq<u8>> = Seq::empty();
    assert(head@.skip(0) == head@);
    loop
        invariant
            e == find(bytes@, head_terminator()),
            e + 4 <= bytes.len(),
            head@ == bytes@.take(e as int),
            pos <= head@.len(),
            lines == split_lines(head@),
            lines == done + split_lines(head@.skip(pos as int)),
            first == (done.len() == 0),
            first ==> headers@.len() == 0,
            line_break@ == crlf(),
            !first ==> {
                &&& request_line_ok(done[0])
                &&& encode_utf8(method@) == line_method(done[0])
                &&& encode_utf8(path@) == line_target(done[0])
                &&& major == line_version(done[0])[5] - 48
                &&& minor == line_version(done[0])[7] - 48
                &&& headers@.len() + 1 == done.len()
                &&& forall|i: int| 1 <= i < done.len() ==> #[trigger] header_line_ok(done[i])
                &&& forall|i: int|
                    0 <= i < headers@.len() ==> {
                        &&& encode_utf8(headers@[i].name@) == line_header_name(
                            #[trigger] done[i + 1],
                        )
                        &&& encode_utf8(headers@[i].value@) == line_header_value(done[i + 1])
                    }
            },
        decreases head@.len() - pos,
    {
        let ghost rest = head@.skip(pos as int);
        let i = find_from(head.as_slice(), pos, &line_break);
        let line = vstd::slice::slice_to_vec(vstd::slice::slice_subrange(head.as_slice(), pos, i));
        proof {
            lemma_split_step(rest);
            assert(line@ == rest.take(i - pos));
            assert(split_lines(rest)[0] == line@);
            assert(lines[done.len() as int] == line@);
        }
        let ghost old_done = done;
        let ghost old_headers = headers@;
        let ghost was_first = first;
        if first {
            match parse_request_line(&line) {
                Some((m, t, ma, mi)) => {
                    method = m;
                    path = t;
                    major = ma;
                    minor = mi;
                },
                None => {
                    assert(!request_line_ok(lines[0]));
                    return Err(WebSocketError::HandshakeError(HandshakeErrorKind::MalformedRequest));
                },
            }
            first = false;
        } else {
            match parse_header_line(&line) {
                Some(h) => {
                    headers.push(h);
                },
                None => {
                    assert(!header_line_ok(lines[done.len() as int]));
                    return Err(WebSocketError::HandshakeError(HandshakeErrorKind::MalformedRequest));
                },
            }
        }
        proof {
            done = done.push(line@);
            assert(done[old_done.len() as int] == line@);
            if was_first {
                assert(done[0] == line@);
            } else {
                assert(done[0] == old_done[0]);
                assert(headers@ == old_headers.push(headers@.last()));
                assert forall|k: int| 1 <= k < done.len() implies #[trigger] header_line_ok(done[k]) by {
                    if k < old_done.len() {
                        assert(done[k] == old_done[k]);
                    }
                }
                assert forall|k: int| 0 <= k < headers@.len() implies {
                    &&& encode_utf8(headers@[k].name@) == line_header_name(#[trigger] done[k + 1])
                    &&& encode_utf8(headers@[k].value@) == line_header_value(done[k + 1])
                } by {
                    if k < old_headers.len() {
                        assert(done[k + 1] == old_done[k + 1]);
                        assert(headers@[k] == old_headers[k]);
                    }
                }
            }
        }
        if i >= head.len() {
            proof {
                assert(split_lines(rest) == seq![line@]);
                assert(lines == done);
            }
            let req = Request { method, path, version_major: major, version_minor: minor, headers };
            return Ok((req, e + 4));
        }
        proof {
            assert(rest.skip(i - pos + 2) == head@.skip(i + 2));
            assert(lines == done + split_lines(head@.skip(i + 2)));
        }
        pos = i + 2;
    }
}

} // verus!
