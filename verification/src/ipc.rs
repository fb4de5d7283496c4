//! The line protocol spoken over the named pipe between a short-lived
//! instance (which forwards a URL) and the resident instance (which opens it).
//!
//! A client writes one line, `BROWS-OPEN <url>` or `BROWS-EXIT`, ended by a
//! newline; the resident answers `BROWS-OK` when it accepted the request.
//! The pipe is named after the user's SID and its DACL admits only that user
//! and SYSTEM. The pipe calls themselves are made by the application.

use vstd::prelude::*;
use vstd::utf8::{decode_utf8, encode_utf8, valid_utf8};
use crate::text::{chars_of, find, find_chars, is_space, starts_with, string_from, trim, trim_bounds};

verus! {

/// Size of the pipe's buffers, and the most a request line is read up to.
pub const BUF_SIZE: u32 = 8192;

/// A request that the resident instance accepts.
pub enum Request {
    /// Open this URL.
    Open(String),
    /// Quit (sent before a self-update replaces the executable).
    Exit,
}

/// What a [`Request`] is, as a value.
pub enum RequestView {
    Open(Seq<char>),
    Exit,
}

impl View for Request {
    type V = RequestView;

    open spec fn view(&self) -> RequestView {
        match self {
            Request::Open(u) => RequestView::Open(u@),
            Request::Exit => RequestView::Exit,
        }
    }
}

/// The prefix of an open request.
pub open spec fn open_tag() -> Seq<char> {
    seq!['B', 'R', 'O', 'W', 'S', '-', 'O', 'P', 'E', 'N', ' ']
}

/// The exit request.
pub open spec fn exit_tag() -> Seq<char> {
    seq!['B', 'R', 'O', 'W', 'S', '-', 'E', 'X', 'I', 'T']
}

/// The acknowledgement.
pub open spec fn ack_tag() -> Seq<char> {
    seq!['B', 'R', 'O', 'W', 'S', '-', 'O', 'K']
}

/// `http`, which every forwarded URL starts with.
pub open spec fn http() -> Seq<char> {
    seq!['h', 't', 't', 'p']
}

/// The line that carries a request.
pub open spec fn request_line_spec(r: RequestView) -> Seq<char> {
    match r {
        RequestView::Open(url) => open_tag() + url,
        RequestView::Exit => exit_tag(),
    }
}

/// The bytes written for one line: the line, a newline, in UTF-8.
pub open spec fn frame_spec(line: Seq<char>) -> Seq<u8> {
    encode_utf8(line.push('\n'))
}

/// The first line of a text, as `str::lines().next().unwrap_or("")` gives it:
/// everything before the first `\n`, without a `\r` that stands right before it.
pub open spec fn first_line(t: Seq<char>) -> Seq<char> {
    match find(t, seq!['\n']) {
        Some(i) => if i > 0 && t[i - 1] == '\r' {
            t.take(i - 1)
        } else {
            t.take(i)
        },
        None => t,
    }
}

/// Lossy UTF-8 decoding, as `String::from_utf8_lossy` does it.
pub uninterp spec fn utf8_lossy(b: Seq<u8>) -> Seq<char>;

/// The line a reader takes from the bytes it received: nothing when nothing
/// arrived, otherwise the first line of their lossy decoding.
pub open spec fn received_line(b: Seq<u8>) -> Option<Seq<char>> {
    if b.len() == 0 {
        None
    } else {
        Some(first_line(utf8_lossy(b)))
    }
}

/// The request a resident takes from a received line: the trimmed line must
/// be `BROWS-OPEN ` followed by a URL that starts with `http`, or exactly
/// `BROWS-EXIT`. Anything else is refused and gets no acknowledgement.
pub open spec fn parse_request_spec(line: Seq<char>) -> Option<RequestView> {
    let t = trim(line);
    if starts_with(t, open_tag()) {
        let url = t.skip(open_tag().len() as int);
        if starts_with(url, http()) {
            Some(RequestView::Open(url))
        } else {
            None
        }
    } else if t == exit_tag() {
        Some(RequestView::Exit)
    } else {
        None
    }
}

/// A reply acknowledges a request when its trimmed first line is `BROWS-OK`.
pub open spec fn is_ack_spec(reply: Option<Seq<char>>) -> bool {
    match reply {
        Some(l) => trim(l) == ack_tag(),
        None => false,
    }
}

/// Reading stops once a newline arrived or more than [`BUF_SIZE`] bytes did.
pub open spec fn read_done_spec(b: Seq<u8>) -> bool {
    b.contains(10u8) || b.len() > BUF_SIZE
}

/// The pipe's name: per user when the SID is known.
pub open spec fn pipe_name_spec(sid: Option<Seq<char>>) -> Seq<char> {
    match sid {
        Some(s) => seq!['\\', '\\', '.', '\\', 'p', 'i', 'p', 'e', '\\', 'b', 'r', 'o', 'w', 's', '.'] + s,
        None => seq!['\\', '\\', '.', '\\', 'p', 'i', 'p', 'e', '\\', 'b', 'r', 'o', 'w', 's'],
    }
}

/// The pipe's security descriptor (SDDL): full access for the user and for SYSTEM only.
pub open spec fn pipe_sddl_spec(sid: Seq<char>) -> Seq<char> {
    seq!['D', ':', '(', 'A', ';', ';', 'G', 'A', ';', ';', ';'] + sid + seq![
        ')',
        '(',
        'A',
        ';',
        ';',
        'G',
        'A',
        ';',
        ';',
        ';',
        'S',
        'Y',
        ')',
    ]
}

/// `String::from_utf8_lossy`: decodes UTF-8 and puts U+FFFD in place of each
/// invalid sequence. The contract names the result and states the documented
/// fact that valid UTF-8 comes back unchanged; how invalid input is
/// replaced is left unsaid.
#[verifier::external_body]
fn decode_lossy(b: &[u8]) -> (r: String)
    ensures
        r@ == utf8_lossy(b@),
        valid_utf8(b@) ==> r@ == decode_utf8(b@),
{
    String::from_utf8_lossy(b).into_owned()
}

/// Appends the characters of `s` to `out`.
pub fn push_str(out: &mut String, s: &str)
    ensures
        final(out)@ == old(out)@ + s@,
{
    let v = chars_of(s);
    let mut i: usize = 0;
    while i < v.len()
        invariant
            i <= v.len(),
            v@ == s@,
            out@ == old(out)@ + v@.take(i as int),
        decreases v.len() - i,
    {
        out.push(v[i]);
        assert(v@.take(i + 1) == v@.take(i as int).push(v@[i as int]));
        i += 1;
    }
    assert(v@.take(v.len() as int) =~= v@);
}

/// Builds a string from a literal's characters.
fn literal(s: &str) -> (r: String)
    ensures
        r@ == s@,
{
    let mut r = String::new();
    push_str(&mut r, s);
    assert(r@ =~= s@);
    r
}

/// The line that carries `req`.
pub fn request_line(req: &Request) -> (line: String)
    ensures
        line@ == request_line_spec(req@),
{
    match req {
        Request::Open(url) => {
            let mut line = literal("BROWS-OPEN ");
            proof {
                reveal_strlit("BROWS-OPEN ");
            }
            push_str(&mut line, url.as_str());
            line
        },
        Request::Exit => {
            let line = literal("BROWS-EXIT");
            proof {
                reveal_strlit("BROWS-EXIT");
                assert(line@ =~= exit_tag());
            }
            line
        },
    }
}

/// The bytes written for `line`.
pub fn frame(line: &str) -> (b: Vec<u8>)
    ensures
        b@ == frame_spec(line@),
{
    let mut s = literal(line);
    s.push('\n');
    s.as_str().as_bytes_vec()
}

/// Has reading a line finished?
pub fn read_done(b: &Vec<u8>) -> (r: bool)
    ensures
        r == read_done_spec(b@),
{
    let mut i: usize = 0;
    while i < b.len()
        invariant
            i <= b.len(),
            forall|j: int| 0 <= j < i ==> b@[j] != 10u8,
        decreases b.len() - i,
    {
        if b[i] == 10u8 {
            assert(b@.contains(10u8));
            return true;
        }
        i += 1;
    }
    b.len() > 8192
}

/// The line taken from the received bytes.
pub fn received(b: &Vec<u8>) -> (r: Option<String>)
    ensures
        r matches Some(l) ==> received_line(b@) == Some(l@),
        r is None ==> received_line(b@) is None,
        b@.len() > 0 && valid_utf8(b@) ==> (r matches Some(l) && l@ == first_line(decode_utf8(b@))),
{
    if b.len() == 0 {
        return None;
    }
    let text = decode_lossy(b.as_slice());
    Some(first_line_of(text.as_str()))
}

/// The first line of `t`.
pub fn first_line_of(t: &str) -> (r: String)
    ensures
        r@ == first_line(t@),
{
    let v = chars_of(t);
    let mut nl: Vec<char> = Vec::new();
    nl.push('\n');
    assert(nl@ =~= seq!['\n']);
    proof {
        crate::text::lemma_find(v@, nl@);
    }
    match find_chars(&v, &nl) {
        Some(i) => {
            if i > 0 && v[i - 1] == '\r' {
                string_from(&v, 0, i - 1)
            } else {
                string_from(&v, 0, i)
            }
        },
        None => string_from(&v, 0, v.len()),
    }
}

/// Takes the request from a received line, as the resident does.
pub fn parse_request(line: &str) -> (r: Option<Request>)
    ensures
        r matches Some(q) ==> parse_request_spec(line@) == Some(q@),
        r is None ==> parse_request_spec(line@) is None,
{
    let v = chars_of(line);
    let (a, b) = trim_bounds(&v);
    let ghost t = trim(line@);
    let tag = chars_of("BROWS-OPEN ");
    let exit = chars_of("BROWS-EXIT");
    proof {
        reveal_strlit("BROWS-OPEN ");
        reveal_strlit("BROWS-EXIT");
        assert(tag@ =~= open_tag());
        assert(exit@ =~= exit_tag());
    }
    let n = tag.len();
    if b - a >= n && matches_in(&v, a, &tag) {
        proof {
            assert(v@.subrange(a as int, a + n) =~= t.subrange(0, n as int));
        }
        let u = a + n;
        let is_http = b - u >= 4 && v[u] == 'h' && v[u + 1] == 't' && v[u + 2] == 't' && v[u + 3] == 'p';
        proof {
            let url = t.skip(n as int);
            assert(url =~= v@.subrange(u as int, b as int));
            if b - u >= 4 {
                assert(url.subrange(0, 4) =~= seq![v@[u as int], v@[u + 1], v@[u + 2], v@[u + 3]]);
            }
        }
        if !is_http {
            return None;
        }
        return Some(Request::Open(string_from(&v, u, b)));
    }
    proof {
        if t.len() >= n {
            assert(v@.subrange(a as int, a + n) =~= t.subrange(0, n as int));
        }
    }
    if b - a == exit.len() && matches_in(&v, a, &exit) {
        proof {
            assert(v@.subrange(a as int, a + exit.len()) =~= t);
        }
        return Some(Request::Exit);
    }
    proof {
        if t.len() == exit.len() {
            assert(v@.subrange(a as int, a + exit.len()) =~= t);
        }
    }
    None
}

/// Does `p` stand in `v` at position `i`?
fn matches_in(v: &Vec<char>, i: usize, p: &Vec<char>) -> (r: bool)
    requires
        i + p.len() <= v.len(),
    ensures
        r == (v@.subrange(i as int, i + p.len()) == p@),
{
    crate::text::matches_at(v, p, i)
}

/// Does the reply acknowledge the request?
pub fn is_ack(reply: &Option<String>) -> (r: bool)
    ensures
        r == is_ack_spec(match reply { Some(l) => Some(l@), None => None }),
{
    match reply {
        None => false,
        Some(l) => {
            let v = chars_of(l.as_str());
            let (a, b) = trim_bounds(&v);
            let ack = chars_of("BROWS-OK");
            proof {
                reveal_strlit("BROWS-OK");
                assert(ack@ =~= ack_tag());
            }
            if b - a != ack.len() {
                return false;
            }
            let r = matches_in(&v, a, &ack);
            proof {
                assert(v@.subrange(a as int, a + ack.len()) =~= trim(l@));
            }
            r
        },
    }
}

/// `send_open`'s line: asks the resident to open `url`.
pub fn open_line(url: &str) -> (line: String)
    ensures
        line@ == request_line_spec(RequestView::Open(url@)),
{
    let mut line = literal("BROWS-OPEN ");
    proof {
        reveal_strlit("BROWS-OPEN ");
    }
    push_str(&mut line, url);
    line
}

/// `send_exit`'s line: asks the resident to quit.
pub fn exit_line() -> (line: String)
    ensures
        line@ == request_line_spec(RequestView::Exit),
{
    request_line(&Request::Exit)
}

/// The bytes that ask the resident instance to open `url`.
pub fn send_open(url: &str) -> (b: Vec<u8>)
    ensures
        b@ == frame_spec(request_line_spec(RequestView::Open(url@))),
{
    let line = open_line(url);
    frame(line.as_str())
}

/// The bytes that ask the resident instance to quit.
pub fn send_exit() -> (b: Vec<u8>)
    ensures
        b@ == frame_spec(request_line_spec(RequestView::Exit)),
{
    let line = exit_line();
    frame(line.as_str())
}

/// The acknowledgement line.
pub fn ack_line() -> (line: String)
    ensures
        line@ == ack_tag(),
{
    let line = literal("BROWS-OK");
    proof {
        reveal_strlit("BROWS-OK");
        assert(line@ =~= ack_tag());
    }
    line
}

/// The pipe's name for the user with this SID (or the shared name when the SID is unknown).
pub fn pipe_name(sid: Option<&str>) -> (r: String)
    ensures
        r@ == pipe_name_spec(match sid { Some(s) => Some(s@), None => None }),
{
    match sid {
        Some(s) => {
            let mut r = literal("\\\\.\\pipe\\brows.");
            proof {
                reveal_strlit("\\\\.\\pipe\\brows.");
            }
            push_str(&mut r, s);
            r
        },
        None => {
            let r = literal("\\\\.\\pipe\\brows");
            proof {
                reveal_strlit("\\\\.\\pipe\\brows");
                assert(r@ =~= pipe_name_spec(None));
            }
            r
        },
    }
}

/// The pipe's security descriptor for the user with this SID.
pub fn pipe_sddl(sid: &str) -> (r: String)
    ensures
        r@ == pipe_sddl_spec(sid@),
{
    let mut r = literal("D:(A;;GA;;;");
    proof {
        reveal_strlit("D:(A;;GA;;;");
    }
    push_str(&mut r, sid);
    push_str(&mut r, ")(A;;GA;;;SY)");
    proof {
        reveal_strlit(")(A;;GA;;;SY)");
        assert(r@ =~= pipe_sddl_spec(sid@));
    }
    r
}

/// A line without a newline that does not end in `\r` is what the reader
/// takes back from its frame.
pub proof fn lemma_frame_first_line(line: Seq<char>)
    requires
        forall|i: int| 0 <= i < line.len() ==> line[i] != '\n',
        line.len() > 0 ==> line.last() != '\r',
    ensures
        first_line(decode_utf8(frame_spec(line))) == line,
{
    let t = line.push('\n');
    vstd::utf8::encode_utf8_decode_utf8(t);
    crate::text::lemma_find(t, seq!['\n']);
    assert(t.subrange(line.len() as int, line.len() + 1int) =~= seq!['\n']);
    assert(crate::text::occurs_at(t, seq!['\n'], line.len() as int));
    assert forall|j: int| 0 <= j < line.len() implies !crate::text::occurs_at(t, seq!['\n'], j) by {
        assert(t.subrange(j, j + 1)[0] == line[j]);
    }
    assert(t.take(line.len() as int) =~= line);
}

/// A text whose ends are not white space is its own trim.
pub proof fn lemma_trim_unspaced(s: Seq<char>)
    requires
        s.len() > 0,
        !is_space(s[0]),
        !is_space(s.last()),
    ensures
        trim(s) == s,
{
    assert(s.skip(0) =~= s);
    assert(s.take(s.len() as int) =~= s);
}

/// Every URL that the resident would accept, forwarded by a client, reaches
/// the resident as the same request: the line `send_open` writes for it,
/// framed, received and parsed, gives back `Open(url)` (and is therefore
/// acknowledged). The URL must start with `http`, hold no newline, and not end
/// in white space, which the trimming on the receiving side would remove.
pub proof fn law_open_request_roundtrip(url: Seq<char>)
    requires
        starts_with(url, http()),
        forall|i: int| 0 <= i < url.len() ==> url[i] != '\n',
        !is_space(url.last()),
    ensures
        first_line(decode_utf8(frame_spec(request_line_spec(RequestView::Open(url))))) == request_line_spec(RequestView::Open(url)),
        parse_request_spec(request_line_spec(RequestView::Open(url))) == Some(RequestView::Open(url)),
{
    let line = open_tag() + url;
    assert(url[0] == http()[0]);
    assert forall|i: int| 0 <= i < line.len() implies line[i] != '\n' by {
        if i >= open_tag().len() {
            assert(line[i] == url[i - open_tag().len()]);
        }
    }
    assert(line.last() == url.last());
    assert(is_space('\r'));
    lemma_frame_first_line(line);
    lemma_trim_unspaced(line);
    assert(line.subrange(0, open_tag().len() as int) =~= open_tag());
    assert(line.skip(open_tag().len() as int) =~= url);
}

/// The exit request reaches the resident as the exit request.
pub proof fn law_exit_request_roundtrip()
    ensures
        first_line(decode_utf8(frame_spec(request_line_spec(RequestView::Exit)))) == exit_tag(),
        parse_request_spec(first_line(decode_utf8(frame_spec(request_line_spec(RequestView::Exit)))))
            == Some(RequestView::Exit),
{
    let line = exit_tag();
    assert forall|i: int| 0 <= i < line.len() implies line[i] != '\n' by {}
    lemma_frame_first_line(line);
    lemma_trim_unspaced(line);
}

/// The resident's acknowledgement is recognised by the client.
pub proof fn law_ack_roundtrip()
    ensures
        is_ack_spec(Some(first_line(decode_utf8(frame_spec(ack_tag()))))),
{
    let line = ack_tag();
    assert forall|i: int| 0 <= i < line.len() implies line[i] != '\n' by {}
    lemma_frame_first_line(line);
    lemma_trim_unspaced(line);
}

} // verus!
