use vstd::prelude::*;
use vstd::string::StringSliceAdditionalSpecFns;
use crate::bytes::copy_range;
use crate::text::{
    find, lemma_ascii_length, matches_at, number, parse_number, position, push_str,
};

verus! {

/// The port that is tried where a URL names neither a port nor a scheme.
pub const DEFAULT_PORT: u16 = 8332;

/// The most bytes of a response body that are read.
pub const FINAL_RESP_ALLOC: u64 = 1024 * 1024 * 1024;

/// Why a URL or a response is refused.
#[derive(Clone, Copy, Debug, PartialEq, Eq, Structural)]
pub enum HttpError {
    /// The URL names a scheme other than `http` and `https`.
    Scheme,
    /// The response is not what the REST interface answers.
    Rest,
}

impl HttpError {
    /// The text of the message, as a view.
    pub open spec fn text(self) -> Seq<char> {
        match self {
            HttpError::Scheme => "url scheme should be http or https"@,
            HttpError::Rest => "REST error"@,
        }
    }

    /// The message that tells a user of the failure.
    pub fn message(&self) -> (message: String)
        ensures
            message@ == self.text(),
    {
        match self {
            HttpError::Scheme => "url scheme should be http or https".to_owned(),
            HttpError::Rest => "REST error".to_owned(),
        }
    }
}

/// What a URL says of where to connect: the host, with its port where the
/// URL names one; the port to try where it names none; and the path.
#[derive(Clone, Debug, PartialEq, Eq)]
pub struct Url {
    pub host: Vec<u8>,
    pub fallback_port: u16,
    pub path: Vec<u8>,
}

/// The parts of a URL as byte strings.
pub ghost struct UrlView {
    pub host: Seq<u8>,
    pub fallback_port: u16,
    pub path: Seq<u8>,
}

impl View for Url {
    type V = UrlView;

    open spec fn view(&self) -> UrlView {
        UrlView { host: self.host@, fallback_port: self.fallback_port, path: self.path@ }
    }
}

/// The port that goes with a scheme: 80 with `http`, 443 with `https`,
/// none with any other.
pub open spec fn scheme_port(scheme: Seq<u8>) -> Option<u16> {
    if scheme == "http".spec_bytes() {
        Some(80u16)
    } else if scheme == "https".spec_bytes() {
        Some(443u16)
    } else {
        None
    }
}

/// What follows the first `@` of `authority`, or all of it.
pub open spec fn after_auth(authority: Seq<u8>) -> Seq<u8> {
    match position(authority, "@".spec_bytes()) {
        Some(at) => authority.skip(at + 1),
        None => authority,
    }
}

/// The host and the path of a URL without its scheme: the path begins at
/// the first slash and is `/` where there is none; the host is what
/// stands before the path, after the first `@` of it.
pub open spec fn host_and_path(rest: Seq<u8>, fallback_port: u16) -> UrlView {
    match position(rest, "/".spec_bytes()) {
        Some(slash) => UrlView {
            host: after_auth(rest.take(slash)),
            fallback_port,
            path: rest.skip(slash),
        },
        None => UrlView { host: after_auth(rest), fallback_port, path: "/".spec_bytes() },
    }
}

/// What a URL says: where `://` occurs, what stands before the first of
/// them is the scheme, which must be `http` or `https` and sets the port
/// to fall back to; without a scheme that port is 8332.
pub open spec fn parsed_url(url: Seq<u8>) -> Result<UrlView, HttpError> {
    match position(url, "://".spec_bytes()) {
        Some(colon) => match scheme_port(url.take(colon)) {
            Some(port) => Ok(host_and_path(url.skip(colon + 3), port)),
            None => Err(HttpError::Scheme),
        },
        None => Ok(host_and_path(url, DEFAULT_PORT)),
    }
}

/// The view of what `check_url` returns.
pub open spec fn url_view(r: Result<Url, HttpError>) -> Result<UrlView, HttpError> {
    match r {
        Ok(url) => Ok(url@),
        Err(error) => Err(error),
    }
}

/// Whether the bytes from `start` up to `end` are the bytes of `word`.
fn is_word(text: &[u8], start: usize, end: usize, word: &str) -> (r: bool)
    requires
        start <= end <= text@.len(),
    ensures
        r == (text@.subrange(start as int, end as int) == word.spec_bytes()),
{
    let bytes = word.as_bytes();
    if end - start != bytes.len() {
        return false;
    }
    let r = matches_at(text, bytes, start);
    r
}

/// Splits the scheme off a URL: where what follows it begins, and the
/// port that goes with it.
fn split_scheme(bytes: &[u8]) -> (r: Result<(usize, u16), HttpError>)
    ensures
        match r {
            Ok((start, port)) => start <= bytes@.len() && parsed_url(bytes@) == Ok::<
                UrlView,
                HttpError,
            >(host_and_path(bytes@.skip(start as int), port)),
            Err(error) => parsed_url(bytes@) == Err::<UrlView, HttpError>(error),
        },
{
    proof {
        reveal_strlit("://");
        lemma_ascii_length("://"@);
        assert("://".spec_bytes().len() == 3);
    }
    let pattern = "://".as_bytes();
    let length: usize = bytes.len();
    match find(bytes, pattern) {
        Some(colon) => {
            assert(colon + 3 <= length);
            assert(bytes@.subrange(0, colon as int) =~= bytes@.take(colon as int));
            if is_word(bytes, 0, colon, "http") {
                Ok((colon + 3, 80))
            } else if is_word(bytes, 0, colon, "https") {
                Ok((colon + 3, 443))
            } else {
                Err(HttpError::Scheme)
            }
        },
        None => {
            assert(bytes@.skip(0) =~= bytes@);
            Ok((0, DEFAULT_PORT))
        },
    }
}

/// Splits what follows the scheme into host and path.
fn split_host(rest: &[u8], fallback_port: u16) -> (url: Url)
    ensures
        url@ == host_and_path(rest@, fallback_port),
{
    proof {
        reveal_strlit("/");
        reveal_strlit("@");
        lemma_ascii_length("/"@);
        lemma_ascii_length("@"@);
    }
    let (stop, path) = match find(rest, "/".as_bytes()) {
        Some(slash) => {
            assert(rest@.subrange(slash as int, rest@.len() as int) =~= rest@.skip(slash as int));
            (slash, copy_range(rest, slash, rest.len()))
        },
        None => {
            let mut path: Vec<u8> = Vec::new();
            push_str(&mut path, "/");
            assert(path@ =~= "/".spec_bytes());
            assert(rest@.take(rest@.len() as int) =~= rest@);
            (rest.len(), path)
        },
    };
    let before = vstd::slice::slice_subrange(rest, 0, stop);
    assert(before@ =~= rest@.take(stop as int));
    let host = match find(before, "@".as_bytes()) {
        Some(at) => {
            assert(before@.subrange(at + 1, before@.len() as int) =~= before@.skip(at + 1));
            copy_range(before, at + 1, before.len())
        },
        None => {
            assert(before@.subrange(0, before@.len() as int) =~= before@);
            copy_range(before, 0, before.len())
        },
    };
    Url { host, fallback_port, path }
}

/// Takes a URL apart, as far as connecting needs it: the host with its
/// port, if it has one; the port to fall back to; and the path.
pub fn check_url(url: &str) -> (r: Result<Url, HttpError>)
    ensures
        url_view(r) == parsed_url(url.spec_bytes()),
{
    let bytes = url.as_bytes();
    match split_scheme(bytes) {
        Ok((start, port)) => {
            let rest = vstd::slice::slice_subrange(bytes, start, bytes.len());
            assert(rest@ =~= bytes@.skip(start as int));
            Ok(split_host(rest, port))
        },
        Err(error) => Err(error),
    }
}

/// The request for `path` that is sent to `host`.
pub open spec fn request_text(path: Seq<u8>, host: Seq<u8>) -> Seq<u8> {
    "GET ".spec_bytes() + path + " HTTP/1.1\r\nhost: ".spec_bytes() + host
        + "\r\n\r\n".spec_bytes()
}

/// The bytes of the request for `path` that is sent to `host`.
pub fn request_bytes(path: &str, host: &str) -> (request: Vec<u8>)
    ensures
        request@ == request_text(path.spec_bytes(), host.spec_bytes()),
{
    let mut request: Vec<u8> = Vec::new();
    push_str(&mut request, "GET ");
    push_str(&mut request, path);
    push_str(&mut request, " HTTP/1.1\r\nhost: ");
    push_str(&mut request, host);
    push_str(&mut request, "\r\n\r\n");
    assert(request@ =~= request_text(path.spec_bytes(), host.spec_bytes()));
    request
}

/// How many bytes the white space at the front of `text` takes up, if a
/// character of white space stands there: the characters of white space
/// are those of Unicode, in UTF-8.
pub open spec fn space_at_start(text: Seq<u8>) -> nat {
    if text.len() >= 1 && (0x09 <= text[0] <= 0x0d || text[0] == 0x20) {
        1
    } else if text.len() >= 2 && text[0] == 0xc2 && (text[1] == 0x85 || text[1] == 0xa0) {
        2
    } else if text.len() >= 3 && is_wide_space(text[0], text[1], text[2]) {
        3
    } else {
        0
    }
}

/// Whether three bytes encode a character of white space.
pub open spec fn is_wide_space(a: u8, b: u8, c: u8) -> bool {
    ||| a == 0xe1 && b == 0x9a && c == 0x80
    ||| a == 0xe2 && b == 0x80 && (0x80 <= c <= 0x8a || c == 0xa8 || c == 0xa9 || c == 0xaf)
    ||| a == 0xe2 && b == 0x81 && c == 0x9f
    ||| a == 0xe3 && b == 0x80 && c == 0x80
}

/// How many bytes the white space at the end of `text` takes up, if a
/// character of white space stands there.
pub open spec fn space_at_end(text: Seq<u8>) -> nat {
    let n = text.len() as int;
    if n >= 1 && (0x09 <= text[n - 1] <= 0x0d || text[n - 1] == 0x20) {
        1
    } else if n >= 2 && text[n - 2] == 0xc2 && (text[n - 1] == 0x85 || text[n - 1] == 0xa0) {
        2
    } else if n >= 3 && is_wide_space(text[n - 3], text[n - 2], text[n - 1]) {
        3
    } else {
        0
    }
}

/// The text without the white space at its front.
pub open spec fn trim_start(text: Seq<u8>) -> Seq<u8>
    decreases text.len(),
{
    if space_at_start(text) == 0 {
        text
    } else {
        trim_start(text.skip(space_at_start(text) as int))
    }
}

/// The text without the white space at its end.
pub open spec fn trim_end(text: Seq<u8>) -> Seq<u8>
    decreases text.len(),
{
    if space_at_end(text) == 0 {
        text
    } else {
        trim_end(text.take(text.len() - space_at_end(text)))
    }
}

/// The text without the white space at its front and at its end.
pub open spec fn trimmed(text: Seq<u8>) -> Seq<u8> {
    trim_end(trim_start(text))
}

/// Whether three bytes encode a character of white space.
fn wide_space(a: u8, b: u8, c: u8) -> (r: bool)
    ensures
        r == is_wide_space(a, b, c),
{
    (a == 0xe1 && b == 0x9a && c == 0x80) || (a == 0xe2 && b == 0x80 && ((0x80 <= c && c <= 0x8a)
        || c == 0xa8 || c == 0xa9 || c == 0xaf)) || (a == 0xe2 && b == 0x81 && c == 0x9f) || (a
        == 0xe3 && b == 0x80 && c == 0x80)
}

/// Where the text from `start` up to `end` begins and ends once the white
/// space at its front and at its end is left out.
pub fn trim(text: &[u8], start: usize, end: usize) -> (r: (usize, usize))
    requires
        start <= end <= text@.len(),
    ensures
        start <= r.0 <= r.1 <= end,
        text@.subrange(r.0 as int, r.1 as int) == trimmed(text@.subrange(start as int, end as int)),
{
    let mut from: usize = start;
    loop
        invariant
            start <= from <= end <= text@.len(),
            trim_start(text@.subrange(start as int, end as int)) == trim_start(
                text@.subrange(from as int, end as int),
            ),
        ensures
            start <= from <= end,
            trim_start(text@.subrange(start as int, end as int)) == text@.subrange(
                from as int,
                end as int,
            ),
        decreases end - from,
    {
        let ghost left = text@.subrange(from as int, end as int);
        let rest: usize = end - from;
        let step: usize = if rest >= 1 && ((0x09 <= text[from] && text[from] <= 0x0d)
            || text[from] == 0x20) {
            1
        } else if rest >= 2 && text[from] == 0xc2 && (text[from + 1] == 0x85 || text[from + 1]
            == 0xa0) {
            2
        } else if rest >= 3 && wide_space(text[from], text[from + 1], text[from + 2]) {
            3
        } else {
            0
        };
        assert(step == space_at_start(left));
        if step == 0 {
            break ;
        }
        assert(left.skip(step as int) =~= text@.subrange(from + step, end as int));
        from = from + step;
    }
    let mut to: usize = end;
    loop
        invariant
            from <= to <= end <= text@.len(),
            trim_end(text@.subrange(from as int, end as int)) == trim_end(
                text@.subrange(from as int, to as int),
            ),
        ensures
            from <= to <= end,
            trim_end(text@.subrange(from as int, end as int)) == text@.subrange(
                from as int,
                to as int,
            ),
        decreases to - from,
    {
        let ghost left = text@.subrange(from as int, to as int);
        let rest: usize = to - from;
        let step: usize = if rest >= 1 && ((0x09 <= text[to - 1] && text[to - 1] <= 0x0d)
            || text[to - 1] == 0x20) {
            1
        } else if rest >= 2 && text[to - 2] == 0xc2 && (text[to - 1] == 0x85 || text[to - 1]
            == 0xa0) {
            2
        } else if rest >= 3 && wide_space(text[to - 3], text[to - 2], text[to - 1]) {
            3
        } else {
            0
        };
        assert(step == space_at_end(left));
        if step == 0 {
            break ;
        }
        assert(left.take(left.len() - step) =~= text@.subrange(from as int, to - step));
        to = to - step;
    }
    (from, to)
}

/// The status code that the first line of a response gives: the line
/// begins with `HTTP/1.1 ` and goes on with a number of three
/// characters.
pub open spec fn status_of(line: Seq<u8>) -> Result<u16, HttpError> {
    if line.len() >= 12 && line.take(9) == "HTTP/1.1 ".spec_bytes() {
        match number(line.subrange(9, 12), u16::MAX as nat) {
            Some(code) => Ok(code as u16),
            None => Err(HttpError::Rest),
        }
    } else {
        Err(HttpError::Rest)
    }
}

/// What a line of the head of a response says.
#[derive(Clone, Copy, Debug, PartialEq, Eq, Structural)]
pub enum Header {
    /// The empty line that ends the head.
    End,
    /// The length of the body.
    ContentLength(u64),
    /// Anything else.
    Other,
}

/// The lower-case letter of an upper-case ASCII letter; any other byte
/// stays as it is.
pub open spec fn lower(byte: u8) -> u8 {
    if 0x41 <= byte <= 0x5a {
        (byte + 0x20) as u8
    } else {
        byte
    }
}

/// The bytes with their ASCII letters in lower case.
pub open spec fn lowered(text: Seq<u8>) -> Seq<u8> {
    Seq::new(text.len(), |i: int| lower(text[i]))
}

/// What a line of the head of a response says: the line of a carriage
/// return and a line feed ends the head; a line that begins with
/// `content-length: `, in letters of either case, gives the length of
/// the body, which must be a number once white space around it is left
/// out; any other line says nothing.
pub open spec fn header_of(line: Seq<u8>) -> Result<Header, HttpError> {
    if line == "\r\n".spec_bytes() {
        Ok(Header::End)
    } else if line.len() >= 16 && lowered(line.take(16)) == "content-length: ".spec_bytes() {
        match number(trimmed(line.skip(16)), u64::MAX as nat) {
            Some(length) => Ok(Header::ContentLength(length as u64)),
            None => Err(HttpError::Rest),
        }
    } else {
        Ok(Header::Other)
    }
}

/// What the body of a response holds.
#[derive(Clone, Copy, Debug, PartialEq, Eq, Structural)]
pub enum Body {
    /// Nothing: what was asked for is absent, and the body is not to be
    /// decoded.
    Absent,
    /// What was asked for, in at most `limit` bytes.
    Present { limit: u64 },
}

/// What the body holds after a head with the status `code` and the
/// content length. Status 401 is an error. Status 404 says that what was
/// asked for is absent. Else the body is read: as many bytes as the
/// content length says, which must be no more than a gigabyte, or a
/// gigabyte at most where it is not given.
pub open spec fn body_of(code: u16, content_length: Option<u64>) -> Result<Body, HttpError> {
    if code == 401 {
        Err(HttpError::Rest)
    } else if code == 404 {
        Ok(Body::Absent)
    } else {
        match content_length {
            None => Ok(Body::Present { limit: FINAL_RESP_ALLOC }),
            Some(length) => if length > FINAL_RESP_ALLOC {
                Err(HttpError::Rest)
            } else {
                Ok(Body::Present { limit: length })
            },
        }
    }
}

/// Whether the first bytes of `text` are the bytes of `word`, whatever
/// the case of the letters of `text`.
fn begins_with_lowered(text: &[u8], word: &str) -> (r: bool)
    ensures
        r == (text@.len() >= word.spec_bytes().len() && lowered(
            text@.take(word.spec_bytes().len() as int),
        ) == word.spec_bytes()),
{
    let bytes = word.as_bytes();
    if text.len() < bytes.len() {
        return false;
    }
    let ghost head = lowered(text@.take(bytes@.len() as int));
    let mut i: usize = 0;
    while i < bytes.len()
        invariant
            i <= bytes@.len() <= text@.len(),
            bytes@ == word.spec_bytes(),
            head == lowered(text@.take(bytes@.len() as int)),
            forall|k: int| 0 <= k < i ==> head[k] == bytes@[k],
        decreases bytes@.len() - i,
    {
        let byte: u8 = text[i];
        let low: u8 = if 0x41 <= byte && byte <= 0x5a {
            byte + 0x20
        } else {
            byte
        };
        assert(head[i as int] == low);
        if low != bytes[i] {
            assert(head[i as int] != bytes@[i as int]);
            return false;
        }
        i += 1;
    }
    assert(head =~= bytes@);
    true
}

/// The head of a response as far as it has been read: the status code
/// and the content length that the lines read so far have given.
#[derive(Clone, Copy, Debug, PartialEq, Eq)]
pub struct ResponseHead {
    pub code: u16,
    pub content_length: Option<u64>,
}

impl ResponseHead {
    /// Begins to read a response with its first line.
    pub fn begin(line: &str) -> (r: Result<ResponseHead, HttpError>)
        ensures
            r == match status_of(line.spec_bytes()) {
                Ok(code) => Ok::<ResponseHead, HttpError>(
                    ResponseHead { code, content_length: None },
                ),
                Err(error) => Err(error),
            },
    {
        let bytes = line.as_bytes();
        proof {
            lemma_status_prefix();
        }
        if bytes.len() < 12 || !begins_with("HTTP/1.1 ", bytes) {
            return Err(HttpError::Rest);
        }
        let code = vstd::slice::slice_subrange(bytes, 9, 12);
        assert(code@.skip(0) =~= bytes@.subrange(9, 12));
        match parse_number(code, 0, 0xffff) {
            Some(code) => Ok(ResponseHead { code: code as u16, content_length: None }),
            None => Err(HttpError::Rest),
        }
    }

    /// Takes in the next line of the head: whether more lines follow.
    pub fn field(&mut self, line: &str) -> (r: Result<bool, HttpError>)
        ensures
            final(self).code == old(self).code,
            r == match header_of(line.spec_bytes()) {
                Ok(Header::End) => Ok::<bool, HttpError>(false),
                Ok(_) => Ok(true),
                Err(error) => Err(error),
            },
            final(self).content_length == match header_of(line.spec_bytes()) {
                Ok(Header::ContentLength(length)) => Some(length),
                _ => old(self).content_length,
            },
    {
        match header(line) {
            Ok(Header::End) => Ok(false),
            Ok(Header::ContentLength(length)) => {
                self.content_length = Some(length);
                Ok(true)
            },
            Ok(Header::Other) => Ok(true),
            Err(error) => Err(error),
        }
    }

    /// What the body holds: nothing to decode after status 404, else
    /// what was asked for.
    pub fn body(&self) -> (r: Result<Body, HttpError>)
        ensures
            r == body_of(self.code, self.content_length),
    {
        if self.code == 401 {
            return Err(HttpError::Rest);
        }
        if self.code == 404 {
            return Ok(Body::Absent);
        }
        match self.content_length {
            None => Ok(Body::Present { limit: FINAL_RESP_ALLOC }),
            Some(length) => if length > FINAL_RESP_ALLOC {
                Err(HttpError::Rest)
            } else {
                Ok(Body::Present { limit: length })
            },
        }
    }
}

/// Whether the first bytes of `text` are the bytes of `word`.
fn begins_with(word: &str, text: &[u8]) -> (r: bool)
    ensures
        r == (text@.len() >= word.spec_bytes().len() && text@.take(
            word.spec_bytes().len() as int,
        ) == word.spec_bytes()),
{
    let bytes = word.as_bytes();
    if text.len() < bytes.len() {
        return false;
    }
    let r = matches_at(text, bytes, 0);
    assert(text@.subrange(0, bytes@.len() as int) =~= text@.take(bytes@.len() as int));
    r
}

/// What a line of the head of a response says.
pub fn header(line: &str) -> (r: Result<Header, HttpError>)
    ensures
        r == header_of(line.spec_bytes()),
{
    let bytes = line.as_bytes();
    proof {
        lemma_header_words();
    }
    if is_word(bytes, 0, bytes.len(), "\r\n") {
        assert(bytes@.subrange(0, bytes@.len() as int) =~= bytes@);
        return Ok(Header::End);
    }
    assert(bytes@.subrange(0, bytes@.len() as int) =~= bytes@);
    if !begins_with_lowered(bytes, "content-length: ") {
        return Ok(Header::Other);
    }
    let (from, to) = trim(bytes, 16, bytes.len());
    assert(bytes@.subrange(16, bytes@.len() as int) =~= bytes@.skip(16));
    let value = vstd::slice::slice_subrange(bytes, from, to);
    assert(value@.skip(0) =~= value@);
    match parse_number(value, 0, u64::MAX) {
        Some(length) => Ok(Header::ContentLength(length)),
        None => Err(HttpError::Rest),
    }
}

/// The words that the head of a response is matched against are as long
/// in bytes as in characters.
proof fn lemma_header_words()
    ensures
        "content-length: ".spec_bytes().len() == 16,
{
    reveal_strlit("content-length: ");
    let text = "content-length: "@;
    lemma_ascii_length(text);
}

/// The first word of a response is nine bytes long.
proof fn lemma_status_prefix()
    ensures
        "HTTP/1.1 ".spec_bytes().len() == 9,
{
    reveal_strlit("HTTP/1.1 ");
    lemma_ascii_length("HTTP/1.1 "@);
}

} // verus!
