//! Parsing of the text-framed request protocol.
//!
//! A request arrives as raw bytes: a request line, zero or more header
//! lines, and a terminating blank line.  Lines are delimited by LF,
//! with an optional CR directly before the LF.  The request line is
//! `METHOD SP PATH SP VERSION`; the method must be exactly `GET` or
//! `POST`, the version token is read but never used.  Each header line
//! splits at its first `": "` into a name and a value; duplicate names
//! are kept in order and the last occurrence wins on lookup.
//!
//! Every malformation is reported as a typed [`RequestError`] rather
//! than a fault, so a connection with garbage on it can always be
//! answered and closed.

use vstd::prelude::*;

verus! {

/// The two methods the server understands.
#[derive(Clone, Copy, Debug, PartialEq, Eq, Structural)]
pub enum Method {
    Get,
    Post,
}

/// Why a byte stream failed to parse as a request.
#[derive(Clone, Copy, Debug, PartialEq, Eq, Structural)]
pub enum RequestError {
    /// The request line's method token is neither `GET` nor `POST`.
    InvalidMethod,
    /// The header block ends before any blank line.
    UnterminatedHeaderBlock,
    /// The first line of the block is the blank line: no request line.
    MissingRequestLine,
    /// The request line holds a method token but no path token.
    MalformedRequestLine,
    /// A header line has no `": "` separator.
    MalformedHeader,
}

/// One parsed header line.
#[derive(Debug)]
pub struct Header {
    pub name: Vec<u8>,
    pub value: Vec<u8>,
}

/// The ghost shape of a header.
pub struct HeaderView {
    pub name: Seq<u8>,
    pub value: Seq<u8>,
}

impl View for Header {
    type V = HeaderView;

    open spec fn view(&self) -> HeaderView {
        HeaderView { name: self.name@, value: self.value@ }
    }
}

impl DeepView for Header {
    type V = HeaderView;

    open spec fn deep_view(&self) -> HeaderView {
        self@
    }
}

/// A parsed request.  The path is kept raw, exactly as sent; the
/// headers are kept in the order they arrived, duplicates included.
#[derive(Debug)]
pub struct Request {
    pub method: Method,
    pub path: Vec<u8>,
    pub headers: Vec<Header>,
}

/// The ghost shape of a request.
pub struct RequestView {
    pub method: Method,
    pub path: Seq<u8>,
    pub headers: Seq<HeaderView>,
}

impl View for Request {
    type V = RequestView;

    open spec fn view(&self) -> RequestView {
        RequestView {
            method: self.method,
            path: self.path@,
            headers: self.headers.deep_view(),
        }
    }
}

/// The bytes of the token `GET`.
pub open spec fn spec_get_token() -> Seq<u8> {
    seq![71u8, 69u8, 84u8]
}

/// The bytes of the token `POST`.
pub open spec fn spec_post_token() -> Seq<u8> {
    seq![80u8, 79u8, 83u8, 84u8]
}

/// Which method a token denotes, if any.  The match is exact and
/// case-sensitive.
pub open spec fn spec_method_of(token: Seq<u8>) -> Option<Method> {
    if token == spec_get_token() {
        Some(Method::Get)
    } else if token == spec_post_token() {
        Some(Method::Post)
    } else {
        None
    }
}

/// The position of the first occurrence of `b` in `s`, if any.
pub open spec fn spec_find(s: Seq<u8>, b: u8) -> Option<int>
    decreases s.len(),
{
    if s.len() == 0 {
        None
    } else if s.first() == b {
        Some(0)
    } else {
        match spec_find(s.drop_first(), b) {
            Some(i) => Some(i + 1),
            None => None,
        }
    }
}

/// The position of the first `": "` (colon, space) in `s`, if any.
pub open spec fn spec_find_sep(s: Seq<u8>) -> Option<int>
    decreases s.len(),
{
    if s.len() < 2 {
        None
    } else if s.first() == 58u8 && s[1] == 32u8 {
        Some(0)
    } else {
        match spec_find_sep(s.drop_first()) {
            Some(i) => Some(i + 1),
            None => None,
        }
    }
}

/// `spec_find` finds exactly the first occurrence: if `s[i] == b` and
/// no earlier byte is `b`, the result is `Some(i)`.
pub proof fn lemma_find_at(s: Seq<u8>, b: u8, i: int)
    requires
        0 <= i < s.len(),
        s[i] == b,
        forall|k: int| 0 <= k < i ==> s[k] != b,
    ensures
        spec_find(s, b) == Some(i),
    decreases i,
{
    if i == 0 {
    } else {
        lemma_find_at(s.drop_first(), b, i - 1);
    }
}

/// If `b` occurs nowhere in `s`, `spec_find` returns `None`.
pub proof fn lemma_find_none(s: Seq<u8>, b: u8)
    requires
        forall|k: int| 0 <= k < s.len() ==> s[k] != b,
    ensures
        spec_find(s, b) is None,
    decreases s.len(),
{
    if s.len() > 0 {
        lemma_find_none(s.drop_first(), b);
    }
}

/// `spec_find_sep` finds exactly the first `": "`.
pub proof fn lemma_find_sep_at(s: Seq<u8>, i: int)
    requires
        0 <= i,
        i + 1 < s.len(),
        s[i] == 58u8,
        s[i + 1] == 32u8,
        forall|k: int| 0 <= k < i ==> !(#[trigger] s[k] == 58u8 && s[k + 1] == 32u8),
    ensures
        spec_find_sep(s) == Some(i),
    decreases i,
{
    if i == 0 {
    } else {
        lemma_find_sep_at(s.drop_first(), i - 1);
    }
}

/// If no adjacent pair of `s` is `": "`, `spec_find_sep` returns `None`.
pub proof fn lemma_find_sep_none(s: Seq<u8>)
    requires
        forall|k: int| 0 <= k && k + 1 < s.len() ==> !(#[trigger] s[k] == 58u8 && s[k + 1] == 32u8),
    ensures
        spec_find_sep(s) is None,
    decreases s.len(),
{
    if s.len() >= 2 {
        lemma_find_sep_none(s.drop_first());
    }
}

/// A line with its trailing CR removed, if it has one.
pub open spec fn spec_strip_cr(line: Seq<u8>) -> Seq<u8> {
    if line.len() > 0 && line.last() == 13u8 {
        line.drop_last()
    } else {
        line
    }
}

/// The lines of the header block, scanning `s` with `cur` as the bytes
/// of the current line read so far.  A byte 10 (LF) ends a line; a
/// trailing byte 13 (CR) on a line is stripped; an empty line ends the
/// block.  `None` means the input ran out before the blank line.
pub open spec fn spec_block_lines_from(s: Seq<u8>, cur: Seq<u8>) -> Option<Seq<Seq<u8>>>
    decreases s.len(),
{
    if s.len() == 0 {
        None
    } else if s.first() == 10u8 {
        if spec_strip_cr(cur).len() == 0 {
            Some(Seq::empty())
        } else {
            match spec_block_lines_from(s.drop_first(), Seq::empty()) {
                Some(rest) => Some(seq![spec_strip_cr(cur)] + rest),
                None => None,
            }
        }
    } else {
        spec_block_lines_from(s.drop_first(), cur.push(s.first()))
    }
}

/// The lines of the header block of `s`: request line and header
/// lines, up to but not including the terminating blank line.
pub open spec fn spec_block_lines(s: Seq<u8>) -> Option<Seq<Seq<u8>>> {
    spec_block_lines_from(s, Seq::empty())
}

/// The method token of a request line: the bytes before the first
/// space, or the whole line if it has no space.
pub open spec fn spec_method_token(line: Seq<u8>) -> Seq<u8> {
    match spec_find(line, 32u8) {
        Some(i) => line.subrange(0, i),
        None => line,
    }
}

/// Parsing of the request line: the method token must name a method
/// (else `InvalidMethod`), a path token must follow it (else
/// `MalformedRequestLine`); the path ends at the next space, and
/// whatever follows is the version token, read and discarded.
pub open spec fn spec_parse_request_line(line: Seq<u8>) -> Result<(Method, Seq<u8>), RequestError> {
    match spec_method_of(spec_method_token(line)) {
        None => Err(RequestError::InvalidMethod),
        Some(m) => match spec_find(line, 32u8) {
            None => Err(RequestError::MalformedRequestLine),
            Some(i) => {
                let rest = line.subrange(i + 1, line.len() as int);
                let path = match spec_find(rest, 32u8) {
                    Some(j) => rest.subrange(0, j),
                    None => rest,
                };
                Ok((m, path))
            },
        },
    }
}

/// Parsing of one header line: it splits at its first `": "` into name
/// and value; a line without the separator is malformed.
pub open spec fn spec_parse_header(line: Seq<u8>) -> Result<HeaderView, RequestError> {
    match spec_find_sep(line) {
        None => Err(RequestError::MalformedHeader),
        Some(i) => Ok(
            HeaderView { name: line.subrange(0, i), value: line.subrange(i + 2, line.len() as int) },
        ),
    }
}

/// Parsing of the header lines, in order; the first malformed line
/// fails the whole block.
pub open spec fn spec_parse_headers(lines: Seq<Seq<u8>>) -> Result<Seq<HeaderView>, RequestError>
    decreases lines.len(),
{
    if lines.len() == 0 {
        Ok(Seq::empty())
    } else {
        match spec_parse_header(lines.first()) {
            Err(e) => Err(e),
            Ok(h) => match spec_parse_headers(lines.drop_first()) {
                Err(e) => Err(e),
                Ok(rest) => Ok(seq![h] + rest),
            },
        }
    }
}

/// What parsing a whole input means: split the block into lines; the
/// first line is the request line, checked before any header; the rest
/// are header lines.
pub open spec fn spec_parse(input: Seq<u8>) -> Result<RequestView, RequestError> {
    match spec_block_lines(input) {
        None => Err(RequestError::UnterminatedHeaderBlock),
        Some(lines) => {
            if lines.len() == 0 {
                Err(RequestError::MissingRequestLine)
            } else {
                match spec_parse_request_line(lines.first()) {
                    Err(e) => Err(e),
                    Ok(mp) => match spec_parse_headers(lines.drop_first()) {
                        Err(e) => Err(e),
                        Ok(hs) => Ok(RequestView { method: mp.0, path: mp.1, headers: hs }),
                    },
                }
            }
        },
    }
}

/// A prefix of already-gathered lines, joined with the outcome of
/// scanning the rest of the block.
pub open spec fn compose_lines(pre: Seq<Seq<u8>>, r: Option<Seq<Seq<u8>>>) -> Option<
    Seq<Seq<u8>>,
> {
    match r {
        Some(rest) => Some(pre + rest),
        None => None,
    }
}

/// A prefix of already-parsed headers, joined with the outcome of
/// parsing the remaining header lines.
pub open spec fn compose_headers(pre: Seq<HeaderView>, r: Result<Seq<HeaderView>, RequestError>) -> Result<
    Seq<HeaderView>,
    RequestError,
> {
    match r {
        Ok(rest) => Ok(pre + rest),
        Err(e) => Err(e),
    }
}

/// The copy of `v[a..b]`.
fn subvec(v: &Vec<u8>, a: usize, b: usize) -> (r: Vec<u8>)
    requires
        a <= b <= v@.len(),
    ensures
        r@ == v@.subrange(a as int, b as int),
{
    let mut r: Vec<u8> = Vec::new();
    let mut k: usize = a;
    while k < b
        invariant
            a <= k <= b <= v@.len(),
            r@ == v@.subrange(a as int, k as int),
        decreases b - k,
    {
        r.push(v[k]);
        k = k + 1;
        proof {
            assert(v@.subrange(a as int, k as int) =~= v@.subrange(a as int, k - 1).push(
                v@[k - 1],
            ));
        }
    }
    r
}

/// The position of the first occurrence of `b` in `v`, if any.
fn find_byte(v: &Vec<u8>, b: u8) -> (r: Option<usize>)
    ensures
        match r {
            Some(i) => i < v@.len() && spec_find(v@, b) == Some(i as int),
            None => spec_find(v@, b) is None,
        },
{
    let mut j: usize = 0;
    while j < v.len()
        invariant
            j <= v@.len(),
            forall|k: int| 0 <= k < j ==> v@[k] != b,
        decreases v@.len() - j,
    {
        if v[j] == b {
            proof {
                lemma_find_at(v@, b, j as int);
            }
            return Some(j);
        }
        j = j + 1;
    }
    proof {
        lemma_find_none(v@, b);
    }
    None
}

/// The position of the first `": "` in `v`, if any.
fn find_sep(v: &Vec<u8>) -> (r: Option<usize>)
    ensures
        match r {
            Some(i) => i + 1 < v@.len() && spec_find_sep(v@) == Some(i as int),
            None => spec_find_sep(v@) is None,
        },
{
    if v.len() < 2 {
        return None;
    }
    let mut j: usize = 0;
    while j < v.len() - 1
        invariant
            2 <= v@.len(),
            j <= v@.len() - 1,
            forall|k: int| 0 <= k < j ==> !(#[trigger] v@[k] == 58u8 && v@[k + 1] == 32u8),
        decreases v@.len() - j,
    {
        if v[j] == 58u8 && v[j + 1] == 32u8 {
            proof {
                lemma_find_sep_at(v@, j as int);
            }
            return Some(j);
        }
        j = j + 1;
    }
    proof {
        lemma_find_sep_none(v@);
    }
    None
}

/// Whether `token` is exactly `GET`.
fn is_get_token(token: &Vec<u8>) -> (r: bool)
    ensures
        r == (token@ == spec_get_token()),
{
    let r = token.len() == 3 && token[0] == 71u8 && token[1] == 69u8 && token[2] == 84u8;
    proof {
        if r {
            assert(token@ =~= spec_get_token());
        }
    }
    r
}

/// Whether `token` is exactly `POST`.
fn is_post_token(token: &Vec<u8>) -> (r: bool)
    ensures
        r == (token@ == spec_post_token()),
{
    let r = token.len() == 4 && token[0] == 80u8 && token[1] == 79u8 && token[2] == 83u8
        && token[3] == 84u8;
    proof {
        if r {
            assert(token@ =~= spec_post_token());
        }
    }
    r
}

/// The value of the header named `name`, with the last occurrence
/// winning over earlier ones.
pub open spec fn spec_lookup(headers: Seq<HeaderView>, name: Seq<u8>) -> Option<Seq<u8>>
    decreases headers.len(),
{
    if headers.len() == 0 {
        None
    } else if headers.last().name == name {
        Some(headers.last().value)
    } else {
        spec_lookup(headers.drop_last(), name)
    }
}

/// The last occurrence of a header name wins: after any headers, one
/// more pair bearing the name decides its value on lookup.
pub proof fn lemma_last_write_wins(headers: Seq<HeaderView>, h: HeaderView)
    ensures
        spec_lookup(headers.push(h), h.name) == Some(h.value),
{
    assert(headers.push(h).last() == h);
}

/// A header pair bearing some other name leaves a name's lookup
/// untouched, so every distinctly-named header stays visible.
pub proof fn lemma_lookup_skips_other(headers: Seq<HeaderView>, h: HeaderView, name: Seq<u8>)
    requires
        h.name != name,
    ensures
        spec_lookup(headers.push(h), name) == spec_lookup(headers, name),
{
    assert(headers.push(h).last() == h);
    assert(headers.push(h).drop_last() =~= headers);
}

/// Splits the header block of `input` into its lines, up to but not
/// including the terminating blank line; `None` if the input ends
/// before a blank line.
fn split_lines(input: &[u8]) -> (r: Option<Vec<Vec<u8>>>)
    ensures
        match r {
            Some(lines) => spec_block_lines(input@) == Some(lines.deep_view()),
            None => spec_block_lines(input@) is None,
        },
{
    let mut lines: Vec<Vec<u8>> = Vec::new();
    let mut cur: Vec<u8> = Vec::new();
    let mut i: usize = 0;
    proof {
        assert(input@.skip(0) =~= input@);
        assert(compose_lines(lines.deep_view(), spec_block_lines_from(input@, cur@))
            == spec_block_lines_from(input@, cur@)) by {
            match spec_block_lines_from(input@, cur@) {
                Some(rest) => {
                    assert(lines.deep_view() + rest =~= rest);
                },
                None => {},
            }
        }
    }
    while i < input.len()
        invariant
            i <= input@.len(),
            spec_block_lines(input@) == compose_lines(
                lines.deep_view(),
                spec_block_lines_from(input@.skip(i as int), cur@),
            ),
        decreases input@.len() - i,
    {
        let ghost pre = lines.deep_view();
        let ghost rem = input@.skip(i as int);
        let b = input[i];
        proof {
            assert(rem.first() == input@[i as int]);
            assert(rem.drop_first() =~= input@.skip(i + 1));
        }
        if b == 10u8 {
            let ghost cur0 = cur@;
            if cur.len() > 0 && cur[cur.len() - 1] == 13u8 {
                let _ = cur.pop();
                proof {
                    assert(cur@ =~= spec_strip_cr(cur0));
                }
            }
            proof {
                assert(cur@ == spec_strip_cr(cur0));
            }
            if cur.len() == 0 {
                proof {
                    assert(spec_block_lines_from(rem, cur0) == Some(Seq::<Seq<u8>>::empty()));
                    assert(pre + Seq::<Seq<u8>>::empty() =~= pre);
                }
                return Some(lines);
            }
            proof {
                assert(spec_block_lines_from(rem, cur0) == compose_lines(
                    seq![cur@],
                    spec_block_lines_from(input@.skip(i + 1), Seq::empty()),
                ));
            }
            let ghost line = cur@;
            let ghost olines = lines@;
            lines.push(cur);
            cur = Vec::new();
            i = i + 1;
            proof {
                assert forall|j: int| 0 <= j < olines.len() implies #[trigger] lines.deep_view()[j]
                    == pre[j] by {
                    assert(lines@[j] == olines[j]);
                }
                assert(lines.deep_view()[olines.len() as int] == line);
                assert(lines.deep_view() =~= pre + seq![line]);
                match spec_block_lines_from(input@.skip(i as int), cur@) {
                    Some(rest) => {
                        assert((pre + seq![line]) + rest =~= pre + (seq![line] + rest));
                    },
                    None => {},
                }
            }
        } else {
            cur.push(b);
            i = i + 1;
        }
    }
    proof {
        assert(input@.skip(i as int) =~= Seq::<u8>::empty());
    }
    None
}

/// Parses the request line into its method and its path.
fn parse_request_line(line: &Vec<u8>) -> (r: Result<(Method, Vec<u8>), RequestError>)
    ensures
        match r {
            Ok(mp) => spec_parse_request_line(line@) == Ok::<(Method, Seq<u8>), RequestError>(
                (mp.0, mp.1@),
            ),
            Err(e) => spec_parse_request_line(line@) == Err::<(Method, Seq<u8>), RequestError>(e),
        },
{
    match find_byte(line, 32u8) {
        None => {
            // The whole line is the method token; even a valid method
            // is missing its path.
            if is_get_token(line) || is_post_token(line) {
                Err(RequestError::MalformedRequestLine)
            } else {
                Err(RequestError::InvalidMethod)
            }
        },
        Some(i) => {
            let token = subvec(line, 0, i);
            let method = if is_get_token(&token) {
                Some(Method::Get)
            } else if is_post_token(&token) {
                Some(Method::Post)
            } else {
                None
            };
            match method {
                None => Err(RequestError::InvalidMethod),
                Some(m) => {
                    let n = line.len();
                    let rest = subvec(line, i + 1, n);
                    let path = match find_byte(&rest, 32u8) {
                        Some(j) => subvec(&rest, 0, j),
                        None => rest,
                    };
                    Ok((m, path))
                },
            }
        },
    }
}

/// Parses one header line at its first `": "`.
fn parse_header_line(line: &Vec<u8>) -> (r: Result<Header, RequestError>)
    ensures
        match r {
            Ok(h) => spec_parse_header(line@) == Ok::<HeaderView, RequestError>(h@),
            Err(e) => spec_parse_header(line@) == Err::<HeaderView, RequestError>(e),
        },
{
    match find_sep(line) {
        None => Err(RequestError::MalformedHeader),
        Some(i) => {
            let name = subvec(line, 0, i);
            let n = line.len();
            let value = subvec(line, i + 2, n);
            Ok(Header { name, value })
        },
    }
}

impl Request {
    /// Parses the bytes of one connection's header block into a
    /// request.  The outcome — the parsed request or the exact
    /// error — is, in every case, what [`spec_parse`] says of the
    /// input.
    pub fn parse(input: &[u8]) -> (r: Result<Request, RequestError>)
        ensures
            match r {
                Ok(req) => spec_parse(input@) == Ok::<RequestView, RequestError>(req@),
                Err(e) => spec_parse(input@) == Err::<RequestView, RequestError>(e),
            },
    {
        let lines = match split_lines(input) {
            None => {
                return Err(RequestError::UnterminatedHeaderBlock);
            },
            Some(lines) => lines,
        };
        let ghost dv = lines.deep_view();
        if lines.len() == 0 {
            return Err(RequestError::MissingRequestLine);
        }
        proof {
            assert(dv[0] == lines@[0].deep_view());
            assert(dv.first() == lines@[0]@);
        }
        let mp = match parse_request_line(&lines[0]) {
            Err(e) => {
                return Err(e);
            },
            Ok(mp) => mp,
        };
        let mut headers: Vec<Header> = Vec::new();
        let mut k: usize = 1;
        proof {
            assert(compose_headers(headers.deep_view(), spec_parse_headers(dv.skip(1)))
                == spec_parse_headers(dv.skip(1))) by {
                match spec_parse_headers(dv.skip(1)) {
                    Ok(rest) => {
                        assert(headers.deep_view() + rest =~= rest);
                    },
                    Err(_) => {},
                }
            }
        }
        while k < lines.len()
            invariant
                1 <= k <= dv.len(),
                dv == lines.deep_view(),
                dv.len() == lines@.len(),
                spec_block_lines(input@) == Some(dv),
                spec_parse_request_line(dv.first()) == Ok::<(Method, Seq<u8>), RequestError>(
                    (mp.0, mp.1@),
                ),
                spec_parse_headers(dv.skip(1)) == compose_headers(
                    headers.deep_view(),
                    spec_parse_headers(dv.skip(k as int)),
                ),
            decreases dv.len() - k,
        {
            let ghost pre = headers.deep_view();
            let ghost rem = dv.skip(k as int);
            proof {
                assert(rem.first() == dv[k as int]);
                assert(dv[k as int] == lines@[k as int].deep_view());
                assert(rem.first() == lines@[k as int]@);
                assert(rem.drop_first() =~= dv.skip(k + 1));
            }
            match parse_header_line(&lines[k]) {
                Err(e) => {
                    proof {
                        assert(spec_parse_headers(rem) == Err::<Seq<HeaderView>, RequestError>(e));
                        assert(dv.drop_first() =~= dv.skip(1));
                    }
                    return Err(e);
                },
                Ok(h) => {
                    let ghost hv = h@;
                    let ghost ohdrs = headers@;
                    headers.push(h);
                    proof {
                        assert forall|j: int| 0 <= j < ohdrs.len() implies #[trigger] headers.deep_view()[j]
                            == pre[j] by {
                            assert(headers@[j] == ohdrs[j]);
                        }
                        assert(headers.deep_view()[ohdrs.len() as int] == hv);
                        assert(headers.deep_view() =~= pre + seq![hv]);
                        match spec_parse_headers(dv.skip(k + 1)) {
                            Ok(rest) => {
                                assert((pre + seq![hv]) + rest =~= pre + (seq![hv] + rest));
                            },
                            Err(_) => {},
                        }
                    }
                },
            }
            k = k + 1;
        }
        proof {
            assert(dv.skip(k as int) =~= Seq::<Seq<u8>>::empty());
            assert(spec_parse_headers(dv.skip(1)) == Ok::<Seq<HeaderView>, RequestError>(
                headers.deep_view(),
            ));
            assert(dv.drop_first() =~= dv.skip(1));
        }
        let req = Request { method: mp.0, path: mp.1, headers };
        Ok(req)
    }

    /// The value of the header named `name`, the last occurrence of
    /// the name winning over earlier ones.
    pub fn header_value(&self, name: &[u8]) -> (r: Option<&Vec<u8>>)
        ensures
            match r {
                Some(v) => spec_lookup(self@.headers, name@) == Some(v@),
                None => spec_lookup(self@.headers, name@) is None,
            },
    {
        let ghost dv = self.headers.deep_view();
        let mut k: usize = self.headers.len();
        proof {
            assert(dv.take(k as int) =~= dv);
        }
        while k > 0
            invariant
                k <= dv.len(),
                dv == self.headers.deep_view(),
                dv.len() == self.headers@.len(),
                spec_lookup(dv, name@) == spec_lookup(dv.take(k as int), name@),
            decreases k,
        {
            k = k - 1;
            proof {
                assert(dv.take(k + 1).last() == dv[k as int]);
                assert(dv[k as int] == self.headers@[k as int]@);
                assert(dv.take(k + 1).drop_last() =~= dv.take(k as int));
            }
            if bytes_equal(&self.headers[k].name, name) {
                return Some(&self.headers[k].value);
            }
        }
        proof {
            assert(dv.take(0) =~= Seq::<HeaderView>::empty());
        }
        None
    }
}

/// Whether two byte strings hold the same bytes.
fn bytes_equal(a: &Vec<u8>, b: &[u8]) -> (r: bool)
    ensures
        r == (a@ == b@),
{
    if a.len() != b.len() {
        return false;
    }
    let mut k: usize = 0;
    while k < a.len()
        invariant
            k <= a@.len(),
            a@.len() == b@.len(),
            forall|j: int| 0 <= j < k ==> a@[j] == b@[j],
        decreases a@.len() - k,
    {
        if a[k] != b[k] {
            return false;
        }
        k = k + 1;
    }
    proof {
        assert(a@ =~= b@);
    }
    true
}

} // verus!
