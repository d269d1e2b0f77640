//! Fixed-format status-line responses and their wire rendering.
//!
//! A response is one of four status lines, optionally followed by a
//! plain-text body.  On the wire a response is exactly
//! `HTTP/1.1 <code> <reason>\r\n\r\n` followed by the body bytes; no
//! header fields are ever written.

use vstd::prelude::*;

verus! {

/// The only statuses the server ever reports.
#[derive(Clone, Copy, Debug, PartialEq, Eq, Structural)]
pub enum Status {
    /// `200 OK`
    Success,
    /// `404 Not found`
    NotFound,
    /// `418 I'm a teapot`, the distinguished signal for a request that
    /// failed parsing.
    Teapot,
    /// `500 Internal Server Error`
    ServerError,
}

impl Status {
    /// The bytes of this status line, `HTTP/1.1 <code> <reason>\r\n\r\n`.
    pub open spec fn spec_line(self) -> Seq<u8> {
        match self {
            // "HTTP/1.1 200 OK\r\n\r\n"
            Status::Success => seq![
                72u8, 84u8, 84u8, 80u8, 47u8, 49u8, 46u8, 49u8, 32u8, 50u8, 48u8, 48u8, 32u8,
                79u8, 75u8, 13u8, 10u8, 13u8, 10u8,
            ],
            // "HTTP/1.1 404 Not found\r\n\r\n"
            Status::NotFound => seq![
                72u8, 84u8, 84u8, 80u8, 47u8, 49u8, 46u8, 49u8, 32u8, 52u8, 48u8, 52u8, 32u8,
                78u8, 111u8, 116u8, 32u8, 102u8, 111u8, 117u8, 110u8, 100u8, 13u8, 10u8, 13u8,
                10u8,
            ],
            // "HTTP/1.1 418 I'm a teapot\r\n\r\n"
            Status::Teapot => seq![
                72u8, 84u8, 84u8, 80u8, 47u8, 49u8, 46u8, 49u8, 32u8, 52u8, 49u8, 56u8, 32u8,
                73u8, 39u8, 109u8, 32u8, 97u8, 32u8, 116u8, 101u8, 97u8, 112u8, 111u8, 116u8,
                13u8, 10u8, 13u8, 10u8,
            ],
            // "HTTP/1.1 500 Internal Server Error\r\n\r\n"
            Status::ServerError => seq![
                72u8, 84u8, 84u8, 80u8, 47u8, 49u8, 46u8, 49u8, 32u8, 53u8, 48u8, 48u8, 32u8,
                73u8, 110u8, 116u8, 101u8, 114u8, 110u8, 97u8, 108u8, 32u8, 83u8, 101u8, 114u8,
                118u8, 101u8, 114u8, 32u8, 69u8, 114u8, 114u8, 111u8, 114u8, 13u8, 10u8, 13u8,
                10u8,
            ],
        }
    }

    /// The status line of this status as wire bytes.
    pub fn line_bytes(&self) -> (r: Vec<u8>)
        ensures
            r@ == self.spec_line(),
    {
        let r: Vec<u8> = match self {
            Status::Success => vec![
                72u8, 84u8, 84u8, 80u8, 47u8, 49u8, 46u8, 49u8, 32u8, 50u8, 48u8, 48u8, 32u8,
                79u8, 75u8, 13u8, 10u8, 13u8, 10u8,
            ],
            Status::NotFound => vec![
                72u8, 84u8, 84u8, 80u8, 47u8, 49u8, 46u8, 49u8, 32u8, 52u8, 48u8, 52u8, 32u8,
                78u8, 111u8, 116u8, 32u8, 102u8, 111u8, 117u8, 110u8, 100u8, 13u8, 10u8, 13u8,
                10u8,
            ],
            Status::Teapot => vec![
                72u8, 84u8, 84u8, 80u8, 47u8, 49u8, 46u8, 49u8, 32u8, 52u8, 49u8, 56u8, 32u8,
                73u8, 39u8, 109u8, 32u8, 97u8, 32u8, 116u8, 101u8, 97u8, 112u8, 111u8, 116u8,
                13u8, 10u8, 13u8, 10u8,
            ],
            Status::ServerError => vec![
                72u8, 84u8, 84u8, 80u8, 47u8, 49u8, 46u8, 49u8, 32u8, 53u8, 48u8, 48u8, 32u8,
                73u8, 110u8, 116u8, 101u8, 114u8, 110u8, 97u8, 108u8, 32u8, 83u8, 101u8, 114u8,
                118u8, 101u8, 114u8, 32u8, 69u8, 114u8, 114u8, 111u8, 114u8, 13u8, 10u8, 13u8,
                10u8,
            ],
        };
        proof {
            assert(r@ =~= self.spec_line());
        }
        r
    }
}

/// The ghost shape of a response: a status and the body bytes.
pub struct ResponseView {
    pub status: Status,
    pub body: Seq<u8>,
}

/// A response as the server produces it: one of the four statuses,
/// paired with a body.  An empty body stands for "no body"; the two
/// render identically on the wire.
#[derive(Debug)]
pub struct HttpStatusResponse {
    pub status: Status,
    pub body: Vec<u8>,
}

impl View for HttpStatusResponse {
    type V = ResponseView;

    open spec fn view(&self) -> ResponseView {
        ResponseView { status: self.status, body: self.body@ }
    }
}

impl ResponseView {
    /// The wire bytes of a response: its status line, then its body.
    pub open spec fn spec_bytes(self) -> Seq<u8> {
        self.status.spec_line() + self.body
    }
}

impl HttpStatusResponse {
    /// Renders the response exactly as it goes out on the wire: the
    /// status line followed immediately by the body bytes, with no
    /// header fields.
    pub fn to_bytes(&self) -> (r: Vec<u8>)
        ensures
            r@ == self@.spec_bytes(),
    {
        let mut r = self.status.line_bytes();
        let mut k: usize = 0;
        while k < self.body.len()
            invariant
                k <= self.body.len(),
                r@ == self.status.spec_line() + self.body@.take(k as int),
            decreases self.body.len() - k,
        {
            r.push(self.body[k]);
            k = k + 1;
            proof {
                assert(self.status.spec_line() + self.body@.take(k as int)
                    =~= (self.status.spec_line() + self.body@.take(k - 1)).push(self.body@[k - 1]));
            }
        }
        proof {
            assert(self.body@.take(self.body@.len() as int) =~= self.body@);
        }
        r
    }
}

} // verus!
