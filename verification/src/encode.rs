//! Construction of request bytes, and the proof that parsing gives
//! back exactly what was constructed.
//!
//! A request whose path and headers are free of the protocol's framing
//! bytes (spaces in the path, line breaks anywhere, a `": "` inside a
//! header name) encodes to a request line, its header lines, and the
//! terminating blank line; feeding those bytes back through the parser
//! is lossless for the method, the path, and every header name and
//! value.

use vstd::prelude::*;

use crate::request::{
    Header, HeaderView, Method, Request, RequestError, RequestView, compose_lines, spec_block_lines,
    spec_block_lines_from, spec_find, spec_get_token, spec_method_of, spec_method_token,
    spec_parse, spec_parse_header, spec_parse_headers, spec_parse_request_line, spec_post_token,
    spec_strip_cr, lemma_find_at, lemma_find_sep_at,
};

verus! {

/// The wire bytes of a method token.
pub open spec fn spec_method_bytes(m: Method) -> Seq<u8> {
    match m {
        Method::Get => spec_get_token(),
        Method::Post => spec_post_token(),
    }
}

/// The version token the encoder writes, `HTTP/1.1`.
pub open spec fn spec_version_token() -> Seq<u8> {
    seq![72u8, 84u8, 84u8, 80u8, 47u8, 49u8, 46u8, 49u8]
}

/// The request line, without its line break: method, space, path,
/// space, version.
pub open spec fn spec_request_line(v: RequestView) -> Seq<u8> {
    spec_method_bytes(v.method) + seq![32u8] + v.path + seq![32u8] + spec_version_token()
}

/// One header line without its line break: name, `": "`, value.
pub open spec fn spec_header_line_core(h: HeaderView) -> Seq<u8> {
    h.name + seq![58u8, 32u8] + h.value
}

/// One header line with its CRLF line break.
pub open spec fn spec_header_line(h: HeaderView) -> Seq<u8> {
    spec_header_line_core(h) + seq![13u8, 10u8]
}

/// All header lines, in order, each with its line break.
pub open spec fn spec_headers_bytes(hs: Seq<HeaderView>) -> Seq<u8>
    decreases hs.len(),
{
    if hs.len() == 0 {
        Seq::empty()
    } else {
        spec_header_line(hs.first()) + spec_headers_bytes(hs.drop_first())
    }
}

/// The header lines as the line splitter will see them: without their
/// line breaks.
pub open spec fn spec_header_lines(hs: Seq<HeaderView>) -> Seq<Seq<u8>>
    decreases hs.len(),
{
    if hs.len() == 0 {
        Seq::empty()
    } else {
        seq![spec_header_line_core(hs.first())] + spec_header_lines(hs.drop_first())
    }
}

/// The full encoding: request line, CRLF, header lines, blank line.
pub open spec fn spec_encode(v: RequestView) -> Seq<u8> {
    spec_request_line(v) + seq![13u8, 10u8] + spec_headers_bytes(v.headers) + seq![13u8, 10u8]
}

/// A path that frames cleanly: free of spaces and line breaks.
pub open spec fn spec_wf_path(path: Seq<u8>) -> bool {
    forall|i: int|
        0 <= i < path.len() ==> #[trigger] path[i] != 32u8 && path[i] != 13u8 && path[i] != 10u8
}

/// A header name that frames cleanly: free of line breaks and of the
/// `": "` separator.
pub open spec fn spec_wf_header_name(name: Seq<u8>) -> bool {
    &&& forall|i: int| 0 <= i < name.len() ==> #[trigger] name[i] != 13u8 && name[i] != 10u8
    &&& forall|i: int|
        0 <= i && i + 1 < name.len() ==> !(#[trigger] name[i] == 58u8 && name[i + 1] == 32u8)
}

/// A header value that frames cleanly: free of line breaks.  It may
/// contain `": "`; only the first separator of a line splits it.
pub open spec fn spec_wf_header_value(value: Seq<u8>) -> bool {
    forall|i: int| 0 <= i < value.len() ==> #[trigger] value[i] != 13u8 && value[i] != 10u8
}

/// A request that frames cleanly on the wire.
pub open spec fn spec_wf_request(v: RequestView) -> bool {
    &&& spec_wf_path(v.path)
    &&& forall|i: int|
        0 <= i < v.headers.len() ==> spec_wf_header_name(#[trigger] v.headers[i].name)
            && spec_wf_header_value(v.headers[i].value)
}

/// Appends all of `s` to `out`.
fn push_vec(out: &mut Vec<u8>, s: &Vec<u8>)
    ensures
        final(out)@ == old(out)@ + s@,
{
    let mut k: usize = 0;
    proof {
        assert(out@ =~= old(out)@ + s@.take(0));
    }
    while k < s.len()
        invariant
            k <= s@.len(),
            out@ == old(out)@ + s@.take(k as int),
        decreases s@.len() - k,
    {
        out.push(s[k]);
        k = k + 1;
        proof {
            assert(old(out)@ + s@.take(k as int) =~= (old(out)@ + s@.take(k - 1)).push(
                s@[k - 1],
            ));
        }
    }
    proof {
        assert(s@.take(s@.len() as int) =~= s@);
    }
}

impl Request {
    /// Writes the request out as wire bytes: request line, CRLF,
    /// header lines, terminating blank line.
    pub fn encode(&self) -> (r: Vec<u8>)
        ensures
            r@ == spec_encode(self@),
    {
        let mut out: Vec<u8> = Vec::new();
        match self.method {
            Method::Get => {
                out.push(71u8);
                out.push(69u8);
                out.push(84u8);
            },
            Method::Post => {
                out.push(80u8);
                out.push(79u8);
                out.push(83u8);
                out.push(84u8);
            },
        }
        out.push(32u8);
        push_vec(&mut out, &self.path);
        out.push(32u8);
        out.push(72u8);
        out.push(84u8);
        out.push(84u8);
        out.push(80u8);
        out.push(47u8);
        out.push(49u8);
        out.push(46u8);
        out.push(49u8);
        out.push(13u8);
        out.push(10u8);
        proof {
            assert(out@ =~= spec_request_line(self@) + seq![13u8, 10u8]);
        }
        let ghost base = out@;
        let ghost dv = self.headers.deep_view();
        proof {
            assert(dv.skip(0) =~= dv);
        }
        let mut k: usize = 0;
        while k < self.headers.len()
            invariant
                k <= dv.len(),
                dv == self.headers.deep_view(),
                dv.len() == self.headers@.len(),
                out@ + spec_headers_bytes(dv.skip(k as int)) == base + spec_headers_bytes(dv),
            decreases dv.len() - k,
        {
            let ghost before = out@;
            let ghost rem = dv.skip(k as int);
            proof {
                assert(rem.first() == dv[k as int]);
                assert(dv[k as int] == self.headers@[k as int]@);
                assert(rem.drop_first() =~= dv.skip(k + 1));
            }
            push_vec(&mut out, &self.headers[k].name);
            out.push(58u8);
            out.push(32u8);
            push_vec(&mut out, &self.headers[k].value);
            out.push(13u8);
            out.push(10u8);
            k = k + 1;
            proof {
                assert(out@ =~= before + spec_header_line(rem.first()));
                assert(spec_headers_bytes(rem) == spec_header_line(rem.first())
                    + spec_headers_bytes(dv.skip(k as int)));
                assert(out@ + spec_headers_bytes(dv.skip(k as int)) =~= before
                    + spec_headers_bytes(rem));
            }
        }
        proof {
            assert(dv.skip(k as int) =~= Seq::<HeaderView>::empty());
            assert(out@ + Seq::<u8>::empty() =~= out@);
        }
        out.push(13u8);
        out.push(10u8);
        proof {
            assert(out@ =~= spec_encode(self@));
        }
        out
    }
}

/// Scanning bytes free of LF only lengthens the current line.
proof fn lemma_scan_no_lf(l: Seq<u8>, tail: Seq<u8>, cur: Seq<u8>)
    requires
        forall|i: int| 0 <= i < l.len() ==> #[trigger] l[i] != 10u8,
    ensures
        spec_block_lines_from(l + tail, cur) == spec_block_lines_from(tail, cur + l),
    decreases l.len(),
{
    if l.len() == 0 {
        assert(l + tail =~= tail);
        assert(cur + l =~= cur);
    } else {
        assert((l + tail).first() == l[0]);
        assert((l + tail).drop_first() =~= l.drop_first() + tail);
        lemma_scan_no_lf(l.drop_first(), tail, cur.push(l[0]));
        assert(cur.push(l[0]) + l.drop_first() =~= cur + l);
    }
}

/// One clean, non-empty, CRLF-terminated line comes off the front of
/// the block as itself.
proof fn lemma_block_lines_line(l: Seq<u8>, rest: Seq<u8>)
    requires
        forall|i: int| 0 <= i < l.len() ==> #[trigger] l[i] != 10u8 && l[i] != 13u8,
        l.len() > 0,
    ensures
        spec_block_lines_from(l + seq![13u8, 10u8] + rest, Seq::empty()) == compose_lines(
            seq![l],
            spec_block_lines_from(rest, Seq::empty()),
        ),
{
    lemma_scan_no_lf(l, seq![13u8, 10u8] + rest, Seq::empty());
    assert(l + (seq![13u8, 10u8] + rest) =~= l + seq![13u8, 10u8] + rest);
    assert(Seq::<u8>::empty() + l =~= l);
    // the scanner now faces CR LF with `l` gathered
    let s1 = seq![13u8, 10u8] + rest;
    let s2 = seq![10u8] + rest;
    assert(s1.first() == 13u8);
    assert(s1.drop_first() =~= s2);
    assert(spec_block_lines_from(s1, l) == spec_block_lines_from(s2, l.push(13u8)));
    assert(s2.first() == 10u8);
    assert(s2.drop_first() =~= rest);
    assert(l.push(13u8).last() == 13u8);
    assert(l.push(13u8).drop_last() =~= l);
    assert(spec_strip_cr(l.push(13u8)) == l);
    assert(spec_block_lines_from(s2, l.push(13u8)) == compose_lines(
        seq![l],
        spec_block_lines_from(rest, Seq::empty()),
    ));
}

/// The terminating blank line closes the block.
proof fn lemma_block_lines_end(rest: Seq<u8>)
    ensures
        spec_block_lines_from(seq![13u8, 10u8] + rest, Seq::empty()) == Some(Seq::<Seq<u8>>::empty()),
{
    let s1 = seq![13u8, 10u8] + rest;
    let s2 = seq![10u8] + rest;
    assert(s1.first() == 13u8);
    assert(s1.drop_first() =~= s2);
    assert(spec_block_lines_from(s1, Seq::empty()) == spec_block_lines_from(
        s2,
        Seq::<u8>::empty().push(13u8),
    ));
    assert(s2.first() == 10u8);
    assert(Seq::<u8>::empty().push(13u8).last() == 13u8);
    assert(spec_strip_cr(Seq::<u8>::empty().push(13u8)) =~= Seq::<u8>::empty());
    assert(spec_block_lines_from(s2, Seq::<u8>::empty().push(13u8)) == Some(
        Seq::<Seq<u8>>::empty(),
    ));
}

/// A well-formed header line holds no LF and no CR.
proof fn lemma_header_line_core_clean(h: HeaderView)
    requires
        spec_wf_header_name(h.name),
        spec_wf_header_value(h.value),
    ensures
        forall|i: int|
            0 <= i < spec_header_line_core(h).len() ==> #[trigger] spec_header_line_core(h)[i]
                != 10u8 && spec_header_line_core(h)[i] != 13u8,
{
    let core = spec_header_line_core(h);
    assert forall|i: int| 0 <= i < core.len() implies #[trigger] core[i] != 10u8 && core[i]
        != 13u8 by {
        if i < h.name.len() {
            assert(core[i] == h.name[i]);
        } else if i == h.name.len() {
            assert(core[i] == 58u8);
        } else if i == h.name.len() + 1 {
            assert(core[i] == 32u8);
        } else {
            assert(core[i] == h.value[i - h.name.len() - 2]);
        }
    }
}

/// The header block of well-formed headers splits into exactly their
/// lines.
proof fn lemma_block_lines_headers(hs: Seq<HeaderView>)
    requires
        forall|i: int|
            0 <= i < hs.len() ==> spec_wf_header_name(#[trigger] hs[i].name)
                && spec_wf_header_value(hs[i].value),
    ensures
        spec_block_lines_from(spec_headers_bytes(hs) + seq![13u8, 10u8], Seq::empty()) == Some(
            spec_header_lines(hs),
        ),
    decreases hs.len(),
{
    if hs.len() == 0 {
        assert(spec_headers_bytes(hs) + seq![13u8, 10u8] =~= seq![13u8, 10u8]
            + Seq::<u8>::empty());
        lemma_block_lines_end(Seq::empty());
        assert(spec_header_lines(hs) =~= Seq::<Seq<u8>>::empty());
    } else {
        let h = hs.first();
        let core = spec_header_line_core(h);
        let rest_bytes = spec_headers_bytes(hs.drop_first()) + seq![13u8, 10u8];
        assert(spec_headers_bytes(hs) + seq![13u8, 10u8] =~= core + seq![13u8, 10u8]
            + rest_bytes);
        lemma_header_line_core_clean(h);
        assert(core.len() > 0);
        lemma_block_lines_line(core, rest_bytes);
        assert(forall|i: int|
            0 <= i < hs.drop_first().len() ==> spec_wf_header_name(
                #[trigger] hs.drop_first()[i].name,
            ) && spec_wf_header_value(hs.drop_first()[i].value));
        lemma_block_lines_headers(hs.drop_first());
        assert(seq![core] + spec_header_lines(hs.drop_first()) == spec_header_lines(hs));
    }
}

/// The request line of a well-formed request parses back to its
/// method and its path.
proof fn lemma_request_line_parses(v: RequestView)
    requires
        spec_wf_path(v.path),
    ensures
        spec_parse_request_line(spec_request_line(v)) == Ok::<(Method, Seq<u8>), RequestError>(
            (v.method, v.path),
        ),
{
    let line = spec_request_line(v);
    let mb = spec_method_bytes(v.method);
    let mlen = mb.len() as int;
    assert(line[mlen] == 32u8);
    assert forall|k: int| 0 <= k < mlen implies line[k] != 32u8 by {
        assert(line[k] == mb[k]);
    }
    lemma_find_at(line, 32u8, mlen);
    assert(spec_method_token(line) =~= mb);
    assert(spec_method_of(mb) == Some(v.method)) by {
        if v.method is Post {
            assert(spec_post_token() != spec_get_token());
        }
    }
    let rest = line.subrange(mlen + 1, line.len() as int);
    assert(rest =~= v.path + seq![32u8] + spec_version_token());
    let plen = v.path.len() as int;
    assert(rest[plen] == 32u8);
    assert forall|k: int| 0 <= k < plen implies rest[k] != 32u8 by {
        assert(rest[k] == v.path[k]);
    }
    lemma_find_at(rest, 32u8, plen);
    assert(rest.subrange(0, plen) =~= v.path);
}

/// A well-formed header line parses back to its name and value.
proof fn lemma_header_line_parses(h: HeaderView)
    requires
        spec_wf_header_name(h.name),
        spec_wf_header_value(h.value),
    ensures
        spec_parse_header(spec_header_line_core(h)) == Ok::<HeaderView, RequestError>(h),
{
    let core = spec_header_line_core(h);
    let nlen = h.name.len() as int;
    assert(core[nlen] == 58u8);
    assert(core[nlen + 1] == 32u8);
    assert forall|k: int| 0 <= k < nlen implies !(#[trigger] core[k] == 58u8 && core[k + 1]
        == 32u8) by {
        assert(core[k] == h.name[k]);
        if k + 1 < nlen {
            assert(core[k + 1] == h.name[k + 1]);
        } else {
            assert(core[k + 1] == 58u8);
        }
    }
    lemma_find_sep_at(core, nlen);
    assert(core.subrange(0, nlen) =~= h.name);
    assert(core.subrange(nlen + 2, core.len() as int) =~= h.value);
}

/// The header lines of well-formed headers parse back to exactly
/// those headers.
proof fn lemma_header_lines_parse(hs: Seq<HeaderView>)
    requires
        forall|i: int|
            0 <= i < hs.len() ==> spec_wf_header_name(#[trigger] hs[i].name)
                && spec_wf_header_value(hs[i].value),
    ensures
        spec_parse_headers(spec_header_lines(hs)) == Ok::<Seq<HeaderView>, RequestError>(hs),
    decreases hs.len(),
{
    if hs.len() == 0 {
        assert(hs =~= Seq::<HeaderView>::empty());
        assert(spec_header_lines(hs) =~= Seq::<Seq<u8>>::empty());
    } else {
        let lines = spec_header_lines(hs);
        assert(lines.first() == spec_header_line_core(hs.first()));
        lemma_header_line_parses(hs.first());
        assert(forall|i: int|
            0 <= i < hs.drop_first().len() ==> spec_wf_header_name(
                #[trigger] hs.drop_first()[i].name,
            ) && spec_wf_header_value(hs.drop_first()[i].value));
        lemma_header_lines_parse(hs.drop_first());
        assert(lines.drop_first() =~= spec_header_lines(hs.drop_first()));
        assert(spec_parse_headers(lines.drop_first()) == Ok::<Seq<HeaderView>, RequestError>(
            hs.drop_first(),
        ));
        assert(seq![hs.first()] + hs.drop_first() =~= hs);
        assert(spec_parse_headers(lines) == Ok::<Seq<HeaderView>, RequestError>(hs));
    }
}

/// Encoding, then parsing, is lossless: a request whose path and
/// headers frame cleanly comes back with the same method, the same
/// path, and every header name and value unchanged, in order.
pub proof fn lemma_round_trip(v: RequestView)
    requires
        spec_wf_request(v),
    ensures
        spec_parse(spec_encode(v)) == Ok::<RequestView, RequestError>(v),
{
    let rl = spec_request_line(v);
    let hb = spec_headers_bytes(v.headers) + seq![13u8, 10u8];
    assert(spec_encode(v) =~= rl + seq![13u8, 10u8] + hb);
    assert forall|i: int| 0 <= i < rl.len() implies #[trigger] rl[i] != 10u8 && rl[i] != 13u8 by {
        let mb = spec_method_bytes(v.method);
        let mlen = mb.len() as int;
        let plen = v.path.len() as int;
        if i < mlen {
            assert(rl[i] == mb[i]);
        } else if i == mlen {
            assert(rl[i] == 32u8);
        } else if i < mlen + 1 + plen {
            assert(rl[i] == v.path[i - mlen - 1]);
        } else if i == mlen + 1 + plen {
            assert(rl[i] == 32u8);
        } else {
            assert(rl[i] == spec_version_token()[i - mlen - 2 - plen]);
        }
    }
    assert(rl.len() > 0);
    lemma_block_lines_line(rl, hb);
    lemma_block_lines_headers(v.headers);
    let lines = seq![rl] + spec_header_lines(v.headers);
    assert(spec_block_lines(spec_encode(v)) == Some(lines));
    assert(lines.len() > 0);
    assert(lines.first() == rl);
    lemma_request_line_parses(v);
    assert(lines.drop_first() =~= spec_header_lines(v.headers));
    lemma_header_lines_parse(v.headers);
    assert(spec_parse(spec_encode(v)) == Ok::<RequestView, RequestError>(
        RequestView { method: v.method, path: v.path, headers: v.headers },
    ));
    assert(RequestView { method: v.method, path: v.path, headers: v.headers } == v);
}

} // verus!
