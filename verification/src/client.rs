//! The host-side RPC session: request-id bookkeeping, line framing, and the
//! rule for replies that arrive out of step.
//!
//! Requests carry a monotonically increasing id starting at 1.  A reply
//! with a smaller id is a stale carry-over from an operation whose socket
//! read timed out: it is discarded and reading continues.  A reply with a
//! larger id than anything outstanding is a fatal protocol error.

use vstd::prelude::*;

verus! {

/// What to do with a reply carrying id `got` while waiting for `pending`.
#[derive(Clone, Copy, PartialEq, Eq, Structural, Debug)]
pub enum ReplyCheck {
    /// Older than the pending request: log, discard, keep reading.
    Stale,
    /// The awaited reply.
    Accept,
    /// From the future: the stream is broken.
    Fatal,
}

/// The stale-reply rule: discard ids below the pending one, accept the
/// pending one, fail on anything beyond it.
pub fn classify_reply(pending: u64, got: u64) -> (r: ReplyCheck)
    ensures
        got < pending ==> r == ReplyCheck::Stale,
        got == pending ==> r == ReplyCheck::Accept,
        got > pending ==> r == ReplyCheck::Fatal,
{
    if got < pending {
        ReplyCheck::Stale
    } else if got == pending {
        ReplyCheck::Accept
    } else {
        ReplyCheck::Fatal
    }
}

/// One wire envelope: the request or response id and the body it carries.
pub struct IpcWrapper<T> {
    pub id: u64,
    pub body: T,
}

/// The send half of one RPC connection: which id the next request gets.
/// The id advances once per request sent; a read timeout does not advance
/// it on its own.
pub struct RpcAgent {
    pub next_request: u64,
}

impl RpcAgent {
    pub fn new() -> (r: Self)
        ensures
            r.next_request == 1,
    {
        RpcAgent { next_request: 1 }
    }

    /// Takes the id for one outgoing request and advances the counter.
    pub fn begin_request(&mut self) -> (id: u64)
        requires
            old(self).next_request < u64::MAX,
        ensures
            id == old(self).next_request,
            final(self).next_request == old(self).next_request + 1,
    {
        let id = self.next_request;
        self.next_request += 1;
        id
    }

    /// Classifies a reply against the most recently sent request.
    pub fn check_reply(&self, got: u64) -> (r: ReplyCheck)
        requires
            self.next_request > 0,
        ensures
            got < self.next_request - 1 ==> r == ReplyCheck::Stale,
            got == self.next_request - 1 ==> r == ReplyCheck::Accept,
            got > self.next_request - 1 ==> r == ReplyCheck::Fatal,
    {
        classify_reply(self.next_request - 1, got)
    }
}

/// One wire frame: the payload bytes with the terminating line feed.
pub fn frame_line(payload: &[u8]) -> (r: Vec<u8>)
    ensures
        r@ == payload@ + seq![0x0au8],
{
    let mut out = vstd::slice::slice_to_vec(payload);
    out.push(0x0a);
    out
}

/// Splits the first line off a read buffer: the bytes before the first
/// line feed and the remainder after it; None while no full line has
/// arrived.
pub fn take_line(buf: &[u8]) -> (r: Option<(Vec<u8>, Vec<u8>)>)
    ensures
        match r {
            Some((line, rest)) => {
                crate::vars::find_from(buf@, 0x0a, 0) matches Some(i) && line@ == buf@.subrange(
                    0,
                    i,
                ) && rest@ == buf@.subrange(i + 1, buf@.len() as int)
            },
            None => crate::vars::find_from(buf@, 0x0a, 0) is None,
        },
{
    let i = match crate::vars::find_byte_from(buf, 0x0a, 0) {
        Some(i) => i,
        None => {
            return None;
        },
    };
    proof {
        crate::vars::lemma_find_from(buf@, 0x0a, 0);
        assert(i < buf@.len() && buf@.len() == buf.len());
    }
    let line = vstd::slice::slice_to_vec(vstd::slice::slice_subrange(buf, 0, i));
    let rest = vstd::slice::slice_to_vec(vstd::slice::slice_subrange(buf, i + 1, buf.len()));
    Some((line, rest))
}

/// The bytes of one framed wire envelope: `{"id":N,"body":B}` and the
/// terminating line feed.
pub open spec fn spec_envelope(id: u64, body: crate::json::Json) -> Seq<u8> {
    seq![0x7bu8, 0x22u8, 0x69u8, 0x64u8, 0x22u8, 0x3au8] + crate::numfmt::dec_of(id as nat) + seq![
        0x2cu8,
        0x22u8,
        0x62u8,
        0x6fu8,
        0x64u8,
        0x79u8,
        0x22u8,
        0x3au8,
    ] + crate::json::enc(body) + seq![0x7du8, 0x0au8]
}

/// A short ASCII name without specials escapes to itself.
proof fn lemma_esc_plain(s: Seq<u8>)
    requires
        forall|i: int|
            0 <= i < s.len() ==> #[trigger] s[i] != crate::json::QUOTE && s[i]
                != crate::json::BACKSLASH && s[i] != 0x0a && s[i] != 0x0d && s[i] != 0x09,
    ensures
        crate::json::esc(s) == s,
    decreases s.len(),
{
    if s.len() > 0 {
        lemma_esc_plain(s.drop_first());
        assert(crate::json::esc_byte(s[0]) =~= seq![s[0]]);
        assert(seq![s[0]] + s.drop_first() =~= s);
    }
}

/// Frames one request or response as a wire line: the envelope object with
/// the id first and the body second, canonical encoding, one line feed.
pub fn encode_envelope(id: u64, body: crate::json::Json) -> (r: Vec<u8>)
    ensures
        r@ == spec_envelope(id, body),
{
    let mut pairs: Vec<(Vec<u8>, crate::json::Json)> = Vec::new();
    let idk: [u8; 2] = [0x69, 0x64];
    let bodyk: [u8; 4] = [0x62, 0x6f, 0x64, 0x79];
    pairs.push(
        (
            vstd::slice::slice_to_vec(idk.as_slice()),
            crate::json::Json::Num(crate::numfmt::to_decimal(id)),
        ),
    );
    pairs.push((vstd::slice::slice_to_vec(bodyk.as_slice()), body));
    let obj = crate::json::Json::Obj(pairs);
    let encoded = crate::json::encode(&obj);
    let ghost bodyv = obj->Obj_0@[1].1;
    proof {
        let ps = obj->Obj_0@;
        assert(ps.len() == 2);
        assert(ps[0].0@ =~= seq![0x69u8, 0x64u8]);
        assert(ps[1].0@ =~= seq![0x62u8, 0x6fu8, 0x64u8, 0x79u8]);
        lemma_esc_plain(ps[0].0@);
        lemma_esc_plain(ps[1].0@);
        assert(crate::json::enc(ps[0].1) =~= crate::numfmt::dec_of(id as nat));
        assert(crate::json::enc_pairs(ps, 2) =~= Seq::<u8>::empty());
        assert(crate::json::enc_pairs(ps, 1) =~= seq![crate::json::QUOTE] + ps[1].0@ + seq![
            crate::json::QUOTE,
            0x3au8,
        ] + crate::json::enc(ps[1].1));
        assert(crate::json::enc_pairs(ps, 0) =~= seq![crate::json::QUOTE] + ps[0].0@ + seq![
            crate::json::QUOTE,
            0x3au8,
        ] + crate::numfmt::dec_of(id as nat) + seq![0x2cu8] + crate::json::enc_pairs(ps, 1));
        assert(crate::json::enc(obj) + seq![0x0au8] =~= spec_envelope(id, bodyv));
    }
    let framed = frame_line(encoded.as_slice());
    framed
}

/// Reads one wire envelope back: the line must parse as a two-member
/// object `{"id":N,"body":B}` with a plain decimal id that fits.
pub fn decode_envelope(line: &[u8]) -> (r: Option<(u64, crate::json::Json)>)
    ensures
        r matches Some(t) ==> ({
            &&& crate::json::spec_parse_json(line@) matches Some(g)
            &&& g matches crate::json::JsonV::Obj(gps)
            &&& gps.len() == 2
            &&& gps[0].0 == seq![0x69u8, 0x64u8]
            &&& gps[1].0 == seq![0x62u8, 0x6fu8, 0x64u8, 0x79u8]
            &&& gps[0].1 matches crate::json::JsonV::Num(lex)
            &&& crate::numfmt::is_digits(lex) && t.0 as nat == crate::numfmt::val_of(lex)
            &&& crate::json::models(t.1, gps[1].1)
        }),
{
    let parsed = match crate::json::parse_json(line) {
        Some(v) => v,
        None => {
            return None;
        },
    };
    let mut pairs = match parsed {
        crate::json::Json::Obj(pairs) => pairs,
        _ => {
            return None;
        },
    };
    if pairs.len() != 2 {
        return None;
    }
    let idk: [u8; 2] = [0x69, 0x64];
    let bodyk: [u8; 4] = [0x62, 0x6f, 0x64, 0x79];
    if !crate::vars::bytes_eq(pairs[0].0.as_slice(), idk.as_slice()) {
        return None;
    }
    if !crate::vars::bytes_eq(pairs[1].0.as_slice(), bodyk.as_slice()) {
        return None;
    }
    let id = match &pairs[0].1 {
        crate::json::Json::Num(lex) => match crate::numfmt::parse_u64(lex.as_slice()) {
            Some(v) => v,
            None => {
                return None;
            },
        },
        _ => {
            return None;
        },
    };
    proof {
        let g = crate::json::spec_parse_json(line@).unwrap();
        assert(g matches crate::json::JsonV::Obj(gps));
        assert(g->Obj_0.len() == pairs@.len());
        assert(g->Obj_0[0].0 == pairs@[0].0@ && crate::json::models(pairs@[0].1, g->Obj_0[0].1));
        assert(g->Obj_0[1].0 == pairs@[1].0@ && crate::json::models(pairs@[1].1, g->Obj_0[1].1));
        assert(idk@ =~= seq![0x69u8, 0x64u8]);
        assert(bodyk@ =~= seq![0x62u8, 0x6fu8, 0x64u8, 0x79u8]);
    }
    let ghost bodyg = pairs@[1].1;
    let (_, body) = pairs.remove(1);
    proof {
        assert(body == bodyg);
    }
    Some((id, body))
}

/// The handshake line sent to reach the agent behind a stream multiplexer:
/// `CONNECT <port>\n`.
pub fn handshake_request(port: u32) -> (r: Vec<u8>)
    ensures
        r@ == seq![0x43u8, 0x4fu8, 0x4eu8, 0x4eu8, 0x45u8, 0x43u8, 0x54u8, 0x20u8] + crate::numfmt::dec_of(
            port as nat,
        ) + seq![0x0au8],
{
    let word: [u8; 8] = [0x43, 0x4f, 0x4e, 0x4e, 0x45, 0x43, 0x54, 0x20];
    let mut out: Vec<u8> = Vec::new();
    out.extend_from_slice(word.as_slice());
    let mut digits = crate::numfmt::to_decimal(port as u64);
    out.append(&mut digits);
    out.push(0x0a);
    proof {
        assert(out@ =~= seq![0x43u8, 0x4fu8, 0x4eu8, 0x4eu8, 0x45u8, 0x43u8, 0x54u8, 0x20u8]
            + crate::numfmt::dec_of(port as nat) + seq![0x0au8]);
    }
    out
}

/// Whether a handshake reply accepts the connection: a non-empty reply
/// starting with `OK`.  Anything else is a fatal protocol error.
pub fn handshake_reply_ok(reply: &[u8]) -> (r: bool)
    ensures
        r == (reply@.len() >= 2 && reply@[0] == 0x4f && reply@[1] == 0x4b),
{
    reply.len() >= 2 && reply[0] == 0x4f && reply[1] == 0x4b
}

/// How often a refused agent connection is retried, and how long between
/// tries.
pub const CONNECT_MAX_RETRIES: u64 = 3;

pub const CONNECT_RETRY_DELAY_MS: u64 = 5000;

/// Whether a failed connection attempt should be retried: only while tries
/// remain and no cancellation was requested.
pub fn should_retry_connect(attempt: u64, cancelled: bool) -> (r: bool)
    ensures
        r == (attempt < CONNECT_MAX_RETRIES && !cancelled),
{
    attempt < CONNECT_MAX_RETRIES && !cancelled
}

} // verus!
