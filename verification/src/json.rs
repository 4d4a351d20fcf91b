//! A JSON value model with an exact encoder and parser, used for the
//! line-framed RPC wire format and for merging per-trial JSON artifacts.
//!
//! Numbers are carried as their unparsed lexemes, so no precision is lost
//! and no floating point enters the library.  The parser accepts the
//! standard escapes except `\uXXXX`, which fails the parse.

use vstd::prelude::*;

verus! {

pub const QUOTE: u8 = 0x22;

pub const BACKSLASH: u8 = 0x5c;

/// One JSON value.  Object members keep their order.
pub enum Json {
    Null,
    Bool(bool),
    /// The unparsed numeric lexeme, e.g. `-12.5e3`.
    Num(Vec<u8>),
    /// The decoded bytes of a string.
    Str(Vec<u8>),
    Arr(Vec<Json>),
    Obj(Vec<(Vec<u8>, Json)>),
}

/// The escape of one string byte.
pub open spec fn esc_byte(b: u8) -> Seq<u8> {
    if b == QUOTE {
        seq![BACKSLASH, QUOTE]
    } else if b == BACKSLASH {
        seq![BACKSLASH, BACKSLASH]
    } else if b == 0x0a {
        seq![BACKSLASH, 0x6e]
    } else if b == 0x0d {
        seq![BACKSLASH, 0x72]
    } else if b == 0x09 {
        seq![BACKSLASH, 0x74]
    } else {
        seq![b]
    }
}

/// The escaped form of a string body.
pub open spec fn esc(s: Seq<u8>) -> Seq<u8>
    decreases s.len(),
{
    if s.len() == 0 {
        Seq::empty()
    } else {
        esc_byte(s[0]) + esc(s.drop_first())
    }
}

/// The canonical encoding of a value: no whitespace, members in order.
pub open spec fn enc(v: Json) -> Seq<u8>
    decreases v, 1int, 0int,
{
    match v {
        Json::Null => seq![0x6eu8, 0x75u8, 0x6cu8, 0x6cu8],
        Json::Bool(b) => if b {
            seq![0x74u8, 0x72u8, 0x75u8, 0x65u8]
        } else {
            seq![0x66u8, 0x61u8, 0x6cu8, 0x73u8, 0x65u8]
        },
        Json::Num(lex) => lex@,
        Json::Str(s) => seq![QUOTE] + esc(s@) + seq![QUOTE],
        Json::Arr(items) => seq![0x5bu8] + enc_items(items@, 0) + seq![0x5du8],
        Json::Obj(pairs) => seq![0x7bu8] + enc_pairs(pairs@, 0) + seq![0x7du8],

    }
}

/// The encoding of the items at or after `i`, comma separated.
pub open spec fn enc_items(items: Seq<Json>, i: int) -> Seq<u8>
    decreases items, 0int, items.len() - i,
{
    if i < 0 || i >= items.len() {
        Seq::empty()
    } else {
        enc(items[i]) + (if i + 1 < items.len() {
            seq![0x2cu8]
        } else {
            Seq::empty()
        }) + enc_items(items, i + 1)
    }
}

/// The encoding of the members at or after `i`, comma separated.
pub open spec fn enc_pairs(pairs: Seq<(Vec<u8>, Json)>, i: int) -> Seq<u8>
    decreases pairs, 0int, pairs.len() - i,
{
    if i < 0 || i >= pairs.len() {
        Seq::empty()
    } else {
        seq![QUOTE] + esc(pairs[i].0@) + seq![QUOTE, 0x3au8] + enc(pairs[i].1) + (if i + 1
            < pairs.len() {
            seq![0x2cu8]
        } else {
            Seq::empty()
        }) + enc_pairs(pairs, i + 1)
    }
}

/// Appends the escaped form of `s`.
fn push_escaped(out: &mut Vec<u8>, s: &[u8])
    ensures
        final(out)@ == old(out)@ + esc(s@),
{
    let n = s.len();
    let mut i: usize = 0;
    #[verifier::loop_isolation(false)]
    while i < n
        invariant
            0 <= i <= n == s@.len(),
            out@ == old(out)@ + esc(s@.subrange(0, i as int)),
        decreases n - i,
    {
        let ghost prefix = s@.subrange(0, i as int);
        let b = s[i];
        if b == QUOTE {
            out.push(BACKSLASH);
            out.push(QUOTE);
        } else if b == BACKSLASH {
            out.push(BACKSLASH);
            out.push(BACKSLASH);
        } else if b == 0x0a {
            out.push(BACKSLASH);
            out.push(0x6e);
        } else if b == 0x0d {
            out.push(BACKSLASH);
            out.push(0x72);
        } else if b == 0x09 {
            out.push(BACKSLASH);
            out.push(0x74);
        } else {
            out.push(b);
        }
        proof {
            lemma_esc_snoc(s@, i as int);
            assert(out@ =~= old(out)@ + esc(s@.subrange(0, i + 1)));
        }
        i += 1;
    }
    proof {
        assert(s@.subrange(0, n as int) =~= s@);
    }
}

/// Escaping one more byte appends its escape.
proof fn lemma_esc_snoc(s: Seq<u8>, i: int)
    requires
        0 <= i < s.len(),
    ensures
        esc(s.subrange(0, i + 1)) == esc(s.subrange(0, i)) + esc_byte(s[i]),
    decreases i,
{
    if i == 0 {
        assert(s.subrange(0, 1) =~= seq![s[0]]);
        assert(s.subrange(0, 1).drop_first() =~= Seq::<u8>::empty());
        assert(esc(Seq::<u8>::empty()) =~= Seq::<u8>::empty());
        assert(esc(s.subrange(0, 0)) =~= Seq::<u8>::empty());
        assert(esc(s.subrange(0, 1)) =~= esc_byte(s.subrange(0, 1)[0]) + esc(
            s.subrange(0, 1).drop_first(),
        ));
        assert(esc_byte(s[0]) + Seq::<u8>::empty() =~= esc_byte(s[0]));
        assert(esc(s.subrange(0, 0)) + esc_byte(s[0]) =~= esc_byte(s[0]));
    } else {
        let a = s.subrange(0, i + 1);
        let b = s.subrange(0, i);
        assert(a.drop_first() =~= s.subrange(1, s.len() as int).subrange(0, i));
        assert(b.drop_first() =~= s.subrange(1, s.len() as int).subrange(0, i - 1));
        lemma_esc_snoc(s.subrange(1, s.len() as int), i - 1);
        assert(a[0] == s[0] && b[0] == s[0]);
        assert(s.subrange(1, s.len() as int)[i - 1] == s[i]);
    }
}

/// Appends the canonical encoding of `v`.
#[verifier::rlimit(60)]
pub fn encode_into(v: &Json, out: &mut Vec<u8>)
    ensures
        final(out)@ == old(out)@ + enc(*v),
    decreases *v, 1int, 0int,
{
    match v {
        Json::Null => {
            out.push(0x6e);
            out.push(0x75);
            out.push(0x6c);
            out.push(0x6c);
            proof {
                assert(out@ =~= old(out)@ + enc(*v));
            }
        },
        Json::Bool(b) => {
            if *b {
                out.push(0x74);
                out.push(0x72);
                out.push(0x75);
                out.push(0x65);
            } else {
                out.push(0x66);
                out.push(0x61);
                out.push(0x6c);
                out.push(0x73);
                out.push(0x65);
            }
            proof {
                assert(out@ =~= old(out)@ + enc(*v));
            }
        },
        Json::Num(lex) => {
            out.extend_from_slice(lex.as_slice());
        },
        Json::Str(s) => {
            out.push(QUOTE);
            push_escaped(out, s.as_slice());
            out.push(QUOTE);
            proof {
                assert(out@ =~= old(out)@ + enc(*v));
            }
        },
        Json::Arr(items) => {
            out.push(0x5b);
            let n = items.len();
            let mut i: usize = 0;
            #[verifier::loop_isolation(false)]
            while i < n
                invariant
                    0 <= i <= n == items@.len(),
                    out@ + enc_items(items@, i as int) == old(out)@ + seq![0x5bu8] + enc_items(
                        items@,
                        0,
                    ),
                decreases n - i,
            {
                proof {
                    assert(decreases_to!(*v => items@[i as int]));
                }
                encode_into(&items[i], out);
                if i + 1 < n {
                    out.push(0x2c);
                }
                proof {
                    assert(out@ + enc_items(items@, i + 1) =~= old(out)@ + seq![0x5bu8]
                        + enc_items(items@, 0));
                }
                i += 1;
            }
            out.push(0x5d);
            proof {
                assert(out@ =~= old(out)@ + enc(*v));
            }
        },
        Json::Obj(pairs) => {
            out.push(0x7b);
            let n = pairs.len();
            let mut i: usize = 0;
            #[verifier::loop_isolation(false)]
            while i < n
                invariant
                    0 <= i <= n == pairs@.len(),
                    out@ + enc_pairs(pairs@, i as int) == old(out)@ + seq![0x7bu8] + enc_pairs(
                        pairs@,
                        0,
                    ),
                decreases n - i,
            {
                proof {
                    assert(decreases_to!(*v => pairs@[i as int].1));
                }
                out.push(QUOTE);
                push_escaped(out, pairs[i].0.as_slice());
                out.push(QUOTE);
                out.push(0x3a);
                encode_into(&pairs[i].1, out);
                if i + 1 < n {
                    out.push(0x2c);
                }
                proof {
                    assert(out@ + enc_pairs(pairs@, i + 1) =~= old(out)@ + seq![0x7bu8]
                        + enc_pairs(pairs@, 0));
                }
                i += 1;
            }
            out.push(0x7d);
            proof {
                assert(out@ =~= old(out)@ + enc(*v));
            }
        },
    }
}

/// The canonical encoding of `v`.
pub fn encode(v: &Json) -> (r: Vec<u8>)
    ensures
        r@ == enc(*v),
{
    let mut out: Vec<u8> = Vec::new();
    encode_into(v, &mut out);
    proof {
        assert(out@ =~= enc(*v));
    }
    out
}

/// JSON insignificant whitespace.
pub open spec fn is_ws(b: u8) -> bool {
    b == 0x20 || b == 0x09 || b == 0x0a || b == 0x0d
}

/// The first position at or after `i` that holds no whitespace.
pub open spec fn skip_ws(s: Seq<u8>, i: int) -> int
    decreases s.len() - i,
{
    if 0 <= i < s.len() && is_ws(s[i]) {
        skip_ws(s, i + 1)
    } else {
        i
    }
}

pub proof fn lemma_skip_ws(s: Seq<u8>, i: int)
    requires
        0 <= i <= s.len(),
    ensures
        i <= skip_ws(s, i) <= s.len(),
    decreases s.len() - i,
{
    if i < s.len() && is_ws(s[i]) {
        lemma_skip_ws(s, i + 1);
    }
}

fn skip_ws_at(s: &[u8], i: usize) -> (r: usize)
    requires
        i <= s@.len(),
    ensures
        r == skip_ws(s@, i as int),
        i <= r <= s@.len(),
{
    let mut j = i;
    while j < s.len() && (s[j] == 0x20 || s[j] == 0x09 || s[j] == 0x0a || s[j] == 0x0d)
        invariant
            i <= j <= s@.len(),
            skip_ws(s@, i as int) == skip_ws(s@, j as int),
        decreases s@.len() - j,
    {
        j += 1;
    }
    j
}

/// Whether `b` may appear in a number lexeme.
pub open spec fn is_num_byte(b: u8) -> bool {
    (0x30 <= b <= 0x39) || b == 0x2d || b == 0x2b || b == 0x2e || b == 0x65 || b == 0x45
}

/// The end of the number lexeme starting at `i`.
pub open spec fn num_end(s: Seq<u8>, i: int) -> int
    decreases s.len() - i,
{
    if 0 <= i < s.len() && is_num_byte(s[i]) {
        num_end(s, i + 1)
    } else {
        i
    }
}

pub proof fn lemma_num_end(s: Seq<u8>, i: int)
    requires
        0 <= i <= s.len(),
    ensures
        i <= num_end(s, i) <= s.len(),
    decreases s.len() - i,
{
    if i < s.len() && is_num_byte(s[i]) {
        lemma_num_end(s, i + 1);
    }
}

/// Every byte the number scan ran over is a number byte.
proof fn lemma_num_end_range(s: Seq<u8>, i: int)
    requires
        0 <= i <= s.len(),
    ensures
        forall|k: int| i <= k < num_end(s, i) ==> is_num_byte(#[trigger] s[k]),
    decreases s.len() - i,
{
    if i < s.len() && is_num_byte(s[i]) {
        lemma_num_end_range(s, i + 1);
        lemma_num_end(s, i + 1);
    }
}

/// The string body parse, from just after an opening quote: the decoded
/// bytes and the position just after the closing quote.  `\uXXXX` and a
/// backslash before anything unexpected fail the parse.
pub open spec fn spec_parse_string(s: Seq<u8>, i: int) -> Option<(Seq<u8>, int)>
    decreases s.len() - i,
{
    if i < 0 || i >= s.len() {
        None
    } else if s[i] == QUOTE {
        Some((Seq::empty(), i + 1))
    } else if s[i] == BACKSLASH {
        if i + 1 >= s.len() {
            None
        } else {
            let e = s[i + 1];
            let decoded: Option<u8> = if e == QUOTE {
                Some(QUOTE)
            } else if e == BACKSLASH {
                Some(BACKSLASH)
            } else if e == 0x2f {
                Some(0x2f)
            } else if e == 0x6e {
                Some(0x0a)
            } else if e == 0x72 {
                Some(0x0d)
            } else if e == 0x74 {
                Some(0x09)
            } else if e == 0x62 {
                Some(0x08)
            } else if e == 0x66 {
                Some(0x0c)
            } else {
                None
            };
            match decoded {
                None => None,
                Some(d) => match spec_parse_string(s, i + 2) {
                    None => None,
                    Some((rest, j)) => Some((seq![d] + rest, j)),
                },
            }
        }
    } else {
        match spec_parse_string(s, i + 1) {
            None => None,
            Some((rest, j)) => Some((seq![s[i]] + rest, j)),
        }
    }
}

pub proof fn lemma_parse_string_bounds(s: Seq<u8>, i: int)
    requires
        0 <= i,
    ensures
        spec_parse_string(s, i) matches Some((b, j)) ==> i < j <= s.len(),
    decreases s.len() - i,
{
    if i < s.len() {
        if s[i] == BACKSLASH {
            if i + 1 < s.len() {
                lemma_parse_string_bounds(s, i + 2);
            }
        } else if s[i] != QUOTE {
            lemma_parse_string_bounds(s, i + 1);
        }
    }
}

/// Parses a string body from just after an opening quote.
fn parse_string_at(s: &[u8], i: usize) -> (r: Option<(Vec<u8>, usize)>)
    requires
        i <= s@.len(),
    ensures
        match r {
            Some((b, j)) => spec_parse_string(s@, i as int) == Some((b@, j as int)) && i < j
                <= s@.len(),
            None => spec_parse_string(s@, i as int) is None,
        },
    decreases s@.len() - i,
{
    proof {
        lemma_parse_string_bounds(s@, i as int);
    }
    if i >= s.len() {
        return None;
    }
    let b = s[i];
    if b == QUOTE {
        return Some((Vec::new(), i + 1));
    }
    if b == BACKSLASH {
        if i + 1 >= s.len() {
            return None;
        }
        let e = s[i + 1];
        let d: u8 = if e == QUOTE {
            QUOTE
        } else if e == BACKSLASH {
            BACKSLASH
        } else if e == 0x2f {
            0x2f
        } else if e == 0x6e {
            0x0a
        } else if e == 0x72 {
            0x0d
        } else if e == 0x74 {
            0x09
        } else if e == 0x62 {
            0x08
        } else if e == 0x66 {
            0x0c
        } else {
            return None;
        };
        let (rest, j) = match parse_string_at(s, i + 2) {
            Some(t) => t,
            None => {
                return None;
            },
        };
        let mut out: Vec<u8> = Vec::new();
        out.push(d);
        out.extend_from_slice(rest.as_slice());
        proof {
            assert(out@ =~= seq![d] + rest@);
        }
        return Some((out, j));
    }
    let (rest, j) = match parse_string_at(s, i + 1) {
        Some(t) => t,
        None => {
            return None;
        },
    };
    let mut out: Vec<u8> = Vec::new();
    out.push(b);
    out.extend_from_slice(rest.as_slice());
    proof {
        assert(out@ =~= seq![b] + rest@);
    }
    Some((out, j))
}

/// The ghost mirror of a JSON value, used to state what the parser
/// returns.
pub enum JsonV {
    Null,
    Bool(bool),
    Num(Seq<u8>),
    Str(Seq<u8>),
    Arr(Seq<JsonV>),
    Obj(Seq<(Seq<u8>, JsonV)>),
}

/// Whether the executable value `v` carries exactly the ghost value `g`.
pub open spec fn models(v: Json, g: JsonV) -> bool
    decreases v,
{
    match v {
        Json::Null => g is Null,
        Json::Bool(b) => g == JsonV::Bool(b),
        Json::Num(lex) => g == JsonV::Num(lex@),
        Json::Str(b) => g == JsonV::Str(b@),
        Json::Arr(items) => g matches JsonV::Arr(gitems) && items@.len() == gitems.len()
            && forall|i: int|
            0 <= i < gitems.len() ==> models(#[trigger] items@[i], gitems[i]),
        Json::Obj(pairs) => g matches JsonV::Obj(gpairs) && pairs@.len() == gpairs.len()
            && forall|i: int|
            0 <= i < gpairs.len() ==> (#[trigger] pairs@[i]).0@ == gpairs[i].0 && models(
                pairs@[i].1,
                gpairs[i].1,
            ),
    }
}

/// The value parse at `i` (no leading whitespace): the ghost value and the
/// position just after it.
pub open spec fn spec_parse_value(s: Seq<u8>, i: int) -> Option<(JsonV, int)>
    decreases s.len() - i, 0int,
{
    if i < 0 || i >= s.len() {
        None
    } else if s[i] == 0x6e {
        if i + 4 <= s.len() && s.subrange(i, i + 4) == seq![0x6eu8, 0x75u8, 0x6cu8, 0x6cu8] {
            Some((JsonV::Null, i + 4))
        } else {
            None
        }
    } else if s[i] == 0x74 {
        if i + 4 <= s.len() && s.subrange(i, i + 4) == seq![0x74u8, 0x72u8, 0x75u8, 0x65u8] {
            Some((JsonV::Bool(true), i + 4))
        } else {
            None
        }
    } else if s[i] == 0x66 {
        if i + 5 <= s.len() && s.subrange(i, i + 5) == seq![
            0x66u8,
            0x61u8,
            0x6cu8,
            0x73u8,
            0x65u8,
        ] {
            Some((JsonV::Bool(false), i + 5))
        } else {
            None
        }
    } else if s[i] == QUOTE {
        match spec_parse_string(s, i + 1) {
            None => None,
            Some((b, j)) => Some((JsonV::Str(b), j)),
        }
    } else if s[i] == 0x5b {
        let k = skip_ws(s, i + 1);
        if i + 1 <= k <= s.len() && k < s.len() && s[k] == 0x5d {
            Some((JsonV::Arr(Seq::empty()), k + 1))
        } else {
            match spec_parse_items(s, i + 1) {
                Some((items, end)) => Some((JsonV::Arr(items), end)),
                None => None,
            }
        }
    } else if s[i] == 0x7b {
        let k = skip_ws(s, i + 1);
        if i + 1 <= k <= s.len() && k < s.len() && s[k] == 0x7d {
            Some((JsonV::Obj(Seq::empty()), k + 1))
        } else {
            match spec_parse_pairs(s, i + 1) {
                Some((pairs, end)) => Some((JsonV::Obj(pairs), end)),
                None => None,
            }
        }
    } else if (0x30 <= s[i] <= 0x39) || s[i] == 0x2d {
        let j = num_end(s, i);
        Some((JsonV::Num(s.subrange(i, j)), j))
    } else {
        None
    }
}

/// The item-list parse from just after `[` or a comma: the items and the
/// position just after `]`.
pub open spec fn spec_parse_items(s: Seq<u8>, i: int) -> Option<(Seq<JsonV>, int)>
    decreases s.len() - i, 1int,
{
    if i < 0 || i > s.len() {
        None
    } else {
        let k = skip_ws(s, i);
        if !(i <= k <= s.len()) {
            None
        } else {
            match spec_parse_value(s, k) {
                None => None,
                Some((v, j)) => {
                    if j <= i || j > s.len() {
                        None
                    } else {
                        let m = skip_ws(s, j);
                        if !(j <= m <= s.len()) {
                            None
                        } else if m < s.len() && s[m] == 0x2c {
                            match spec_parse_items(s, m + 1) {
                                Some((rest, end)) => Some((seq![v] + rest, end)),
                                None => None,
                            }
                        } else if m < s.len() && s[m] == 0x5d {
                            Some((seq![v], m + 1))
                        } else {
                            None
                        }
                    }
                },
            }
        }
    }
}

/// The member-list parse from just after `{` or a comma: the members and
/// the position just after `}`.
pub open spec fn spec_parse_pairs(s: Seq<u8>, i: int) -> Option<(Seq<(Seq<u8>, JsonV)>, int)>
    decreases s.len() - i, 3int,
{
    if i < 0 || i > s.len() {
        None
    } else {
        let k = skip_ws(s, i);
        if !(i <= k <= s.len()) || k >= s.len() || s[k] != QUOTE {
            None
        } else {
            match spec_parse_string(s, k + 1) {
                None => None,
                Some((keyb, j1)) => if j1 <= i || j1 > s.len() {
                    None
                } else {
                    spec_parse_member_value(s, i, keyb, j1)
                },
            }
        }
    }
}

/// The parse of one member from just after its key string: the colon, the
/// value, and whatever follows.
pub open spec fn spec_parse_member_value(s: Seq<u8>, i: int, keyb: Seq<u8>, j1: int) -> Option<
    (Seq<(Seq<u8>, JsonV)>, int),
>
    decreases s.len() - i, 2int,
{
    if !(i < j1 <= s.len()) {
        None
    } else {
        let c = skip_ws(s, j1);
        if !(j1 <= c <= s.len()) || c >= s.len() || s[c] != 0x3a {
            None
        } else {
            let vstart = skip_ws(s, c + 1);
            if vstart <= i || vstart > s.len() {
                None
            } else {
                match spec_parse_value(s, vstart) {
                    None => None,
                    Some((v, j)) => if j <= i || j > s.len() {
                        None
                    } else {
                        spec_parse_member_rest(s, i, keyb, v, j)
                    },
                }
            }
        }
    }
}

/// What follows one parsed member: a comma and more members, or the closing
/// brace.
pub open spec fn spec_parse_member_rest(s: Seq<u8>, i: int, keyb: Seq<u8>, v: JsonV, j: int) -> Option<
    (Seq<(Seq<u8>, JsonV)>, int),
>
    decreases s.len() - i, 1int,
{
    if !(i < j <= s.len()) {
        None
    } else {
        let m = skip_ws(s, j);
        if !(j <= m <= s.len()) {
            None
        } else if m < s.len() && s[m] == 0x2c {
            match spec_parse_pairs(s, m + 1) {
                Some((rest, end)) => Some((seq![(keyb, v)] + rest, end)),
                None => None,
            }
        } else if m < s.len() && s[m] == 0x7d {
            Some((seq![(keyb, v)], m + 1))
        } else {
            None
        }
    }
}

/// Parses one value at `i` (no leading whitespace).
pub fn parse_value_at(s: &[u8], i: usize) -> (r: Option<(Json, usize)>)
    requires
        i <= s@.len(),
    ensures
        match r {
            Some(t) => spec_parse_value(s@, i as int) matches Some(g) && models(t.0, g.0) && g.1
                == t.1 as int && i < t.1 <= s@.len() && wf_json(t.0),
            None => spec_parse_value(s@, i as int) is None,
        },
    decreases s@.len() - i, 0int,
{
    if i >= s.len() {
        return None;
    }
    let b = s[i];
    if b == 0x6e {
        if s.len() - i >= 4 && s[i + 1] == 0x75 && s[i + 2] == 0x6c && s[i + 3] == 0x6c {
            proof {
                assert(s@.subrange(i as int, i + 4) =~= seq![0x6eu8, 0x75u8, 0x6cu8, 0x6cu8]);
            }
            return Some((Json::Null, i + 4));
        }
        proof {
            if i + 4 <= s@.len() {
                assert(s@.subrange(i as int, i + 4) != seq![0x6eu8, 0x75u8, 0x6cu8, 0x6cu8]) by {
                    if s@.subrange(i as int, i + 4) == seq![0x6eu8, 0x75u8, 0x6cu8, 0x6cu8] {
                        assert(s@.subrange(i as int, i + 4)[1] == 0x75u8);
                    }
                }
            }
        }
        return None;
    }
    if b == 0x74 {
        if s.len() - i >= 4 && s[i + 1] == 0x72 && s[i + 2] == 0x75 && s[i + 3] == 0x65 {
            proof {
                assert(s@.subrange(i as int, i + 4) =~= seq![0x74u8, 0x72u8, 0x75u8, 0x65u8]);
            }
            return Some((Json::Bool(true), i + 4));
        }
        proof {
            if i + 4 <= s@.len() {
                assert(s@.subrange(i as int, i + 4) != seq![0x74u8, 0x72u8, 0x75u8, 0x65u8]) by {
                    if s@.subrange(i as int, i + 4) == seq![0x74u8, 0x72u8, 0x75u8, 0x65u8] {
                        assert(s@.subrange(i as int, i + 4)[1] == 0x72u8);
                    }
                }
            }
        }
        return None;
    }
    if b == 0x66 {
        if s.len() - i >= 5 && s[i + 1] == 0x61 && s[i + 2] == 0x6c && s[i + 3] == 0x73 && s[i + 4]
            == 0x65 {
            proof {
                assert(s@.subrange(i as int, i + 5) =~= seq![
                    0x66u8,
                    0x61u8,
                    0x6cu8,
                    0x73u8,
                    0x65u8,
                ]);
            }
            return Some((Json::Bool(false), i + 5));
        }
        proof {
            if i + 5 <= s@.len() {
                assert(s@.subrange(i as int, i + 5) != seq![0x66u8, 0x61u8, 0x6cu8, 0x73u8, 0x65u8])
                    by {
                    if s@.subrange(i as int, i + 5) == seq![0x66u8, 0x61u8, 0x6cu8, 0x73u8, 0x65u8] {
                        assert(s@.subrange(i as int, i + 5)[1] == 0x61u8);
                    }
                }
            }
        }
        return None;
    }
    if b == QUOTE {
        return match parse_string_at(s, i + 1) {
            Some((body, j)) => Some((Json::Str(body), j)),
            None => None,
        };
    }
    if b == 0x5b {
        let k = skip_ws_at(s, i + 1);
        if k < s.len() && s[k] == 0x5d {
            return Some((Json::Arr(Vec::new()), k + 1));
        }
        return match parse_items_at(s, i + 1) {
            Some((items, end)) => Some((Json::Arr(items), end)),
            None => None,
        };
    }
    if b == 0x7b {
        let k = skip_ws_at(s, i + 1);
        if k < s.len() && s[k] == 0x7d {
            return Some((Json::Obj(Vec::new()), k + 1));
        }
        return match parse_pairs_at(s, i + 1) {
            Some((pairs, end)) => Some((Json::Obj(pairs), end)),
            None => None,
        };
    }
    if (0x30 <= b && b <= 0x39) || b == 0x2d {
        let mut j = i;
        while j < s.len() && ((0x30 <= s[j] && s[j] <= 0x39) || s[j] == 0x2d || s[j] == 0x2b || s[j]
            == 0x2e || s[j] == 0x65 || s[j] == 0x45)
            invariant
                i <= j <= s@.len(),
                num_end(s@, i as int) == num_end(s@, j as int),
            decreases s@.len() - j,
        {
            j += 1;
        }
        proof {
            lemma_num_end(s@, i as int + 1);
            lemma_num_end_range(s@, i as int);
            assert(num_end(s@, i as int) == num_end(s@, i as int + 1));
        }
        let lex = vstd::slice::slice_to_vec(vstd::slice::slice_subrange(s, i, j));
        proof {
            assert(lex@.len() > 0);
            assert(lex@[0] == s@[i as int]);
            assert(forall|k: int| 0 <= k < lex@.len() ==> is_num_byte(#[trigger] lex@[k]));
        }
        return Some((Json::Num(lex), j));
    }
    None
}

/// Parses the items of an array from just after `[` or a comma.
fn parse_items_at(s: &[u8], i: usize) -> (r: Option<(Vec<Json>, usize)>)
    requires
        i <= s@.len(),
    ensures
        match r {
            Some(t) => spec_parse_items(s@, i as int) matches Some(g) && g.0.len() == t.0@.len()
                && (forall|l: int|
                0 <= l < g.0.len() ==> models(#[trigger] t.0@[l], g.0[l]) && wf_json(t.0@[l]))
                && g.1 == t.1 as int && i < t.1 <= s@.len(),
            None => spec_parse_items(s@, i as int) is None,
        },
    decreases s@.len() - i, 1int,
{
    let k = skip_ws_at(s, i);
    let (v, j) = match parse_value_at(s, k) {
        Some(t) => t,
        None => {
            return None;
        },
    };
    let m = skip_ws_at(s, j);
    if m < s.len() && s[m] == 0x2c {
        let (rest, end) = match parse_items_at(s, m + 1) {
            Some(t) => t,
            None => {
                return None;
            },
        };
        let mut items: Vec<Json> = Vec::new();
        items.push(v);
        let mut rest = rest;
        items.append(&mut rest);
        proof {
            let g = spec_parse_items(s@, i as int).unwrap();
            assert forall|l: int| 0 <= l < g.0.len() implies models(
                #[trigger] items@[l],
                g.0[l],
            ) by {
                if l > 0 {
                    assert(items@[l] == items@.subrange(1, items@.len() as int)[l - 1]);
                }
            }
        }
        return Some((items, end));
    }
    if m < s.len() && s[m] == 0x5d {
        let mut items: Vec<Json> = Vec::new();
        items.push(v);
        proof {
            let g = spec_parse_items(s@, i as int).unwrap();
            assert(g.0.len() == 1);
        }
        return Some((items, m + 1));
    }
    None
}

/// Parses the members of an object from just after `{` or a comma.
fn parse_pairs_at(s: &[u8], i: usize) -> (r: Option<(Vec<(Vec<u8>, Json)>, usize)>)
    requires
        i <= s@.len(),
    ensures
        match r {
            Some(t) => spec_parse_pairs(s@, i as int) matches Some(g) && g.0.len() == t.0@.len()
                && (forall|l: int|
                0 <= l < g.0.len() ==> (#[trigger] t.0@[l]).0@ == g.0[l].0 && models(
                    t.0@[l].1,
                    g.0[l].1,
                ) && wf_json(t.0@[l].1)) && g.1 == t.1 as int && i < t.1 <= s@.len(),
            None => spec_parse_pairs(s@, i as int) is None,
        },
    decreases s@.len() - i, 1int,
{
    let k = skip_ws_at(s, i);
    if !(k < s.len() && s[k] == QUOTE) {
        return None;
    }
    let (keyb, j1) = match parse_string_at(s, k + 1) {
        Some(t) => t,
        None => {
            return None;
        },
    };
    let c = skip_ws_at(s, j1);
    if !(c < s.len() && s[c] == 0x3a) {
        return None;
    }
    let vstart = skip_ws_at(s, c + 1);
    let (v, j) = match parse_value_at(s, vstart) {
        Some(t) => t,
        None => {
            return None;
        },
    };
    let m = skip_ws_at(s, j);
    if m < s.len() && s[m] == 0x2c {
        let (rest, end) = match parse_pairs_at(s, m + 1) {
            Some(t) => t,
            None => {
                return None;
            },
        };
        let mut pairs: Vec<(Vec<u8>, Json)> = Vec::new();
        pairs.push((keyb, v));
        let mut rest = rest;
        pairs.append(&mut rest);
        proof {
            let g = spec_parse_pairs(s@, i as int).unwrap();
            assert forall|l: int| 0 <= l < g.0.len() implies (#[trigger] pairs@[l]).0@ == g.0[l].0
                && models(pairs@[l].1, g.0[l].1) by {
                if l > 0 {
                    assert(pairs@[l] == pairs@.subrange(1, pairs@.len() as int)[l - 1]);
                }
            }
        }
        return Some((pairs, end));
    }
    if m < s.len() && s[m] == 0x7d {
        let mut pairs: Vec<(Vec<u8>, Json)> = Vec::new();
        pairs.push((keyb, v));
        proof {
            let g = spec_parse_pairs(s@, i as int).unwrap();
            assert(g.0.len() == 1);
        }
        return Some((pairs, m + 1));
    }
    None
}

/// The whole-input parse: leading and trailing whitespace allowed, nothing
/// else after the value.
pub open spec fn spec_parse_json(s: Seq<u8>) -> Option<JsonV> {
    match spec_parse_value(s, skip_ws(s, 0)) {
        Some((v, j)) => if skip_ws(s, j) == s.len() {
            Some(v)
        } else {
            None
        },
        None => None,
    }
}

/// Parses a whole JSON document.
pub fn parse_json(s: &[u8]) -> (r: Option<Json>)
    ensures
        match r {
            Some(v) => spec_parse_json(s@) matches Some(g) && models(v, g) && wf_json(v),
            None => spec_parse_json(s@) is None,
        },
{
    let i = skip_ws_at(s, 0);
    let (v, j) = match parse_value_at(s, i) {
        Some(t) => t,
        None => {
            return None;
        },
    };
    let m = skip_ws_at(s, j);
    if m == s.len() {
        Some(v)
    } else {
        None
    }
}

/// Replaces the member named `k` in place, or appends a fresh member.
pub open spec fn spec_obj_insert(ps: Seq<(Seq<u8>, JsonV)>, k: Seq<u8>, v: JsonV) -> Seq<
    (Seq<u8>, JsonV),
>
    decreases ps.len(),
{
    if ps.len() == 0 {
        seq![(k, v)]
    } else if ps[0].0 == k {
        seq![(k, v)] + ps.drop_first()
    } else {
        seq![ps[0]] + spec_obj_insert(ps.drop_first(), k, v)
    }
}

/// Law: merging under one tag leaves every other tag's value alone, and the
/// merged tag maps to the new value.
pub proof fn lemma_obj_insert(ps: Seq<(Seq<u8>, JsonV)>, k: Seq<u8>, v: JsonV)
    ensures
        ({
            let ps2 = spec_obj_insert(ps, k, v);
            &&& obj_lookup(ps2, k) == Some(v)
            &&& forall|k2: Seq<u8>| k2 != k ==> obj_lookup(ps2, k2) == obj_lookup(ps, k2)
        }),
    decreases ps.len(),
{
    let ps2 = spec_obj_insert(ps, k, v);
    if ps.len() == 0 {
        assert(ps2 =~= seq![(k, v)]);
        assert(ps2.drop_first() =~= Seq::<(Seq<u8>, JsonV)>::empty());
        assert forall|k2: Seq<u8>| k2 != k implies obj_lookup(ps2, k2) == obj_lookup(
            ps,
            k2,
        ) by {
            assert(obj_lookup(ps2, k2) == obj_lookup(ps2.drop_first(), k2));
        }
    } else if ps[0].0 == k {
        assert(ps2[0] == (k, v));
        assert(ps2.drop_first() =~= ps.drop_first());
        assert forall|k2: Seq<u8>| k2 != k implies obj_lookup(ps2, k2) == obj_lookup(
            ps,
            k2,
        ) by {
            assert(obj_lookup(ps2, k2) == obj_lookup(ps2.drop_first(), k2));
            assert(obj_lookup(ps, k2) == obj_lookup(ps.drop_first(), k2));
        }
    } else {
        lemma_obj_insert(ps.drop_first(), k, v);
        assert(ps2[0] == ps[0]);
        assert(ps2.drop_first() =~= spec_obj_insert(ps.drop_first(), k, v));
        assert(obj_lookup(ps2, k) == obj_lookup(ps2.drop_first(), k));
        assert forall|k2: Seq<u8>| k2 != k implies obj_lookup(ps2, k2) == obj_lookup(
            ps,
            k2,
        ) by {
            if ps[0].0 != k2 {
                assert(obj_lookup(ps2, k2) == obj_lookup(ps2.drop_first(), k2));
                assert(obj_lookup(ps, k2) == obj_lookup(ps.drop_first(), k2));
            }
        }
    }
}

/// The value of the member named `k`, first match.
pub open spec fn obj_lookup(ps: Seq<(Seq<u8>, JsonV)>, k: Seq<u8>) -> Option<JsonV>
    decreases ps.len(),
{
    if ps.len() == 0 {
        None
    } else if ps[0].0 == k {
        Some(ps[0].1)
    } else {
        obj_lookup(ps.drop_first(), k)
    }
}

/// The merged object a `merge_json` step writes: the existing destination
/// (an empty object when the file is absent) with `tag` bound to the value
/// parsed from the source.  None when either side fails to parse or the
/// destination is no object.
pub open spec fn spec_merged_obj(
    existing: Option<Seq<u8>>,
    tag: Seq<u8>,
    src: Seq<u8>,
) -> Option<Seq<(Seq<u8>, JsonV)>> {
    let dst_pairs = match existing {
        Some(bytes) => match spec_parse_json(bytes) {
            Some(JsonV::Obj(ps)) => Some(ps),
            _ => None,
        },
        None => Some(Seq::empty()),
    };
    match (dst_pairs, spec_parse_json(src)) {
        (Some(ps), Some(v)) => Some(spec_obj_insert(ps, tag, v)),
        _ => None,
    }
}

/// Merges the JSON document `src` into the JSON object held in `existing`
/// under the key `tag`, returning the new canonical encoding of the object.
pub fn merge_json_bytes(existing: &Option<Vec<u8>>, tag: &[u8], src: &[u8]) -> (r: Option<Vec<u8>>)
    ensures
        match r {
            Some(out) => spec_merged_obj(
                match existing {
                    Some(b) => Some(b@),
                    None => None,
                },
                tag@,
                src@,
            ) matches Some(gps) && exists|merged: Json|
                models(merged, JsonV::Obj(gps)) && out@ == #[trigger] enc(merged),
            None => spec_merged_obj(
                match existing {
                    Some(b) => Some(b@),
                    None => None,
                },
                tag@,
                src@,
            ) is None,
        },
{
    let mut pairs: Vec<(Vec<u8>, Json)> = match existing {
        Some(bytes) => match parse_json(bytes.as_slice()) {
            Some(Json::Obj(ps)) => ps,
            Some(_) => {
                return None;
            },
            None => {
                return None;
            },
        },
        None => Vec::new(),
    };
    let ghost gps0 = spec_obj_pairs_of(
        match existing {
            Some(b) => Some(b@),
            None => None,
        },
    ).unwrap();
    let srcv = match parse_json(src) {
        Some(v) => v,
        None => {
            return None;
        },
    };
    let ghost gsrc = spec_parse_json(src@).unwrap();
    let merged_pairs = obj_insert(pairs, vstd::slice::slice_to_vec(tag), srcv, Ghost(gps0), Ghost(gsrc));
    let merged = Json::Obj(merged_pairs);
    proof {
        assert(models(merged, JsonV::Obj(spec_obj_insert(gps0, tag@, gsrc))));
    }
    let out = encode(&merged);
    Some(out)
}

/// The parsed members of the destination object, when it parses as one.
pub open spec fn spec_obj_pairs_of(existing: Option<Seq<u8>>) -> Option<Seq<(Seq<u8>, JsonV)>> {
    match existing {
        Some(bytes) => match spec_parse_json(bytes) {
            Some(JsonV::Obj(ps)) => Some(ps),
            _ => None,
        },
        None => Some(Seq::empty()),
    }
}

/// Replaces the member named `key` in place, or appends it.
fn obj_insert(
    pairs: Vec<(Vec<u8>, Json)>,
    key: Vec<u8>,
    value: Json,
    Ghost(gps): Ghost<Seq<(Seq<u8>, JsonV)>>,
    Ghost(gv): Ghost<JsonV>,
) -> (r: Vec<(Vec<u8>, Json)>)
    requires
        pairs@.len() == gps.len(),
        forall|l: int|
            0 <= l < gps.len() ==> (#[trigger] pairs@[l]).0@ == gps[l].0 && models(
                pairs@[l].1,
                gps[l].1,
            ),
        models(value, gv),
    ensures
        r@.len() == spec_obj_insert(gps, key@, gv).len(),
        forall|l: int|
            0 <= l < r@.len() ==> (#[trigger] r@[l]).0@ == spec_obj_insert(gps, key@, gv)[l].0
                && models(r@[l].1, spec_obj_insert(gps, key@, gv)[l].1),
{
    let ghost target = spec_obj_insert(gps, key@, gv);
    let mut pairs = pairs;
    let n = pairs.len();
    let mut i: usize = 0;
    #[verifier::loop_isolation(false)]
    while i < n
        invariant
            0 <= i <= n == pairs@.len(),
            pairs@.len() == gps.len(),
            forall|l: int|
                0 <= l < gps.len() ==> (#[trigger] pairs@[l]).0@ == gps[l].0 && models(
                    pairs@[l].1,
                    gps[l].1,
                ),
            forall|l: int| 0 <= l < i ==> gps[l].0 != key@,
        decreases n - i,
    {
        if crate::vars::bytes_eq(pairs[i].0.as_slice(), key.as_slice()) {
            pairs[i] = (key, value);
            proof {
                lemma_obj_insert_at(gps, i as int, key@, gv);
            }
            return pairs;
        }
        i += 1;
    }
    pairs.push((key, value));
    proof {
        lemma_obj_insert_append(gps, key@, gv);
    }
    pairs
}

/// A value whose number lexemes are valid: non-empty, made of number
/// bytes, and starting with a digit or a minus so the parser dispatches to
/// the number branch.  Everything the encoder writes for other variants
/// round-trips unconditionally.
pub open spec fn wf_json(v: Json) -> bool
    decreases v,
{
    match v {
        Json::Num(lex) => lex@.len() > 0 && (forall|i: int|
            0 <= i < lex@.len() ==> is_num_byte(#[trigger] lex@[i])) && (0x30 <= lex@[0] <= 0x39
            || lex@[0] == 0x2d),
        Json::Arr(items) => forall|i: int| 0 <= i < items@.len() ==> wf_json(#[trigger] items@[i]),
        Json::Obj(pairs) => forall|i: int|
            0 <= i < pairs@.len() ==> wf_json((#[trigger] pairs@[i]).1),
        _ => true,
    }
}

/// The items of an array value.
pub open spec fn arr_items(v: Json) -> Seq<Json> {
    match v {
        Json::Arr(items) => items@,
        _ => Seq::empty(),
    }
}

/// The members of an object value.
pub open spec fn obj_pairs(v: Json) -> Seq<(Vec<u8>, Json)> {
    match v {
        Json::Obj(pairs) => pairs@,
        _ => Seq::empty(),
    }
}

/// The encoding of a well-formed value is non-empty, starts with no
/// whitespace, and starts with none of the closing or separating bytes.
proof fn lemma_enc_head(v: Json)
    requires
        wf_json(v),
    ensures
        enc(v).len() >= 1,
        !is_ws(enc(v)[0]),
        enc(v)[0] != 0x5d && enc(v)[0] != 0x7d && enc(v)[0] != 0x2c && enc(v)[0] != 0x3a,
{
    match v {
        Json::Null => {},
        Json::Bool(_) => {},
        Json::Num(lex) => {
            assert(enc(v)[0] == lex@[0]);
        },
        Json::Str(_) => {},
        Json::Arr(_) => {},
        Json::Obj(_) => {},
    }
}

/// A number lexeme is read back whole: the scan stops exactly at its end.
proof fn lemma_num_end_exact(s: Seq<u8>, i: int, end: int)
    requires
        0 <= i <= end <= s.len(),
        forall|k: int| i <= k < end ==> is_num_byte(#[trigger] s[k]),
        end == s.len() || !is_num_byte(s[end]),
    ensures
        num_end(s, i) == end,
    decreases end - i,
{
    if i < end {
        lemma_num_end_exact(s, i + 1, end);
    }
}

/// A position at a non-whitespace byte (or the end) is already skipped.
proof fn lemma_skip_ws_at(s: Seq<u8>, i: int)
    requires
        0 <= i,
        i == s.len() || (i < s.len() && !is_ws(s[i])),
    ensures
        skip_ws(s, i) == i,
{
}

/// An escaped string body is decoded back byte for byte, ending at the
/// closing quote.
#[verifier::rlimit(60)]
proof fn lemma_parse_string_esc(body: Seq<u8>, s: Seq<u8>, i: int)
    requires
        0 <= i,
        i + esc(body).len() + 1 <= s.len(),
        s.subrange(i, i + esc(body).len()) == esc(body),
        s[i + esc(body).len()] == QUOTE,
    ensures
        spec_parse_string(s, i) == Some((body, i + esc(body).len() + 1)),
    decreases body.len(),
{
    if body.len() == 0 {
        assert(esc(body) =~= Seq::<u8>::empty());
        assert(s[i] == QUOTE);
    } else {
        let b0 = body[0];
        let rest = body.drop_first();
        let e0 = esc_byte(b0);
        assert(esc(body) == e0 + esc(rest));
        let el = e0.len();
        assert forall|k: int| 0 <= k < esc(rest).len() implies s[i + el + k] == esc(rest)[k] by {
            assert(s.subrange(i, i + esc(body).len())[el + k] == esc(body)[el + k]);
        }
        assert(s.subrange(i + el, i + el + esc(rest).len()) =~= esc(rest));
        assert forall|k: int| 0 <= k < el implies s[i + k] == e0[k] by {
            assert(s.subrange(i, i + esc(body).len())[k] == esc(body)[k]);
        }
        lemma_parse_string_esc(rest, s, i + el);
        if b0 == QUOTE || b0 == BACKSLASH || b0 == 0x0a || b0 == 0x0d || b0 == 0x09 {
            assert(el == 2);
            assert(s[i + 0] == e0[0]);
            assert(s[i + 1] == e0[1]);
            assert(s[i] == BACKSLASH);
            assert(spec_parse_string(s, i) == Some(
                (seq![b0] + rest, i + esc(body).len() + 1),
            ));
        } else {
            assert(e0 =~= seq![b0]);
            assert(el == 1);
            assert(s[i + 0] == e0[0]);
            assert(s[i] == b0);
            assert(s[i] != QUOTE && s[i] != BACKSLASH);
            assert(spec_parse_string(s, i) == Some(
                (seq![b0] + rest, i + esc(body).len() + 1),
            ));
        }
        assert(seq![b0] + rest =~= body);
    }
}

/// Law: a canonically encoded value embedded in a larger buffer parses
/// back to itself, ending exactly where its encoding ends.  The byte after
/// the encoding must not extend a number lexeme.
#[verifier::rlimit(100)]
pub proof fn lemma_parse_enc(v: Json, s: Seq<u8>, i: int)
    requires
        wf_json(v),
        0 <= i,
        i + enc(v).len() <= s.len(),
        s.subrange(i, i + enc(v).len()) == enc(v),
        i + enc(v).len() == s.len() || !is_num_byte(s[i + enc(v).len()]),
    ensures
        spec_parse_value(s, i) matches Some(t) && models(v, t.0) && t.1 == i + enc(v).len(),
    decreases v, 2int, 0int,
{
    lemma_enc_head(v);
    let e = enc(v);
    let endpos = i + e.len();
    assert forall|k: int| 0 <= k < e.len() implies s[i + k] == e[k] by {
        assert(s.subrange(i, endpos)[k] == e[k]);
    }
    match v {
        Json::Null => {
            assert(e =~= seq![0x6eu8, 0x75u8, 0x6cu8, 0x6cu8]);
            assert(s.subrange(i, i + 4) =~= seq![0x6eu8, 0x75u8, 0x6cu8, 0x6cu8]);
        },
        Json::Bool(b) => {
            if b {
                assert(e =~= seq![0x74u8, 0x72u8, 0x75u8, 0x65u8]);
                assert(s.subrange(i, i + 4) =~= seq![0x74u8, 0x72u8, 0x75u8, 0x65u8]);
            } else {
                assert(e =~= seq![0x66u8, 0x61u8, 0x6cu8, 0x73u8, 0x65u8]);
                assert(s.subrange(i, i + 5) =~= seq![0x66u8, 0x61u8, 0x6cu8, 0x73u8, 0x65u8]);
            }
        },
        Json::Num(lex) => {
            assert(s[i] == lex@[0]);
            assert(s[i] != 0x6e && s[i] != 0x74 && s[i] != 0x66 && s[i] != QUOTE && s[i] != 0x5b
                && s[i] != 0x7b);
            assert(is_num_byte(s[i]));
            assert forall|k: int| i <= k < endpos implies is_num_byte(#[trigger] s[k]) by {
                assert(s[k] == e[k - i]);
                assert(e[k - i] == lex@[k - i]);
            }
            lemma_num_end_exact(s, i, endpos);
            assert(s.subrange(i, endpos) =~= lex@);
        },
        Json::Str(body) => {
            assert(s[i] == QUOTE);
            assert forall|k: int| 0 <= k < esc(body@).len() implies s[i + 1 + k] == esc(
                body@,
            )[k] by {
                assert(s.subrange(i, endpos)[1 + k] == e[1 + k]);
            }
            assert(s.subrange(i + 1, i + 1 + esc(body@).len()) =~= esc(body@));
            let bl = esc(body@).len() as int;
            assert(s[i + 1 + bl] == QUOTE) by {
                assert(e =~= seq![QUOTE] + (esc(body@) + seq![QUOTE]));
                assert(e[1 + bl] == (esc(body@) + seq![QUOTE])[bl]);
                assert((esc(body@) + seq![QUOTE])[bl] == seq![QUOTE][0]);
                assert(s[i + (1 + bl)] == e[1 + bl]);
            }
            lemma_parse_string_esc(body@, s, i + 1);
        },
        Json::Arr(items) => {
            assert(s[i] == 0x5b);
            if items@.len() == 0 {
                assert(enc_items(items@, 0) =~= Seq::<u8>::empty());
                assert(e =~= seq![0x5bu8, 0x5du8]);
                assert(s[i + 1] == 0x5d);
                lemma_skip_ws_at(s, i + 1);
            } else {
                let inner = enc_items(items@, 0);
                assert forall|k: int| 0 <= k < inner.len() implies s[i + 1 + k] == inner[k] by {
                    assert(s.subrange(i, endpos)[1 + k] == e[1 + k]);
                }
                assert(s.subrange(i + 1, i + 1 + inner.len()) =~= inner);
                let il = inner.len() as int;
                assert(s[i + 1 + il] == 0x5d) by {
                    assert(e =~= seq![0x5bu8] + (inner + seq![0x5du8]));
                    assert(e[1 + il] == (inner + seq![0x5du8])[il]);
                    assert((inner + seq![0x5du8])[il] == seq![0x5du8][0]);
                    assert(s[i + (1 + il)] == e[1 + il]);
                }
                lemma_items_head(v, items@, s, i);
                lemma_parse_items_enc(v, 0, s, i + 1);
            }
        },
        Json::Obj(pairs) => {
            assert(s[i] == 0x7b);
            if pairs@.len() == 0 {
                assert(enc_pairs(pairs@, 0) =~= Seq::<u8>::empty());
                assert(e =~= seq![0x7bu8, 0x7du8]);
                assert(s[i + 1] == 0x7d);
                lemma_skip_ws_at(s, i + 1);
            } else {
                let inner = enc_pairs(pairs@, 0);
                assert forall|k: int| 0 <= k < inner.len() implies s[i + 1 + k] == inner[k] by {
                    assert(s.subrange(i, endpos)[1 + k] == e[1 + k]);
                }
                assert(s.subrange(i + 1, i + 1 + inner.len()) =~= inner);
                let il = inner.len() as int;
                assert(s[i + 1 + il] == 0x7d) by {
                    assert(e =~= seq![0x7bu8] + (inner + seq![0x7du8]));
                    assert(e[1 + il] == (inner + seq![0x7du8])[il]);
                    assert((inner + seq![0x7du8])[il] == seq![0x7du8][0]);
                    assert(s[i + (1 + il)] == e[1 + il]);
                }
                assert(s[i + 1] == QUOTE) by {
                    let kk = obj_pairs(v)[0].0;
                    assert(inner == seq![QUOTE] + esc(kk@) + seq![QUOTE, 0x3au8] + enc(
                        obj_pairs(v)[0].1,
                    ) + (if 1 < obj_pairs(v).len() {
                        seq![0x2cu8]
                    } else {
                        Seq::<u8>::empty()
                    }) + enc_pairs(obj_pairs(v), 1));
                    assert(inner =~= seq![QUOTE] + (esc(kk@) + seq![QUOTE, 0x3au8] + enc(
                        obj_pairs(v)[0].1,
                    ) + (if 1 < obj_pairs(v).len() {
                        seq![0x2cu8]
                    } else {
                        Seq::<u8>::empty()
                    }) + enc_pairs(obj_pairs(v), 1)));
                    assert(inner[0] == QUOTE);
                    assert(s[i + 1] == e[1]);
                }
                lemma_skip_ws_at(s, i + 1);
                lemma_parse_pairs_enc(v, 0, s, i + 1);
            }
        },
    }
}

/// The first byte of a non-empty item list's encoding keeps the parser out
/// of the empty-array shortcut.
proof fn lemma_items_head(v: Json, items: Seq<Json>, s: Seq<u8>, i: int)
    requires
        wf_json(v),
        v matches Json::Arr(iv) && iv@ == items,
        items.len() > 0,
        0 <= i,
        i + enc(v).len() <= s.len(),
        s.subrange(i, i + enc(v).len()) == enc(v),
    ensures
        skip_ws(s, i + 1) == i + 1,
        s[i + 1] != 0x5d,
    decreases v, 1int, 1int,
{
    lemma_enc_head(items[0]);
    let inner = enc_items(items, 0);
    assert(inner == enc(items[0]) + (if 1 < items.len() {
        seq![0x2cu8]
    } else {
        Seq::<u8>::empty()
    }) + enc_items(items, 1));
    assert(inner[0] == enc(items[0])[0]);
    assert(s.subrange(i, i + enc(v).len())[1] == enc(v)[1]);
    assert(enc(v)[1] == inner[0]);
    lemma_skip_ws_at(s, i + 1);
}

/// One comma-separated run of encoded items parses back item by item,
/// ending just after the closing bracket.
#[verifier::rlimit(100)]
proof fn lemma_parse_items_enc(v: Json, idx: int, s: Seq<u8>, pos: int)
    requires
        wf_json(v),
        v is Arr,
        0 <= idx < arr_items(v).len(),
        0 <= pos,
        pos + enc_items(arr_items(v), idx).len() + 1 <= s.len(),
        s.subrange(pos, pos + enc_items(arr_items(v), idx).len()) == enc_items(
            arr_items(v),
            idx,
        ),
        s[pos + enc_items(arr_items(v), idx).len()] == 0x5d,
    ensures
        spec_parse_items(s, pos) matches Some(t) && t.1 == pos + enc_items(
            arr_items(v),
            idx,
        ).len() + 1 && t.0.len() == arr_items(v).len() - idx && (forall|l: int|
            0 <= l < t.0.len() ==> models(arr_items(v)[idx + l], #[trigger] t.0[l])),
    decreases v, 1int, arr_items(v).len() - idx,
{
    let items = arr_items(v);
    let run = enc_items(items, idx);
    let item = items[idx];
    let ie = enc(item);
    let sep: Seq<u8> = if idx + 1 < items.len() {
        seq![0x2cu8]
    } else {
        Seq::empty()
    };
    let rest = enc_items(items, idx + 1);
    assert(run == ie + sep + rest);
    assert(wf_json(item)) by {
        assert(decreases_to!(v => item));
    }
    lemma_enc_head(item);
    assert forall|k: int| 0 <= k < run.len() implies s[pos + k] == run[k] by {
        assert(s.subrange(pos, pos + run.len())[k] == run[k]);
    }
    assert(s.subrange(pos, pos + ie.len()) =~= ie);
    lemma_skip_ws_at(s, pos);
    let j = pos + ie.len();
    if idx + 1 < items.len() {
        assert(s[j] == 0x2c) by {
            assert(run[ie.len() as int] == 0x2cu8) by {
                assert(run =~= ie + (sep + rest));
                assert((ie + (sep + rest))[ie.len() as int] == (sep + rest)[0]);
                assert((sep + rest)[0] == sep[0]);
            }
        }
        lemma_parse_enc(item, s, pos);
        lemma_skip_ws_at(s, j);
        assert forall|k: int| 0 <= k < rest.len() implies s[j + 1 + k] == rest[k] by {
            assert(s.subrange(pos, pos + run.len())[ie.len() + 1 + k] == run[ie.len() + 1 + k]);
        }
        assert(s.subrange(j + 1, j + 1 + rest.len()) =~= rest);
        lemma_parse_items_enc(v, idx + 1, s, j + 1);
        let t = spec_parse_items(s, pos).unwrap();
        let tr = spec_parse_items(s, j + 1).unwrap();
        assert(t.0 == seq![spec_parse_value(s, pos).unwrap().0] + tr.0);
        assert forall|l: int| 0 <= l < t.0.len() implies models(
            items[idx + l],
            #[trigger] t.0[l],
        ) by {
            if l > 0 {
                assert(t.0[l] == tr.0[l - 1]);
                assert(models(items[idx + 1 + (l - 1)], tr.0[l - 1]));
            }
        }
    } else {
        assert(rest =~= Seq::<u8>::empty());
        assert(run =~= ie);
        assert(s[j] == 0x5d);
        lemma_parse_enc(item, s, pos);
        lemma_skip_ws_at(s, j);
        let t = spec_parse_items(s, pos).unwrap();
        assert(t.0 == seq![spec_parse_value(s, pos).unwrap().0]);
    }
}

/// One comma-separated run of encoded members parses back member by
/// member, ending just after the closing brace.
#[verifier::rlimit(100)]
proof fn lemma_parse_pairs_enc(v: Json, idx: int, s: Seq<u8>, pos: int)
    requires
        wf_json(v),
        v is Obj,
        0 <= idx < obj_pairs(v).len(),
        0 <= pos,
        pos + enc_pairs(obj_pairs(v), idx).len() + 1 <= s.len(),
        s.subrange(pos, pos + enc_pairs(obj_pairs(v), idx).len()) == enc_pairs(
            obj_pairs(v),
            idx,
        ),
        s[pos + enc_pairs(obj_pairs(v), idx).len()] == 0x7d,
    ensures
        spec_parse_pairs(s, pos) matches Some(t) && t.1 == pos + enc_pairs(
            obj_pairs(v),
            idx,
        ).len() + 1 && t.0.len() == obj_pairs(v).len() - idx && (forall|l: int|
            0 <= l < t.0.len() ==> (#[trigger] t.0[l]).0 == obj_pairs(v)[idx + l].0@ && models(
                obj_pairs(v)[idx + l].1,
                t.0[l].1,
            )),
    decreases v, 1int, obj_pairs(v).len() - idx,
{
    let pairs = obj_pairs(v);
    let run = enc_pairs(pairs, idx);
    let key = pairs[idx].0;
    let val = pairs[idx].1;
    let ke = esc(key@);
    let ve = enc(val);
    let sep: Seq<u8> = if idx + 1 < pairs.len() {
        seq![0x2cu8]
    } else {
        Seq::empty()
    };
    let rest = enc_pairs(pairs, idx + 1);
    assert(run == seq![QUOTE] + ke + seq![QUOTE, 0x3au8] + ve + sep + rest);
    assert(wf_json(val)) by {
        assert(decreases_to!(v => val));
    }
    lemma_enc_head(val);
    let flat = seq![QUOTE] + (ke + (seq![QUOTE, 0x3au8] + (ve + (sep + rest))));
    assert(run =~= flat);
    assert forall|k: int| 0 <= k < run.len() implies s[pos + k] == run[k] by {
        assert(s.subrange(pos, pos + run.len())[k] == run[k]);
    }
    assert(run[0] == QUOTE) by {
        assert(flat[0] == seq![QUOTE][0]);
    }
    assert(s[pos] == QUOTE);
    lemma_skip_ws_at(s, pos);
    assert forall|k: int| 0 <= k < ke.len() implies run[1 + k] == ke[k] by {
        assert(flat[1 + k] == (ke + (seq![QUOTE, 0x3au8] + (ve + (sep + rest))))[k]);
    }
    assert forall|k: int| 0 <= k < ke.len() implies s[pos + 1 + k] == ke[k] by {
        assert(s[pos + (1 + k)] == run[1 + k]);
    }
    assert(s.subrange(pos + 1, pos + 1 + ke.len()) =~= ke);
    let tail2 = seq![QUOTE, 0x3au8] + (ve + (sep + rest));
    assert forall|k: int| 0 <= k < tail2.len() implies run[1 + ke.len() + k] == tail2[k] by {
        assert(flat[1 + ke.len() + k] == (ke + tail2)[ke.len() + k]);
        assert((ke + tail2)[ke.len() + k] == tail2[k]);
    }
    assert(s[pos + 1 + ke.len()] == QUOTE) by {
        assert(run[1 + ke.len() as int] == tail2[0]);
        assert(tail2[0] == seq![QUOTE, 0x3au8][0]);
        assert(s[pos + (1 + ke.len() as int)] == run[1 + ke.len() as int]);
    }
    lemma_parse_string_esc(key@, s, pos + 1);
    let j1 = pos + 1 + ke.len() + 1;
    assert(s[j1] == 0x3a) by {
        assert(run[j1 - pos] == tail2[1]);
        assert(tail2[1] == seq![QUOTE, 0x3au8][1]);
        assert(s[pos + (j1 - pos)] == run[j1 - pos]);
    }
    lemma_skip_ws_at(s, j1);
    let vstart = j1 + 1;
    let tail3 = ve + (sep + rest);
    assert forall|k: int| 0 <= k < tail3.len() implies run[vstart - pos + k] == tail3[k] by {
        assert(run[1 + ke.len() + (2 + k)] == tail2[2 + k]);
        assert(tail2[2 + k] == tail3[k]);
    }
    assert forall|k: int| 0 <= k < ve.len() implies s[vstart + k] == ve[k] by {
        assert(s[pos + (vstart - pos + k)] == run[vstart - pos + k]);
        assert(run[vstart - pos + k] == tail3[k]);
        assert(tail3[k] == ve[k]);
    }
    assert(s.subrange(vstart, vstart + ve.len()) =~= ve);
    lemma_skip_ws_at(s, vstart);
    let j = vstart + ve.len();
    if idx + 1 < pairs.len() {
        assert(s[j] == 0x2c) by {
            assert(run[j - pos] == tail3[ve.len() as int]);
            assert(tail3[ve.len() as int] == (sep + rest)[0]);
            assert((sep + rest)[0] == sep[0]);
            assert(s[pos + (j - pos)] == run[j - pos]);
        }
        lemma_parse_enc(val, s, vstart);
        lemma_skip_ws_at(s, j);
        assert forall|k: int| 0 <= k < rest.len() implies s[j + 1 + k] == rest[k] by {
            assert(run[j + 1 - pos + k] == tail3[ve.len() + 1 + k]);
            assert(tail3[ve.len() + 1 + k] == (sep + rest)[1 + k]);
            assert((sep + rest)[1 + k] == rest[k]);
            assert(s[pos + (j + 1 - pos + k)] == run[j + 1 - pos + k]);
        }
        assert(s.subrange(j + 1, j + 1 + rest.len()) =~= rest);
        lemma_parse_pairs_enc(v, idx + 1, s, j + 1);
        let t = spec_parse_pairs(s, pos).unwrap();
        let tr = spec_parse_pairs(s, j + 1).unwrap();
        assert(t.0 == seq![(key@, spec_parse_value(s, vstart).unwrap().0)] + tr.0);
        assert forall|l: int| 0 <= l < t.0.len() implies (#[trigger] t.0[l]).0 == pairs[idx
            + l].0@ && models(pairs[idx + l].1, t.0[l].1) by {
            if l > 0 {
                assert(t.0[l] == tr.0[l - 1]);
                assert(tr.0[l - 1].0 == pairs[idx + 1 + (l - 1)].0@ && models(
                    pairs[idx + 1 + (l - 1)].1,
                    tr.0[l - 1].1,
                ));
            }
        }
    } else {
        assert(rest =~= Seq::<u8>::empty());
        assert(j == pos + run.len());
        assert(s[j] == 0x7d);
        lemma_parse_enc(val, s, vstart);
        lemma_skip_ws_at(s, j);
        let t = spec_parse_pairs(s, pos).unwrap();
        assert(t.0 == seq![(key@, spec_parse_value(s, vstart).unwrap().0)]);
    }
}

/// Law: a value serialized canonically and parsed back carries exactly the
/// model of the value it came from: nulls, booleans, number lexemes,
/// decoded strings, item lists and member lists all survive the trip.
pub proof fn lemma_json_round_trip(v: Json)
    requires
        wf_json(v),
    ensures
        spec_parse_json(enc(v)) matches Some(g) && models(v, g),
{
    let s = enc(v);
    lemma_enc_head(v);
    lemma_skip_ws_at(s, 0);
    assert(s.subrange(0, s.len() as int) =~= s);
    lemma_parse_enc(v, s, 0);
    assert(skip_ws(s, s.len() as int) == s.len());
}

/// Inserting at a key's first occurrence replaces that member in place.
proof fn lemma_obj_insert_at(gps: Seq<(Seq<u8>, JsonV)>, i: int, k: Seq<u8>, v: JsonV)
    requires
        0 <= i < gps.len(),
        gps[i].0 == k,
        forall|l: int| 0 <= l < i ==> gps[l].0 != k,
    ensures
        spec_obj_insert(gps, k, v) =~= gps.update(i, (k, v)),
    decreases i,
{
    if i == 0 {
        assert(spec_obj_insert(gps, k, v) =~= seq![(k, v)] + gps.drop_first());
    } else {
        lemma_obj_insert_at(gps.drop_first(), i - 1, k, v);
        assert(gps.update(i, (k, v)).drop_first() =~= gps.drop_first().update(i - 1, (k, v)));
        assert(spec_obj_insert(gps, k, v) =~= seq![gps[0]] + spec_obj_insert(
            gps.drop_first(),
            k,
            v,
        ));
    }
}

/// Inserting a fresh key appends the member.
proof fn lemma_obj_insert_append(gps: Seq<(Seq<u8>, JsonV)>, k: Seq<u8>, v: JsonV)
    requires
        forall|l: int| 0 <= l < gps.len() ==> (#[trigger] gps[l]).0 != k,
    ensures
        spec_obj_insert(gps, k, v) =~= gps.push((k, v)),
    decreases gps.len(),
{
    if gps.len() > 0 {
        lemma_obj_insert_append(gps.drop_first(), k, v);
        assert(gps.push((k, v)).drop_first() =~= gps.drop_first().push((k, v)));
    }
}

} // verus!
