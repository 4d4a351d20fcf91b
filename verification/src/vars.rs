//! The ordered variable environment of a trial and `{KEY}` placeholder
//! expansion.
//!
//! Variables are kept in insertion order.  A value inserted later may
//! reference earlier variables through `{KEY}` placeholders; expansion is
//! eager at insertion time.  An unrecognized placeholder is left literal,
//! braces included.

use vstd::prelude::*;
use vstd::slice::{slice_subrange, slice_to_vec};

verus! {

pub const OPEN_BRACE: u8 = 0x7b;

pub const CLOSE_BRACE: u8 = 0x7d;

/// Index of the first occurrence of `c` in `s` at or after `i`.
pub open spec fn find_from(s: Seq<u8>, c: u8, i: int) -> Option<int>
    decreases s.len() - i,
{
    if i < 0 || i >= s.len() {
        None
    } else if s[i] == c {
        Some(i)
    } else {
        find_from(s, c, i + 1)
    }
}

pub proof fn lemma_find_from(s: Seq<u8>, c: u8, i: int)
    requires
        0 <= i <= s.len(),
    ensures
        match find_from(s, c, i) {
            Some(j) => i <= j < s.len() && s[j] == c && (forall|k: int| i <= k < j ==> s[k] != c),
            None => forall|k: int| i <= k < s.len() ==> s[k] != c,
        },
    decreases s.len() - i,
{
    if i < s.len() && s[i] != c {
        lemma_find_from(s, c, i + 1);
    }
}

/// A first occurrence characterizes the result of `find_from`.
pub proof fn lemma_find_from_is(s: Seq<u8>, c: u8, i: int, j: int)
    requires
        0 <= i <= j < s.len(),
        s[j] == c,
        forall|k: int| i <= k < j ==> s[k] != c,
    ensures
        find_from(s, c, i) == Some(j),
    decreases j - i,
{
    if i < j {
        lemma_find_from_is(s, c, i + 1, j);
    }
}

pub proof fn lemma_find_from_none(s: Seq<u8>, c: u8, i: int)
    requires
        0 <= i <= s.len(),
        forall|k: int| i <= k < s.len() ==> s[k] != c,
    ensures
        find_from(s, c, i) is None,
    decreases s.len() - i,
{
    if i < s.len() {
        lemma_find_from_none(s, c, i + 1);
    }
}

/// Index of the first occurrence of `c` in `s` at or after `start`.
pub fn find_byte_from(s: &[u8], c: u8, start: usize) -> (r: Option<usize>)
    requires
        start <= s@.len(),
    ensures
        r matches Some(j) ==> find_from(s@, c, start as int) == Some(j as int),
        r is None ==> find_from(s@, c, start as int) is None,
{
    let mut i = start;
    while i < s.len()
        invariant
            start <= i <= s@.len(),
            forall|k: int| start <= k < i ==> s@[k] != c,
        decreases s@.len() - i,
    {
        if s[i] == c {
            proof {
                lemma_find_from_is(s@, c, start as int, i as int);
            }
            return Some(i);
        }
        i += 1;
    }
    proof {
        lemma_find_from_none(s@, c, start as int);
    }
    None
}

/// Splits `s` at its first `{KEY}` placeholder: the text before the `{`, the
/// key between the braces, and the text after the `}`.
pub open spec fn spec_split_template(s: Seq<u8>) -> Option<(Seq<u8>, Seq<u8>, Seq<u8>)> {
    match find_from(s, OPEN_BRACE, 0) {
        None => None,
        Some(i) => match find_from(s, CLOSE_BRACE, i + 1) {
            None => None,
            Some(j) => Some(
                (s.subrange(0, i), s.subrange(i + 1, j), s.subrange(j + 1, s.len() as int)),
            ),
        },
    }
}

pub fn split_template(s: &[u8]) -> (r: Option<(Vec<u8>, Vec<u8>, Vec<u8>)>)
    ensures
        match r {
            Some(t) => spec_split_template(s@) == Some((t.0@, t.1@, t.2@)) && t.2@.len() < s@.len(),
            None => spec_split_template(s@) is None,
        },
{
    let i = match find_byte_from(s, OPEN_BRACE, 0) {
        Some(i) => i,
        None => {
            return None;
        },
    };
    proof {
        lemma_find_from(s@, OPEN_BRACE, 0);
        assert(i < s@.len() && s@.len() == s.len());
    }
    let j = match find_byte_from(s, CLOSE_BRACE, i + 1) {
        Some(j) => j,
        None => {
            return None;
        },
    };
    proof {
        lemma_find_from(s@, CLOSE_BRACE, i + 1);
        assert(j < s@.len() && s@.len() == s.len());
    }
    let before = slice_to_vec(slice_subrange(s, 0, i));
    let key = slice_to_vec(slice_subrange(s, i + 1, j));
    let after = slice_to_vec(slice_subrange(s, j + 1, s.len()));
    Some((before, key, after))
}

/// Index of the first entry of `m` whose key is `k`.
pub open spec fn find_key(m: Seq<(Seq<u8>, Seq<u8>)>, k: Seq<u8>, i: int) -> Option<int>
    decreases m.len() - i,
{
    if i < 0 || i >= m.len() {
        None
    } else if m[i].0 == k {
        Some(i)
    } else {
        find_key(m, k, i + 1)
    }
}

pub proof fn lemma_find_key(m: Seq<(Seq<u8>, Seq<u8>)>, k: Seq<u8>, i: int)
    requires
        0 <= i <= m.len(),
    ensures
        match find_key(m, k, i) {
            Some(j) => i <= j < m.len() && m[j].0 == k && (forall|l: int|
                i <= l < j ==> m[l].0 != k),
            None => forall|l: int| i <= l < m.len() ==> m[l].0 != k,
        },
    decreases m.len() - i,
{
    if i < m.len() && m[i].0 != k {
        lemma_find_key(m, k, i + 1);
    }
}

pub proof fn lemma_find_key_is(m: Seq<(Seq<u8>, Seq<u8>)>, k: Seq<u8>, i: int, j: int)
    requires
        0 <= i <= j < m.len(),
        m[j].0 == k,
        forall|l: int| i <= l < j ==> m[l].0 != k,
    ensures
        find_key(m, k, i) == Some(j),
    decreases j - i,
{
    if i < j {
        lemma_find_key_is(m, k, i + 1, j);
    }
}

pub proof fn lemma_find_key_none(m: Seq<(Seq<u8>, Seq<u8>)>, k: Seq<u8>, i: int)
    requires
        0 <= i <= m.len(),
        forall|l: int| i <= l < m.len() ==> m[l].0 != k,
    ensures
        find_key(m, k, i) is None,
    decreases m.len() - i,
{
    if i < m.len() {
        lemma_find_key_none(m, k, i + 1);
    }
}

/// The value bound to `k`, if any.
pub open spec fn lookup(m: Seq<(Seq<u8>, Seq<u8>)>, k: Seq<u8>) -> Option<Seq<u8>> {
    match find_key(m, k, 0) {
        Some(i) => Some(m[i].1),
        None => None,
    }
}

/// Inserting an existing key replaces its value in place; a fresh key is
/// appended.
pub open spec fn spec_insert(m: Seq<(Seq<u8>, Seq<u8>)>, k: Seq<u8>, v: Seq<u8>) -> Seq<
    (Seq<u8>, Seq<u8>),
> {
    match find_key(m, k, 0) {
        Some(i) => m.update(i, (k, v)),
        None => m.push((k, v)),
    }
}

/// Full placeholder expansion of `s` against environment `m`: each `{KEY}`
/// placeholder is replaced by its bound value, or kept literal when unbound.
pub open spec fn spec_expand(m: Seq<(Seq<u8>, Seq<u8>)>, s: Seq<u8>) -> Seq<u8>
    decreases s.len(),
    via spec_expand_dec
{
    match spec_split_template(s) {
        None => s,
        Some((before, key, after)) => {
            let repl = match lookup(m, key) {
                Some(v) => v,
                None => seq![OPEN_BRACE] + key + seq![CLOSE_BRACE],
            };
            before + repl + spec_expand(m, after)
        },
    }
}

#[via_fn]
proof fn spec_expand_dec(m: Seq<(Seq<u8>, Seq<u8>)>, s: Seq<u8>) {
    lemma_find_from(s, OPEN_BRACE, 0);
    match find_from(s, OPEN_BRACE, 0) {
        Some(i) => lemma_find_from(s, CLOSE_BRACE, i + 1),
        None => (),
    }
}

/// The views of a sequence of byte vectors.
pub open spec fn vecs_view(ws: Seq<Vec<u8>>) -> Seq<Seq<u8>> {
    ws.map_values(|w: Vec<u8>| w@)
}

/// The views of a sequence of rows of byte vectors.
pub open spec fn rows_view(rs: Seq<Vec<Vec<u8>>>) -> Seq<Seq<Seq<u8>>> {
    rs.map_values(|r: Vec<Vec<u8>>| vecs_view(r@))
}

/// The views of a sequence of byte-vector pairs.
pub open spec fn pairs_view(ps: Seq<(Vec<u8>, Vec<u8>)>) -> Seq<(Seq<u8>, Seq<u8>)> {
    ps.map_values(|p: (Vec<u8>, Vec<u8>)| (p.0@, p.1@))
}

/// Keys are unique: each key occurs in at most one entry.
pub open spec fn unique_keys(m: Seq<(Seq<u8>, Seq<u8>)>) -> bool {
    forall|i: int, j: int| 0 <= i < j < m.len() ==> m[i].0 != m[j].0
}

/// The ordered variable environment of one trial.
pub struct Variables {
    entries: Vec<(Vec<u8>, Vec<u8>)>,
}

impl View for Variables {
    type V = Seq<(Seq<u8>, Seq<u8>)>;

    closed spec fn view(&self) -> Self::V {
        pairs_view(self.entries@)
    }
}

impl Variables {
    pub open spec fn wf(&self) -> bool {
        unique_keys(self@)
    }

    pub fn new() -> (r: Self)
        ensures
            r@ == Seq::<(Seq<u8>, Seq<u8>)>::empty(),
            r.wf(),
    {
        let r = Variables { entries: Vec::new() };
        proof {
            assert(r@ =~= Seq::<(Seq<u8>, Seq<u8>)>::empty());
        }
        r
    }

    /// The stored entries, oldest first.
    pub fn entries(&self) -> (r: &Vec<(Vec<u8>, Vec<u8>)>)
        ensures
            pairs_view(r@) == self@,
    {
        &self.entries
    }

    /// The value bound to `key`, if any.
    pub fn get(&self, key: &[u8]) -> (r: Option<&Vec<u8>>)
        ensures
            match r {
                Some(v) => lookup(self@, key@) == Some(v@),
                None => lookup(self@, key@) is None,
            },
    {
        let n = self.entries.len();
        let mut i: usize = 0;
        while i < n
            invariant
                0 <= i <= n == self.entries.len(),
                forall|l: int| 0 <= l < i ==> self@[l].0 != key@,
            decreases n - i,
        {
            if bytes_eq(&self.entries[i].0, key) {
                proof {
                    lemma_find_key_is(self@, key@, 0, i as int);
                }
                return Some(&self.entries[i].1);
            }
            i += 1;
        }
        proof {
            lemma_find_key_none(self@, key@, 0);
        }
        None
    }

    /// Expands every `{KEY}` placeholder of `input` against this environment.
    pub fn expand_vars(&self, input: &[u8]) -> (out: Vec<u8>)
        ensures
            out@ == spec_expand(self@, input@),
    {
        let mut out: Vec<u8> = Vec::new();
        let mut rest: Vec<u8> = slice_to_vec(input);
        loop
            invariant
                out@ + spec_expand(self@, rest@) == spec_expand(self@, input@),
            decreases rest@.len(),
        {
            match split_template(rest.as_slice()) {
                None => {
                    out.append(&mut rest);
                    proof {
                        assert(out@ =~= spec_expand(self@, input@));
                    }
                    return out;
                },
                Some((before, key, after)) => {
                    let ghost prev = rest@;
                    out.extend_from_slice(before.as_slice());
                    match self.get(key.as_slice()) {
                        Some(v) => {
                            out.extend_from_slice(v.as_slice());
                        },
                        None => {
                            out.push(OPEN_BRACE);
                            out.extend_from_slice(key.as_slice());
                            out.push(CLOSE_BRACE);
                        },
                    }
                    rest = after;
                    proof {
                        if lookup(self@, key@) is None {
                            assert(out@ + spec_expand(self@, rest@) =~= spec_expand(
                                self@,
                                input@,
                            ));
                        } else {
                            assert(out@ + spec_expand(self@, rest@) =~= spec_expand(
                                self@,
                                input@,
                            ));
                        }
                    }
                },
            }
        }
    }

    /// Binds `key` to `value`, expanding any placeholders of `value` against
    /// the variables inserted so far.  An existing key keeps its position;
    /// a fresh key goes to the end.
    pub fn insert(&mut self, key: Vec<u8>, value: Vec<u8>)
        requires
            old(self).wf(),
        ensures
            final(self)@ == spec_insert(old(self)@, key@, spec_expand(old(self)@, value@)),
            final(self).wf(),
    {
        let stored = match find_byte_from(value.as_slice(), OPEN_BRACE, 0) {
            None => {
                proof {
                    assert(spec_expand(self@, value@) == value@);
                }
                value
            },
            Some(_) => self.expand_vars(value.as_slice()),
        };

        let ghost m0 = self@;
        let n = self.entries.len();
        let mut i: usize = 0;
        while i < n
            invariant
                0 <= i <= n == self.entries.len(),
                forall|l: int| 0 <= l < i ==> self@[l].0 != key@,
                self@ == m0,
                m0 == old(self)@,
                stored@ == spec_expand(m0, value@),
                unique_keys(m0),
            decreases n - i,
        {
            if bytes_eq(&self.entries[i].0, key.as_slice()) {
                proof {
                    lemma_find_key_is(self@, key@, 0, i as int);
                }
                self.entries[i] = (key, stored);
                proof {
                    assert(self@ =~~= spec_insert(m0, key@, spec_expand(m0, value@)));
                    assert forall|a: int, b: int| 0 <= a < b < self@.len() implies self@[a].0
                        != self@[b].0 by {
                        assert(m0[a].0 != m0[b].0);
                        if a == i {
                            assert(self@[a].0 == m0[i as int].0);
                        }
                        if b == i {
                            assert(self@[b].0 == m0[i as int].0);
                        }
                    }
                }
                return ;
            }
            i += 1;
        }
        proof {
            lemma_find_key_none(self@, key@, 0);
        }
        self.entries.push((key, stored));
        proof {
            assert(self@ =~~= spec_insert(m0, key@, spec_expand(m0, value@)));
            assert forall|a: int, b: int| 0 <= a < b < self@.len() implies self@[a].0
                != self@[b].0 by {
                if b < m0.len() {
                    assert(m0[a].0 != m0[b].0);
                } else {
                    assert(self@[b].0 == key@);
                    assert(self@[a].0 == m0[a].0);
                }
            }
        }
    }
}

/// The environment after inserting each pair in order, values expanded
/// against the variables present at their insertion.
pub open spec fn spec_insert_all(m: Seq<(Seq<u8>, Seq<u8>)>, ps: Seq<(Seq<u8>, Seq<u8>)>) -> Seq<
    (Seq<u8>, Seq<u8>),
>
    decreases ps.len(),
{
    if ps.len() == 0 {
        m
    } else {
        let m2 = spec_insert(m, ps[0].0, spec_expand(m, ps[0].1));
        spec_insert_all(m2, ps.drop_first())
    }
}

/// Inserting never breaks key uniqueness.
pub proof fn lemma_insert_wf(m: Seq<(Seq<u8>, Seq<u8>)>, k: Seq<u8>, v: Seq<u8>)
    requires
        unique_keys(m),
    ensures
        unique_keys(spec_insert(m, k, v)),
{
    lemma_find_key(m, k, 0);
    match find_key(m, k, 0) {
        Some(i) => {
            let m2 = m.update(i, (k, v));
            assert forall|a: int, b: int| 0 <= a < b < m2.len() implies m2[a].0 != m2[b].0 by {
                assert(m[a].0 != m[b].0);
            }
        },
        None => {
            let m2 = m.push((k, v));
            assert forall|a: int, b: int| 0 <= a < b < m2.len() implies m2[a].0 != m2[b].0 by {
                if b < m.len() {
                    assert(m[a].0 != m[b].0);
                } else {
                    assert(m2[b].0 == k && m2[a].0 == m[a].0);
                }
            }
        },
    }
}

impl Variables {
    /// Inserts every pair in order; each value is expanded against the
    /// variables present when it is inserted.
    #[verifier::loop_isolation(false)]
    pub fn insert_all(&mut self, pairs: &Vec<(Vec<u8>, Vec<u8>)>)
        requires
            old(self).wf(),
        ensures
            final(self)@ == spec_insert_all(old(self)@, pairs_view(pairs@)),
            final(self).wf(),
    {
        let ghost ps = pairs_view(pairs@);
        let n = pairs.len();
        proof {
            assert(ps.subrange(0, n as int) =~= ps);
        }
        let mut i: usize = 0;
        while i < n
            invariant
                0 <= i <= n == pairs@.len(),
                ps == pairs@.map_values(|p: (Vec<u8>, Vec<u8>)| (p.0@, p.1@)),
                spec_insert_all(self@, ps.subrange(i as int, n as int)) == spec_insert_all(
                    old(self)@,
                    ps,
                ),
                self.wf(),
            decreases n - i,
        {
            proof {
                let sub = ps.subrange(i as int, n as int);
                assert(sub[0] == ps[i as int]);
                assert(sub.drop_first() =~= ps.subrange(i + 1, n as int));
                assert(ps[i as int] == (pairs@[i as int].0@, pairs@[i as int].1@));
            }
            let key = vstd::slice::slice_to_vec(pairs[i].0.as_slice());
            let value = vstd::slice::slice_to_vec(pairs[i].1.as_slice());
            self.insert(key, value);
            i += 1;
        }
        proof {
            assert(ps.subrange(n as int, n as int) =~= Seq::<(Seq<u8>, Seq<u8>)>::empty());
        }
    }
}

/// Law: reading a key returns the value inserted last for it.  Together with
/// the contract of `insert` (the stored value is the inserted value with its
/// placeholders resolved against the variables present at insertion time),
/// this pins down the effective value of every variable.
pub proof fn lemma_last_insert_wins(m: Seq<(Seq<u8>, Seq<u8>)>, k: Seq<u8>, v: Seq<u8>)
    requires
        unique_keys(m),
    ensures
        lookup(spec_insert(m, k, v), k) == Some(v),
{
    lemma_find_key(m, k, 0);
    match find_key(m, k, 0) {
        Some(i) => {
            let m2 = m.update(i, (k, v));
            assert(forall|l: int| 0 <= l < i ==> m2[l].0 == m[l].0);
            lemma_find_key_is(m2, k, 0, i);
        },
        None => {
            let m2 = m.push((k, v));
            lemma_find_key_is(m2, k, 0, m.len() as int);
        },
    }
}

/// Law: insertion preserves insertion order.  An existing key keeps its
/// position, every other entry is untouched; a fresh key goes to the end.
pub proof fn lemma_insert_preserves_order(m: Seq<(Seq<u8>, Seq<u8>)>, k: Seq<u8>, v: Seq<u8>)
    requires
        unique_keys(m),
    ensures
        lookup(m, k) is Some ==> {
            let m2 = spec_insert(m, k, v);
            &&& m2.len() == m.len()
            &&& forall|l: int| 0 <= l < m.len() && m[l].0 != k ==> m2[l] == m[l]
            &&& exists|i: int| 0 <= i < m.len() && m[i].0 == k && m2[i] == (k, v)
        },
        lookup(m, k) is None ==> spec_insert(m, k, v) == m.push((k, v)),
{
    lemma_find_key(m, k, 0);
    match find_key(m, k, 0) {
        Some(i) => {
            let m2 = spec_insert(m, k, v);
            assert(0 <= i < m.len() && m[i].0 == k && m2[i] == (k, v));
        },
        None => (),
    }
}

/// Holds when `s` contains no opening brace, so that no placeholder can start
/// inside it.
pub open spec fn brace_free(s: Seq<u8>) -> bool {
    forall|i: int| 0 <= i < s.len() ==> s[i] != OPEN_BRACE
}

/// Holds when every value stored in `m` is brace free: no stored value can
/// introduce a new placeholder when substituted.
pub open spec fn env_resolved(m: Seq<(Seq<u8>, Seq<u8>)>) -> bool {
    forall|e: int| 0 <= e < m.len() ==> brace_free(#[trigger] m[e].1)
}

proof fn lemma_find_concat_shift(x: Seq<u8>, y: Seq<u8>, c: u8, i: int)
    requires
        x.len() <= i <= x.len() + y.len(),
    ensures
        find_from(x + y, c, i) == match find_from(y, c, i - x.len()) {
            Some(j) => Some(j + x.len()),
            None => None::<int>,
        },
    decreases x.len() + y.len() - i,
{
    if i < (x + y).len() {
        assert((x + y)[i] == y[i - x.len()]);
        lemma_find_concat_shift(x, y, c, i + 1);
    }
}

proof fn lemma_find_concat_skip(x: Seq<u8>, y: Seq<u8>, c: u8, i: int)
    requires
        0 <= i <= x.len(),
        forall|k: int| i <= k < x.len() ==> x[k] != c,
    ensures
        find_from(x + y, c, i) == match find_from(y, c, 0) {
            Some(j) => Some(j + x.len()),
            None => None::<int>,
        },
    decreases x.len() - i,
{
    if i < x.len() {
        assert((x + y)[i] == x[i]);
        lemma_find_concat_skip(x, y, c, i + 1);
    } else {
        lemma_find_concat_shift(x, y, c, i);
    }
}

/// Expansion distributes over a brace-free prefix.
proof fn lemma_expand_prefix(m: Seq<(Seq<u8>, Seq<u8>)>, x: Seq<u8>, y: Seq<u8>)
    requires
        brace_free(x),
    ensures
        spec_expand(m, x + y) == x + spec_expand(m, y),
{
    let s = x + y;
    lemma_find_concat_skip(x, y, OPEN_BRACE, 0);
    match find_from(y, OPEN_BRACE, 0) {
        None => {
            assert(spec_expand(m, s) == s);
            assert(spec_expand(m, y) == y);
        },
        Some(iy) => {
            lemma_find_from(y, OPEN_BRACE, 0);
            let i = iy + x.len();
            lemma_find_concat_shift(x, y, CLOSE_BRACE, i + 1);
            match find_from(y, CLOSE_BRACE, iy + 1) {
                None => {
                    assert(spec_expand(m, s) == s);
                    assert(spec_expand(m, y) == y);
                },
                Some(jy) => {
                    lemma_find_from(y, CLOSE_BRACE, iy + 1);
                    let j = jy + x.len();
                    assert(s.subrange(0, i) =~= x + y.subrange(0, iy));
                    assert(s.subrange(i + 1, j) =~= y.subrange(iy + 1, jy));
                    assert(s.subrange(j + 1, s.len() as int) =~= y.subrange(
                        jy + 1,
                        y.len() as int,
                    ));
                    let key = y.subrange(iy + 1, jy);
                    let after = y.subrange(jy + 1, y.len() as int);
                    let repl = match lookup(m, key) {
                        Some(v) => v,
                        None => seq![OPEN_BRACE] + key + seq![CLOSE_BRACE],
                    };
                    assert(spec_expand(m, s) == (x + y.subrange(0, iy)) + repl + spec_expand(
                        m,
                        after,
                    ));
                    assert(spec_expand(m, y) == y.subrange(0, iy) + repl + spec_expand(m, after));
                    assert((x + y.subrange(0, iy)) + repl + spec_expand(m, after) =~= x + (
                    y.subrange(0, iy) + repl + spec_expand(m, after)));
                },
            }
        },
    }
}

/// Expansion leaves an unresolvable placeholder at the head literal and goes
/// on behind it.
proof fn lemma_expand_unknown_head(m: Seq<(Seq<u8>, Seq<u8>)>, key: Seq<u8>, y: Seq<u8>)
    requires
        lookup(m, key) is None,
        forall|k: int| 0 <= k < key.len() ==> key[k] != CLOSE_BRACE,
    ensures
        spec_expand(m, (seq![OPEN_BRACE] + key + seq![CLOSE_BRACE]) + y) == (seq![OPEN_BRACE] + key
            + seq![CLOSE_BRACE]) + spec_expand(m, y),
{
    let h = seq![OPEN_BRACE] + key + seq![CLOSE_BRACE];
    let s = h + y;
    assert(s[0] == OPEN_BRACE);
    lemma_find_from_is(s, OPEN_BRACE, 0, 0);
    let j = key.len() as int + 1;
    assert(s[j] == CLOSE_BRACE);
    assert(forall|k: int| 1 <= k < j ==> s[k] == key[k - 1]);
    lemma_find_from_is(s, CLOSE_BRACE, 1, j as int);
    assert(s.subrange(0, 0) =~= Seq::<u8>::empty());
    assert(s.subrange(1, j as int) =~= key);
    assert(s.subrange(j + 1, s.len() as int) =~= y);
    assert(spec_expand(m, s) == s.subrange(0, 0) + (seq![OPEN_BRACE] + key + seq![CLOSE_BRACE])
        + spec_expand(m, y));
    assert(s.subrange(0, 0) + (seq![OPEN_BRACE] + key + seq![CLOSE_BRACE]) + spec_expand(m, y) =~= h
        + spec_expand(m, y));
}

/// Law: expansion is idempotent once no more placeholders resolve.  When
/// every stored value is brace free, expanding an already-expanded string
/// changes nothing.  (A stored value holding an opening brace can break this:
/// a value `{M}` kept literal at insertion time resolves on a later pass once
/// `M` is defined.)
pub proof fn lemma_expand_idempotent(m: Seq<(Seq<u8>, Seq<u8>)>, s: Seq<u8>)
    requires
        env_resolved(m),
    ensures
        spec_expand(m, spec_expand(m, s)) == spec_expand(m, s),
    decreases s.len(),
{
    lemma_find_from(s, OPEN_BRACE, 0);
    match find_from(s, OPEN_BRACE, 0) {
        None => {
            assert(spec_expand(m, s) == s);
        },
        Some(i) => {
            lemma_find_from(s, CLOSE_BRACE, i + 1);
            match find_from(s, CLOSE_BRACE, i + 1) {
                None => {
                    assert(spec_expand(m, s) == s);
                },
                Some(j) => {
                    let before = s.subrange(0, i);
                    let key = s.subrange(i + 1, j);
                    let after = s.subrange(j + 1, s.len() as int);
                    lemma_expand_idempotent(m, after);
                    let e_after = spec_expand(m, after);
                    match lookup(m, key) {
                        Some(v) => {
                            lemma_find_key(m, key, 0);
                            assert(brace_free(v));
                            assert(brace_free(before + v));
                            assert(spec_expand(m, s) == before + v + e_after);
                            assert(before + v + e_after =~= (before + v) + e_after);
                            lemma_expand_prefix(m, before + v, e_after);
                            assert(spec_expand(m, (before + v) + e_after) == (before + v)
                                + spec_expand(m, e_after));
                            assert((before + v) + spec_expand(m, e_after) =~= before + v + e_after);
                        },
                        None => {
                            let h = seq![OPEN_BRACE] + key + seq![CLOSE_BRACE];
                            assert(spec_expand(m, s) == before + h + e_after);
                            assert(before + h + e_after =~= before + (h + e_after));
                            lemma_expand_prefix(m, before, h + e_after);
                            assert(forall|k: int| 0 <= k < key.len() ==> key[k] != CLOSE_BRACE);
                            lemma_expand_unknown_head(m, key, e_after);
                            assert(spec_expand(m, h + e_after) == h + spec_expand(m, e_after));
                            assert(before + (h + e_after) =~= spec_expand(m, s));
                            assert(before + (h + spec_expand(m, e_after)) =~= before + h + e_after);
                        },
                    }
                },
            }
        },
    }
}

/// Byte-wise equality of two byte strings.
pub fn bytes_eq(a: &[u8], b: &[u8]) -> (r: bool)
    ensures
        r <==> a@ == b@,
{
    if a.len() != b.len() {
        proof {
            assert(a@.len() != b@.len());
        }
        return false;
    }
    let n = a.len();
    let mut i: usize = 0;
    while i < n
        invariant
            0 <= i <= n,
            n == a@.len() == b@.len(),
            forall|k: int| 0 <= k < i ==> a@[k] == b@[k],
        decreases n - i,
    {
        if a[i] != b[i] {
            return false;
        }
        i += 1;
    }
    proof {
        assert(a@ =~= b@);
    }
    true
}

} // verus!
