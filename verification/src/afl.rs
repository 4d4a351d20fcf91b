//! AFL-style artifact handling: crash-input triage against byte patterns,
//! times tagged into file names, CSV assembly, and AFL++ v4 plot data.

use vstd::prelude::*;
use crate::numfmt::{is_digits, val_of, parse_u64};
use crate::protocol::DirEntry;
use crate::vars::{find_from, lemma_find_from, find_byte_from, bytes_eq};

verus! {

pub const NL: u8 = 0x0a;

pub const COMMA: u8 = 0x2c;

/// A triage step: lists a crash directory on the agent, attributes each
/// input file to the first pattern that matches it, and writes a CSV table
/// of `(tag, bug_id, time)` rows.
pub struct InputPatternVerifier {
    pub crash_dir: Vec<u8>,
    pub dst: Vec<u8>,
    pub patterns: Vec<Pattern>,
}

/// A step that reads `{workdir}/default/plot_data`, checks its AFL++ v4
/// shape, prepends the trial's tag to each row and appends the rows to a
/// host CSV.
pub struct SaveTaggedAflPlotDataV4 {
    pub workdir: Vec<u8>,
    pub dst: Vec<u8>,
}

/// One byte pattern a crash input is matched against.
pub struct Pattern {
    /// The bug id reported when the pattern matches.
    pub key: Vec<u8>,
    /// Where in the input the pattern must start.
    pub offset: usize,
    /// The bytes that must appear at `offset`.
    pub bytes: Vec<u8>,
}

/// Whether `data` holds `bytes` starting at `offset`.
pub open spec fn spec_pattern_matches(data: Seq<u8>, offset: int, bytes: Seq<u8>) -> bool {
    &&& 0 <= offset
    &&& offset + bytes.len() <= data.len()
    &&& data.subrange(offset, offset + bytes.len()) == bytes
}

pub fn pattern_matches(data: &[u8], pattern: &Pattern) -> (r: bool)
    ensures
        r == spec_pattern_matches(data@, pattern.offset as int, pattern.bytes@),
{
    if pattern.offset > data.len() {
        return false;
    }
    if pattern.bytes.len() > data.len() - pattern.offset {
        return false;
    }
    let window = vstd::slice::slice_subrange(
        data,
        pattern.offset,
        pattern.offset + pattern.bytes.len(),
    );
    bytes_eq(window, pattern.bytes.as_slice())
}

/// The key of the first pattern that matches `data`, if any.
pub open spec fn spec_first_match(data: Seq<u8>, patterns: Seq<Pattern>) -> Option<Seq<u8>>
    decreases patterns.len(),
{
    if patterns.len() == 0 {
        None
    } else if spec_pattern_matches(data, patterns[0].offset as int, patterns[0].bytes@) {
        Some(patterns[0].key@)
    } else {
        spec_first_match(data, patterns.drop_first())
    }
}

#[verifier::loop_isolation(false)]
pub fn first_matching_key(data: &[u8], patterns: &Vec<Pattern>) -> (r: Option<Vec<u8>>)
    ensures
        match r {
            Some(k) => spec_first_match(data@, patterns@) == Some(k@),
            None => spec_first_match(data@, patterns@) is None,
        },
{
    let n = patterns.len();
    proof {
        assert(patterns@.subrange(0, n as int) =~= patterns@);
    }
    let mut i: usize = 0;
    while i < n
        invariant
            0 <= i <= n == patterns@.len(),
            spec_first_match(data@, patterns@) == spec_first_match(
                data@,
                patterns@.subrange(i as int, n as int),
            ),
        decreases n - i,
    {
        proof {
            let sub = patterns@.subrange(i as int, n as int);
            assert(sub[0] == patterns@[i as int]);
            assert(sub.drop_first() =~= patterns@.subrange(i + 1, n as int));
        }
        if pattern_matches(data, &patterns[i]) {
            let key = vstd::slice::slice_to_vec(patterns[i].key.as_slice());
            return Some(key);
        }
        i += 1;
    }
    proof {
        assert(patterns@.subrange(n as int, n as int) =~= Seq::<Pattern>::empty());
    }
    None
}

/// Index of the first occurrence of `pat` in `s` at or after `i`.
pub open spec fn find_sub(s: Seq<u8>, pat: Seq<u8>, i: int) -> Option<int>
    decreases s.len() - i,
{
    if i < 0 || pat.len() == 0 || i + pat.len() > s.len() {
        None
    } else if s.subrange(i, i + pat.len()) == pat {
        Some(i)
    } else {
        find_sub(s, pat, i + 1)
    }
}

pub proof fn lemma_find_sub(s: Seq<u8>, pat: Seq<u8>, i: int)
    requires
        0 <= i,
    ensures
        match find_sub(s, pat, i) {
            Some(j) => i <= j && j + pat.len() <= s.len() && s.subrange(j, j + pat.len()) == pat,
            None => true,
        },
    decreases s.len() - i,
{
    if pat.len() > 0 && i + pat.len() <= s.len() && s.subrange(i, i + pat.len()) != pat {
        lemma_find_sub(s, pat, i + 1);
    }
}

/// Finds the first occurrence of `pat` in `s`.
#[verifier::loop_isolation(false)]
pub fn find_sub_bytes(s: &[u8], pat: &[u8]) -> (r: Option<usize>)
    ensures
        match r {
            Some(j) => find_sub(s@, pat@, 0) == Some(j as int),
            None => find_sub(s@, pat@, 0) is None,
        },
{
    if pat.len() == 0 || pat.len() > s.len() {
        return None;
    }
    let n = s.len() - pat.len();
    let mut i: usize = 0;
    while i <= n
        invariant
            0 <= i <= n + 1,
            n == s@.len() - pat@.len(),
            pat@.len() > 0,
            find_sub(s@, pat@, 0) == find_sub(s@, pat@, i as int),
        decreases n + 1 - i,
    {
        let window = vstd::slice::slice_subrange(s, i, i + pat.len());
        if bytes_eq(window, pat) {
            return Some(i);
        }
        i += 1;
    }
    None
}

/// The number tagged into an AFL-style file name after `tag`: an optional
/// single separator byte, then digits up to a comma.  For a name like
/// `id:000001,time1234,sig:06` and tag `time`, this is 1234.
pub open spec fn spec_tagged_number(name: Seq<u8>, tag: Seq<u8>) -> Option<u64> {
    match find_sub(name, tag, 0) {
        None => None,
        Some(i) => {
            let rest = name.subrange(i + tag.len(), name.len() as int);
            let body = if rest.len() > 0 && !(0x30 <= rest[0] <= 0x39) {
                rest.drop_first()
            } else {
                rest
            };
            match find_from(body, COMMA, 0) {
                None => None,
                Some(j) => {
                    let digits = body.subrange(0, j);
                    if digits.len() > 0 && is_digits(digits) && val_of(digits) <= u64::MAX {
                        Some(val_of(digits) as u64)
                    } else {
                        None
                    }
                },
            }
        },
    }
}

/// Extracts the number tagged into a file name after `tag`.
pub fn parse_tagged_number(name: &[u8], tag: &[u8]) -> (r: Option<u64>)
    ensures
        r == spec_tagged_number(name@, tag@),
{
    let i = match find_sub_bytes(name, tag) {
        Some(i) => i,
        None => {
            return None;
        },
    };
    proof {
        lemma_find_sub(name@, tag@, 0);
        assert(i + tag@.len() <= name@.len() && name@.len() == name.len() && tag@.len()
            == tag.len());
    }
    let rest = vstd::slice::slice_subrange(name, i + tag.len(), name.len());
    let skip: usize = if rest.len() > 0 && !(0x30 <= rest[0] && rest[0] <= 0x39) {
        1
    } else {
        0
    };
    let body = vstd::slice::slice_subrange(rest, skip, rest.len());
    proof {
        if skip == 1 {
            assert(body@ =~= rest@.drop_first());
        } else {
            assert(body@ =~= rest@);
        }
    }
    let j = match find_byte_from(body, COMMA, 0) {
        Some(j) => j,
        None => {
            return None;
        },
    };
    proof {
        lemma_find_from(body@, COMMA, 0);
    }
    let digits = vstd::slice::slice_subrange(body, 0, j);
    parse_u64(digits)
}

/// The time (milliseconds since the fuzzing session started) attributed to a
/// crash input: the time tagged into its name when present, else its
/// modification time relative to the crash directory, clamped at zero.
pub open spec fn spec_relative_time(name: Seq<u8>, modified_ms: u64, start_ms: u64) -> u64 {
    match spec_tagged_number(name, seq![0x74u8, 0x69u8, 0x6du8, 0x65u8]) {
        Some(t) => t,
        None => if modified_ms >= start_ms {
            (modified_ms - start_ms) as u64
        } else {
            0
        },
    }
}

pub fn get_relative_time(name: &[u8], modified_ms: u64, start_ms: u64) -> (r: u64)
    ensures
        r == spec_relative_time(name@, modified_ms, start_ms),
{
    let tag: [u8; 4] = [0x74, 0x69, 0x6d, 0x65];
    proof {
        assert(tag@ =~= seq![0x74u8, 0x69u8, 0x6du8, 0x65u8]);
    }
    match parse_tagged_number(name, tag.as_slice()) {
        Some(t) => t,
        None => {
            if modified_ms >= start_ms {
                modified_ms - start_ms
            } else {
                0
            }
        },
    }
}

/// The input id AFL++ tags into a file name (`id<N>,`), if any.
pub fn get_input_id(name: &[u8]) -> (r: Option<u64>)
    ensures
        r == spec_tagged_number(name@, seq![0x69u8, 0x64u8]),
{
    let tag: [u8; 2] = [0x69, 0x64];
    proof {
        assert(tag@ =~= seq![0x69u8, 0x64u8]);
    }
    parse_tagged_number(name, tag.as_slice())
}

/// Whether `s` ends with `suffix`.
pub open spec fn spec_ends_with(s: Seq<u8>, suffix: Seq<u8>) -> bool {
    s.len() >= suffix.len() && s.subrange(s.len() - suffix.len(), s.len() as int) == suffix
}

pub fn ends_with(s: &[u8], suffix: &[u8]) -> (r: bool)
    ensures
        r == spec_ends_with(s@, suffix@),
{
    if suffix.len() > s.len() {
        return false;
    }
    let tail = vstd::slice::slice_subrange(s, s.len() - suffix.len(), s.len());
    bytes_eq(tail, suffix)
}

/// Which directory entries count as fuzzer inputs: plain files that are not
/// the `README.txt` AFL++ drops into its crash directory.
pub open spec fn spec_is_input(e: DirEntry) -> bool {
    e.is_file && !spec_ends_with(
        e.path@,
        seq![0x52u8, 0x45u8, 0x41u8, 0x44u8, 0x4du8, 0x45u8, 0x2eu8, 0x74u8, 0x78u8, 0x74u8],
    )
}

/// The entries of a crash directory that hold fuzzer inputs, in order.
pub open spec fn spec_input_entries(entries: Seq<DirEntry>) -> Seq<DirEntry>
    decreases entries.len(),
{
    if entries.len() == 0 {
        Seq::empty()
    } else {
        let rest = spec_input_entries(entries.drop_first());
        if spec_is_input(entries[0]) {
            seq![entries[0]] + rest
        } else {
            rest
        }
    }
}

/// Filters a directory listing down to fuzzer input files.
#[verifier::loop_isolation(false)]
pub fn input_entries(entries: Vec<DirEntry>) -> (r: Vec<DirEntry>)
    ensures
        r@ == spec_input_entries(entries@),
{
    let readme: [u8; 10] = [0x52, 0x45, 0x41, 0x44, 0x4d, 0x45, 0x2e, 0x74, 0x78, 0x74];
    proof {
        assert(readme@ =~= seq![
            0x52u8,
            0x45u8,
            0x41u8,
            0x44u8,
            0x4du8,
            0x45u8,
            0x2eu8,
            0x74u8,
            0x78u8,
            0x74u8,
        ]);
    }
    let mut rest = entries;
    let mut out: Vec<DirEntry> = Vec::new();
    loop
        invariant
            out@ + spec_input_entries(rest@) == spec_input_entries(entries@),
        decreases rest@.len(),
    {
        if rest.len() == 0 {
            proof {
                assert(out@ =~= spec_input_entries(entries@));
            }
            return out;
        }
        let ghost prev = rest@;
        let e = rest.remove(0);
        proof {
            assert(rest@ =~= prev.drop_first());
            assert(prev[0] == e);
        }
        if e.is_file && !ends_with(e.path.as_slice(), readme.as_slice()) {
            out.push(e);
            proof {
                assert(out@ + spec_input_entries(rest@) =~= spec_input_entries(entries@));
            }
        }
    }
}

/// Strict byte-wise lexicographic order.
pub open spec fn lex_lt(a: Seq<u8>, b: Seq<u8>) -> bool
    decreases a.len(),
{
    if b.len() == 0 {
        false
    } else if a.len() == 0 {
        true
    } else if a[0] < b[0] {
        true
    } else if a[0] > b[0] {
        false
    } else {
        lex_lt(a.drop_first(), b.drop_first())
    }
}

/// Compares two byte strings lexicographically: negative, zero or positive.
pub fn lex_cmp(a: &[u8], b: &[u8]) -> (r: i32)
    ensures
        r < 0 <==> lex_lt(a@, b@),
        r == 0 <==> a@ == b@,
        r > 0 <==> lex_lt(b@, a@),
    decreases a@.len(),
{
    if b.len() == 0 {
        if a.len() == 0 {
            proof {
                assert(a@ =~= b@);
            }
            return 0;
        }
        return 1;
    }
    if a.len() == 0 {
        return -1;
    }
    if a[0] < b[0] {
        return -1;
    }
    if a[0] > b[0] {
        return 1;
    }
    let ra = vstd::slice::slice_subrange(a, 1, a.len());
    let rb = vstd::slice::slice_subrange(b, 1, b.len());
    proof {
        assert(ra@ =~= a@.drop_first());
        assert(rb@ =~= b@.drop_first());
    }
    let r = lex_cmp(ra, rb);
    proof {
        if r == 0 {
            assert(a@ =~= seq![a@[0]] + a@.drop_first());
            assert(b@ =~= seq![b@[0]] + b@.drop_first());
        }
    }
    r
}

/// A table of bug ids with the earliest time each was seen, kept sorted by
/// id so that rows come out in sorted order, as a tree-map fold would give.
pub struct BugTable {
    pub entries: Vec<(Vec<u8>, u64)>,
}

/// The keys are strictly increasing.
pub open spec fn bugs_sorted(s: Seq<(Seq<u8>, u64)>) -> bool {
    forall|i: int, j: int| 0 <= i < j < s.len() ==> lex_lt(#[trigger] s[i].0, #[trigger] s[j].0)
}

/// The time recorded for `key`, if any.
pub open spec fn spec_bug_time(s: Seq<(Seq<u8>, u64)>, key: Seq<u8>) -> Option<u64>
    decreases s.len(),
{
    if s.len() == 0 {
        None
    } else if s[0].0 == key {
        Some(s[0].1)
    } else {
        spec_bug_time(s.drop_first(), key)
    }
}

impl BugTable {
    pub open spec fn view(&self) -> Seq<(Seq<u8>, u64)> {
        self.entries@.map_values(|p: (Vec<u8>, u64)| (p.0@, p.1))
    }

    pub fn new() -> (r: Self)
        ensures
            r@.len() == 0,
            bugs_sorted(r@),
    {
        let r = BugTable { entries: Vec::new() };
        proof {
            assert(r@ =~= Seq::<(Seq<u8>, u64)>::empty());
        }
        r
    }

    /// The index of the first entry whose key is not below `key`.
    #[verifier::loop_isolation(false)]
    fn lower_bound(&self, key: &[u8]) -> (r: usize)
        ensures
            0 <= r <= self@.len(),
            forall|l: int| 0 <= l < r ==> lex_lt(#[trigger] self@[l].0, key@),
            r < self@.len() ==> !lex_lt(self@[r as int].0, key@),
    {
        let n = self.entries.len();
        let mut i: usize = 0;
        while i < n
            invariant
                0 <= i <= n == self.entries@.len(),
                forall|l: int| 0 <= l < i ==> lex_lt(#[trigger] self@[l].0, key@),
            decreases n - i,
        {
            let c = lex_cmp(self.entries[i].0.as_slice(), key);
            if c >= 0 {
                return i;
            }
            i += 1;
        }
        n
    }

    /// Records that `key` was seen at `time`: a new key is inserted at its
    /// sorted position, a known key keeps the earlier of the two times.
    pub fn record(&mut self, key: Vec<u8>, time: u64)
        requires
            bugs_sorted(old(self)@),
        ensures
            bugs_sorted(final(self)@),
            spec_bug_time(final(self)@, key@) == Some(
                match spec_bug_time(old(self)@, key@) {
                    Some(t) => if t <= time {
                        t
                    } else {
                        time
                    },
                    None => time,
                },
            ),
            forall|k: Seq<u8>| k != key@ ==> spec_bug_time(final(self)@, k) == spec_bug_time(
                old(self)@,
                k,
            ),
    {
        let i = self.lower_bound(key.as_slice());
        if i < self.entries.len() && bytes_eq(self.entries[i].0.as_slice(), key.as_slice()) {
            let t = self.entries[i].1;
            let newt = if t <= time {
                t
            } else {
                time
            };
            let k2 = vstd::slice::slice_to_vec(self.entries[i].0.as_slice());
            self.entries[i] = (k2, newt);
            proof {
                assert forall|a: int, b: int| 0 <= a < b < self@.len() implies lex_lt(
                    #[trigger] self@[a].0,
                    #[trigger] self@[b].0,
                ) by {
                    assert(self@[a].0 == old(self)@[a].0);
                    assert(self@[b].0 == old(self)@[b].0);
                    assert(lex_lt(old(self)@[a].0, old(self)@[b].0));
                }
                lemma_bug_time_at(self@, i as int, key@);
                lemma_bug_time_at(old(self)@, i as int, key@);
                assert forall|k: Seq<u8>| k != key@ implies spec_bug_time(self@, k)
                    == spec_bug_time(old(self)@, k) by {
                    lemma_bug_time_frame(old(self)@, self@, i as int, k);
                }
            }
            return ;
        }
        let ghost pos = i as int;
        proof {
            if pos < old(self)@.len() {
                assert(old(self)@[pos].0 != key@);
                lemma_lex_connected_nonlt(old(self)@[pos].0, key@);
            }
            lemma_bug_time_none(old(self)@, pos, key@);
        }
        self.entries.insert(i, (key, time));
        proof {
            assert(self@ =~= old(self)@.insert(pos, (key@, time)));
            lemma_bug_insert(old(self)@, pos, key@, time);
        }
    }
}

/// Two keys neither of which is below the other are equal; so a key not
/// below and not equal is above.
proof fn lemma_lex_connected_nonlt(a: Seq<u8>, b: Seq<u8>)
    requires
        !lex_lt(a, b),
        a != b,
    ensures
        lex_lt(b, a),
{
    if !lex_lt(b, a) {
        lemma_lex_connected(a, b);
    }
}

/// Reading the table at a known index.
proof fn lemma_bug_time_at(s: Seq<(Seq<u8>, u64)>, i: int, key: Seq<u8>)
    requires
        bugs_sorted(s),
        0 <= i < s.len(),
        s[i].0 == key,
    ensures
        spec_bug_time(s, key) == Some(s[i].1),
    decreases i,
{
    if i > 0 {
        assert(lex_lt(s[0].0, s[i].0));
        lemma_lex_irrefl(s[0].0);
        lemma_bug_time_at(s.drop_first(), i - 1, key);
    }
}

/// A point update at `i` leaves every other key's time alone.
proof fn lemma_bug_time_frame(s1: Seq<(Seq<u8>, u64)>, s2: Seq<(Seq<u8>, u64)>, i: int, k: Seq<u8>)
    requires
        0 <= i < s1.len(),
        s2.len() == s1.len(),
        forall|l: int| 0 <= l < s1.len() && l != i ==> s1[l] == s2[l],
        s1[i].0 == s2[i].0,
        s1[i].0 != k,
    ensures
        spec_bug_time(s1, k) == spec_bug_time(s2, k),
    decreases s1.len(),
{
    if s1.len() > 0 {
        if i == 0 {
            assert(s1.drop_first() =~= s2.drop_first());
        } else {
            assert(s1[0] == s2[0]);
            lemma_bug_time_frame(s1.drop_first(), s2.drop_first(), i - 1, k);
        }
    }
}

proof fn lemma_lex_irrefl(a: Seq<u8>)
    ensures
        !lex_lt(a, a),
    decreases a.len(),
{
    if a.len() > 0 {
        lemma_lex_irrefl(a.drop_first());
    }
}

proof fn lemma_lex_connected(a: Seq<u8>, b: Seq<u8>)
    requires
        !lex_lt(a, b),
        !lex_lt(b, a),
    ensures
        a == b,
    decreases a.len(),
{
    if a.len() == 0 || b.len() == 0 {
        assert(a =~= b);
    } else {
        lemma_lex_connected(a.drop_first(), b.drop_first());
        assert(a =~= seq![a[0]] + a.drop_first());
        assert(b =~= seq![b[0]] + b.drop_first());
    }
}

/// Inserting a fresh key at its sorted position.
proof fn lemma_bug_insert(s: Seq<(Seq<u8>, u64)>, pos: int, key: Seq<u8>, time: u64)
    requires
        bugs_sorted(s),
        0 <= pos <= s.len(),
        forall|l: int| 0 <= l < pos ==> lex_lt(#[trigger] s[l].0, key),
        pos < s.len() ==> lex_lt(key, s[pos].0),
    ensures
        bugs_sorted(s.insert(pos, (key, time))),
        spec_bug_time(s.insert(pos, (key, time)), key) == Some(time),
        forall|k: Seq<u8>| k != key ==> spec_bug_time(s.insert(pos, (key, time)), k)
            == spec_bug_time(s, k),
    decreases pos,
{
    let s2 = s.insert(pos, (key, time));
    assert forall|i: int, j: int| 0 <= i < j < s2.len() implies lex_lt(
        #[trigger] s2[i].0,
        #[trigger] s2[j].0,
    ) by {
        if i == pos {
            if j > pos {
                if pos < s.len() {
                    lemma_lex_trans_helper(key, s[pos].0, s2[j].0, s, pos, j - 1);
                }
            }
        } else if j == pos {
            if i < pos {
                assert(lex_lt(s[i].0, key));
            }
        } else {
            let i0 = if i < pos {
                i
            } else {
                i - 1
            };
            let j0 = if j < pos {
                j
            } else {
                j - 1
            };
            assert(s2[i].0 == s[i0].0 && s2[j].0 == s[j0].0);
            assert(lex_lt(s[i0].0, s[j0].0));
        }
    }
    if pos == 0 {
        assert(s2[0] == (key, time));
        assert(s2.drop_first() =~= s);
        assert forall|k: Seq<u8>| k != key implies spec_bug_time(s2, k) == spec_bug_time(
            s,
            k,
        ) by {
            assert(spec_bug_time(s2, k) == spec_bug_time(s2.drop_first(), k));
        }
    } else {
        assert(s2[0] == s[0]);
        assert(s[0].0 != key) by {
            assert(lex_lt(s[0].0, key));
            if s[0].0 == key {
                lemma_lex_irrefl(key);
            }
        }
        assert(s2.drop_first() =~= s.drop_first().insert(pos - 1, (key, time)));
        lemma_bug_insert(s.drop_first(), pos - 1, key, time);
        assert(spec_bug_time(s2, key) == spec_bug_time(s2.drop_first(), key));
        assert forall|k: Seq<u8>| k != key implies spec_bug_time(s2, k) == spec_bug_time(
            s,
            k,
        ) by {
            if s[0].0 != k {
                assert(spec_bug_time(s2, k) == spec_bug_time(s2.drop_first(), k));
                assert(spec_bug_time(s, k) == spec_bug_time(s.drop_first(), k));
            }
        }
    }
}

/// A key below the entry at its lower bound is absent from a sorted table.
proof fn lemma_bug_time_none(s: Seq<(Seq<u8>, u64)>, pos: int, key: Seq<u8>)
    requires
        bugs_sorted(s),
        0 <= pos <= s.len(),
        forall|l: int| 0 <= l < pos ==> lex_lt(#[trigger] s[l].0, key),
        pos < s.len() ==> lex_lt(key, s[pos].0),
    ensures
        spec_bug_time(s, key) is None,
    decreases s.len(),
{
    if s.len() > 0 {
        assert(s[0].0 != key) by {
            if pos == 0 {
                if s[0].0 == key {
                    lemma_lex_irrefl(key);
                }
            } else {
                assert(lex_lt(s[0].0, key));
                if s[0].0 == key {
                    lemma_lex_irrefl(key);
                }
            }
        }
        if pos == 0 {
            if s.len() > 1 {
                lemma_lex_trans(key, s[0].0, s[1].0);
            }
            assert forall|l: int| 0 <= l < s.drop_first().len() implies lex_lt(
                key,
                #[trigger] s.drop_first()[l].0,
            ) by {
                if l > 0 {
                    assert(lex_lt(s[0].0, s[l + 1].0));
                    lemma_lex_trans(key, s[0].0, s[l + 1].0);
                }
            }
            lemma_bug_time_none(s.drop_first(), 0, key);
        } else {
            lemma_bug_time_none(s.drop_first(), pos - 1, key);
        }
    }
}

/// In a sorted table, `key < s[pos].0 <= s[j].0` puts `key` below `s[j].0`.
proof fn lemma_lex_trans_helper(
    key: Seq<u8>,
    mid: Seq<u8>,
    high: Seq<u8>,
    s: Seq<(Seq<u8>, u64)>,
    pos: int,
    j: int,
)
    requires
        bugs_sorted(s),
        0 <= pos <= j < s.len(),
        s[pos].0 == mid,
        s[j].0 == high,
        lex_lt(key, mid),
    ensures
        lex_lt(key, high),
{
    if pos < j {
        assert(lex_lt(mid, high));
        lemma_lex_trans(key, mid, high);
    }
}

/// Whether a CSV field must be quoted: it holds a comma, a quote, or a line
/// break.
pub open spec fn spec_needs_quoting(f: Seq<u8>) -> bool {
    exists|i: int| 0 <= i < f.len() && (f[i] == COMMA || f[i] == 0x22 || f[i] == NL || f[i] == 0x0d)
}

/// A field byte as written inside a quoted field: quotes are doubled.
pub open spec fn spec_dq(s: Seq<u8>) -> Seq<u8>
    decreases s.len(),
{
    if s.len() == 0 {
        Seq::empty()
    } else {
        (if s[0] == 0x22 {
            seq![0x22u8, 0x22u8]
        } else {
            seq![s[0]]
        }) + spec_dq(s.drop_first())
    }
}

/// A CSV field as written: quoted with doubled quotes when needed, verbatim
/// otherwise.
pub open spec fn spec_csv_field(f: Seq<u8>) -> Seq<u8> {
    if spec_needs_quoting(f) {
        seq![0x22u8] + spec_dq(f) + seq![0x22u8]
    } else {
        f
    }
}

/// One CSV record: the written fields joined by commas, ending in a line
/// break.
pub open spec fn spec_csv_line(fields: Seq<Seq<u8>>, i: int) -> Seq<u8>
    decreases fields.len() - i,
{
    if i < 0 || i >= fields.len() {
        seq![NL]
    } else {
        spec_csv_field(fields[i]) + (if i + 1 < fields.len() {
            seq![COMMA]
        } else {
            Seq::empty()
        }) + spec_csv_line(fields, i + 1)
    }
}

/// Writes one CSV field.
fn push_csv_field(out: &mut Vec<u8>, f: &[u8])
    ensures
        final(out)@ == old(out)@ + spec_csv_field(f@),
{
    let n = f.len();
    let mut needs: bool = false;
    let mut i: usize = 0;
    #[verifier::loop_isolation(false)]
    while i < n
        invariant
            0 <= i <= n == f@.len(),
            needs <==> exists|l: int|
                0 <= l < i && (f@[l] == COMMA || f@[l] == 0x22 || f@[l] == NL || f@[l] == 0x0d),
        decreases n - i,
    {
        let b = f[i];
        if b == COMMA || b == 0x22 || b == NL || b == 0x0d {
            needs = true;
        }
        i += 1;
    }
    if !needs {
        out.extend_from_slice(f);
        return ;
    }
    out.push(0x22);
    let mut i: usize = 0;
    #[verifier::loop_isolation(false)]
    while i < n
        invariant
            0 <= i <= n == f@.len(),
            out@ == old(out)@ + seq![0x22u8] + spec_dq_prefix(f@, i as int),
        decreases n - i,
    {
        let b = f[i];
        if b == 0x22 {
            out.push(0x22);
            out.push(0x22);
        } else {
            out.push(b);
        }
        proof {
            lemma_dq_snoc(f@, i as int);
            assert(out@ =~= old(out)@ + seq![0x22u8] + spec_dq_prefix(f@, i + 1));
        }
        i += 1;
    }
    out.push(0x22);
    proof {
        lemma_dq_prefix_all(f@);
        assert(out@ =~= old(out)@ + spec_csv_field(f@));
    }
}

/// The doubled form of the first `i` bytes.
pub open spec fn spec_dq_prefix(s: Seq<u8>, i: int) -> Seq<u8> {
    spec_dq(s.subrange(0, i))
}

proof fn lemma_dq_snoc(s: Seq<u8>, i: int)
    requires
        0 <= i < s.len(),
    ensures
        spec_dq_prefix(s, i + 1) == spec_dq_prefix(s, i) + (if s[i] == 0x22 {
            seq![0x22u8, 0x22u8]
        } else {
            seq![s[i]]
        }),
    decreases i,
{
    if i == 0 {
        assert(s.subrange(0, 1) =~= seq![s[0]]);
        assert(seq![s[0]].drop_first() =~= Seq::<u8>::empty());
        assert(s.subrange(0, 0) =~= Seq::<u8>::empty());
    } else {
        let t = s.subrange(1, s.len() as int);
        assert(s.subrange(0, i + 1).drop_first() =~= t.subrange(0, i));
        assert(s.subrange(0, i).drop_first() =~= t.subrange(0, i - 1));
        lemma_dq_snoc(t, i - 1);
        assert(t[i - 1] == s[i]);
        assert(s.subrange(0, i + 1)[0] == s[0] && s.subrange(0, i)[0] == s[0]);
    }
}

proof fn lemma_dq_prefix_all(s: Seq<u8>)
    ensures
        spec_dq_prefix(s, s.len() as int) == spec_dq(s),
{
    assert(s.subrange(0, s.len() as int) =~= s);
}

/// Writes one CSV record.
#[verifier::loop_isolation(false)]
pub fn push_csv_line(out: &mut Vec<u8>, fields: &Vec<Vec<u8>>)
    ensures
        final(out)@ == old(out)@ + spec_csv_line(crate::vars::vecs_view(fields@), 0),
{
    let ghost fv = crate::vars::vecs_view(fields@);
    let n = fields.len();
    let mut i: usize = 0;
    while i < n
        invariant
            0 <= i <= n == fields@.len(),
            out@ + spec_csv_line(fv, i as int) == old(out)@ + spec_csv_line(fv, 0),
        decreases n - i,
    {
        proof {
            assert(fv[i as int] == fields@[i as int]@);
        }
        push_csv_field(out, fields[i].as_slice());
        if i + 1 < n {
            out.push(COMMA);
        }
        proof {
            assert(out@ + spec_csv_line(fv, i + 1) =~= old(out)@ + spec_csv_line(fv, 0));
        }
        i += 1;
    }
    out.push(NL);
    proof {
        assert(out@ =~= old(out)@ + spec_csv_line(fv, 0));
    }
}

/// The records of a CSV table, one per row.
pub open spec fn spec_csv_rows(rows: Seq<Vec<Vec<u8>>>, i: int) -> Seq<u8>
    decreases rows.len() - i,
{
    if i < 0 || i >= rows.len() {
        Seq::empty()
    } else {
        spec_csv_line(crate::vars::vecs_view(rows[i]@), 0) + spec_csv_rows(rows, i + 1)
    }
}

/// The bytes appended to a CSV artifact: the header line first when the
/// file is empty, then one record per row.
pub open spec fn spec_append_csv(dst_empty: bool, header: Seq<u8>, rows: Seq<Vec<Vec<u8>>>) -> Seq<
    u8,
> {
    (if dst_empty {
        header + seq![NL]
    } else {
        Seq::empty()
    }) + spec_csv_rows(rows, 0)
}

#[verifier::loop_isolation(false)]
pub fn append_csv_bytes(dst_empty: bool, header: &[u8], rows: &Vec<Vec<Vec<u8>>>) -> (r: Vec<u8>)
    ensures
        r@ == spec_append_csv(dst_empty, header@, rows@),
{
    let mut out: Vec<u8> = Vec::new();
    if dst_empty {
        out.extend_from_slice(header);
        out.push(NL);
    }
    let ghost head = out@;
    let n = rows.len();
    let mut i: usize = 0;
    while i < n
        invariant
            0 <= i <= n == rows@.len(),
            out@ + spec_csv_rows(rows@, i as int) == head + spec_csv_rows(rows@, 0),
        decreases n - i,
    {
        push_csv_line(&mut out, &rows[i]);
        proof {
            assert(out@ + spec_csv_rows(rows@, i + 1) =~= head + spec_csv_rows(rows@, 0));
        }
        i += 1;
    }
    proof {
        assert(out@ =~= spec_append_csv(dst_empty, header@, rows@));
    }
    out
}

/// Index of the last `/` in `s`, if any.
pub open spec fn spec_rfind_slash(s: Seq<u8>) -> Option<int>
    decreases s.len(),
{
    if s.len() == 0 {
        None
    } else if s.last() == 0x2f {
        Some(s.len() - 1)
    } else {
        spec_rfind_slash(s.drop_last())
    }
}

/// The file name of a path: everything after the last slash.
pub open spec fn spec_base_name(s: Seq<u8>) -> Seq<u8> {
    match spec_rfind_slash(s) {
        Some(i) => s.subrange(i + 1, s.len() as int),
        None => s,
    }
}

#[verifier::loop_isolation(false)]
pub fn base_name(path: &[u8]) -> (r: Vec<u8>)
    ensures
        r@ == spec_base_name(path@),
{
    let n = path.len();
    proof {
        assert(path@.subrange(0, n as int) =~= path@);
    }
    let mut i = n;
    while i > 0
        invariant
            0 <= i <= n == path@.len(),
            spec_rfind_slash(path@) == spec_rfind_slash(path@.subrange(0, i as int)),
        decreases i,
    {
        proof {
            assert(path@.subrange(0, i as int).drop_last() =~= path@.subrange(0, i - 1));
        }
        if path[i - 1] == 0x2f {
            return vstd::slice::slice_to_vec(
                vstd::slice::slice_subrange(path, i, path.len()),
            );
        }
        i -= 1;
    }
    proof {
        assert(path@.subrange(0, 0) =~= Seq::<u8>::empty());
    }
    vstd::slice::slice_to_vec(path)
}

/// The triage table as written: a `(tag, none, 0)` row first, so empty
/// trials are not dropped by downstream joins, then one `(tag, bug, time)`
/// row per recorded bug, in the table's sorted order.
#[verifier::loop_isolation(false)]
pub fn triage_rows(tag: &[u8], bugs: &BugTable) -> (r: Vec<Vec<Vec<u8>>>)
    ensures
        r@.len() == 1 + bugs@.len(),
        crate::vars::vecs_view(r@[0]@) == seq![
            tag@,
            seq![0x6eu8, 0x6fu8, 0x6eu8, 0x65u8],
            seq![0x30u8],
        ],
        forall|i: int|
            0 <= i < bugs@.len() ==> crate::vars::vecs_view(#[trigger] r@[i + 1]@) == seq![
                tag@,
                bugs@[i].0,
                crate::numfmt::dec_of(bugs@[i].1 as nat),
            ],
{
    let mut rows: Vec<Vec<Vec<u8>>> = Vec::new();
    let mut first: Vec<Vec<u8>> = Vec::new();
    first.push(vstd::slice::slice_to_vec(tag));
    first.push(vec![0x6eu8, 0x6fu8, 0x6eu8, 0x65u8]);
    first.push(vec![0x30u8]);
    proof {
        assert(crate::vars::vecs_view(first@) =~~= seq![
            tag@,
            seq![0x6eu8, 0x6fu8, 0x6eu8, 0x65u8],
            seq![0x30u8],
        ]);
    }
    rows.push(first);
    let m = bugs.entries.len();
    let mut j: usize = 0;
    while j < m
        invariant
            0 <= j <= m == bugs.entries@.len(),
            rows@.len() == 1 + j,
            crate::vars::vecs_view(rows@[0]@) == seq![
                tag@,
                seq![0x6eu8, 0x6fu8, 0x6eu8, 0x65u8],
                seq![0x30u8],
            ],
            forall|l: int|
                0 <= l < j ==> crate::vars::vecs_view(#[trigger] rows@[l + 1]@) == seq![
                    tag@,
                    bugs@[l].0,
                    crate::numfmt::dec_of(bugs@[l].1 as nat),
                ],
        decreases m - j,
    {
        let mut row: Vec<Vec<u8>> = Vec::new();
        row.push(vstd::slice::slice_to_vec(tag));
        row.push(vstd::slice::slice_to_vec(bugs.entries[j].0.as_slice()));
        row.push(crate::numfmt::to_decimal(bugs.entries[j].1));
        proof {
            assert(bugs@[j as int] == (bugs.entries@[j as int].0@, bugs.entries@[j as int].1));
            assert(crate::vars::vecs_view(row@) =~~= seq![
                tag@,
                bugs@[j as int].0,
                crate::numfmt::dec_of(bugs@[j as int].1 as nat),
            ]);
        }
        rows.push(row);
        j += 1;
    }
    rows
}

impl InputPatternVerifier {
    /// Lists the crash directory, attributes each input to the first
    /// matching pattern with the earliest time it was seen, and appends the
    /// triage CSV (`tag,bug_id,time`) to the host destination.  A `none`
    /// row is always written so empty trials are not dropped downstream.
    /// Only an agent failure fails the trial.
    pub fn run<A: crate::engine::Agent, H: crate::engine::Host>(
        &self,
        agent: &mut A,
        host: &mut H,
        vars: &crate::vars::Variables,
    ) -> (r: Result<(), crate::engine::TrialError>)
        ensures
            r matches Err(e) ==> e is Agent,
    {
        let tag_key: [u8; 3] = [0x54, 0x41, 0x47];
        let tag: Vec<u8> = match vars.get(tag_key.as_slice()) {
            Some(v) => vstd::slice::slice_to_vec(v.as_slice()),
            None => vec![0x3f],
        };
        let crash_dir = vars.expand_vars(self.crash_dir.as_slice());
        let start = match agent.stat(vstd::slice::slice_to_vec(crash_dir.as_slice())) {
            Ok(e) => e.modified_ms,
            Err(e) => {
                return Err(crate::engine::agent_error(e));
            },
        };
        let listing = match agent.read_dir(crash_dir) {
            Ok(l) => l,
            Err(e) => {
                return Err(crate::engine::agent_error(e));
            },
        };
        let inputs = input_entries(listing);
        let mut bugs = BugTable::new();
        let n = inputs.len();
        let mut i: usize = 0;
        #[verifier::loop_isolation(false)]
        while i < n
            invariant
                0 <= i <= n == inputs@.len(),
                bugs_sorted(bugs@),
            decreases n - i,
        {
            let entry = &inputs[i];
            let data = match agent.read_file(vstd::slice::slice_to_vec(entry.path.as_slice())) {
                Ok(d) => d,
                Err(e) => {
                    return Err(crate::engine::agent_error(e));
                },
            };
            match first_matching_key(data.as_slice(), &self.patterns) {
                Some(key) => {
                    let name = base_name(entry.path.as_slice());
                    let time = get_relative_time(name.as_slice(), entry.modified_ms, start);
                    bugs.record(key, time);
                },
                None => {},
            }
            i += 1;
        }
        let rows = triage_rows(tag.as_slice(), &bugs);
        let dst = vars.expand_vars(self.dst.as_slice());
        let empty = host.file_empty(dst.as_slice());
        let header: [u8; 15] = [
            0x74, 0x61, 0x67, 0x2c, 0x62, 0x75, 0x67, 0x5f, 0x69, 0x64, 0x2c, 0x74, 0x69, 0x6d,
            0x65,
        ];
        let bytes = append_csv_bytes(empty, header.as_slice(), &rows);
        host.write_file(dst.as_slice(), bytes.as_slice(), true);
        Ok(())
    }
}

/// The lines of a byte string, split on line feeds.
pub open spec fn spec_lines(s: Seq<u8>) -> Seq<Seq<u8>>
    decreases s.len(),
    via spec_lines_dec
{
    if s.len() == 0 {
        Seq::empty()
    } else {
        match find_from(s, NL, 0) {
            None => seq![s],
            Some(i) => seq![s.subrange(0, i)] + spec_lines(s.subrange(i + 1, s.len() as int)),
        }
    }
}

#[via_fn]
proof fn spec_lines_dec(s: Seq<u8>) {
    lemma_find_from(s, NL, 0);
}

/// Splits a byte string into lines.
pub fn split_lines(s: &[u8]) -> (r: Vec<Vec<u8>>)
    ensures
        crate::vars::vecs_view(r@) == spec_lines(s@),
{
    let mut out: Vec<Vec<u8>> = Vec::new();
    let mut rest: Vec<u8> = vstd::slice::slice_to_vec(s);
    proof {
        assert(crate::vars::vecs_view(out@) + spec_lines(rest@) =~= spec_lines(s@));
    }
    #[verifier::loop_isolation(false)]
    loop
        invariant
            crate::vars::vecs_view(out@) + spec_lines(rest@) == spec_lines(s@),
        decreases rest@.len(),
    {
        if rest.len() == 0 {
            proof {
                assert(crate::vars::vecs_view(out@) =~= spec_lines(s@));
            }
            return out;
        }
        let ghost prev = rest@;
        match find_byte_from(rest.as_slice(), NL, 0) {
            None => {
                out.push(rest);
                proof {
                    assert(crate::vars::vecs_view(out@) =~= spec_lines(s@));
                }
                return out;
            },
            Some(i) => {
                proof {
                    crate::vars::lemma_find_from(prev, NL, 0);
                }
                let line = vstd::slice::slice_to_vec(
                    vstd::slice::slice_subrange(rest.as_slice(), 0, i),
                );
                let tail = vstd::slice::slice_to_vec(
                    vstd::slice::slice_subrange(rest.as_slice(), i + 1, rest.len()),
                );
                out.push(line);
                rest = tail;
                proof {
                    assert(crate::vars::vecs_view(out@) + spec_lines(rest@) =~= spec_lines(s@));
                }
            },
        }
    }
}

/// The fields of a CSV-like line, split on commas (no quoting).
pub open spec fn spec_fields(s: Seq<u8>) -> Seq<Seq<u8>>
    decreases s.len(),
    via spec_fields_dec
{
    match find_from(s, COMMA, 0) {
        None => seq![s],
        Some(i) => seq![s.subrange(0, i)] + spec_fields(s.subrange(i + 1, s.len() as int)),
    }
}

#[via_fn]
proof fn spec_fields_dec(s: Seq<u8>) {
    lemma_find_from(s, COMMA, 0);
}

/// Splits a line into comma-separated fields.
pub fn split_fields(s: &[u8]) -> (r: Vec<Vec<u8>>)
    ensures
        crate::vars::vecs_view(r@) == spec_fields(s@),
{
    let mut out: Vec<Vec<u8>> = Vec::new();
    let mut rest: Vec<u8> = vstd::slice::slice_to_vec(s);
    proof {
        assert(crate::vars::vecs_view(out@) + spec_fields(rest@) =~= spec_fields(s@));
    }
    #[verifier::loop_isolation(false)]
    loop
        invariant
            crate::vars::vecs_view(out@) + spec_fields(rest@) == spec_fields(s@),
        decreases rest@.len(),
    {
        let ghost prev = rest@;
        match find_byte_from(rest.as_slice(), COMMA, 0) {
            None => {
                out.push(rest);
                proof {
                    assert(crate::vars::vecs_view(out@) =~= spec_fields(s@));
                }
                return out;
            },
            Some(i) => {
                proof {
                    crate::vars::lemma_find_from(prev, COMMA, 0);
                }
                let field = vstd::slice::slice_to_vec(
                    vstd::slice::slice_subrange(rest.as_slice(), 0, i),
                );
                let tail = vstd::slice::slice_to_vec(
                    vstd::slice::slice_subrange(rest.as_slice(), i + 1, rest.len()),
                );
                out.push(field);
                rest = tail;
                proof {
                    assert(crate::vars::vecs_view(out@) + spec_fields(rest@) =~= spec_fields(s@));
                }
            },
        }
    }
}

/// ASCII whitespace trimmed from field edges.
pub open spec fn is_trim_ws(b: u8) -> bool {
    b == 0x20 || b == 0x09 || b == 0x0d
}

/// A byte string without leading whitespace.
pub open spec fn spec_trim_front(s: Seq<u8>) -> Seq<u8>
    decreases s.len(),
{
    if s.len() > 0 && is_trim_ws(s[0]) {
        spec_trim_front(s.drop_first())
    } else {
        s
    }
}

/// A byte string without trailing whitespace.
pub open spec fn spec_trim_back(s: Seq<u8>) -> Seq<u8>
    decreases s.len(),
{
    if s.len() > 0 && is_trim_ws(s.last()) {
        spec_trim_back(s.drop_last())
    } else {
        s
    }
}

/// A byte string trimmed on both ends.
pub open spec fn spec_trim(s: Seq<u8>) -> Seq<u8> {
    spec_trim_back(spec_trim_front(s))
}

/// Trims ASCII whitespace from both ends.
#[verifier::loop_isolation(false)]
pub fn trim_bytes(s: &[u8]) -> (r: Vec<u8>)
    ensures
        r@ == spec_trim(s@),
{
    let n = s.len();
    proof {
        assert(s@.subrange(0, n as int) =~= s@);
    }
    let mut a: usize = 0;
    while a < n && (s[a] == 0x20 || s[a] == 0x09 || s[a] == 0x0d)
        invariant
            0 <= a <= n == s@.len(),
            spec_trim_front(s@) == spec_trim_front(s@.subrange(a as int, n as int)),
        decreases n - a,
    {
        proof {
            assert(s@.subrange(a as int, n as int).drop_first() =~= s@.subrange(
                a + 1,
                n as int,
            ));
        }
        a += 1;
    }
    let mut b = n;
    proof {
        assert(spec_trim_front(s@) =~= s@.subrange(a as int, n as int));
    }
    while b > a && (s[b - 1] == 0x20 || s[b - 1] == 0x09 || s[b - 1] == 0x0d)
        invariant
            a <= b <= n,
            spec_trim_back(s@.subrange(a as int, n as int)) == spec_trim_back(
                s@.subrange(a as int, b as int),
            ),
        decreases b,
    {
        proof {
            assert(s@.subrange(a as int, b as int).drop_last() =~= s@.subrange(
                a as int,
                b - 1,
            ));
        }
        b -= 1;
    }
    proof {
        assert(spec_trim_back(s@.subrange(a as int, b as int)) =~= s@.subrange(a as int, b as int));
    }
    vstd::slice::slice_to_vec(vstd::slice::slice_subrange(s, a, b))
}

/// How AFL++ v4 plot data is reshaped for aggregation: a line is dropped
/// when blank or a `#` comment; a line whose fields do not number exactly
/// thirteen counts as a parse error; a good line becomes the tag followed
/// by its trimmed fields.
pub const PLOT_DATA_V4_FIELDS: usize = 13;

/// A line that carries no record: blank, or a `#` comment.
pub open spec fn spec_line_skipped(line: Seq<u8>) -> bool {
    let t = spec_trim(line);
    t.len() == 0 || t[0] == 0x23
}

/// A line carrying a well-formed record: exactly thirteen fields.
pub open spec fn spec_line_good(line: Seq<u8>) -> bool {
    !spec_line_skipped(line) && spec_fields(spec_trim(line)).len() == PLOT_DATA_V4_FIELDS
}

/// The reshaped record of a good line: the tag, then the trimmed fields.
pub open spec fn spec_tagged_row(tag: Seq<u8>, line: Seq<u8>) -> Seq<Seq<u8>> {
    seq![tag] + spec_fields(spec_trim(line)).map_values(|f: Seq<u8>| spec_trim(f))
}

/// The reshaped records of the lines at or after `i`, in order.
pub open spec fn spec_plot_rows(tag: Seq<u8>, lines: Seq<Seq<u8>>, i: int) -> Seq<Seq<Seq<u8>>>
    decreases lines.len() - i,
{
    if i < 0 || i >= lines.len() {
        Seq::empty()
    } else {
        (if spec_line_good(lines[i]) {
            seq![spec_tagged_row(tag, lines[i])]
        } else {
            Seq::empty()
        }) + spec_plot_rows(tag, lines, i + 1)
    }
}

/// How many lines at or after `i` are malformed.
pub open spec fn spec_bad_count(lines: Seq<Seq<u8>>, i: int) -> nat
    decreases lines.len() - i,
{
    if i < 0 || i >= lines.len() {
        0
    } else {
        (if !spec_line_skipped(lines[i]) && !spec_line_good(lines[i]) {
            1nat
        } else {
            0nat
        }) + spec_bad_count(lines, i + 1)
    }
}

/// Reshapes a plot-data file for aggregation: blank and comment lines are
/// dropped, each well-formed line becomes the tag followed by its thirteen
/// trimmed fields, and more than ten malformed lines fail the whole file.
#[verifier::loop_isolation(false)]
pub fn tag_plot_data(tag: &[u8], data: &[u8]) -> (r: Result<
    Vec<Vec<Vec<u8>>>,
    crate::engine::TrialError,
>)
    ensures
        ({
            let lv = spec_lines(data@);
            &&& (r matches Ok(rows) ==> spec_bad_count(lv, 0) <= 10 && crate::vars::rows_view(
                rows@,
            ) == spec_plot_rows(tag@, lv, 0))
            &&& (r matches Err(e) ==> e is MalformedPlotData && spec_bad_count(lv, 0) > 10)
        }),
{
    let ghost lv = spec_lines(data@);
    let lines = split_lines(data);
    proof {
        assert(crate::vars::vecs_view(lines@) == lv);
    }
    let mut rows: Vec<Vec<Vec<u8>>> = Vec::new();
    let mut bad: u64 = 0;
    let n = lines.len();
    proof {
        assert(crate::vars::rows_view(rows@) + spec_plot_rows(tag@, lv, 0) =~= spec_plot_rows(
            tag@,
            lv,
            0,
        ));
    }
    let mut i: usize = 0;
    while i < n
        invariant
            0 <= i <= n == lines@.len(),
            lv == crate::vars::vecs_view(lines@),
            bad <= 10,
            bad as nat + spec_bad_count(lv, i as int) == spec_bad_count(lv, 0),
            crate::vars::rows_view(rows@) + spec_plot_rows(tag@, lv, i as int) == spec_plot_rows(
                tag@,
                lv,
                0,
            ),
        decreases n - i,
    {
        proof {
            assert(lv[i as int] == lines@[i as int]@);
        }
        let line = trim_bytes(lines[i].as_slice());
        if line.len() == 0 || line[0] == 0x23 {
            proof {
                assert(spec_line_skipped(lv[i as int]));
                assert(crate::vars::rows_view(rows@) + spec_plot_rows(tag@, lv, i + 1)
                    =~= spec_plot_rows(tag@, lv, 0));
            }
            i += 1;
            continue ;
        }
        let raw_fields = split_fields(line.as_slice());
        let ghost fv = spec_fields(spec_trim(lv[i as int]));
        proof {
            assert(crate::vars::vecs_view(raw_fields@) == fv);
        }
        let m = raw_fields.len();
        if m == PLOT_DATA_V4_FIELDS {
            let mut fields: Vec<Vec<u8>> = Vec::new();
            fields.push(vstd::slice::slice_to_vec(tag));
            proof {
                assert(crate::vars::vecs_view(fields@) =~~= seq![tag@] + fv.map_values(
                    |f: Seq<u8>| spec_trim(f),
                ).subrange(0, 0));
            }
            let mut j: usize = 0;
            while j < m
                invariant
                    0 <= j <= m == raw_fields@.len(),
                    fv == crate::vars::vecs_view(raw_fields@),
                    crate::vars::vecs_view(fields@) == seq![tag@] + fv.map_values(
                        |f: Seq<u8>| spec_trim(f),
                    ).subrange(0, j as int),
                decreases m - j,
            {
                proof {
                    assert(fv[j as int] == raw_fields@[j as int]@);
                }
                let ghost prev_fields = fields@;
                fields.push(trim_bytes(raw_fields[j].as_slice()));
                proof {
                    let target = seq![tag@] + fv.map_values(|f: Seq<u8>| spec_trim(f)).subrange(
                        0,
                        j + 1,
                    );
                    assert forall|t: int| 0 <= t < fields@.len() implies crate::vars::vecs_view(
                        fields@,
                    )[t] == target[t] by {
                        if t < prev_fields.len() {
                            assert(fields@[t] == prev_fields[t]);
                            assert(crate::vars::vecs_view(prev_fields)[t] == (seq![tag@]
                                + fv.map_values(|f: Seq<u8>| spec_trim(f)).subrange(
                                0,
                                j as int,
                            ))[t]);
                        } else {
                            assert(fields@[t] == fields@.last());
                            assert(fv.map_values(|f: Seq<u8>| spec_trim(f))[j as int] == spec_trim(
                                fv[j as int],
                            ));
                        }
                    }
                    assert(crate::vars::vecs_view(fields@) =~= target);
                }
                j += 1;
            }
            let ghost prev_rows = rows@;
            rows.push(fields);
            proof {
                assert(spec_line_good(lv[i as int]));
                assert(fv.map_values(|f: Seq<u8>| spec_trim(f)).subrange(0, m as int)
                    =~= fv.map_values(|f: Seq<u8>| spec_trim(f)));
                assert(crate::vars::vecs_view(rows@[rows@.len() - 1]@) =~~= spec_tagged_row(
                    tag@,
                    lv[i as int],
                ));
                assert(crate::vars::rows_view(rows@) =~~= crate::vars::rows_view(prev_rows).push(
                    spec_tagged_row(tag@, lv[i as int]),
                ));
                assert(crate::vars::rows_view(rows@) + spec_plot_rows(tag@, lv, i + 1)
                    =~= spec_plot_rows(tag@, lv, 0));
            }
        } else {
            proof {
                assert(!spec_line_skipped(lv[i as int]) && !spec_line_good(lv[i as int]));
                assert(crate::vars::rows_view(rows@) + spec_plot_rows(tag@, lv, i + 1)
                    =~= spec_plot_rows(tag@, lv, 0));
            }
            bad += 1;
            if bad > 10 {
                proof {
                    lemma_bad_count_nonneg(lv, i + 1);
                }
                return Err(
                    crate::engine::TrialError::MalformedPlotData { line },
                );
            }
        }
        i += 1;
    }
    proof {
        assert(spec_plot_rows(tag@, lv, n as int) =~= Seq::<Seq<Seq<u8>>>::empty());
        assert(spec_bad_count(lv, n as int) == 0);
        assert(crate::vars::rows_view(rows@) =~~= spec_plot_rows(tag@, lv, 0));
    }
    Ok(rows)
}

proof fn lemma_bad_count_nonneg(lines: Seq<Seq<u8>>, i: int)
    ensures
        spec_bad_count(lines, i) >= 0,
{
}

impl SaveTaggedAflPlotDataV4 {
    /// Reads `{workdir}/default/plot_data` from the guest, reshapes it with
    /// [`tag_plot_data`] under the trial's tag, and appends the rows to the
    /// host CSV, writing the header when the file is empty.  The trial
    /// fails only on an agent error or on a file with more than ten
    /// malformed lines.
    pub fn run<A: crate::engine::Agent, H: crate::engine::Host>(
        &self,
        agent: &mut A,
        host: &mut H,
        vars: &crate::vars::Variables,
    ) -> (r: Result<(), crate::engine::TrialError>)
        ensures
            r matches Err(e) ==> e is Agent || e is MalformedPlotData,
    {
        let tag_key: [u8; 3] = [0x54, 0x41, 0x47];
        let tag: Vec<u8> = match vars.get(tag_key.as_slice()) {
            Some(v) => vstd::slice::slice_to_vec(v.as_slice()),
            None => vec![0x3f],
        };
        let mut plot_path = vars.expand_vars(self.workdir.as_slice());
        let suffix: [u8; 18] = [
            0x2f, 0x64, 0x65, 0x66, 0x61, 0x75, 0x6c, 0x74, 0x2f, 0x70, 0x6c, 0x6f, 0x74, 0x5f,
            0x64, 0x61, 0x74, 0x61,
        ];
        plot_path.extend_from_slice(suffix.as_slice());
        let data = match agent.read_file(plot_path) {
            Ok(d) => d,
            Err(e) => {
                return Err(crate::engine::agent_error(e));
            },
        };
        let rows = match tag_plot_data(tag.as_slice(), data.as_slice()) {
            Ok(rows) => rows,
            Err(e) => {
                return Err(e);
            },
        };
        let header =
            "tag,relative_time,cycles_done,cur_item,corpus_count,pending_total,pending_favs,map_size,saved_crashes,saved_hangs,max_depth,execs_per_sec,total_execs,edges_found".as_bytes();
        let dst = vars.expand_vars(self.dst.as_slice());
        let empty = host.file_empty(dst.as_slice());
        let bytes = append_csv_bytes(empty, header, &rows);
        host.write_file(dst.as_slice(), bytes.as_slice(), true);
        Ok(())
    }
}

pub proof fn lemma_lex_trans(a: Seq<u8>, b: Seq<u8>, c: Seq<u8>)
    requires
        lex_lt(a, b),
        lex_lt(b, c),
    ensures
        lex_lt(a, c),
    decreases a.len() + b.len() + c.len(),
{
    if b.len() > 0 && c.len() > 0 && a.len() > 0 {
        if a[0] == b[0] && b[0] == c[0] {
            lemma_lex_trans(a.drop_first(), b.drop_first(), c.drop_first());
        }
    }
}

} // verus!
