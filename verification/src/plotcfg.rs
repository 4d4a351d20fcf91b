//! The analysis configuration surface the core hands its artifacts to:
//! plot layout arithmetic, data-source descriptors, and the benchmark tags
//! that name each trial's output.

use vstd::prelude::*;
use crate::vars::{find_from, find_byte_from, lemma_find_from};

verus! {

/// A width and height in pixels.
#[derive(Clone, Copy, PartialEq, Eq, Structural, Debug)]
pub struct Size {
    pub width: u32,
    pub height: u32,
}

/// The default size of one subplot cell.
pub fn default_cell_size() -> (r: Size)
    ensures
        r.width == 160,
        r.height == 180,
{
    Size { width: 160, height: 180 }
}

/// How subplots are laid out on a figure.
pub struct PlotLayout {
    pub cell_size: Size,
    pub max_columns: u32,
    pub min_size: Size,
}

impl Default for PlotLayout {
    /// Five columns of 160 by 180 cells, at least 800 by 500 overall.
    fn default() -> (r: Self)
        ensures
            r.cell_size.width == 160 && r.cell_size.height == 180,
            r.max_columns == 5,
            r.min_size.width == 800 && r.min_size.height == 500,
    {
        PlotLayout {
            cell_size: Size { width: 160, height: 180 },
            max_columns: 5,
            min_size: Size { width: 800, height: 500 },
        }
    }
}

/// `x`, saturating at `u32::MAX`.
pub open spec fn sat32(x: int) -> u32 {
    if x <= u32::MAX {
        x as u32
    } else {
        u32::MAX
    }
}

impl PlotLayout {
    /// The column count and figure size for `n_binaries` subplots: as many
    /// columns as binaries, capped at `max_columns` when set; enough rows
    /// for the rest; 55 pixels of margin around the cells; never below the
    /// configured minimum.  Oversized products saturate.
    pub fn get_layout(&self, n_binaries: u32) -> (r: (u32, Size))
        requires
            n_binaries >= 1,
        ensures
            ({
                let n_col = if self.max_columns == 0 {
                    n_binaries as int
                } else if n_binaries <= self.max_columns {
                    n_binaries as int
                } else {
                    self.max_columns as int
                };
                let n_rows = 1 + (n_binaries - 1) as int / n_col;
                &&& r.0 == n_col
                &&& r.1.width == (if 55 + self.cell_size.width * n_col >= self.min_size.width {
                    sat32(55 + self.cell_size.width * n_col)
                } else {
                    self.min_size.width
                })
                &&& r.1.height == (if 55 + self.cell_size.height * n_rows
                    >= self.min_size.height {
                    sat32(55 + self.cell_size.height * n_rows)
                } else {
                    self.min_size.height
                })
            }),
    {
        let n_col: u32 = if self.max_columns == 0 {
            n_binaries
        } else if n_binaries <= self.max_columns {
            n_binaries
        } else {
            self.max_columns
        };
        let n_rows: u32 = 1 + (n_binaries - 1) / n_col;
        proof {
            assert((self.cell_size.width as u64) * (n_col as u64) <= 0xfffffffe00000001u64)
                by (nonlinear_arith)
                requires
                    self.cell_size.width <= 0xffffffffu64,
                    n_col <= 0xffffffffu64,
            ;
            assert((self.cell_size.height as u64) * (n_rows as u64) <= 0xfffffffe00000001u64)
                by (nonlinear_arith)
                requires
                    self.cell_size.height <= 0xffffffffu64,
                    n_rows <= 0xffffffffu64,
            ;
        }
        let w_raw: u64 = 55 + (self.cell_size.width as u64) * (n_col as u64);
        let h_raw: u64 = 55 + (self.cell_size.height as u64) * (n_rows as u64);
        let w_sat: u32 = if w_raw <= 0xffffffff {
            w_raw as u32
        } else {
            u32::MAX
        };
        let h_sat: u32 = if h_raw <= 0xffffffff {
            h_raw as u32
        } else {
            u32::MAX
        };
        let width = if w_raw >= self.min_size.width as u64 {
            w_sat
        } else {
            self.min_size.width
        };
        let height = if h_raw >= self.min_size.height as u64 {
            h_sat
        } else {
            self.min_size.height
        };
        (n_col, Size { width, height })
    }
}

/// Where one dataset's raw measurements come from.
pub enum DataSource {
    EmberCsv { glob: Vec<u8>, duration_ms: u64, resampled: bool },
    FuzzwareBlocksCsv { glob: Vec<u8>, duration_ms: u64 },
    MultiFuzzBench { glob: Vec<u8>, duration_ms: u64 },
}

/// A boolean filter over table columns.
pub enum FilterExpr {
    Col(Vec<u8>),
    Str(Vec<u8>),
    U32(u32),
    U64(u64),
    Eq(Box<FilterExpr>, Box<FilterExpr>),
    Neq(Box<FilterExpr>, Box<FilterExpr>),
    And(Vec<FilterExpr>),
    Or(Vec<FilterExpr>),
    Not(Box<FilterExpr>),
    True,
}

/// One configured dataset: its source and the filter applied to it.
pub struct Dataset {
    pub source: DataSource,
    pub filter: FilterExpr,
}

/// One value or a list of them, as configuration files write either.
pub enum VecOrOne<T> {
    Vec(Vec<T>),
    One(T),
}

impl<T> VecOrOne<T> {
    /// The values as a list.
    pub fn into_vec(self) -> (r: Vec<T>)
        ensures
            self matches VecOrOne::Vec(v) ==> r == v,
            self matches VecOrOne::One(x) ==> r@.len() == 1 && r@[0] == x,
    {
        match self {
            VecOrOne::Vec(v) => v,
            VecOrOne::One(x) => {
                let mut v = Vec::new();
                v.push(x);
                v
            },
        }
    }
}

/// Two fuzzers whose coverage is compared head to head.
pub struct Diff {
    pub fuzzer_a: Vec<u8>,
    pub fuzzer_b: Vec<u8>,
}

/// One coverage sample: the block address, when it was first hit, and the
/// input that hit it (0 when unknown).
#[derive(Clone, Copy, PartialEq, Eq, Structural, Debug)]
pub struct HailFuzzCoverage {
    pub addr: u64,
    pub time_ms: u64,
    pub input_id: u64,
}

/// `v1;bench=..;fuzzer=..;binary=..;trial=..`.
pub open spec fn spec_tag_of(bench: Seq<u8>, fuzzer: Seq<u8>, binary: Seq<u8>, trial: Seq<u8>) -> Seq<
    u8,
> {
    seq![0x76u8, 0x31u8, 0x3bu8, 0x62u8, 0x65u8, 0x6eu8, 0x63u8, 0x68u8, 0x3du8] + bench + seq![
        0x3bu8,
        0x66u8,
        0x75u8,
        0x7au8,
        0x7au8,
        0x65u8,
        0x72u8,
        0x3du8,
    ] + fuzzer + seq![0x3bu8, 0x62u8, 0x69u8, 0x6eu8, 0x61u8, 0x72u8, 0x79u8, 0x3du8] + binary
        + seq![0x3bu8, 0x74u8, 0x72u8, 0x69u8, 0x61u8, 0x6cu8, 0x3du8] + trial
}

/// Builds `v1;bench=..;fuzzer=..;binary=..;trial=..`.
pub fn tag_of(bench: &[u8], fuzzer: &[u8], binary: &[u8], trial: &[u8]) -> (r: Vec<u8>)
    ensures
        r@ == spec_tag_of(bench@, fuzzer@, binary@, trial@),
{
    let p1: [u8; 9] = [0x76, 0x31, 0x3b, 0x62, 0x65, 0x6e, 0x63, 0x68, 0x3d];
    let p2: [u8; 8] = [0x3b, 0x66, 0x75, 0x7a, 0x7a, 0x65, 0x72, 0x3d];
    let p3: [u8; 8] = [0x3b, 0x62, 0x69, 0x6e, 0x61, 0x72, 0x79, 0x3d];
    let p4: [u8; 7] = [0x3b, 0x74, 0x72, 0x69, 0x61, 0x6c, 0x3d];
    let mut out: Vec<u8> = Vec::new();
    out.extend_from_slice(p1.as_slice());
    out.extend_from_slice(bench);
    out.extend_from_slice(p2.as_slice());
    out.extend_from_slice(fuzzer);
    out.extend_from_slice(p3.as_slice());
    out.extend_from_slice(binary);
    out.extend_from_slice(p4.as_slice());
    out.extend_from_slice(trial);
    proof {
        assert(out@ =~= spec_tag_of(bench@, fuzzer@, binary@, trial@));
    }
    out
}

/// Index of the last `-` in `s`, if any.
pub open spec fn spec_rfind_dash(s: Seq<u8>) -> Option<int>
    decreases s.len(),
{
    if s.len() == 0 {
        None
    } else if s.last() == 0x2d {
        Some(s.len() - 1)
    } else {
        spec_rfind_dash(s.drop_last())
    }
}

/// Splits at the last `-`: the part before and the part after.
#[verifier::loop_isolation(false)]
pub fn rsplit_dash(s: &[u8]) -> (r: Option<(Vec<u8>, Vec<u8>)>)
    ensures
        match r {
            Some((a, b)) => {
                spec_rfind_dash(s@) matches Some(i) && a@ == s@.subrange(0, i) && b@
                    == s@.subrange(i + 1, s@.len() as int)
            },
            None => spec_rfind_dash(s@) is None,
        },
{
    let n = s.len();
    proof {
        assert(s@.subrange(0, n as int) =~= s@);
    }
    let mut i = n;
    while i > 0
        invariant
            0 <= i <= n == s@.len(),
            spec_rfind_dash(s@) == spec_rfind_dash(s@.subrange(0, i as int)),
        decreases i,
    {
        proof {
            assert(s@.subrange(0, i as int).drop_last() =~= s@.subrange(0, i - 1));
        }
        if s[i - 1] == 0x2d {
            let a = vstd::slice::slice_to_vec(vstd::slice::slice_subrange(s, 0, i - 1));
            let b = vstd::slice::slice_to_vec(vstd::slice::slice_subrange(s, i, s.len()));
            return Some((a, b));
        }
        i -= 1;
    }
    proof {
        assert(s@.subrange(0, 0) =~= Seq::<u8>::empty());
    }
    None
}

/// The benchmark tag read off a trial's output path, handed in as its
/// components deepest first.  The current layout is
/// `[bench]/[fuzzer]/[group]/[binary]/[trial]`; the legacy layout is
/// `[bench]/[fuzzer]-[binary]/[trial]`.  A path that does not fit yields
/// the unknown tag.
pub fn bench_tags_from_hail_fuzz_path(components_rev: &Vec<Vec<u8>>, legacy: bool) -> (r: Vec<u8>)
    ensures
        legacy && components_rev@.len() >= 3 && spec_rfind_dash(components_rev@[1]@) is Some
            ==> ({
            let i = spec_rfind_dash(components_rev@[1]@).unwrap();
            r@ == spec_tag_of(
                components_rev@[2]@,
                components_rev@[1]@.subrange(0, i),
                components_rev@[1]@.subrange(i + 1, components_rev@[1]@.len() as int),
                components_rev@[0]@,
            )
        }),
        !legacy && components_rev@.len() >= 5 ==> r@ == spec_tag_of(
            components_rev@[4]@,
            components_rev@[3]@,
            components_rev@[1]@,
            components_rev@[0]@,
        ),
{
    let unknown: Vec<u8> = {
        let u: [u8; 7] = [0x75, 0x6e, 0x6b, 0x6e, 0x6f, 0x77, 0x6e];
        let z: [u8; 1] = [0x30];
        tag_of(u.as_slice(), u.as_slice(), u.as_slice(), z.as_slice())
    };
    if legacy {
        if components_rev.len() < 3 {
            return unknown;
        }
        let (fuzzer, binary) = match rsplit_dash(components_rev[1].as_slice()) {
            Some(t) => t,
            None => {
                return unknown;
            },
        };
        return tag_of(
            components_rev[2].as_slice(),
            fuzzer.as_slice(),
            binary.as_slice(),
            components_rev[0].as_slice(),
        );
    }
    if components_rev.len() < 5 {
        return unknown;
    }
    tag_of(
        components_rev[4].as_slice(),
        components_rev[3].as_slice(),
        components_rev[1].as_slice(),
        components_rev[0].as_slice(),
    )
}

/// The `;`-separated pieces of `s`: `n` separators give `n + 1` pieces.
pub open spec fn spec_split_on(s: Seq<u8>, sep: u8) -> Seq<Seq<u8>>
    decreases s.len(),
    via spec_split_on_dec
{
    match find_from(s, sep, 0) {
        None => seq![s],
        Some(i) => seq![s.subrange(0, i)] + spec_split_on(s.subrange(i + 1, s.len() as int), sep),
    }
}

#[via_fn]
proof fn spec_split_on_dec(s: Seq<u8>, sep: u8) {
    lemma_find_from(s, sep, 0);
}

/// The `key=value` pairs among the pieces at or after `i`, in order: an
/// empty piece or one without an `=` is skipped; the rest split at their
/// first `=`.
pub open spec fn spec_tag_pairs(pieces: Seq<Seq<u8>>, i: int) -> Seq<(Seq<u8>, Seq<u8>)>
    decreases pieces.len() - i,
{
    if i < 0 || i >= pieces.len() {
        Seq::empty()
    } else {
        let piece = pieces[i];
        let rest = spec_tag_pairs(pieces, i + 1);
        if piece.len() == 0 {
            rest
        } else {
            match find_from(piece, 0x3d, 0) {
                Some(p) => seq![
                    (piece.subrange(0, p), piece.subrange(p + 1, piece.len() as int)),
                ] + rest,
                None => rest,
            }
        }
    }
}

/// The `key=value` pairs of a `v1;key=value;...` tag, in order; empty
/// pieces and pieces without an `=` are skipped.  None exactly when the
/// first piece is not `v1`.
#[verifier::loop_isolation(false)]
pub fn parse_bench_tags(tag: &[u8]) -> (r: Option<Vec<(Vec<u8>, Vec<u8>)>>)
    ensures
        ({
            let pieces = spec_split_on(tag@, 0x3b);
            &&& (r matches Some(pairs) ==> pieces[0] == seq![0x76u8, 0x31u8]
                && crate::vars::pairs_view(pairs@) == spec_tag_pairs(pieces, 1))
            &&& (r is None ==> pieces[0] != seq![0x76u8, 0x31u8])
        }),
{
    let ghost pv = spec_split_on(tag@, 0x3b);
    let pieces = split_on(tag, 0x3b);
    proof {
        assert(crate::vars::vecs_view(pieces@) == pv);
        assert(pv.len() >= 1);
        assert(pv[0] == pieces@[0]@);
    }
    let v1: [u8; 2] = [0x76, 0x31];
    proof {
        assert(v1@ =~= seq![0x76u8, 0x31u8]);
    }
    if !crate::vars::bytes_eq(pieces[0].as_slice(), v1.as_slice()) {
        return None;
    }
    let mut out: Vec<(Vec<u8>, Vec<u8>)> = Vec::new();
    let n = pieces.len();
    proof {
        assert(crate::vars::pairs_view(out@) + spec_tag_pairs(pv, 1) =~= spec_tag_pairs(pv, 1));
    }
    let mut i: usize = 1;
    while i < n
        invariant
            1 <= i <= n == pieces@.len(),
            pv == crate::vars::vecs_view(pieces@),
            crate::vars::pairs_view(out@) + spec_tag_pairs(pv, i as int) == spec_tag_pairs(pv, 1),
        decreases n - i,
    {
        proof {
            assert(pv[i as int] == pieces@[i as int]@);
        }
        let piece = &pieces[i];
        if piece.len() > 0 {
            match find_byte_from(piece.as_slice(), 0x3d, 0) {
                Some(p) => {
                    proof {
                        lemma_find_from(piece@, 0x3d, 0);
                        assert(p < piece@.len() && piece@.len() == piece.len());
                    }
                    let k = vstd::slice::slice_to_vec(
                        vstd::slice::slice_subrange(piece.as_slice(), 0, p),
                    );
                    let v = vstd::slice::slice_to_vec(
                        vstd::slice::slice_subrange(piece.as_slice(), p + 1, piece.len()),
                    );
                    let ghost prev = out@;
                    out.push((k, v));
                    proof {
                        let target = crate::vars::pairs_view(prev).push(
                            (
                                pv[i as int].subrange(0, p as int),
                                pv[i as int].subrange(p + 1, pv[i as int].len() as int),
                            ),
                        );
                        assert forall|t: int|
                            0 <= t < out@.len() implies crate::vars::pairs_view(out@)[t]
                            == target[t] by {
                            if t < prev.len() {
                                assert(out@[t] == prev[t]);
                            } else {
                                assert(out@[t] == (k, v));
                            }
                        }
                        assert(crate::vars::pairs_view(out@) =~= target);
                        assert(crate::vars::pairs_view(out@) + spec_tag_pairs(pv, i + 1)
                            =~= spec_tag_pairs(pv, 1));
                    }
                },
                None => {
                    proof {
                        assert(crate::vars::pairs_view(out@) + spec_tag_pairs(pv, i + 1)
                            =~= spec_tag_pairs(pv, 1));
                    }
                },
            }
        } else {
            proof {
                assert(crate::vars::pairs_view(out@) + spec_tag_pairs(pv, i + 1)
                    =~= spec_tag_pairs(pv, 1));
            }
        }
        i += 1;
    }
    proof {
        assert(spec_tag_pairs(pv, n as int) =~= Seq::<(Seq<u8>, Seq<u8>)>::empty());
        assert(crate::vars::pairs_view(out@) =~= spec_tag_pairs(pv, 1));
    }
    Some(out)
}

/// Splits `s` on a separator byte; `n` separators give `n + 1` pieces.
pub fn split_on(s: &[u8], sep: u8) -> (r: Vec<Vec<u8>>)
    ensures
        crate::vars::vecs_view(r@) == spec_split_on(s@, sep),
        r@.len() >= 1,
{
    let mut out: Vec<Vec<u8>> = Vec::new();
    let mut rest: Vec<u8> = vstd::slice::slice_to_vec(s);
    proof {
        assert(crate::vars::vecs_view(out@) + spec_split_on(rest@, sep) =~= spec_split_on(
            s@,
            sep,
        ));
    }
    #[verifier::loop_isolation(false)]
    loop
        invariant
            crate::vars::vecs_view(out@) + spec_split_on(rest@, sep) == spec_split_on(s@, sep),
        decreases rest@.len(),
    {
        match find_byte_from(rest.as_slice(), sep, 0) {
            None => {
                out.push(rest);
                proof {
                    assert(crate::vars::vecs_view(out@) =~= spec_split_on(s@, sep));
                }
                return out;
            },
            Some(i) => {
                proof {
                    lemma_find_from(rest@, sep, 0);
                    assert(i < rest@.len() && rest@.len() == rest.len());
                }
                let piece = vstd::slice::slice_to_vec(
                    vstd::slice::slice_subrange(rest.as_slice(), 0, i),
                );
                let tail = vstd::slice::slice_to_vec(
                    vstd::slice::slice_subrange(rest.as_slice(), i + 1, rest.len()),
                );
                out.push(piece);
                rest = tail;
                proof {
                    assert(crate::vars::vecs_view(out@) + spec_split_on(rest@, sep)
                        =~= spec_split_on(s@, sep));
                }
            },
        }
    }
}

} // verus!
