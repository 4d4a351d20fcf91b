//! Program structure metadata: basic blocks, functions and control-flow
//! edges of a binary, with containment lookups, reachability along
//! fallthrough edges, and relocation.

use vstd::prelude::*;
use crate::vars::bytes_eq;

verus! {

/// One basic block: its first address, the address of its last byte, the
/// address run next when the block exits unconditionally, and its owning
/// function's entry address.
#[derive(Clone, Copy)]
pub struct Block {
    pub start: u64,
    pub end: u64,
    pub fallthrough: Option<u64>,
    pub function: Option<u64>,
}

impl Block {
    /// The block moved by a fixed offset.
    pub fn offset(self, offset: u64) -> (r: Self)
        requires
            self.start + offset <= u64::MAX,
            self.end + offset <= u64::MAX,
            self.fallthrough matches Some(f) ==> f + offset <= u64::MAX,
            self.function matches Some(f) ==> f + offset <= u64::MAX,
        ensures
            r.start == self.start + offset,
            r.end == self.end + offset,
            r.fallthrough == match self.fallthrough {
                Some(f) => Some((f + offset) as u64),
                None => None::<u64>,
            },
            r.function == match self.function {
                Some(f) => Some((f + offset) as u64),
                None => None::<u64>,
            },
    {
        Block {
            start: self.start + offset,
            end: self.end + offset,
            fallthrough: match self.fallthrough {
                Some(f) => Some(f + offset),
                None => None,
            },
            function: match self.function {
                Some(f) => Some(f + offset),
                None => None,
            },
        }
    }
}

/// The value of a hex digit, or 16 for anything else.
pub open spec fn hex_val(b: u8) -> nat {
    if 0x30 <= b <= 0x39 {
        (b - 0x30) as nat
    } else if 0x61 <= b <= 0x66 {
        (b - 0x61 + 10) as nat
    } else if 0x41 <= b <= 0x46 {
        (b - 0x41 + 10) as nat
    } else {
        16
    }
}

pub open spec fn is_hex_digits(s: Seq<u8>) -> bool {
    forall|i: int| 0 <= i < s.len() ==> hex_val(#[trigger] s[i]) < 16
}

/// The value of a hex digit string, most significant first.
pub open spec fn hex_val_of(s: Seq<u8>) -> nat
    decreases s.len(),
{
    if s.len() == 0 {
        0
    } else {
        hex_val_of(s.drop_last()) * 16 + hex_val(s.last())
    }
}

/// Parses a hex digit string into a `u64`.
#[verifier::loop_isolation(false)]
pub fn parse_hex_u64(s: &[u8]) -> (r: Option<u64>)
    ensures
        match r {
            Some(v) => s@.len() > 0 && is_hex_digits(s@) && v as nat == hex_val_of(s@),
            None => s@.len() == 0 || !is_hex_digits(s@) || hex_val_of(s@) > u64::MAX,
        },
{
    if s.len() == 0 {
        return None;
    }
    let mut acc: u64 = 0;
    let n = s.len();
    let mut i: usize = 0;
    while i < n
        invariant
            0 <= i <= n,
            is_hex_digits(s@.subrange(0, i as int)),
            acc as nat == hex_val_of(s@.subrange(0, i as int)),
        decreases n - i,
    {
        let b = s[i];
        let d: u64 = if 0x30 <= b && b <= 0x39 {
            (b - 0x30) as u64
        } else if 0x61 <= b && b <= 0x66 {
            (b - 0x61 + 10) as u64
        } else if 0x41 <= b && b <= 0x46 {
            (b - 0x41 + 10) as u64
        } else {
            proof {
                assert(hex_val(s@[i as int]) == 16);
            }
            return None;
        };
        let ghost prefix = s@.subrange(0, i as int);
        proof {
            assert(s@.subrange(0, i + 1).drop_last() =~= prefix);
            assert(s@.subrange(0, i + 1).last() == b);
        }
        acc = match acc.checked_mul(16) {
            Some(m) => match m.checked_add(d) {
                Some(v) => v,
                None => {
                    proof {
                        lemma_hex_val_monotone(s@, i + 1);
                    }
                    return None;
                },
            },
            None => {
                proof {
                    lemma_hex_val_monotone(s@, i + 1);
                }
                return None;
            },
        };
        i += 1;
    }
    proof {
        assert(s@.subrange(0, n as int) =~= s@);
    }
    Some(acc)
}

proof fn lemma_hex_val_monotone(s: Seq<u8>, i: int)
    requires
        0 <= i <= s.len(),
    ensures
        hex_val_of(s) >= hex_val_of(s.subrange(0, i)),
    decreases s.len() - i,
{
    if i < s.len() {
        lemma_hex_val_monotone(s, i + 1);
        assert(s.subrange(0, i + 1).drop_last() =~= s.subrange(0, i));
        assert(hex_val_of(s.subrange(0, i + 1)) >= hex_val_of(s.subrange(0, i)));
    } else {
        assert(s.subrange(0, i) =~= s);
    }
}

/// One control-flow edge.
#[derive(Clone, Copy, PartialEq, Eq, Structural, Debug)]
pub struct Edge {
    pub from: u64,
    pub to: u64,
    pub kind: EdgeKind,
}

/// What kind of control transfer an edge is.
#[derive(Clone, Copy, PartialEq, Eq, Structural, Debug)]
pub enum EdgeKind {
    ComputedCall,
    ComputedCallTerminator,
    ComputedJump,
    ConditionalJump,
    FallThrough,
    Indirection,
    UnconditionalCall,
    UnconditionalJump,
    ConditionalCall,
}

impl EdgeKind {
    /// Whether the edge transfers into a function.
    pub fn is_call(&self) -> (r: bool)
        ensures
            r == (*self == EdgeKind::ComputedCall || *self == EdgeKind::ComputedCallTerminator
                || *self == EdgeKind::UnconditionalCall),
    {
        match self {
            EdgeKind::ComputedCall | EdgeKind::ComputedCallTerminator
                | EdgeKind::UnconditionalCall => true,
            _ => false,
        }
    }

    /// Whether the edge is taken only on some executions.
    pub fn is_conditional(&self) -> (r: bool)
        ensures
            r == (*self == EdgeKind::ConditionalJump || *self == EdgeKind::ConditionalCall || *self
                == EdgeKind::ComputedJump),
    {
        match self {
            EdgeKind::ConditionalJump | EdgeKind::ConditionalCall | EdgeKind::ComputedJump => true,
            _ => false,
        }
    }
}

/// One known function: its name, entry address, and the starting addresses
/// of its blocks.
pub struct Function {
    pub name: Vec<u8>,
    pub addr: u64,
    pub blocks: Vec<u64>,
}

impl Function {
    /// A fresh function with no blocks recorded yet.
    pub fn with_name(addr: u64, name: Vec<u8>) -> (r: Self)
        ensures
            r.addr == addr,
            r.name@ == name@,
            r.blocks@.len() == 0,
    {
        Function { name, addr, blocks: Vec::new() }
    }

    /// The function moved by a fixed offset, blocks included.
    #[verifier::loop_isolation(false)]
    pub fn offset(self, offset: u64) -> (r: Self)
        requires
            self.addr + offset <= u64::MAX,
            forall|i: int| 0 <= i < self.blocks@.len() ==> #[trigger] self.blocks@[i] + offset
                <= u64::MAX,
        ensures
            r.name@ == self.name@,
            r.addr == self.addr + offset,
            r.blocks@.len() == self.blocks@.len(),
            forall|i: int| 0 <= i < r.blocks@.len() ==> r.blocks@[i] == self.blocks@[i] + offset,
    {
        let mut blocks: Vec<u64> = Vec::new();
        let n = self.blocks.len();
        let mut i: usize = 0;
        while i < n
            invariant
                0 <= i <= n == self.blocks@.len(),
                blocks@.len() == i,
                forall|l: int| 0 <= l < i ==> blocks@[l] == self.blocks@[l] + offset,
            decreases n - i,
        {
            blocks.push(self.blocks[i] + offset);
            i += 1;
        }
        Function { name: self.name, addr: self.addr + offset, blocks }
    }
}

/// Whether a sorted block table is well formed: blocks are strictly
/// ordered by start and never overlap.
pub open spec fn blocks_wf(bs: Seq<Block>) -> bool {
    &&& forall|i: int| 0 <= i < bs.len() ==> (#[trigger] bs[i]).start <= bs[i].end
    &&& forall|i: int, j: int| 0 <= i < j < bs.len() ==> (#[trigger] bs[i]).end < (
    #[trigger] bs[j]).start
}

/// In a well-formed table, at most one block contains any address: every
/// block containing `addr` is `b` itself.
proof fn lemma_containing_unique(bs: Seq<Block>, addr: u64, b: Block)
    requires
        blocks_wf(bs),
        exists|i: int| 0 <= i < bs.len() && #[trigger] bs[i] == b,
        b.start <= addr <= b.end,
    ensures
        forall|j: int|
            0 <= j < bs.len() && (#[trigger] bs[j]).start <= addr <= bs[j].end ==> bs[j] == b,
{
    let i = choose|i: int| 0 <= i < bs.len() && #[trigger] bs[i] == b;
    assert forall|j: int|
        0 <= j < bs.len() && (#[trigger] bs[j]).start <= addr <= bs[j].end implies bs[j] == b by {
        if j < i {
            assert(bs[j].end < bs[i].start);
        } else if j > i {
            assert(bs[i].end < bs[j].start);
        }
    }
}

/// The block of a well-formed table that contains `addr`, if any.
pub open spec fn spec_containing(bs: Seq<Block>, addr: u64) -> Option<Block> {
    if exists|i: int| 0 <= i < bs.len() && (#[trigger] bs[i]).start <= addr <= bs[i].end {
        Some(bs[choose|i: int| 0 <= i < bs.len() && (#[trigger] bs[i]).start <= addr <= bs[i].end])
    } else {
        None
    }
}

/// Information about the structure of one binary.
pub struct BlockMap {
    pub blocks: Vec<Block>,
    pub functions: Vec<Function>,
    pub edges: Vec<Edge>,
}

impl BlockMap {
    /// Blocks are sorted and non-overlapping; functions are strictly
    /// sorted by entry address.
    pub open spec fn wf(&self) -> bool {
        &&& blocks_wf(self.blocks@)
        &&& forall|i: int, j: int|
            0 <= i < j < self.functions@.len() ==> (#[trigger] self.functions@[i]).addr < (
            #[trigger] self.functions@[j]).addr
    }

    pub fn new() -> (r: Self)
        ensures
            r.blocks@.len() == 0,
            r.functions@.len() == 0,
            r.edges@.len() == 0,
            r.wf(),
    {
        BlockMap { blocks: Vec::new(), functions: Vec::new(), edges: Vec::new() }
    }

    /// The total number of blocks in the binary.
    pub fn block_count(&self) -> (r: usize)
        ensures
            r == self.blocks@.len(),
    {
        self.blocks.len()
    }

    /// All blocks, in address order.
    pub fn blocks(&self) -> (r: &Vec<Block>)
        ensures
            r@ == self.blocks@,
    {
        &self.blocks
    }

    /// All control-flow edges.
    pub fn edges(&self) -> (r: &Vec<Edge>)
        ensures
            r@ == self.edges@,
    {
        &self.edges
    }

    /// Records one block at its sorted position; a block starting at an
    /// already-known address replaces the old one.  The new block must not
    /// overlap its neighbours for the table to stay well formed, so a
    /// block that would is dropped.
    #[verifier::loop_isolation(false)]
    pub fn insert_block(&mut self, b: Block)
        requires
            old(self).wf(),
            b.start <= b.end,
        ensures
            final(self).wf(),
            final(self).functions@ == old(self).functions@,
            final(self).edges@ == old(self).edges@,
    {
        let n = self.blocks.len();
        let mut i: usize = 0;
        while i < n
            invariant
                0 <= i <= n == self.blocks@.len(),
                forall|l: int| 0 <= l < i ==> (#[trigger] self.blocks@[l]).end < b.start,
                self.blocks@ == old(self).blocks@,
                self.functions@ == old(self).functions@,
                self.edges@ == old(self).edges@,
            decreases n - i,
        {
            if self.blocks[i].start == b.start && self.blocks[i].end == b.end {
                let ghost prev = self.blocks@;
                self.blocks[i] = b;
                proof {
                    assert forall|x: int, y: int|
                        0 <= x < y < self.blocks@.len() implies (#[trigger] self.blocks@[x]).end
                        < (#[trigger] self.blocks@[y]).start by {
                        assert(prev[x].end < prev[y].start);
                    }
                }
                return ;
            }
            if self.blocks[i].end >= b.start {
                return ;
            }
            i += 1;
        }
        if i < self.blocks.len() {
            return ;
        }
        self.blocks.push(b);
        proof {
            assert forall|x: int, y: int|
                0 <= x < y < self.blocks@.len() implies (#[trigger] self.blocks@[x]).end < (
            #[trigger] self.blocks@[y]).start by {
                if y < old(self).blocks@.len() {
                    assert(old(self).blocks@[x].end < old(self).blocks@[y].start);
                }
            }
        }
    }

    /// The block containing `addr`, if any.
    #[verifier::loop_isolation(false)]
    pub fn get_containing_block(&self, addr: u64) -> (r: Option<Block>)
        requires
            self.wf(),
        ensures
            match r {
                Some(b) => b.start <= addr <= b.end && exists|i: int|
                    0 <= i < self.blocks@.len() && #[trigger] self.blocks@[i] == b,
                None => forall|i: int|
                    0 <= i < self.blocks@.len() ==> !((#[trigger] self.blocks@[i]).start <= addr
                        <= self.blocks@[i].end),
            },
    {
        let n = self.blocks.len();
        let mut i: usize = 0;
        while i < n
            invariant
                0 <= i <= n == self.blocks@.len(),
                forall|l: int| 0 <= l < i ==> !((#[trigger] self.blocks@[l]).start <= addr
                    <= self.blocks@[l].end),
            decreases n - i,
        {
            let b = self.blocks[i];
            if b.start <= addr && addr <= b.end {
                return Some(b);
            }
            i += 1;
        }
        None
    }

    /// Whether `addr` is the start of a known block.
    pub fn is_valid_block(&self, addr: u64) -> (r: bool)
        requires
            self.wf(),
        ensures
            r ==> exists|i: int|
                0 <= i < self.blocks@.len() && (#[trigger] self.blocks@[i]).start == addr,
            !r ==> forall|i: int|
                0 <= i < self.blocks@.len() ==> !((#[trigger] self.blocks@[i]).start <= addr
                    <= self.blocks@[i].end && self.blocks@[i].start == addr),
    {
        match self.get_containing_block(addr) {
            Some(b) => b.start == addr,
            None => false,
        }
    }

    /// The function with entry address `addr`, if known.
    #[verifier::loop_isolation(false)]
    pub fn get_function(&self, addr: u64) -> (r: Option<&Function>)
        ensures
            match r {
                Some(f) => f.addr == addr && exists|i: int|
                    0 <= i < self.functions@.len() && #[trigger] self.functions@[i] == *f,
                None => forall|i: int|
                    0 <= i < self.functions@.len() ==> (#[trigger] self.functions@[i]).addr
                        != addr,
            },
    {
        let n = self.functions.len();
        let mut i: usize = 0;
        while i < n
            invariant
                0 <= i <= n == self.functions@.len(),
                forall|l: int| 0 <= l < i ==> (#[trigger] self.functions@[l]).addr != addr,
            decreases n - i,
        {
            if self.functions[i].addr == addr {
                return Some(&self.functions[i]);
            }
            i += 1;
        }
        None
    }

    /// The function containing `addr`: the owner of the block that
    /// contains `addr`.  None exactly when no block contains `addr`, the
    /// containing block names no function, or the named function is not in
    /// the table.
    pub fn get_containing_function(&self, addr: u64) -> (r: Option<&Function>)
        requires
            self.wf(),
        ensures
            match r {
                Some(f) => exists|bi: int|
                    0 <= bi < self.blocks@.len() && (#[trigger] self.blocks@[bi]).start <= addr
                        <= self.blocks@[bi].end && self.blocks@[bi].function == Some(f.addr)
                        && exists|fi: int|
                        0 <= fi < self.functions@.len() && #[trigger] self.functions@[fi] == *f,
                None => forall|bi: int|
                    0 <= bi < self.blocks@.len() && (#[trigger] self.blocks@[bi]).start <= addr
                        <= self.blocks@[bi].end ==> match self.blocks@[bi].function {
                        Some(fa) => forall|fi: int|
                            0 <= fi < self.functions@.len() ==> (
                            #[trigger] self.functions@[fi]).addr != fa,
                        None => true,
                    },
            },
    {
        let b = match self.get_containing_block(addr) {
            Some(b) => b,
            None => {
                return None;
            },
        };
        proof {
            lemma_containing_unique(self.blocks@, addr, b);
        }
        let faddr = match b.function {
            Some(f) => f,
            None => {
                return None;
            },
        };
        self.get_function(faddr)
    }

    /// The first function carrying `name`, if any.
    #[verifier::loop_isolation(false)]
    pub fn find_function_by_name(&self, name: &[u8]) -> (r: Option<&Function>)
        ensures
            match r {
                Some(f) => f.name@ == name@,
                None => forall|i: int|
                    0 <= i < self.functions@.len() ==> (#[trigger] self.functions@[i]).name@
                        != name@,
            },
    {
        let n = self.functions.len();
        let mut i: usize = 0;
        while i < n
            invariant
                0 <= i <= n == self.functions@.len(),
                forall|l: int| 0 <= l < i ==> (#[trigger] self.functions@[l]).name@ != name@,
            decreases n - i,
        {
            if bytes_eq(self.functions[i].name.as_slice(), name) {
                return Some(&self.functions[i]);
            }
            i += 1;
        }
        None
    }

    /// The blocks always executed from `addr` on: the block containing
    /// `addr`, then repeatedly the block containing the previous block's
    /// fallthrough address, stopping at a block without one or at an
    /// unmapped address, and after at most `fuel` steps so a cyclic chain
    /// terminates.
    pub fn get_reachable_blocks(&self, addr: u64, fuel: usize) -> (r: Vec<Block>)
        requires
            self.wf(),
        ensures
            forall|l: int|
                0 <= l < r@.len() ==> exists|bi: int|
                    0 <= bi < self.blocks@.len() && #[trigger] self.blocks@[bi] == #[trigger] r@[l],
            r@.len() > 0 ==> r@[0].start <= addr <= r@[0].end,
            forall|l: int|
                0 <= l < r@.len() - 1 ==> ((#[trigger] r@[l]).fallthrough matches Some(next)
                    && r@[l + 1].start <= next <= r@[l + 1].end),
    {
        let mut out: Vec<Block> = Vec::new();
        let mut next: Option<u64> = Some(addr);
        let mut remaining = fuel;
        #[verifier::loop_isolation(false)]
        while remaining > 0
            invariant
                forall|l: int|
                    0 <= l < out@.len() ==> exists|bi: int|
                        0 <= bi < self.blocks@.len() && #[trigger] self.blocks@[bi] == #[trigger] out@[l],
                out@.len() > 0 ==> out@[0].start <= addr <= out@[0].end,
                forall|l: int|
                    0 <= l < out@.len() - 1 ==> ((#[trigger] out@[l]).fallthrough matches Some(a2)
                        && out@[l + 1].start <= a2 <= out@[l + 1].end),
                out@.len() == 0 && next is Some ==> next == Some(addr),
                out@.len() > 0 && next is Some ==> out@.last().fallthrough == next,
                next is None ==> out@.len() == 0,
            decreases remaining,
        {
            remaining -= 1;
            let a = match next {
                Some(a) => a,
                None => {
                    break ;
                },
            };
            let b = match self.get_containing_block(a) {
                Some(b) => b,
                None => {
                    break ;
                },
            };
            next = b.fallthrough;
            out.push(b);
            if next.is_none() {
                break ;
            }
        }
        out
    }

    /// A human-readable name for a block: the containing function's name
    /// plus the hex offset into it, or the bare hex address when nothing
    /// contains it.
    pub fn get_block_name(&self, addr: u64) -> (r: Vec<u8>)
        requires
            self.wf(),
    {
        let hx: [u8; 2] = [0x30, 0x78];
        let block = match self.get_containing_block(addr) {
            Some(b) => b,
            None => {
                let mut out: Vec<u8> = Vec::new();
                out.extend_from_slice(hx.as_slice());
                let mut h = u64_hex(addr);
                out.append(&mut h);
                return out;
            },
        };
        let function = match self.get_containing_function(addr) {
            Some(f) => f,
            None => {
                let mut out: Vec<u8> = Vec::new();
                out.extend_from_slice(hx.as_slice());
                let mut h = u64_hex(addr);
                out.append(&mut h);
                return out;
            },
        };
        let mut out: Vec<u8> = Vec::new();
        out.extend_from_slice(function.name.as_slice());
        if block.start != function.addr && block.start >= function.addr {
            out.push(0x2b);
            out.extend_from_slice(hx.as_slice());
            let mut h = u64_hex(block.start - function.addr);
            out.append(&mut h);
        }
        out
    }

    /// The whole map moved by a fixed offset.
    #[verifier::loop_isolation(false)]
    pub fn relocate(self, offset: u64) -> (r: Self)
        requires
            self.wf(),
            forall|i: int|
                0 <= i < self.blocks@.len() ==> (#[trigger] self.blocks@[i]).end + offset
                    <= u64::MAX && (self.blocks@[i].fallthrough matches Some(f) ==> f + offset
                    <= u64::MAX) && (self.blocks@[i].function matches Some(f) ==> f + offset
                    <= u64::MAX),
            forall|i: int|
                0 <= i < self.functions@.len() ==> (#[trigger] self.functions@[i]).addr + offset
                    <= u64::MAX && forall|j: int|
                    0 <= j < self.functions@[i].blocks@.len()
                        ==> #[trigger] self.functions@[i].blocks@[j] + offset <= u64::MAX,
            forall|i: int|
                0 <= i < self.edges@.len() ==> (#[trigger] self.edges@[i]).from + offset
                    <= u64::MAX && self.edges@[i].to + offset <= u64::MAX,
        ensures
            r.wf(),
            r.blocks@.len() == self.blocks@.len(),
            forall|i: int|
                0 <= i < r.blocks@.len() ==> (#[trigger] r.blocks@[i]).start == self.blocks@[i].start
                    + offset && r.blocks@[i].end == self.blocks@[i].end + offset
                    && r.blocks@[i].fallthrough == (match self.blocks@[i].fallthrough {
                    Some(f) => Some((f + offset) as u64),
                    None => None::<u64>,
                }) && r.blocks@[i].function == (match self.blocks@[i].function {
                    Some(f) => Some((f + offset) as u64),
                    None => None::<u64>,
                }),
            r.functions@.len() == self.functions@.len(),
            forall|i: int|
                0 <= i < r.functions@.len() ==> (#[trigger] r.functions@[i]).name@
                    == self.functions@[i].name@ && r.functions@[i].addr == self.functions@[i].addr
                    + offset && r.functions@[i].blocks@.len() == self.functions@[i].blocks@.len()
                    && (forall|j: int|
                    0 <= j < r.functions@[i].blocks@.len() ==> #[trigger] r.functions@[i].blocks@[j]
                        == self.functions@[i].blocks@[j] + offset),
            r.edges@.len() == self.edges@.len(),
            forall|i: int|
                0 <= i < r.edges@.len() ==> (#[trigger] r.edges@[i]).from == self.edges@[i].from
                    + offset && r.edges@[i].to == self.edges@[i].to + offset && r.edges@[i].kind
                    == self.edges@[i].kind,
    {
        let mut blocks: Vec<Block> = Vec::new();
        let nb = self.blocks.len();
        let mut i: usize = 0;
        while i < nb
            invariant
                0 <= i <= nb == self.blocks@.len(),
                blocks@.len() == i,
                forall|l: int|
                    0 <= l < i ==> (#[trigger] blocks@[l]).start == self.blocks@[l].start + offset
                        && blocks@[l].end == self.blocks@[l].end + offset && blocks@[l].fallthrough
                        == (match self.blocks@[l].fallthrough {
                        Some(f) => Some((f + offset) as u64),
                        None => None::<u64>,
                    }) && blocks@[l].function == (match self.blocks@[l].function {
                        Some(f) => Some((f + offset) as u64),
                        None => None::<u64>,
                    }),
            decreases nb - i,
        {
            blocks.push(self.blocks[i].offset(offset));
            i += 1;
        }
        let mut functions: Vec<Function> = Vec::new();
        let nf = self.functions.len();
        let mut rest = self.functions;
        while rest.len() > 0
            invariant
                functions@.len() + rest@.len() == nf == self.functions@.len(),
                forall|l: int|
                    0 <= l < functions@.len() ==> (#[trigger] functions@[l]).name@
                        == self.functions@[l].name@ && functions@[l].addr == self.functions@[l].addr
                        + offset && functions@[l].blocks@.len()
                        == self.functions@[l].blocks@.len() && (forall|j: int|
                        0 <= j < functions@[l].blocks@.len()
                            ==> #[trigger] functions@[l].blocks@[j] == self.functions@[l].blocks@[j]
                            + offset),
                forall|l: int|
                    0 <= l < rest@.len() ==> rest@[l] == self.functions@[functions@.len() + l],
            decreases rest@.len(),
        {
            let f = rest.remove(0);
            functions.push(f.offset(offset));
            proof {
                assert(forall|l: int|
                    0 <= l < rest@.len() ==> rest@[l] == self.functions@[functions@.len() + l]);
            }
        }
        let mut edges: Vec<Edge> = Vec::new();
        let ne = self.edges.len();
        let mut i: usize = 0;
        while i < ne
            invariant
                0 <= i <= ne == self.edges@.len(),
                edges@.len() == i,
                forall|l: int|
                    0 <= l < i ==> (#[trigger] edges@[l]).from == self.edges@[l].from + offset
                        && edges@[l].to == self.edges@[l].to + offset && edges@[l].kind
                        == self.edges@[l].kind,
            decreases ne - i,
        {
            let e = self.edges[i];
            edges.push(Edge { from: e.from + offset, to: e.to + offset, kind: e.kind });
            i += 1;
        }
        proof {
            assert forall|x: int, y: int|
                0 <= x < y < blocks@.len() implies (#[trigger] blocks@[x]).end < (
            #[trigger] blocks@[y]).start by {
                assert(self.blocks@[x].end < self.blocks@[y].start);
            }
            assert forall|x: int, y: int|
                0 <= x < y < functions@.len() implies (#[trigger] functions@[x]).addr < (
            #[trigger] functions@[y]).addr by {
                assert(self.functions@[x].addr < self.functions@[y].addr);
            }
        }
        BlockMap { blocks, functions, edges }
    }
}

/// The lower-case hex digits of `v`, most significant first, no leading
/// zeros.
pub open spec fn hex_digits_of(v: nat) -> Seq<u8>
    decreases v,
{
    if v < 16 {
        seq![crate::image::hex_digit(v as u8)]
    } else {
        hex_digits_of(v / 16).push(crate::image::hex_digit((v % 16) as u8))
    }
}

/// Renders `v` in lower-case hex without leading zeros.
pub fn u64_hex(v: u64) -> (r: Vec<u8>)
    ensures
        r@ == hex_digits_of(v as nat),
    decreases v,
{
    if v < 16 {
        let d = v as u8;
        let mut out: Vec<u8> = Vec::new();
        out.push(
            if d < 10 {
                0x30 + d
            } else {
                0x61 + (d - 10)
            },
        );
        proof {
            assert(out@ =~= hex_digits_of(v as nat));
        }
        out
    } else {
        let mut out = u64_hex(v / 16);
        let d = (v % 16) as u8;
        out.push(
            if d < 10 {
                0x30 + d
            } else {
                0x61 + (d - 10)
            },
        );
        out
    }
}

/// Parses one `start end [fallthrough]` line of whitespace-separated hex
/// numbers into a block.
pub fn parse_block_line(line: &[u8]) -> (r: Option<Block>)
    ensures
        r matches Some(b) ==> b.function is None,
{
    let fields = split_whitespace(line);
    if fields.len() < 2 {
        return None;
    }
    let start = match parse_hex_u64(fields[0].as_slice()) {
        Some(v) => v,
        None => {
            return None;
        },
    };
    let end = match parse_hex_u64(fields[1].as_slice()) {
        Some(v) => v,
        None => {
            return None;
        },
    };
    let fallthrough = if fields.len() >= 3 {
        match parse_hex_u64(fields[2].as_slice()) {
            Some(v) => Some(v),
            None => {
                return None;
            },
        }
    } else {
        None
    };
    Some(Block { start, end, fallthrough, function: None })
}

/// Splits a line into non-empty whitespace-separated words.
pub fn split_whitespace(line: &[u8]) -> (r: Vec<Vec<u8>>)
{
    let mut out: Vec<Vec<u8>> = Vec::new();
    let mut cur: Vec<u8> = Vec::new();
    let n = line.len();
    let mut i: usize = 0;
    while i < n
        invariant
            0 <= i <= n == line@.len(),
        decreases n - i,
    {
        let b = line[i];
        if b == 0x20 || b == 0x09 || b == 0x0d || b == 0x0a {
            if cur.len() > 0 {
                out.push(cur);
                cur = Vec::new();
            }
        } else {
            cur.push(b);
        }
        i += 1;
    }
    if cur.len() > 0 {
        out.push(cur);
    }
    out
}

/// Parses a block-map text: one `start end [fallthrough]` line per block,
/// blank lines and `#` comments skipped; malformed lines fail the parse.
/// Returns a well-formed map; a parsed block that would overlap an earlier
/// one is dropped.
pub fn parse_block_map(data: &[u8]) -> (r: Option<BlockMap>)
    ensures
        r matches Some(m) ==> m.wf(),
{
    let lines = crate::afl::split_lines(data);
    let mut map = BlockMap::new();
    let n = lines.len();
    let mut i: usize = 0;
    #[verifier::loop_isolation(false)]
    while i < n
        invariant
            0 <= i <= n == lines@.len(),
            map.wf(),
        decreases n - i,
    {
        let line = crate::afl::trim_bytes(lines[i].as_slice());
        if line.len() == 0 || line[0] == 0x23 {
            i += 1;
            continue ;
        }
        let b = match parse_block_line(line.as_slice()) {
            Some(b) => b,
            None => {
                return None;
            },
        };
        if b.start <= b.end {
            map.insert_block(b);
        }
        i += 1;
    }
    Some(map)
}

/// The configured sources of block maps: one path per binary name.
pub struct MetadataSource {
    pub block_maps: Vec<(Vec<u8>, Vec<u8>)>,
}

/// The metadata of a campaign: one block map per distinct binary, and the
/// mapping from binary name to its map.
pub struct Metadata {
    pub block_maps: Vec<BlockMap>,
    pub binary_mapping: Vec<(Vec<u8>, usize)>,
}

impl Metadata {
    /// Every mapping entry points into the map table.
    pub open spec fn wf(&self) -> bool {
        forall|i: int|
            0 <= i < self.binary_mapping@.len() ==> (#[trigger] self.binary_mapping@[i]).1
                < self.block_maps@.len()
    }

    /// Builds the metadata from parsed maps named by the binaries that use
    /// them.
    #[verifier::loop_isolation(false)]
    pub fn from_source(entries: Vec<(Vec<u8>, BlockMap)>) -> (r: Self)
        ensures
            r.wf(),
            r.block_maps@.len() == entries@.len(),
            r.binary_mapping@.len() == entries@.len(),
    {
        let mut block_maps: Vec<BlockMap> = Vec::new();
        let mut binary_mapping: Vec<(Vec<u8>, usize)> = Vec::new();
        let ghost total = entries@.len();
        let mut rest = entries;
        while rest.len() > 0
            invariant
                block_maps@.len() == binary_mapping@.len(),
                block_maps@.len() + rest@.len() == total,
                forall|i: int|
                    0 <= i < binary_mapping@.len() ==> (#[trigger] binary_mapping@[i]).1
                        < block_maps@.len(),
            decreases rest@.len(),
        {
            let (name, bm) = rest.remove(0);
            let idx = block_maps.len();
            block_maps.push(bm);
            binary_mapping.push((name, idx));
        }
        Metadata { block_maps, binary_mapping }
    }

    /// The block map of `binary`, if one was configured.
    #[verifier::loop_isolation(false)]
    pub fn get_block_map_for(&self, binary: &[u8]) -> (r: Option<&BlockMap>)
        requires
            self.wf(),
    {
        let n = self.binary_mapping.len();
        let mut i: usize = 0;
        while i < n
            invariant
                0 <= i <= n == self.binary_mapping@.len(),
            decreases n - i,
        {
            if bytes_eq(self.binary_mapping[i].0.as_slice(), binary) {
                let idx = self.binary_mapping[i].1;
                return Some(&self.block_maps[idx]);
            }
            i += 1;
        }
        None
    }
}

} // verus!
