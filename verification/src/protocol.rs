//! Data model of the worker/agent RPC surface: commands, their outcomes,
//! directory entries, and shell-style command-line parsing.

use vstd::prelude::*;

verus! {

/// Where a subprocess stream is directed.
pub enum Stdio {
    Null,
    File(Vec<u8>),
    Inherit,
}

/// How a subprocess ended.
#[derive(Clone, Copy, PartialEq, Eq, Structural, Debug)]
pub enum ExitKind {
    Success,
    Exit(i32),
    Crash,
    Hang,
}

/// Captured result of a synchronously supervised subprocess.
pub struct RunOutput {
    pub exit: ExitKind,
    pub stdout: Vec<u8>,
    pub stderr: Vec<u8>,
}

/// Metadata of one file or directory on the guest.  Times are milliseconds
/// since the epoch.
pub struct DirEntry {
    pub path: Vec<u8>,
    pub is_file: bool,
    pub len: u64,
    pub modified_ms: u64,
}

/// A command to run in the guest: environment pairs, program, arguments,
/// stream redirections, an optional timeout and an optional working
/// directory.  The environment list is ordered; later pairs dominate.
pub struct RunCommand {
    pub vars: Vec<(Vec<u8>, Vec<u8>)>,
    pub program: Vec<u8>,
    pub args: Vec<Vec<u8>>,
    pub stdin: Stdio,
    pub stdout: Stdio,
    pub stderr: Stdio,
    pub timeout_ms: Option<u64>,
    pub current_dir: Option<Vec<u8>>,
}

impl RunCommand {
    pub fn new(program: Vec<u8>) -> (r: Self)
        ensures
            r.program@ == program@,
            r.args@.len() == 0,
            r.vars@.len() == 0,
            r.stdin is Null,
            r.stdout is Null,
            r.stderr is Null,
            r.timeout_ms is None,
            r.current_dir is None,
    {
        RunCommand {
            vars: Vec::new(),
            program,
            args: Vec::new(),
            stdin: Stdio::Null,
            stdout: Stdio::Null,
            stderr: Stdio::Null,
            timeout_ms: None,
            current_dir: None,
        }
    }

    pub fn args(self, args: Vec<Vec<u8>>) -> (r: Self)
        ensures
            r == (Self { args, ..self }),
    {
        Self { args, ..self }
    }

    pub fn vars(self, vars: Vec<(Vec<u8>, Vec<u8>)>) -> (r: Self)
        ensures
            r == (Self { vars, ..self }),
    {
        Self { vars, ..self }
    }

    pub fn stdin(self, stdin: Stdio) -> (r: Self)
        ensures
            r == (Self { stdin, ..self }),
    {
        Self { stdin, ..self }
    }

    pub fn stdout(self, stdout: Stdio) -> (r: Self)
        ensures
            r == (Self { stdout, ..self }),
    {
        Self { stdout, ..self }
    }

    pub fn stderr(self, stderr: Stdio) -> (r: Self)
        ensures
            r == (Self { stderr, ..self }),
    {
        Self { stderr, ..self }
    }

    pub fn current_dir(self, current_dir: Vec<u8>) -> (r: Self)
        ensures
            r == (Self { current_dir: Some(current_dir), ..self }),
    {
        Self { current_dir: Some(current_dir), ..self }
    }

    /// Builds a command from a shell-style string with optional leading
    /// `KEY=VALUE` pairs, as `split_command` splits it.
    pub fn from_cmd_string(cmd: &[u8]) -> (r: Option<Self>)
        ensures
            match r {
                Some(c) => {
                    match shell_words_of(cmd@) {
                        Some(ws) => {
                            let parts = spec_peel_vars(ws);
                            parts matches Some((vars, bin, args)) && pairs_view(c.vars@) == vars
                                && c.program@ == bin && vecs_view(c.args@) == args
                        },
                        None => false,
                    }
                },
                None => shell_words_of(cmd@) is None || spec_peel_vars(
                    shell_words_of(cmd@).unwrap(),
                ) is None,
            },
    {
        let (vars, bin, args) = match split_command(cmd) {
            Some(t) => t,
            None => {
                return None;
            },
        };
        Some(Self::new(bin).args(args).vars(vars))
    }
}

/// What `shlex`-style word splitting yields for `s`: the words, or nothing
/// when the input is erroneous (an unclosed quote or a trailing escape).
pub uninterp spec fn shell_words_of(s: Seq<u8>) -> Option<Seq<Seq<u8>>>;

pub use crate::vars::vecs_view;

pub use crate::vars::pairs_view;

/// Relies on shlex::bytes::split: POSIX-shell-style word splitting of a
/// byte string, returning None on erroneous input.  The result depends on
/// the input bytes alone.
#[verifier::external_body]
fn shell_split(input: &[u8]) -> (r: Option<Vec<Vec<u8>>>)
    ensures
        match r {
            Some(ws) => shell_words_of(input@) == Some(vecs_view(ws@)),
            None => shell_words_of(input@) is None,
        },
{
    shlex::bytes::split(input)
}

/// Index of the first `=` in `s`, if any.
pub open spec fn spec_eq_pos(s: Seq<u8>) -> Option<int> {
    crate::vars::find_from(s, 0x3d, 0)
}

/// Splits a token list into leading `KEY=VALUE` pairs, the program word, and
/// the remaining arguments.  None when no program word is left.
pub open spec fn spec_peel_vars(ws: Seq<Seq<u8>>) -> Option<
    (Seq<(Seq<u8>, Seq<u8>)>, Seq<u8>, Seq<Seq<u8>>),
>
    decreases ws.len(),
{
    if ws.len() == 0 {
        None
    } else {
        match spec_eq_pos(ws[0]) {
            Some(p) => {
                let pair = (ws[0].subrange(0, p), ws[0].subrange(p + 1, ws[0].len() as int));
                match spec_peel_vars(ws.drop_first()) {
                    Some((vars, bin, args)) => Some((seq![pair] + vars, bin, args)),
                    None => None,
                }
            },
            None => Some((Seq::empty(), ws[0], ws.drop_first())),
        }
    }
}

/// Splits a shell-like command string into leading `KEY=VALUE` environment
/// pairs, the program, and its arguments.
#[verifier::loop_isolation(false)]
pub fn split_command(input: &[u8]) -> (r: Option<(Vec<(Vec<u8>, Vec<u8>)>, Vec<u8>, Vec<Vec<u8>>)>)
    ensures
        match r {
            Some(t) => {
                match shell_words_of(input@) {
                    Some(ws) => spec_peel_vars(ws) == Some(
                        (pairs_view(t.0@), t.1@, vecs_view(t.2@)),
                    ),
                    None => false,
                }
            },
            None => shell_words_of(input@) is None || spec_peel_vars(
                shell_words_of(input@).unwrap(),
            ) is None,
    },
{
    let words = match shell_split(input) {
        Some(ws) => ws,
        None => {
            return None;
        },
    };
    let ghost all = vecs_view(words@);
    let mut vars: Vec<(Vec<u8>, Vec<u8>)> = Vec::new();
    let mut idx: usize = 0;
    let n = words.len();
    while idx < n
        invariant
            0 <= idx <= n == words@.len(),
            all == vecs_view(words@),
            forall|k: int| 0 <= k < idx ==> spec_eq_pos(#[trigger] all[k]) is Some,
            peeled_so_far(all, idx as int) == pairs_view(vars@),
        decreases n - idx,
    {
        let w = &words[idx];
        match crate::vars::find_byte_from(w.as_slice(), 0x3d, 0) {
            Some(p) => {
                proof {
                    crate::vars::lemma_find_from(w@, 0x3d, 0);
                    assert(all[idx as int] =~= w@);
                    assert(p < w@.len() && w@.len() == w.len());
                }
                let key = vstd::slice::slice_to_vec(
                    vstd::slice::slice_subrange(w.as_slice(), 0, p),
                );
                let val = vstd::slice::slice_to_vec(
                    vstd::slice::slice_subrange(w.as_slice(), p + 1, w.len()),
                );
                vars.push((key, val));
                proof {
                    assert(peeled_so_far(all, idx + 1) =~= pairs_view(vars@));
                }
            },
            None => {
                let bin = vstd::slice::slice_to_vec(words[idx].as_slice());
                let mut args: Vec<Vec<u8>> = Vec::new();
                proof {
                    assert(vecs_view(args@) =~= all.subrange(idx + 1, idx + 1));
                }
                let mut k = idx + 1;
                while k < n
                    invariant
                        idx + 1 <= k <= n == words@.len(),
                        all == vecs_view(words@),
                        vecs_view(args@) == all.subrange(idx + 1, k as int),
                    decreases n - k,
                {
                    let wk = vstd::slice::slice_to_vec(words[k].as_slice());
                    proof {
                        assert(wk@ == all[k as int]);
                    }
                    let ghost prev = args@;
                    args.push(wk);
                    proof {
                        assert(args@ == prev.push(wk));
                        assert(vecs_view(args@).len() == all.subrange(idx + 1, k + 1).len());
                        assert forall|t: int| 0 <= t < vecs_view(args@).len() implies vecs_view(
                            args@,
                        )[t] == all.subrange(idx + 1, k + 1)[t] by {
                            assert(vecs_view(args@)[t] == args@[t]@);
                            if t < prev.len() {
                                assert(args@[t] == prev[t]);
                                assert(vecs_view(prev)[t] == prev[t]@);
                            } else {
                                assert(args@[t] == wk);
                            }
                        }
                        assert(vecs_view(args@) =~= all.subrange(idx + 1, k + 1));
                    }
                    k += 1;
                }
                proof {
                    lemma_peel_vars_at(all, idx as int);
                    assert(vecs_view(args@) =~= all.subrange(idx + 1, all.len() as int));
                }
                return Some((vars, bin, args));
            },
        }
        idx += 1;
    }
    proof {
        lemma_peel_vars_none(all, 0);
        assert(all.subrange(0, all.len() as int) =~= all);
    }
    None
}

/// The environment pairs peeled from the first `i` tokens, all of which hold
/// an `=`.
pub open spec fn peeled_so_far(ws: Seq<Seq<u8>>, i: int) -> Seq<(Seq<u8>, Seq<u8>)>
    decreases i,
{
    if i <= 0 {
        Seq::empty()
    } else {
        peeled_so_far(ws, i - 1).push(
            (
                ws[i - 1].subrange(0, spec_eq_pos(ws[i - 1]).unwrap()),
                ws[i - 1].subrange(spec_eq_pos(ws[i - 1]).unwrap() + 1, ws[i - 1].len() as int),
            ),
        )
    }
}

proof fn lemma_peel_vars_at(ws: Seq<Seq<u8>>, i: int)
    requires
        0 <= i < ws.len(),
        forall|k: int| 0 <= k < i ==> spec_eq_pos(#[trigger] ws[k]) is Some,
        spec_eq_pos(ws[i]) is None,
    ensures
        spec_peel_vars(ws) == Some(
            (peeled_so_far(ws, i), ws[i], ws.subrange(i + 1, ws.len() as int)),
        ),
    decreases i,
{
    if i == 0 {
        assert(ws.drop_first() =~= ws.subrange(1, ws.len() as int));
        assert(peeled_so_far(ws, 0) =~= Seq::<(Seq<u8>, Seq<u8>)>::empty());
    } else {
        let tail = ws.drop_first();
        assert(forall|k: int| 0 <= k < i - 1 ==> #[trigger] tail[k] == ws[k + 1]);
        lemma_peel_vars_at(tail, i - 1);
        lemma_peeled_shift(ws, i);
        assert(tail.subrange(i, tail.len() as int) =~= ws.subrange(i + 1, ws.len() as int));
        let p = spec_eq_pos(ws[0]).unwrap();
        let pair = (ws[0].subrange(0, p), ws[0].subrange(p + 1, ws[0].len() as int));
        assert(seq![pair] + peeled_so_far(tail, i - 1) =~= peeled_so_far(ws, i));
    }
}

proof fn lemma_peeled_shift(ws: Seq<Seq<u8>>, i: int)
    requires
        1 <= i <= ws.len(),
        spec_eq_pos(ws[0]) is Some,
    ensures
        ({
            let p = spec_eq_pos(ws[0]).unwrap();
            let pair = (ws[0].subrange(0, p), ws[0].subrange(p + 1, ws[0].len() as int));
            seq![pair] + peeled_so_far(ws.drop_first(), i - 1) =~= peeled_so_far(ws, i)
        }),
    decreases i,
{
    let tail = ws.drop_first();
    let p0 = spec_eq_pos(ws[0]).unwrap();
    let pair0 = (ws[0].subrange(0, p0), ws[0].subrange(p0 + 1, ws[0].len() as int));
    if i == 1 {
        assert(peeled_so_far(tail, 0) =~= Seq::<(Seq<u8>, Seq<u8>)>::empty());
        assert(peeled_so_far(ws, 1) == peeled_so_far(ws, 0).push(pair0));
        assert(seq![pair0] + peeled_so_far(tail, 0) =~= peeled_so_far(ws, 1));
    } else {
        lemma_peeled_shift(ws, i - 1);
        assert(tail[i - 2] == ws[i - 1]);
        let p = spec_eq_pos(ws[0]).unwrap();
        let pair = (ws[0].subrange(0, p), ws[0].subrange(p + 1, ws[0].len() as int));
        let q = spec_eq_pos(ws[i - 1]).unwrap();
        let last = (
            ws[i - 1].subrange(0, q),
            ws[i - 1].subrange(q + 1, ws[i - 1].len() as int),
        );
        assert(peeled_so_far(tail, i - 1) == peeled_so_far(tail, i - 2).push(last));
        assert(peeled_so_far(ws, i) == peeled_so_far(ws, i - 1).push(last));
        assert(seq![pair] + peeled_so_far(tail, i - 2).push(last) =~= (seq![pair]
            + peeled_so_far(tail, i - 2)).push(last));
        assert(seq![pair] + peeled_so_far(tail, i - 1) =~= peeled_so_far(ws, i));
    }
}

proof fn lemma_peel_vars_none(ws: Seq<Seq<u8>>, i: int)
    requires
        0 <= i <= ws.len(),
        forall|k: int| 0 <= k < ws.len() ==> spec_eq_pos(#[trigger] ws[k]) is Some,
    ensures
        spec_peel_vars(ws.subrange(i, ws.len() as int)) is None,
    decreases ws.len() - i,
{
    let sub = ws.subrange(i, ws.len() as int);
    if i < ws.len() {
        lemma_peel_vars_none(ws, i + 1);
        assert(sub.drop_first() =~= ws.subrange(i + 1, ws.len() as int));
    }
}

} // verus!
