//! How a detected package-manager binary is actually invoked: an ordered
//! table of candidate strategies, each probed cheaply before being trusted,
//! with a fixed fallback order when no probe succeeds.
use vstd::prelude::*;

use crate::text::str_eq;
use vstd::string::StringExecFns;

verus! {

/// One way of invoking the manager binary.
#[derive(Debug, Clone, Copy, PartialEq, Eq, Structural)]
pub enum ExecStrategy {
    Direct,
    Npx,
    NpmExec,
    LocalBin,
    Corepack,
    WinCmd,
    WinPowershell,
}

/// The candidate strategies for a binary, in probe order: the binary
/// itself; the JS-runner shim for pnpm; the package-runner exec form for
/// pnpm and yarn; the locally vendored binary; the universal shim; and, on
/// Windows hosts, the shell wrapper and the shell scripting engine.
pub open spec fn spec_strategy_candidates(cmd0: Seq<char>, windows: bool) -> Seq<ExecStrategy> {
    seq![ExecStrategy::Direct] + (if cmd0 == "pnpm"@ {
        seq![ExecStrategy::Npx]
    } else {
        Seq::empty()
    }) + (if cmd0 == "pnpm"@ || cmd0 == "yarn"@ {
        seq![ExecStrategy::NpmExec]
    } else {
        Seq::empty()
    }) + seq![ExecStrategy::LocalBin, ExecStrategy::Corepack] + (if windows {
        seq![ExecStrategy::WinCmd, ExecStrategy::WinPowershell]
    } else {
        Seq::empty()
    })
}

/// The ordered strategy candidates for one binary on one host.
pub fn strategy_candidates(cmd0: &str, windows: bool) -> (r: Vec<ExecStrategy>)
    ensures
        r@ == spec_strategy_candidates(cmd0@, windows),
{
    proof {
        reveal_strlit("pnpm");
        reveal_strlit("yarn");
    }
    let mut r: Vec<ExecStrategy> = Vec::new();
    r.push(ExecStrategy::Direct);
    let is_pnpm = str_eq(cmd0, "pnpm");
    let is_yarn = str_eq(cmd0, "yarn");
    if is_pnpm {
        r.push(ExecStrategy::Npx);
    }
    if is_pnpm || is_yarn {
        r.push(ExecStrategy::NpmExec);
    }
    r.push(ExecStrategy::LocalBin);
    r.push(ExecStrategy::Corepack);
    if windows {
        r.push(ExecStrategy::WinCmd);
        r.push(ExecStrategy::WinPowershell);
    }
    proof {
        assert(r@ =~= spec_strategy_candidates(cmd0@, windows));
    }
    r
}

/// The path of a locally vendored binary under the project root.
pub open spec fn spec_local_bin(root: Seq<char>, cmd0: Seq<char>) -> Seq<char> {
    root + "/node_modules/.bin/"@ + cmd0
}

/// Join command words with single spaces, for the shell scripting engine.
pub open spec fn spec_join_words(ws: Seq<Seq<char>>) -> Seq<char>
    decreases ws.len(),
{
    if ws.len() == 0 {
        Seq::empty()
    } else if ws.len() == 1 {
        ws[0]
    } else {
        spec_join_words(ws.subrange(0, ws.len() - 1)) + " "@ + ws[ws.len() - 1]
    }
}

/// The process invocation a strategy stands for, given the real command.
pub open spec fn spec_invocation(
    st: ExecStrategy,
    cmd: Seq<Seq<char>>,
    root: Seq<char>,
) -> Seq<Seq<char>> {
    match st {
        ExecStrategy::Direct => cmd,
        ExecStrategy::Npx => seq!["npx"@] + cmd,
        ExecStrategy::NpmExec => seq!["npm"@, "exec"@, cmd[0], "--"@] + cmd.subrange(
            1,
            cmd.len() as int,
        ),
        ExecStrategy::LocalBin => seq![spec_local_bin(root, cmd[0])] + cmd.subrange(
            1,
            cmd.len() as int,
        ),
        ExecStrategy::Corepack => seq!["corepack"@] + cmd,
        ExecStrategy::WinCmd => seq!["cmd"@, "/C"@] + cmd,
        ExecStrategy::WinPowershell => seq![
            "powershell"@,
            "-Command"@,
            "& "@ + spec_join_words(cmd),
        ],
    }
}

fn join_words(cmd: &Vec<String>) -> (r: String)
    ensures
        r@ == spec_join_words(cmd.deep_view()),
{
    let ghost cv = cmd.deep_view();
    let mut r = String::new();
    let mut i: usize = 0;
    proof {
        assert(cv.subrange(0, 0) =~= Seq::<Seq<char>>::empty());
    }
    while i < cmd.len()
        invariant
            cmd.len() == cv.len(),
            cv == cmd.deep_view(),
            i <= cv.len(),
            r@ == spec_join_words(cv.subrange(0, i as int)),
        decreases cv.len() - i,
    {
        let ghost pre = cv.subrange(0, i as int);
        let ghost cur = cv.subrange(0, i + 1);
        proof {
            assert(cur.subrange(0, cur.len() - 1) =~= pre);
            assert(cur[cur.len() - 1] == cv[i as int]);
            assert(cmd@[i as int].deep_view() =~= cmd@[i as int]@);
        }
        if i > 0 {
            r.append(" ");
        }
        r.append(cmd[i].as_str());
        proof {
            if i == 0 {
                assert(cur.len() == 1);
            }
        }
        i = i + 1;
    }
    proof {
        assert(cv.subrange(0, i as int) =~= cv);
    }
    r
}

fn clone_words(cmd: &Vec<String>) -> (r: Vec<String>)
    ensures
        r.deep_view() == cmd.deep_view(),
{
    let mut r: Vec<String> = Vec::new();
    let mut i: usize = 0;
    while i < cmd.len()
        invariant
            cmd.len() == cmd@.len(),
            i <= cmd@.len(),
            r@.len() == i,
            forall|j: int| 0 <= j < i ==> (#[trigger] r@[j])@ == cmd@[j]@,
        decreases cmd@.len() - i,
    {
        r.push(cmd[i].clone());
        i = i + 1;
    }
    proof {
        assert(r.deep_view() =~~= cmd.deep_view());
    }
    r
}

fn push_tail(out: &mut Vec<String>, cmd: &Vec<String>)
    requires
        cmd@.len() >= 1,
    ensures
        final(out).deep_view() == old(out).deep_view() + cmd.deep_view().subrange(
            1,
            cmd.deep_view().len() as int,
        ),
{
    let ghost o0 = out.deep_view();
    let ghost cv = cmd.deep_view();
    let mut i: usize = 1;
    proof {
        assert(out.deep_view() =~~= o0 + cv.subrange(1, 1));
    }
    while i < cmd.len()
        invariant
            cmd.len() == cv.len(),
            cv == cmd.deep_view(),
            1 <= i <= cv.len(),
            out.deep_view() == o0 + cv.subrange(1, i as int),
        decreases cv.len() - i,
    {
        let ghost ov = out.deep_view();
        out.push(cmd[i].clone());
        i = i + 1;
        proof {
            assert(cmd@[i - 1].deep_view() =~= cmd@[i - 1]@);
            assert(out.deep_view() =~~= ov.push(cv[i - 1]));
            assert(ov.push(cv[i - 1]) =~~= o0 + cv.subrange(1, i as int));
        }
    }
    proof {
        assert(cv.subrange(1, i as int) =~= cv.subrange(1, cv.len() as int));
    }
}

/// The argument vector a strategy runs for the real command.
pub fn build_invocation(st: ExecStrategy, cmd: &Vec<String>, root: &str) -> (r: Vec<String>)
    requires
        cmd@.len() >= 1,
    ensures
        r.deep_view() == spec_invocation(st, cmd.deep_view(), root@),
{
    proof {
        assert(cmd@[0].deep_view() =~= cmd@[0]@);
    }
    match st {
        ExecStrategy::Direct => {
            let r = clone_words(cmd);
            r
        },
        ExecStrategy::Npx => {
            let mut r: Vec<String> = Vec::new();
            r.push("npx".to_owned());
            let ghost h = r.deep_view();
            let tail = clone_words(cmd);
            let mut r = r;
            let ghost hv = r.deep_view();
            let mut i: usize = 0;
            while i < tail.len()
                invariant
                    tail.len() == tail@.len(),
                    tail.deep_view() == cmd.deep_view(),
                    i <= tail@.len(),
                    r.deep_view() == hv + tail.deep_view().subrange(0, i as int),
                decreases tail@.len() - i,
            {
                let ghost rv = r.deep_view();
                r.push(tail[i].clone());
                i = i + 1;
                proof {
                    assert(tail@[i - 1].deep_view() =~= tail@[i - 1]@);
                    assert(r.deep_view() =~~= rv.push(tail.deep_view()[i - 1]));
                    assert(rv.push(tail.deep_view()[i - 1]) =~~= hv + tail.deep_view().subrange(
                        0,
                        i as int,
                    ));
                }
            }
            proof {
                assert(tail.deep_view().subrange(0, i as int) =~= tail.deep_view());
                assert(r.deep_view() =~~= seq!["npx"@] + cmd.deep_view());
            }
            r
        },
        ExecStrategy::NpmExec => {
            let mut r: Vec<String> = Vec::new();
            r.push("npm".to_owned());
            r.push("exec".to_owned());
            r.push(cmd[0].clone());
            r.push("--".to_owned());
            push_tail(&mut r, cmd);
            proof {
                assert(r.deep_view() =~~= spec_invocation(st, cmd.deep_view(), root@));
            }
            r
        },
        ExecStrategy::LocalBin => {
            let mut p = root.to_owned();
            p.append("/node_modules/.bin/");
            p.append(cmd[0].as_str());
            let mut r: Vec<String> = Vec::new();
            r.push(p);
            push_tail(&mut r, cmd);
            proof {
                assert(r.deep_view() =~~= spec_invocation(st, cmd.deep_view(), root@));
            }
            r
        },
        ExecStrategy::Corepack => {
            let mut r: Vec<String> = Vec::new();
            r.push("corepack".to_owned());
            push_all(&mut r, cmd);
            proof {
                assert(r.deep_view() =~~= spec_invocation(st, cmd.deep_view(), root@));
            }
            r
        },
        ExecStrategy::WinCmd => {
            let mut r: Vec<String> = Vec::new();
            r.push("cmd".to_owned());
            r.push("/C".to_owned());
            push_all(&mut r, cmd);
            proof {
                assert(r.deep_view() =~~= spec_invocation(st, cmd.deep_view(), root@));
            }
            r
        },
        ExecStrategy::WinPowershell => {
            let joined = join_words(cmd);
            let mut arg = "& ".to_owned();
            arg.append(joined.as_str());
            let mut r: Vec<String> = Vec::new();
            r.push("powershell".to_owned());
            r.push("-Command".to_owned());
            r.push(arg);
            proof {
                assert(r.deep_view() =~~= spec_invocation(st, cmd.deep_view(), root@));
            }
            r
        },
    }
}

fn push_all(out: &mut Vec<String>, cmd: &Vec<String>)
    ensures
        final(out).deep_view() == old(out).deep_view() + cmd.deep_view(),
{
    let ghost o0 = out.deep_view();
    let ghost cv = cmd.deep_view();
    let mut i: usize = 0;
    proof {
        assert(out.deep_view() =~~= o0 + cv.subrange(0, 0));
    }
    while i < cmd.len()
        invariant
            cmd.len() == cv.len(),
            cv == cmd.deep_view(),
            i <= cv.len(),
            out.deep_view() == o0 + cv.subrange(0, i as int),
        decreases cv.len() - i,
    {
        let ghost ov = out.deep_view();
        out.push(cmd[i].clone());
        i = i + 1;
        proof {
            assert(cmd@[i - 1].deep_view() =~= cmd@[i - 1]@);
            assert(out.deep_view() =~~= ov.push(cv[i - 1]));
            assert(ov.push(cv[i - 1]) =~~= o0 + cv.subrange(0, i as int));
        }
    }
    proof {
        assert(cv.subrange(0, i as int) =~= cv);
    }
}

/// The probe invocation that validates a strategy: the strategy's own form
/// of asking the binary for its version.
pub fn probe_invocation(st: ExecStrategy, cmd0: &String, root: &str) -> (r: Vec<String>)
    ensures
        r.deep_view() == spec_invocation(st, seq![cmd0@, "--version"@], root@),
{
    let mut probe: Vec<String> = Vec::new();
    probe.push(cmd0.clone());
    probe.push("--version".to_owned());
    proof {
        assert(probe.deep_view() =~~= seq![cmd0@, "--version"@]);
    }
    build_invocation(st, &probe, root)
}

/// The first candidate whose probe succeeded, in candidate order.
pub fn select_strategy(candidates: &Vec<ExecStrategy>, probe_ok: &Vec<bool>) -> (r: Option<
    ExecStrategy,
>)
    requires
        candidates@.len() == probe_ok@.len(),
    ensures
        match r {
            Option::Some(st) => exists|i: int|
                0 <= i < candidates@.len() && candidates@[i] == st && probe_ok@[i] && forall|j: int|
                    0 <= j < i ==> !probe_ok@[j],
            Option::None => forall|j: int| 0 <= j < probe_ok@.len() ==> !probe_ok@[j],
        },
{
    let mut i: usize = 0;
    while i < candidates.len()
        invariant
            candidates@.len() == probe_ok@.len(),
            candidates.len() == candidates@.len(),
            i <= candidates@.len(),
            forall|j: int| 0 <= j < i ==> !probe_ok@[j],
        decreases candidates@.len() - i,
    {
        if probe_ok[i] {
            return Some(candidates[i]);
        }
        i = i + 1;
    }
    None
}

/// The fixed order of last-resort attempts when no probe succeeded: a
/// direct run, the pnpm shim, the exec form for pnpm and yarn, the shell
/// wrapper on Windows, and one final direct run so the caller always sees a
/// definitive status.
pub open spec fn spec_fallback_attempts(cmd0: Seq<char>, windows: bool) -> Seq<ExecStrategy> {
    seq![ExecStrategy::Direct] + (if cmd0 == "pnpm"@ {
        seq![ExecStrategy::Npx]
    } else {
        Seq::empty()
    }) + (if cmd0 == "pnpm"@ || cmd0 == "yarn"@ {
        seq![ExecStrategy::NpmExec]
    } else {
        Seq::empty()
    }) + (if windows {
        seq![ExecStrategy::WinCmd]
    } else {
        Seq::empty()
    }) + seq![ExecStrategy::Direct]
}

/// The ordered fallback attempts for one binary on one host.
pub fn fallback_attempts(cmd0: &str, windows: bool) -> (r: Vec<ExecStrategy>)
    ensures
        r@ == spec_fallback_attempts(cmd0@, windows),
{
    proof {
        reveal_strlit("pnpm");
        reveal_strlit("yarn");
    }
    let mut r: Vec<ExecStrategy> = Vec::new();
    r.push(ExecStrategy::Direct);
    let is_pnpm = str_eq(cmd0, "pnpm");
    let is_yarn = str_eq(cmd0, "yarn");
    if is_pnpm {
        r.push(ExecStrategy::Npx);
    }
    if is_pnpm || is_yarn {
        r.push(ExecStrategy::NpmExec);
    }
    if windows {
        r.push(ExecStrategy::WinCmd);
    }
    r.push(ExecStrategy::Direct);
    proof {
        assert(r@ =~= spec_fallback_attempts(cmd0@, windows));
    }
    r
}

} // verus!
