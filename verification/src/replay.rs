use vstd::prelude::*;

use crate::command::ClippyDriverCommandParts;
use crate::text::fold_join;
use crate::text::lemma_fold_join_concat;
use crate::text::lemma_fold_join_single;

verus! {

/// The display form of an extracted invocation: the environment prefix and
/// the command line, joined by one space, ready to be copied into a
/// debugger or profiler invocation.
pub fn display_command(parts: &ClippyDriverCommandParts) -> (r: String)
    ensures
        r@ == parts.envs@ + " "@ + parts.exec_and_args@,
{
    let mut out = parts.envs.clone();
    out.append(" ");
    out.append(parts.exec_and_args.as_str());
    out
}

/// The profiled-execution form: the command line prefixed by a profiler
/// record invocation writing its output file under the toolchain project
/// root, with the user's passthrough arguments between, the whole prefixed
/// by the environment assignments, single-spaced throughout, ready to be
/// run as one shell command.
pub fn perf_invocation(parts: &ClippyDriverCommandParts, perf_args: &Vec<String>) -> (r: String)
    ensures
        r@ == parts.envs@ + " perf record -o "@ + parts.clippy_cwd@ + "/perf.data"@ + fold_join(
            perf_args.deep_view(),
        ) + " "@ + parts.exec_and_args@,
{
    let ghost av = perf_args.deep_view();
    let mut out = parts.envs.clone();
    out.append(" perf record -o ");
    out.append(parts.clippy_cwd.as_str());
    out.append("/perf.data");
    let n = perf_args.len();
    let mut k: usize = 0;
    proof {
        assert(av.len() == n);
        assert(av.take(0) =~= Seq::<Seq<char>>::empty());
        assert(out@ + fold_join(av.take(0)) =~= out@);
    }
    let ghost head = out@;
    while k < n
        invariant
            n == perf_args.len(),
            av == perf_args.deep_view(),
            av.len() == n,
            0 <= k <= n,
            out@ == head + fold_join(av.take(k as int)),
        decreases n - k,
    {
        out.append(" ");
        out.append(perf_args[k].as_str());
        proof {
            reveal_strlit(" ");
            assert(" "@ =~= seq![' ']);
            assert(av[k as int] == perf_args@[k as int]@);
            assert(av.take(k + 1) =~= av.take(k as int) + seq![av[k as int]]);
            lemma_fold_join_concat(av.take(k as int), seq![av[k as int]]);
            lemma_fold_join_single(av[k as int]);
            assert(out@ =~= head + fold_join(av.take(k + 1)));
        }
        k = k + 1;
    }
    proof {
        assert(av.take(n as int) =~= av);
    }
    out.append(" ");
    out.append(parts.exec_and_args.as_str());
    out
}

} // verus!
