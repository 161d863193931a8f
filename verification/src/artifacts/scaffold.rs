//! TypeScript stubs for the witnesses of a contract.

use vstd::prelude::*;

use super::contract_info;
use super::contract_info::{ts_type, Argument, ContractInfo, Witness};
use crate::text::join;
use crate::text;

verus! {

broadcast use vstd::string::group_string_axioms;

/// The names of the parameters, each with the suffix that the compiler gives it.
pub open spec fn parameter_names(args: Seq<Argument>) -> Seq<Seq<char>> {
    Seq::new(args.len(), |i: int| args[i].name@ + "_0"@)
}

/// The parameters with their TypeScript types.
pub open spec fn typed_parameters(args: Seq<Argument>) -> Seq<Seq<char>> {
    Seq::new(
        args.len(),
        |i: int| args[i].name@ + "_0: "@ + contract_info::typescript(args[i].ty),
    )
}

/// Parameters that follow the context: each behind a comma.
pub open spec fn following(params: Seq<Seq<char>>) -> Seq<char> {
    if params.len() == 0 {
        seq![]
    } else {
        ", "@ + text::joined(params, ", "@)
    }
}

/// The stub of one witness: its signature as a comment, and a body that throws.
pub open spec fn witness_stub(w: Witness) -> Seq<char> {
    "  // "@ + w.name@ + "(context: WitnessContext<Ledger, PrivateState>"@ + following(
        typed_parameters(w.arguments@),
    ) + "): [PrivateState, "@ + contract_info::typescript(w.result_type) + "]\n"@ + "  "@ + w.name@
        + "(context"@ + following(parameter_names(w.arguments@)) + ") {\n"@
        + "    throw new Error('witness `"@ + w.name@ + "` is not implemented');\n  },\n"@
}

/// The stubs of the first `n` witnesses.
pub open spec fn witness_stubs(ws: Seq<Witness>, n: int) -> Seq<char>
    decreases n,
{
    if n <= 0 {
        seq![]
    } else {
        witness_stubs(ws, n - 1) + witness_stub(ws[n - 1])
    }
}

/// What is said where a contract has no witness.
pub open spec fn no_witnesses_note() -> Seq<char> {
    "// No witnesses are referenced by any circuit in this contract.\n// Note: contract-info.json omits declared-but-unused witnesses;\n// run the `symbols` tool to see every declaration in the source.\n\n"@
}

/// A stub module that implements every witness of a contract.
pub open spec fn witness_module(info: ContractInfo) -> Seq<char> {
    "import type { Witnesses } from './contract/index.js';\n\n"@
        + "export type PrivateState = Record<string, never>;\n\n"@ + (if info.witnesses@.len() == 0 {
        no_witnesses_note()
    } else {
        seq![]
    }) + "export const witnesses: Witnesses<PrivateState> = {\n"@ + witness_stubs(
        info.witnesses@,
        info.witnesses@.len() as int,
    ) + "};\n"@
}

fn parameter_list(args: &Vec<Argument>, typed: bool) -> (r: String)
    ensures
        r@ == following(
            if typed {
                typed_parameters(args@)
            } else {
                parameter_names(args@)
            },
        ),
{
    let ghost wanted = if typed {
        typed_parameters(args@)
    } else {
        parameter_names(args@)
    };
    if args.len() == 0 {
        return String::new();
    }
    let mut params: Vec<String> = Vec::new();
    let mut i: usize = 0;
    while i < args.len()
        invariant
            i <= args.len(),
            params.len() == i,
            wanted == if typed {
                typed_parameters(args@)
            } else {
                parameter_names(args@)
            },
            forall|j: int| 0 <= j < i ==> (#[trigger] params@[j])@ == wanted[j],
        decreases args.len() - i,
    {
        let mut p = args[i].name.clone();
        if typed {
            p.append("_0: ");
            p.append(ts_type(&args[i].ty).as_str());
        } else {
            p.append("_0");
        }
        params.push(p);
        i = i + 1;
    }
    assert(text::views(params@) =~= wanted);
    let mut s = ", ".to_owned();
    s.append(join(&params, ", ").as_str());
    s
}

fn push_stub(s: &mut String, w: &Witness)
    ensures
        final(s)@ == old(s)@ + witness_stub(*w),
{
    let ghost start = s@;
    s.append("  // ");
    s.append(w.name.as_str());
    s.append("(context: WitnessContext<Ledger, PrivateState>");
    s.append(parameter_list(&w.arguments, true).as_str());
    s.append("): [PrivateState, ");
    s.append(ts_type(&w.result_type).as_str());
    s.append("]\n");
    s.append("  ");
    s.append(w.name.as_str());
    s.append("(context");
    s.append(parameter_list(&w.arguments, false).as_str());
    s.append(") {\n");
    s.append("    throw new Error('witness `");
    s.append(w.name.as_str());
    s.append("` is not implemented');\n  },\n");
    assert(s@ =~= start + witness_stub(*w));
}

/// A TypeScript module that implements every witness of a contract by a stub.
pub fn witnesses_ts(info: &ContractInfo) -> (r: String)
    ensures
        r@ == witness_module(*info),
{
    let mut s = "import type { Witnesses } from './contract/index.js';\n\n".to_owned();
    s.append("export type PrivateState = Record<string, never>;\n\n");
    if info.witnesses.len() == 0 {
        s.append(
            "// No witnesses are referenced by any circuit in this contract.\n// Note: contract-info.json omits declared-but-unused witnesses;\n// run the `symbols` tool to see every declaration in the source.\n\n",
        );
    }
    s.append("export const witnesses: Witnesses<PrivateState> = {\n");
    let ghost head = s@;
    let mut i: usize = 0;
    assert(head + witness_stubs(info.witnesses@, 0) =~= head);
    while i < info.witnesses.len()
        invariant
            i <= info.witnesses.len(),
            s@ == head + witness_stubs(info.witnesses@, i as int),
        decreases info.witnesses.len() - i,
    {
        let ghost done = witness_stubs(info.witnesses@, i as int);
        push_stub(&mut s, &info.witnesses[i]);
        assert(head + done + witness_stub(info.witnesses@[i as int]) =~= head + (done
            + witness_stub(info.witnesses@[i as int])));
        i = i + 1;
    }
    s.append("};\n");
    assert(s@ =~= witness_module(*info));
    s
}

// ---------------------------------------------------------------------------
// Laws
// ---------------------------------------------------------------------------

/// A stub shows the signature that the compiler gives the witness: behind the context every
/// parameter in its order, each with its own name and the TypeScript type of its own type, and
/// last the type of the result.
pub proof fn law_a_stub_shows_the_signature(w: Witness)
    ensures
        ({
            let typed = Seq::new(
                w.arguments@.len(),
                |i: int|
                    ", "@ + w.arguments@[i].name@ + "_0: "@ + contract_info::typescript(
                        w.arguments@[i].ty,
                    ),
            );
            let bare = Seq::new(
                w.arguments@.len(),
                |i: int| ", "@ + w.arguments@[i].name@ + "_0"@,
            );
            let comment = "  // "@ + w.name@ + "(context: WitnessContext<Ledger, PrivateState>"@
                + run_together(typed) + "): [PrivateState, "@ + contract_info::typescript(
                w.result_type,
            ) + "]\n"@;
            let body = "  "@ + w.name@ + "(context"@ + run_together(bare) + ") {\n"@
                + "    throw new Error('witness `"@ + w.name@
                + "` is not implemented');\n  },\n"@;
            witness_stub(w) == comment + body
        }),
{
    let n = w.arguments@.len();
    let typed = Seq::new(
        n,
        |i: int|
            ", "@ + w.arguments@[i].name@ + "_0: "@ + contract_info::typescript(
                w.arguments@[i].ty,
            ),
    );
    let bare = Seq::new(n, |i: int| ", "@ + w.arguments@[i].name@ + "_0"@);
    let tp = typed_parameters(w.arguments@);
    let np = parameter_names(w.arguments@);
    assert forall|i: int| 0 <= i < n implies typed[i] == ", "@ + #[trigger] tp[i] by {
        assert(typed[i] =~= ", "@ + tp[i]);
    }
    assert forall|i: int| 0 <= i < n implies bare[i] == ", "@ + #[trigger] np[i] by {
        assert(bare[i] =~= ", "@ + np[i]);
    }
    lemma_following(tp, typed);
    lemma_following(np, bare);
    let comment = "  // "@ + w.name@ + "(context: WitnessContext<Ledger, PrivateState>"@
        + run_together(typed) + "): [PrivateState, "@ + contract_info::typescript(w.result_type)
        + "]\n"@;
    let body = "  "@ + w.name@ + "(context"@ + run_together(bare) + ") {\n"@
        + "    throw new Error('witness `"@ + w.name@ + "` is not implemented');\n  },\n"@;
    assert(witness_stub(w) =~= comment + body);
}

/// The texts one directly after the other.
pub open spec fn run_together(parts: Seq<Seq<char>>) -> Seq<char>
    decreases parts.len(),
{
    if parts.len() == 0 {
        seq![]
    } else {
        run_together(parts.drop_last()) + parts.last()
    }
}

proof fn lemma_following(params: Seq<Seq<char>>, with: Seq<Seq<char>>)
    requires
        params.len() == with.len(),
        forall|i: int| 0 <= i < params.len() ==> with[i] == ", "@ + #[trigger] params[i],
    ensures
        following(params) == run_together(with),
    decreases params.len(),
{
    if params.len() == 1 {
        assert(with.drop_last() =~= Seq::<Seq<char>>::empty());
        assert(with[0] == ", "@ + params[0]);
        reveal_with_fuel(run_together, 2);
        assert(run_together(with) =~= with[0]);
    } else if params.len() > 1 {
        let p = params.drop_last();
        let w = with.drop_last();
        assert forall|i: int| 0 <= i < p.len() implies w[i] == ", "@ + #[trigger] p[i] by {
            assert(with[i] == ", "@ + params[i]);
        }
        lemma_following(p, w);
        assert(with[params.len() - 1] == ", "@ + params[params.len() - 1]);
        assert(following(params) =~= following(p) + (", "@ + params.last()));
    }
}

/// The module has a stub for every witness of the contract, in their order, between one head and
/// one end; where there is none it says so.
pub proof fn law_every_witness_has_a_stub(info: ContractInfo)
    ensures
        ({
            let head = "import type { Witnesses } from './contract/index.js';\n\n"@
                + "export type PrivateState = Record<string, never>;\n\n"@;
            let open = "export const witnesses: Witnesses<PrivateState> = {\n"@;
            let stubs = run_together(
                Seq::new(info.witnesses@.len(), |i: int| witness_stub(info.witnesses@[i])),
            );
            &&& info.witnesses@.len() > 0 ==> witness_module(info) == head + open + stubs
                + "};\n"@
            &&& info.witnesses@.len() == 0 ==> witness_module(info) == head
                + "// No witnesses are referenced by any circuit in this contract.\n// Note: contract-info.json omits declared-but-unused witnesses;\n// run the `symbols` tool to see every declaration in the source.\n\n"@
                + open + "};\n"@
        }),
{
    let n = info.witnesses@.len();
    let stubs = Seq::new(n, |i: int| witness_stub(info.witnesses@[i]));
    lemma_stubs(info.witnesses@, n as int, stubs);
    assert(stubs.take(n as int) =~= stubs);
    let head = "import type { Witnesses } from './contract/index.js';\n\n"@
        + "export type PrivateState = Record<string, never>;\n\n"@;
    let open = "export const witnesses: Witnesses<PrivateState> = {\n"@;
    if n > 0 {
        assert(witness_module(info) =~= head + open + run_together(stubs) + "};\n"@);
    } else {
        assert(witness_module(info) =~= head + no_witnesses_note() + open + "};\n"@);
    }
}

proof fn lemma_stubs(ws: Seq<Witness>, n: int, stubs: Seq<Seq<char>>)
    requires
        0 <= n <= ws.len(),
        stubs.len() == ws.len(),
        forall|i: int| 0 <= i < ws.len() ==> #[trigger] stubs[i] == witness_stub(ws[i]),
    ensures
        witness_stubs(ws, n) == run_together(stubs.take(n)),
    decreases n,
{
    if n > 0 {
        lemma_stubs(ws, n - 1, stubs);
        assert(stubs.take(n).drop_last() =~= stubs.take(n - 1));
        assert(stubs.take(n).last() == stubs[n - 1]);
    }
}

} // verus!
