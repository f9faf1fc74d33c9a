//! Engine-wide laws.
//!
//! Each proof function here states one property of the engine as a whole
//! — over the same spec functions the exec contracts are written in, so
//! that what holds of the mathematics holds of every run.

use vstd::prelude::*;
use vstd::string::StringSliceAdditionalSpecFns;

use crate::delegates::DelegatesV;
use crate::engine::{
    count_skipped, filter_applicable, filter_recursive, filter_regular, lint_skipped, name_in,
    spec_entry_check, spec_ordered, spec_process, spec_run_lint, spec_walk_entries, ProcessV,
};
use crate::fsmodel::{node_view, EntryV, Node, NodeV};
use crate::delegates::{delegates_view, Delegates};
use crate::bytestr::{lex_le, seqs_view};
use crate::lints::{names_strictly_ascending, spec_registry, LintV, RecursiveCheck, RootType};
use crate::outcome::OutcomeV;

verus! {

proof fn lemma_process_all_pass(ls: Seq<LintV>, root: NodeV, d: DelegatesV)
    requires
        forall|i: int| 0 <= i < ls.len() ==> spec_run_lint(#[trigger] ls[i], root, d)
            == OutcomeV::Pass,
    ensures
        spec_process(ls, root, d) == (ProcessV {
            err: None,
            transcript: Seq::empty(),
            passed: ls.len() as int,
            warnings: 0,
            fatal: 0,
        }),
    decreases ls.len(),
{
    if ls.len() > 0 {
        lemma_process_all_pass(ls.drop_last(), root, d);
    }
}

/// Law: over a root that carries none of the defects the applicable
/// rules check for — every applicable lint's outcome is a pass — the run
/// succeeds: no execution failure, an empty transcript, and zero fatal
/// and warning tallies, with every applicable lint counted as passed.
pub proof fn lemma_clean_root_passes(root: NodeV, d: DelegatesV, rt: RootType, skip: Seq<Seq<u8>>)
    requires
        forall|i: int|
            0 <= i < spec_ordered(skip, rt).len() ==> spec_run_lint(
                #[trigger] spec_ordered(skip, rt)[i],
                root,
                d,
            ) == OutcomeV::Pass,
    ensures
        spec_process(spec_ordered(skip, rt), root, d) == (ProcessV {
            err: None,
            transcript: Seq::empty(),
            passed: spec_ordered(skip, rt).len() as int,
            warnings: 0,
            fatal: 0,
        }),
{
    lemma_process_all_pass(spec_ordered(skip, rt), root, d);
}

/// How many lints of `s` stand, by name, in the skip set.
pub open spec fn count_named(s: Seq<LintV>, skip: Seq<Seq<u8>>) -> int
    decreases s.len(),
{
    if s.len() == 0 {
        0
    } else {
        count_named(s.drop_last(), skip) + if name_in(skip, s.last().name) {
            1int
        } else {
            0int
        }
    }
}

/// How many lints of `s` are skipped only for their root-type
/// restriction, their name standing outside the skip set.
pub open spec fn count_mismatch_only(s: Seq<LintV>, skip: Seq<Seq<u8>>, rt: RootType) -> int
    decreases s.len(),
{
    if s.len() == 0 {
        0
    } else {
        count_mismatch_only(s.drop_last(), skip, rt) + if !name_in(skip, s.last().name) && (
        match s.last().root_type {
            Some(r) => r != rt,
            None => false,
        }) {
            1int
        } else {
            0int
        }
    }
}

proof fn lemma_count_split(s: Seq<LintV>, skip: Seq<Seq<u8>>, rt: RootType)
    ensures
        count_skipped(s, skip, rt) == count_named(s, skip) + count_mismatch_only(s, skip, rt),
    decreases s.len(),
{
    if s.len() > 0 {
        lemma_count_split(s.drop_last(), skip, rt);
    }
}

proof fn lemma_filter_applicable_not_skipped(s: Seq<LintV>, skip: Seq<Seq<u8>>, rt: RootType)
    ensures
        forall|i: int|
            0 <= i < filter_applicable(s, skip, rt).len() ==> !lint_skipped(
                #[trigger] filter_applicable(s, skip, rt)[i],
                skip,
                rt,
            ),
    decreases s.len(),
{
    if s.len() > 0 {
        lemma_filter_applicable_not_skipped(s.drop_last(), skip, rt);
        let fa = filter_applicable(s, skip, rt);
        let fp = filter_applicable(s.drop_last(), skip, rt);
        assert forall|i: int| 0 <= i < fa.len() implies !lint_skipped(
            #[trigger] fa[i],
            skip,
            rt,
        ) by {
            if i < fp.len() {
                assert(fa[i] == fp[i]);
            } else {
                assert(fa[i] == s.last());
            }
        }
    }
}

proof fn lemma_filter_shapes_keep(s: Seq<LintV>, skip: Seq<Seq<u8>>, rt: RootType)
    requires
        forall|i: int| 0 <= i < s.len() ==> !lint_skipped(#[trigger] s[i], skip, rt),
    ensures
        forall|i: int|
            0 <= i < filter_regular(s).len() ==> !lint_skipped(
                #[trigger] filter_regular(s)[i],
                skip,
                rt,
            ),
        forall|i: int|
            0 <= i < filter_recursive(s).len() ==> !lint_skipped(
                #[trigger] filter_recursive(s)[i],
                skip,
                rt,
            ),
    decreases s.len(),
{
    if s.len() > 0 {
        assert forall|i: int| 0 <= i < s.drop_last().len() implies !lint_skipped(
            #[trigger] s.drop_last()[i],
            skip,
            rt,
        ) by {
            assert(s.drop_last()[i] == s[i]);
        }
        lemma_filter_shapes_keep(s.drop_last(), skip, rt);
        assert(s.last() == s[s.len() - 1]);
        let fr = filter_regular(s);
        let frp = filter_regular(s.drop_last());
        assert forall|i: int| 0 <= i < fr.len() implies !lint_skipped(
            #[trigger] fr[i],
            skip,
            rt,
        ) by {
            if i < frp.len() {
                assert(fr[i] == frp[i]);
            } else {
                assert(fr[i] == s.last());
            }
        }
        let fc = filter_recursive(s);
        let fcp = filter_recursive(s.drop_last());
        assert forall|i: int| 0 <= i < fc.len() implies !lint_skipped(
            #[trigger] fc[i],
            skip,
            rt,
        ) by {
            if i < fcp.len() {
                assert(fc[i] == fcp[i]);
            } else {
                assert(fc[i] == s.last());
            }
        }
    }
}

/// Law: under a skip set, the skipped tally splits exactly into the
/// lints named in the set and the lints whose root-type restriction does
/// not match the scanned root type; and no lint that is skipped — by
/// name or by restriction — is among the executed lints at all.
pub proof fn lemma_skip_list(skip: Seq<Seq<u8>>, rt: RootType)
    ensures
        count_skipped(spec_registry(), skip, rt) == count_named(spec_registry(), skip)
            + count_mismatch_only(spec_registry(), skip, rt),
        forall|i: int|
            0 <= i < spec_ordered(skip, rt).len() ==> !lint_skipped(
                #[trigger] spec_ordered(skip, rt)[i],
                skip,
                rt,
            ),
{
    lemma_count_split(spec_registry(), skip, rt);
    lemma_filter_applicable_not_skipped(spec_registry(), skip, rt);
    let app = filter_applicable(spec_registry(), skip, rt);
    lemma_filter_shapes_keep(app, skip, rt);
    assert forall|i: int| 0 <= i < spec_ordered(skip, rt).len() implies !lint_skipped(
        #[trigger] spec_ordered(skip, rt)[i],
        skip,
        rt,
    ) by {
        if i < filter_regular(app).len() {
            assert(spec_ordered(skip, rt)[i] == filter_regular(app)[i]);
        } else {
            assert(spec_ordered(skip, rt)[i] == filter_recursive(app)[i - filter_regular(
                app,
            ).len()]);
        }
    }
}

/// Law: a lint restricted to one root type is skipped whenever the scan
/// targets the other root type, whatever the skip set holds, and is then
/// never among the executed lints.
pub proof fn lemma_root_type_filtering(l: LintV, skip: Seq<Seq<u8>>, rt: RootType)
    requires
        l.root_type is Some,
        l.root_type != Some(rt),
    ensures
        lint_skipped(l, skip, rt),
        forall|i: int| 0 <= i < spec_ordered(skip, rt).len() ==> #[trigger] spec_ordered(
            skip,
            rt,
        )[i] != l,
{
    lemma_skip_list(skip, rt);
}

/// Law: first failure wins.  When every entry before position `i` (in
/// walk order) passes a per-node check, with a clean subtree, and the
/// entry at `i` does not pass, the captured outcome of the whole walk is
/// exactly that entry's outcome — whatever stands after it, a second
/// violating node included.  A per-node lint therefore reports at most
/// one violation per run.
pub proof fn lemma_first_failure_wins(k: RecursiveCheck, es: Seq<EntryV>, dir: Seq<u8>, i: int)
    requires
        0 <= i < es.len(),
        forall|j: int| 0 <= j < i ==> spec_entry_check(k, dir, #[trigger] es[j]) is Pass,
        forall|j: int|
            0 <= j < i ==> (match (#[trigger] es[j]).node {
                NodeV::Directory { entries } => spec_walk_entries(
                    k,
                    entries,
                    dir + "/".spec_bytes() + es[j].name,
                ) is None,
                _ => true,
            }),
        !(spec_entry_check(k, dir, es[i]) is Pass),
    ensures
        spec_walk_entries(k, es, dir) == Some(spec_entry_check(k, dir, es[i])),
    decreases i,
{
    if i == 0 {
    } else {
        assert forall|j: int| 0 <= j < i - 1 implies spec_entry_check(
            k,
            dir,
            #[trigger] es.drop_first()[j],
        ) is Pass by {
            assert(es.drop_first()[j] == es[j + 1]);
        }
        assert forall|j: int| 0 <= j < i - 1 implies (match (#[trigger] es.drop_first()[j]).node {
            NodeV::Directory { entries } => spec_walk_entries(
                k,
                entries,
                dir + "/".spec_bytes() + es.drop_first()[j].name,
            ) is None,
            _ => true,
        }) by {
            assert(es.drop_first()[j] == es[j + 1]);
        }
        assert(es.drop_first()[i - 1] == es[i]);
        lemma_first_failure_wins(k, es.drop_first(), dir, i - 1);
    }
}

/// Law: determinism.  Two runs over byte-identical trees, with
/// byte-identical delegate results and arguments, yield the same merge
/// result — and therefore, through the engine's contracts, byte-identical
/// transcripts, tallies and verdicts.
pub proof fn lemma_deterministic(
    root1: Node,
    root2: Node,
    d1: Delegates,
    d2: Delegates,
    rt: RootType,
    skip1: Seq<Vec<u8>>,
    skip2: Seq<Vec<u8>>,
)
    requires
        node_view(root1) == node_view(root2),
        delegates_view(d1) == delegates_view(d2),
        seqs_view(skip1) == seqs_view(skip2),
    ensures
        spec_process(spec_ordered(seqs_view(skip1), rt), node_view(root1), delegates_view(d1))
            == spec_process(
            spec_ordered(seqs_view(skip2), rt),
            node_view(root2),
            delegates_view(d2),
        ),
        count_skipped(spec_registry(), seqs_view(skip1), rt) == count_skipped(
            spec_registry(),
            seqs_view(skip2),
            rt,
        ),
{
}


/// Byte-wise lexicographic order is transitive.
pub proof fn lemma_lex_le_trans(a: Seq<u8>, b: Seq<u8>, c: Seq<u8>)
    requires
        lex_le(a, b),
        lex_le(b, c),
    ensures
        lex_le(a, c),
    decreases a.len(),
{
    if a.len() > 0 {
        if a[0] == b[0] && b[0] == c[0] {
            lemma_lex_le_trans(a.drop_first(), b.drop_first(), c.drop_first());
        }
    }
}

/// Byte-wise lexicographic order is antisymmetric.
pub proof fn lemma_lex_le_antisym(a: Seq<u8>, b: Seq<u8>)
    requires
        lex_le(a, b),
        lex_le(b, a),
    ensures
        a == b,
    decreases a.len(),
{
    if a.len() == 0 {
        assert(b.len() == 0);
        assert(a =~= b);
    } else {
        assert(b.len() > 0);
        lemma_lex_le_antisym(a.drop_first(), b.drop_first());
        assert(a.drop_first().len() == b.drop_first().len());
        assert(a =~= b) by {
            assert(a.len() == b.len());
            assert(forall|k: int|
                1 <= k < a.len() ==> #[trigger] a[k] == a.drop_first()[k - 1] && b[k]
                    == b.drop_first()[k - 1]);
        }
    }
}

/// In a strictly ascending run of names, any earlier name stands
/// strictly below any later one.
proof fn lemma_ascending_pairwise(s: Seq<LintV>, i: int, j: int)
    requires
        names_strictly_ascending(s),
        0 <= i < j < s.len(),
    ensures
        lex_le(s[i].name, s[j].name),
        s[i].name != s[j].name,
    decreases j - i,
{
    if j > i + 1 {
        lemma_ascending_pairwise(s, i, j - 1);
        lemma_lex_le_trans(s[i].name, s[j - 1].name, s[j].name);
        if s[i].name == s[j].name {
            lemma_lex_le_antisym(s[i].name, s[j - 1].name);
        }
    }
}

/// Law: the registry invariant.  The registry's names are strictly
/// ascending in byte order, so registry order is the canonical name
/// order and every name is unique.
#[verifier::rlimit(100)]
pub proof fn lemma_registry_canonical_order()
    ensures
        names_strictly_ascending(spec_registry()),
{
    broadcast use vstd::string::is_ascii_spec_bytes;

    reveal(spec_registry);
    reveal_with_fuel(crate::bytestr::lex_le, 15);
    reveal_strlit("api-base-directories");
    reveal_strlit("baseimage-composefs");
    reveal_strlit("baseimage-root");
    reveal_strlit("bootc-kargs");
    reveal_strlit("buildah-injected");
    reveal_strlit("etc-usretc");
    reveal_strlit("kernel");
    reveal_strlit("nonempty-boot");
    reveal_strlit("sysusers");
    reveal_strlit("utf8");
    reveal_strlit("var-log");
    reveal_strlit("var-run");
    reveal_strlit("var-tmpfiles");
    assert(vstd::string::is_ascii("api-base-directories"));
    assert(vstd::string::is_ascii("baseimage-composefs"));
    assert(vstd::string::is_ascii("baseimage-root"));
    assert(vstd::string::is_ascii("bootc-kargs"));
    assert(vstd::string::is_ascii("buildah-injected"));
    assert(vstd::string::is_ascii("etc-usretc"));
    assert(vstd::string::is_ascii("kernel"));
    assert(vstd::string::is_ascii("nonempty-boot"));
    assert(vstd::string::is_ascii("sysusers"));
    assert(vstd::string::is_ascii("utf8"));
    assert(vstd::string::is_ascii("var-log"));
    assert(vstd::string::is_ascii("var-run"));
    assert(vstd::string::is_ascii("var-tmpfiles"));
    let s = spec_registry();
    assert(lex_le(s[0].name, s[1].name) && s[0].name != s[1].name);
    assert(lex_le(s[1].name, s[2].name) && s[1].name != s[2].name);
    assert(lex_le(s[2].name, s[3].name) && s[2].name != s[3].name);
    assert(lex_le(s[3].name, s[4].name) && s[3].name != s[4].name);
    assert(lex_le(s[4].name, s[5].name) && s[4].name != s[5].name);
    assert(lex_le(s[5].name, s[6].name) && s[5].name != s[6].name);
    assert(lex_le(s[6].name, s[7].name) && s[6].name != s[7].name);
    assert(lex_le(s[7].name, s[8].name) && s[7].name != s[8].name);
    assert(lex_le(s[8].name, s[9].name) && s[8].name != s[9].name);
    assert(lex_le(s[9].name, s[10].name) && s[9].name != s[10].name);
    assert(lex_le(s[10].name, s[11].name) && s[10].name != s[11].name);
    assert(lex_le(s[11].name, s[12].name) && s[11].name != s[12].name);
}

/// Law: lint names are unique across the registry.
pub proof fn lemma_registry_names_unique(i: int, j: int)
    requires
        0 <= i < j < spec_registry().len(),
    ensures
        spec_registry()[i].name != spec_registry()[j].name,
{
    lemma_registry_canonical_order();
    lemma_ascending_pairwise(spec_registry(), i, j);
}

} // verus!
