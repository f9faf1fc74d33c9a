//! The execution engine.
//!
//! Given a snapshot root, the delegate results, a root type, a skip set
//! and an output sink, the engine filters the registry, runs the
//! whole-tree rules, drives one shared traversal for all per-node rules
//! (first failure wins: a rule reports at most one violation per run),
//! merges the outcomes, tallies them, writes the transcript and computes
//! the verdict.

use vstd::prelude::*;
use vstd::string::StringSliceAdditionalSpecFns;

use crate::bytestr::{append_bytes, bytes_eq, copy_bytes, dec_digits, escape_bytes, format_usize, lit, seqs_view};
use crate::checks::{
    check_api_dirs, check_baseimage_root, check_boot, check_buildah_injected, check_composefs,
    check_kernel, check_parse_kargs, check_sysusers, check_usretc, check_utf8, check_var_run,
    check_var_tmpfiles, check_varlog, spec_check_api_dirs, spec_check_baseimage_root,
    spec_check_boot, spec_check_buildah_injected, spec_check_composefs, spec_check_kargs,
    spec_check_kernel, spec_check_sysusers, spec_check_usretc, spec_check_utf8,
    spec_check_var_run, spec_check_var_tmpfiles, spec_check_varlog,
};
use crate::delegates::{delegates_view, Delegates, DelegatesV};
use crate::fsmodel::{entries_view, lemma_entries_view, node_view, Entry, EntryV, Node, NodeV};
use crate::lints::{
    lint_view, lints, lints_view, spec_registry, Lint, LintFnTy, LintType, LintV, RecursiveCheck,
    RegularCheck, RootType, WarningDisposition,
};
use crate::outcome::{lint_ok, outcome_of, LintResult, OutcomeV, RuntimeError};

verus! {

/// Whether a name stands in the skip set.
pub open spec fn name_in(skip: Seq<Seq<u8>>, name: Seq<u8>) -> bool {
    exists|i: int| 0 <= i < skip.len() && skip[i] == name
}

/// A lint is skipped when its name stands in the skip set, or when it is
/// restricted to a root type other than the one under scan.
pub open spec fn lint_skipped(l: LintV, skip: Seq<Seq<u8>>, rt: RootType) -> bool {
    name_in(skip, l.name) || (match l.root_type {
        Some(r) => r != rt,
        None => false,
    })
}

/// How many lints of `s` are skipped.
pub open spec fn count_skipped(s: Seq<LintV>, skip: Seq<Seq<u8>>, rt: RootType) -> int
    decreases s.len(),
{
    if s.len() == 0 {
        0
    } else {
        count_skipped(s.drop_last(), skip, rt) + if lint_skipped(s.last(), skip, rt) {
            1int
        } else {
            0int
        }
    }
}

/// The lints of `s` that are not skipped, in order.
pub open spec fn filter_applicable(s: Seq<LintV>, skip: Seq<Seq<u8>>, rt: RootType) -> Seq<LintV>
    decreases s.len(),
{
    if s.len() == 0 {
        Seq::empty()
    } else {
        filter_applicable(s.drop_last(), skip, rt) + if lint_skipped(s.last(), skip, rt) {
            Seq::empty()
        } else {
            seq![s.last()]
        }
    }
}

/// The whole-tree lints of `s`, in order.
pub open spec fn filter_regular(s: Seq<LintV>) -> Seq<LintV>
    decreases s.len(),
{
    if s.len() == 0 {
        Seq::empty()
    } else {
        filter_regular(s.drop_last()) + if s.last().f is Regular {
            seq![s.last()]
        } else {
            Seq::empty()
        }
    }
}

/// The per-node lints of `s`, in order.
pub open spec fn filter_recursive(s: Seq<LintV>) -> Seq<LintV>
    decreases s.len(),
{
    if s.len() == 0 {
        Seq::empty()
    } else {
        filter_recursive(s.drop_last()) + if s.last().f is Recursive {
            seq![s.last()]
        } else {
            Seq::empty()
        }
    }
}

/// The applicable lints in the order their outcomes are merged:
/// whole-tree lints first, then per-node lints, each in canonical order.
pub open spec fn spec_ordered(skip: Seq<Seq<u8>>, rt: RootType) -> Seq<LintV> {
    let app = filter_applicable(spec_registry(), skip, rt);
    filter_regular(app) + filter_recursive(app)
}

/// The outcome of one whole-tree check.
#[verifier::opaque]
pub open spec fn spec_run_regular(k: RegularCheck, root: NodeV, d: DelegatesV) -> OutcomeV {
    match k {
        RegularCheck::VarRun => spec_check_var_run(root),
        RegularCheck::BuildahInjected => spec_check_buildah_injected(root),
        RegularCheck::EtcUsrEtc => spec_check_usretc(root),
        RegularCheck::Kargs => spec_check_kargs(d.kargs),
        RegularCheck::Kernel => spec_check_kernel(d.kernel),
        RegularCheck::ApiDirs => spec_check_api_dirs(root),
        RegularCheck::Composefs => spec_check_composefs(root, d.prepareroot, d.prepareroot_baseimage),
        RegularCheck::BaseimageRoot => spec_check_baseimage_root(root),
        RegularCheck::VarLog => spec_check_varlog(root),
        RegularCheck::VarTmpfiles => spec_check_var_tmpfiles(d.tmpfiles),
        RegularCheck::Sysusers => spec_check_sysusers(d.sysusers),
        RegularCheck::NonemptyBoot => spec_check_boot(root),
    }
}

fn run_regular(k: RegularCheck, root: &Node, d: &Delegates) -> (r: LintResult)
    ensures
        outcome_of(r) == spec_run_regular(k, node_view(*root), delegates_view(*d)),
{
    proof {
        reveal(spec_run_regular);
    }
    match k {
        RegularCheck::VarRun => check_var_run(root),
        RegularCheck::BuildahInjected => check_buildah_injected(root),
        RegularCheck::EtcUsrEtc => check_usretc(root),
        RegularCheck::Kargs => check_parse_kargs(&d.kargs),
        RegularCheck::Kernel => check_kernel(&d.kernel),
        RegularCheck::ApiDirs => check_api_dirs(root),
        RegularCheck::Composefs => check_composefs(root, d),
        RegularCheck::BaseimageRoot => check_baseimage_root(root),
        RegularCheck::VarLog => check_varlog(root),
        RegularCheck::VarTmpfiles => check_var_tmpfiles(&d.tmpfiles),
        RegularCheck::Sysusers => check_sysusers(&d.sysusers),
        RegularCheck::NonemptyBoot => check_boot(root),
    }
}

/// The outcome of one per-node check on one visited entry.
pub open spec fn spec_entry_check(k: RecursiveCheck, dir: Seq<u8>, e: EntryV) -> OutcomeV {
    match k {
        RecursiveCheck::Utf8 => spec_check_utf8(dir, e),
    }
}

fn run_entry_check(k: RecursiveCheck, dir: &Vec<u8>, e: &Entry) -> (r: LintResult)
    ensures
        outcome_of(r) == spec_entry_check(
            k,
            dir@,
            EntryV { name: e.name@, node: node_view(e.node) },
        ),
{
    match k {
        RecursiveCheck::Utf8 => check_utf8(dir, e),
    }
}

/// The captured outcome of a per-node check over a subtree: the outcome
/// at the first entry, in depth-first order, where the check does not
/// pass; `None` when it passes everywhere.
pub open spec fn spec_walk_entries(k: RecursiveCheck, es: Seq<EntryV>, dir: Seq<u8>) -> Option<
    OutcomeV,
>
    decreases es,
{
    if es.len() == 0 {
        None
    } else {
        let o = spec_entry_check(k, dir, es[0]);
        if !(o is Pass) {
            Some(o)
        } else {
            let sub = match es[0].node {
                NodeV::Directory { entries } => spec_walk_entries(
                    k,
                    entries,
                    dir + "/".spec_bytes() + es[0].name,
                ),
                _ => None,
            };
            match sub {
                Some(oo) => Some(oo),
                None => spec_walk_entries(k, es.drop_first(), dir),
            }
        }
    }
}

/// The per-node outcome over a whole root.
#[verifier::opaque]
pub open spec fn spec_run_recursive(k: RecursiveCheck, root: NodeV) -> OutcomeV {
    match root {
        NodeV::Directory { entries } => match spec_walk_entries(k, entries, Seq::empty()) {
            Some(o) => o,
            None => OutcomeV::Pass,
        },
        _ => OutcomeV::Pass,
    }
}

/// The outcome of one lint, whatever its shape.
pub open spec fn spec_run_lint(l: LintV, root: NodeV, d: DelegatesV) -> OutcomeV {
    match l.f {
        LintFnTy::Regular(k) => spec_run_regular(k, root, d),
        LintFnTy::Recursive(k) => spec_run_recursive(k, root),
    }
}

/// A captured outcome is kept once set.
pub open spec fn spec_after(prev: Option<OutcomeV>, found: Option<OutcomeV>) -> Option<OutcomeV> {
    if prev is Some {
        prev
    } else {
        found
    }
}

/// The walk state, one slot per still-applicable per-node lint: `None`
/// while the lint is live, its captured outcome once it failed.
pub open spec fn state_view(s: Seq<Option<LintResult>>) -> Seq<Option<OutcomeV>> {
    Seq::new(
        s.len(),
        |i: int|
            match s[i] {
                Some(r) => Some(outcome_of(r)),
                None => None,
            },
    )
}

/// Offer every entry below one directory, depth first, to every live
/// per-node lint; a lint that fails is retired with its first outcome.
/// When no lint is live, nothing further is visited.
fn walk_dir(
    entries: &Vec<Entry>,
    dir: &Vec<u8>,
    kinds: &Vec<RecursiveCheck>,
    state: &mut Vec<Option<LintResult>>,
)
    requires
        old(state)@.len() == kinds@.len(),
    ensures
        final(state)@.len() == kinds@.len(),
        forall|k: int|
            0 <= k < kinds@.len() ==> state_view(final(state)@)[k] == spec_after(
                state_view(old(state)@)[k],
                spec_walk_entries(kinds@[k], entries_view(entries@), dir@),
            ),
    decreases entries@,
{
    proof {
        lemma_entries_view(entries@);
    }
    let ghost esv = entries_view(entries@);
    let ghost st0 = state_view(state@);
    proof {
        assert(esv.skip(0) =~= esv);
    }
    let mut i: usize = 0;
    while i < entries.len()
        invariant
            i <= entries.len(),
            esv == entries_view(entries@),
            esv.len() == entries@.len(),
            forall|t: int|
                0 <= t < entries@.len() ==> esv[t] == (EntryV {
                    name: entries@[t].name@,
                    node: node_view(entries@[t].node),
                }),
            state@.len() == kinds@.len(),
            st0.len() == kinds@.len(),
            st0 == state_view(old(state)@),
            forall|k: int|
                0 <= k < kinds@.len() ==> spec_after(
                    st0[k],
                    spec_walk_entries(kinds@[k], esv, dir@),
                ) == spec_after(
                    state_view(state@)[k],
                    spec_walk_entries(kinds@[k], esv.skip(i as int), dir@),
                ),
        decreases entries.len() - i,
    {
        proof {
            assert(esv.skip(i as int)[0] == esv[i as int]);
            assert(esv.skip(i as int).drop_first() =~= esv.skip(i as int + 1));
        }
        let e = &entries[i];
        let ghost ev = EntryV { name: e.name@, node: node_view(e.node) };
        let ghost pre = state_view(state@);
        // Offer the entry to every live lint; retire those that fail.
        let mut k: usize = 0;
        while k < kinds.len()
            invariant
                k <= kinds.len(),
                state@.len() == kinds@.len(),
                pre.len() == kinds@.len(),
                ev == (EntryV { name: e.name@, node: node_view(e.node) }),
                forall|j: int| k <= j < kinds@.len() ==> state_view(state@)[j] == pre[j],
                forall|j: int|
                    0 <= j < k ==> state_view(state@)[j] == spec_after(
                        pre[j],
                        if spec_entry_check(kinds@[j], dir@, ev) is Pass {
                            None
                        } else {
                            Some(spec_entry_check(kinds@[j], dir@, ev))
                        },
                    ),
            decreases kinds.len() - k,
        {
            let ghost before = state_view(state@);
            let live = match &state[k] {
                None => true,
                Some(_) => false,
            };
            proof {
                assert(before[k as int] == state_view(state@)[k as int]);
            }
            if live {
                let r = run_entry_check(kinds[k], dir, e);
                let failed = match &r {
                    Ok(Ok(())) => false,
                    _ => true,
                };
                if failed {
                    state[k] = Some(r);
                    proof {
                        assert forall|j: int| 0 <= j < kinds@.len() && j != k implies state_view(
                            state@,
                        )[j] == before[j] by {}
                        assert(state_view(state@)[k as int] == Some(outcome_of(r)));
                        assert(!(outcome_of(r) is Pass));
                    }
                } else {
                    proof {
                        assert(outcome_of(r) is Pass);
                    }
                }
            }
            proof {
                let kk = k as int;
                assert forall|j: int| 0 <= j <= kk implies state_view(state@)[j] == spec_after(
                    pre[j],
                    if spec_entry_check(kinds@[j], dir@, ev) is Pass {
                        None
                    } else {
                        Some(spec_entry_check(kinds@[j], dir@, ev))
                    },
                ) by {
                    if j < kk {
                        assert(state_view(state@)[j] == before[j]);
                    } else {
                        assert(state_view(state@)[kk] == spec_after(
                            pre[kk],
                            if spec_entry_check(kinds@[kk], dir@, ev) is Pass {
                                None
                            } else {
                                Some(spec_entry_check(kinds@[kk], dir@, ev))
                            },
                        ));
                    }
                }
            }
            k = k + 1;
        }
        // Descend into a directory only while some lint is live.
        match &e.node {
            Node::Directory { entries: sub } => {
                let mut any_live = false;
                let mut t: usize = 0;
                while t < state.len()
                    invariant
                        t <= state@.len(),
                        any_live == exists|j: int| 0 <= j < t && state@[j] is None,
                    decreases state@.len() - t,
                {
                    let is_live = match &state[t] {
                        None => true,
                        Some(_) => false,
                    };
                    if is_live {
                        any_live = true;
                    }
                    t = t + 1;
                }
                if any_live {
                    let mut epath = copy_bytes(dir);
                    let slash = lit("/");
                    append_bytes(&mut epath, &slash);
                    append_bytes(&mut epath, &e.name);
                    proof {
                        assert(decreases_to!(entries@ => entries@[i as int]));
                        assert(decreases_to!(entries@[i as int] => entries@[i as int].node));
                        assert(decreases_to!(entries@ => sub@));
                    }
                    walk_dir(sub, &epath, kinds, state);
                }
            },
            _ => {},
        }
        proof {
            // One step of the walk: the entry's own check, then its
            // subtree, then the remaining siblings.
            assert forall|j: int| 0 <= j < kinds@.len() implies spec_after(
                st0[j],
                spec_walk_entries(kinds@[j], esv, dir@),
            ) == spec_after(
                state_view(state@)[j],
                spec_walk_entries(kinds@[j], esv.skip(i as int + 1), dir@),
            ) by {
                let kd = kinds@[j];
                let c = spec_entry_check(kd, dir@, ev);
                let c_opt: Option<OutcomeV> = if c is Pass {
                    None
                } else {
                    Some(c)
                };
                let subwalk: Option<OutcomeV> = match ev.node {
                    NodeV::Directory { entries: se } => spec_walk_entries(
                        kd,
                        se,
                        dir@ + "/".spec_bytes() + ev.name,
                    ),
                    _ => None,
                };
                assert(esv[i as int] == ev);
                assert(spec_walk_entries(kd, esv.skip(i as int), dir@) == spec_after(
                    c_opt,
                    spec_after(subwalk, spec_walk_entries(kd, esv.skip(i as int + 1), dir@)),
                ));
            }
        }
        i = i + 1;
    }
    proof {
        assert(esv.skip(i as int).len() == 0);
    }
}

/// One transcript line for a violation.
pub open spec fn violation_line(l: LintV, m: Seq<u8>) -> Seq<u8> {
    (if l.ty is Fatal {
        "Failed lint: ".spec_bytes()
    } else {
        "Lint warning: ".spec_bytes()
    }) + l.name + ": ".spec_bytes() + m + "\n".spec_bytes()
}

/// The message of the error that aborts a run on an execution failure.
pub open spec fn runtime_line(name: Seq<u8>, m: Seq<u8>) -> Seq<u8> {
    "Unexpected runtime error running lint ".spec_bytes() + name + ": ".spec_bytes() + m
}

/// The mathematical result of merging outcomes: the identity and message
/// of the first execution failure if one occurred, the transcript written
/// up to that point, and the tallies.
#[verifier::ext_equal]
pub struct ProcessV {
    pub err: Option<(Seq<u8>, Seq<u8>)>,
    pub transcript: Seq<u8>,
    pub passed: int,
    pub warnings: int,
    pub fatal: int,
}

/// One merge step: the first execution failure aborts, a violation
/// writes one line and counts by severity, a pass counts silently.
pub open spec fn process_step(p: ProcessV, l: LintV, o: OutcomeV) -> ProcessV {
    if p.err is Some {
        p
    } else {
        match o {
            OutcomeV::Pass => ProcessV { passed: p.passed + 1, ..p },
            OutcomeV::Fail(m) => if l.ty is Fatal {
                ProcessV { transcript: p.transcript + violation_line(l, m), fatal: p.fatal + 1, ..p }
            } else {
                ProcessV {
                    transcript: p.transcript + violation_line(l, m),
                    warnings: p.warnings + 1,
                    ..p
                }
            },
            OutcomeV::Error(m) => ProcessV { err: Some((l.name, m)), ..p },
        }
    }
}

/// Merge the outcomes of `ls` in order.
pub open spec fn spec_process(ls: Seq<LintV>, root: NodeV, d: DelegatesV) -> ProcessV
    decreases ls.len(),
{
    if ls.len() == 0 {
        ProcessV { err: None, transcript: Seq::empty(), passed: 0, warnings: 0, fatal: 0 }
    } else {
        process_step(
            spec_process(ls.drop_last(), root, d),
            ls.last(),
            spec_run_lint(ls.last(), root, d),
        )
    }
}

/// Once a prefix of the merge aborts, the whole merge equals that prefix.
pub proof fn lemma_process_err_stable(ls: Seq<LintV>, root: NodeV, d: DelegatesV, n: int)
    requires
        0 <= n <= ls.len(),
        spec_process(ls.take(n), root, d).err is Some,
    ensures
        spec_process(ls, root, d) == spec_process(ls.take(n), root, d),
    decreases ls.len(),
{
    if ls.len() > n {
        assert(ls.drop_last().take(n) =~= ls.take(n));
        lemma_process_err_stable(ls.drop_last(), root, d, n);
    } else {
        assert(ls.take(n) =~= ls);
    }
}

/// The tallies are bounded by the number of merged lints.
pub proof fn lemma_process_bounds(ls: Seq<LintV>, root: NodeV, d: DelegatesV)
    ensures
        spec_process(ls, root, d).passed >= 0,
        spec_process(ls, root, d).warnings >= 0,
        spec_process(ls, root, d).fatal >= 0,
        spec_process(ls, root, d).passed + spec_process(ls, root, d).warnings + spec_process(
            ls,
            root,
            d,
        ).fatal <= ls.len(),
    decreases ls.len(),
{
    if ls.len() > 0 {
        lemma_process_bounds(ls.drop_last(), root, d);
    }
}

/// Whole-tree and per-node lints partition the applicable lints.
pub proof fn lemma_filter_lens(s: Seq<LintV>)
    ensures
        filter_regular(s).len() + filter_recursive(s).len() == s.len(),
    decreases s.len(),
{
    if s.len() > 0 {
        lemma_filter_lens(s.drop_last());
    }
}

/// Applicable and skipped lints partition the registry.
pub proof fn lemma_filter_applicable_len(s: Seq<LintV>, skip: Seq<Seq<u8>>, rt: RootType)
    ensures
        count_skipped(s, skip, rt) >= 0,
        filter_applicable(s, skip, rt).len() + count_skipped(s, skip, rt) == s.len(),
    decreases s.len(),
{
    if s.len() > 0 {
        lemma_filter_applicable_len(s.drop_last(), skip, rt);
    }
}

/// Whether one lint is skipped under the given skip set and root type.
fn is_skipped(l: &Lint, skip: &Vec<Vec<u8>>, rt: RootType) -> (r: bool)
    ensures
        r == lint_skipped(lint_view(*l), seqs_view(skip@), rt),
{
    let mut found = false;
    let mut i: usize = 0;
    while i < skip.len()
        invariant
            i <= skip.len(),
            found == exists|j: int| 0 <= j < i && seqs_view(skip@)[j] == l.name@,
        decreases skip.len() - i,
    {
        if bytes_eq(&skip[i], &l.name) {
            found = true;
            proof {
                assert(seqs_view(skip@)[i as int] == l.name@);
            }
        }
        i = i + 1;
    }
    proof {
        assert(found == name_in(seqs_view(skip@), l.name@));
    }
    if found {
        return true;
    }
    match l.root_type {
        None => false,
        Some(r) => r != rt,
    }
}

/// Aggregate counts of one run.
#[derive(Debug)]
pub struct LintExecutionResult {
    pub warnings: usize,
    pub passed: usize,
    pub skipped: usize,
    pub fatal: usize,
}

/// The run plan after filtering: how many lints are skipped, and the
/// applicable lints of each shape as registry positions plus their check
/// identities, in canonical order.
struct Plan {
    skipped: usize,
    reg_idx: Vec<usize>,
    reg_kinds: Vec<RegularCheck>,
    rec_idx: Vec<usize>,
    rec_kinds: Vec<RecursiveCheck>,
}

/// Classify every lint as skipped or applicable, and partition the
/// applicable ones by shape.
fn plan_lints(regs: &Vec<Lint>, skip: &Vec<Vec<u8>>, rt: RootType) -> (p: Plan)
    ensures
        ({
            let lv = lints_view(regs@);
            let skips = seqs_view(skip@);
            let app = filter_applicable(lv, skips, rt);
            &&& p.skipped as int == count_skipped(lv, skips, rt)
            &&& p.reg_kinds@.len() == p.reg_idx@.len()
            &&& p.rec_kinds@.len() == p.rec_idx@.len()
            &&& (forall|t: int| 0 <= t < p.reg_idx@.len() ==> #[trigger] p.reg_idx@[t] < regs@.len())
            &&& (forall|t: int| 0 <= t < p.rec_idx@.len() ==> #[trigger] p.rec_idx@[t] < regs@.len())
            &&& (forall|t: int|
                0 <= t < p.reg_idx@.len() ==> map_idx(p.reg_idx@, regs@)[t].f == LintFnTy::Regular(
                    #[trigger] p.reg_kinds@[t],
                ))
            &&& (forall|t: int|
                0 <= t < p.rec_idx@.len() ==> map_idx(p.rec_idx@, regs@)[t].f
                    == LintFnTy::Recursive(#[trigger] p.rec_kinds@[t]))
            &&& map_idx(p.reg_idx@, regs@) == filter_regular(app)
            &&& map_idx(p.rec_idx@, regs@) == filter_recursive(app)
        }),
{
    let ghost lv = lints_view(regs@);
    let ghost skips = seqs_view(skip@);
    let mut skipped_count: usize = 0;
    let mut reg_idx: Vec<usize> = Vec::new();
    let mut reg_kinds: Vec<RegularCheck> = Vec::new();
    let mut rec_idx: Vec<usize> = Vec::new();
    let mut rec_kinds: Vec<RecursiveCheck> = Vec::new();
    let mut i: usize = 0;
    while i < regs.len()
        invariant
            i <= regs@.len(),
            lv == lints_view(regs@),
            skips == seqs_view(skip@),
            skipped_count <= i,
            skipped_count as int == count_skipped(lv.take(i as int), skips, rt),
            reg_kinds@.len() == reg_idx@.len(),
            rec_kinds@.len() == rec_idx@.len(),
            forall|t: int| 0 <= t < reg_idx@.len() ==> #[trigger] reg_idx@[t] < regs@.len(),
            forall|t: int| 0 <= t < rec_idx@.len() ==> #[trigger] rec_idx@[t] < regs@.len(),
            forall|t: int|
                0 <= t < reg_idx@.len() ==> map_idx(reg_idx@, regs@)[t].f == LintFnTy::Regular(
                    #[trigger] reg_kinds@[t],
                ),
            forall|t: int|
                0 <= t < rec_idx@.len() ==> map_idx(rec_idx@, regs@)[t].f == LintFnTy::Recursive(
                    #[trigger] rec_kinds@[t],
                ),
            map_idx(reg_idx@, regs@) == filter_regular(
                filter_applicable(lv.take(i as int), skips, rt),
            ),
            map_idx(rec_idx@, regs@) == filter_recursive(
                filter_applicable(lv.take(i as int), skips, rt),
            ),
        decreases regs@.len() - i,
    {
        let ghost app = filter_applicable(lv.take(i as int), skips, rt);
        proof {
            assert(lv.take(i as int + 1).drop_last() =~= lv.take(i as int));
            assert(lv.take(i as int + 1).last() == lv[i as int]);
            assert(lv[i as int] == lint_view(regs@[i as int]));
        }
        let sk = is_skipped(&regs[i], skip, rt);
        if sk {
            skipped_count = skipped_count + 1;
            proof {
                assert(filter_applicable(lv.take(i as int + 1), skips, rt) =~= app);
            }
        } else {
            proof {
                assert(filter_applicable(lv.take(i as int + 1), skips, rt) == app + seq![
                    lv[i as int],
                ]);
                assert((app + seq![lv[i as int]]).drop_last() =~= app);
                assert((app + seq![lv[i as int]]).last() == lv[i as int]);
            }
            match regs[i].f {
                LintFnTy::Regular(k) => {
                    reg_idx.push(i);
                    reg_kinds.push(k);
                    proof {
                        assert(filter_recursive(app + seq![lv[i as int]]) =~= filter_recursive(
                            app,
                        ));
                        assert(map_idx(reg_idx@, regs@) =~= filter_regular(app) + seq![
                            lv[i as int],
                        ]);
                    }
                },
                LintFnTy::Recursive(k) => {
                    rec_idx.push(i);
                    rec_kinds.push(k);
                    proof {
                        assert(filter_regular(app + seq![lv[i as int]]) =~= filter_regular(app));
                        assert(map_idx(rec_idx@, regs@) =~= filter_recursive(app) + seq![
                            lv[i as int],
                        ]);
                    }
                },
            }
        }
        i = i + 1;
    }
    proof {
        assert(lv.take(regs@.len() as int) =~= lv);
    }
    Plan { skipped: skipped_count, reg_idx, reg_kinds, rec_idx, rec_kinds }
}

/// Invoke every applicable whole-tree lint once, in canonical order.
fn run_regulars(
    regs: &Vec<Lint>,
    reg_idx: &Vec<usize>,
    reg_kinds: &Vec<RegularCheck>,
    root: &Node,
    d: &Delegates,
) -> (rs: Vec<LintResult>)
    requires
        reg_kinds@.len() == reg_idx@.len(),
        forall|t: int| 0 <= t < reg_idx@.len() ==> #[trigger] reg_idx@[t] < regs@.len(),
        forall|t: int|
            0 <= t < reg_idx@.len() ==> map_idx(reg_idx@, regs@)[t].f == LintFnTy::Regular(
                #[trigger] reg_kinds@[t],
            ),
    ensures
        rs@.len() == reg_idx@.len(),
        forall|t: int|
            0 <= t < rs@.len() ==> outcome_of(#[trigger] rs@[t]) == spec_run_lint(
                map_idx(reg_idx@, regs@)[t],
                node_view(*root),
                delegates_view(*d),
            ),
{
    let mut rs: Vec<LintResult> = Vec::new();
    let mut j: usize = 0;
    while j < reg_idx.len()
        invariant
            j <= reg_idx@.len(),
            rs@.len() == j,
            reg_kinds@.len() == reg_idx@.len(),
            forall|t: int| 0 <= t < reg_idx@.len() ==> #[trigger] reg_idx@[t] < regs@.len(),
            forall|t: int|
                0 <= t < reg_idx@.len() ==> map_idx(reg_idx@, regs@)[t].f == LintFnTy::Regular(
                    #[trigger] reg_kinds@[t],
                ),
            forall|t: int|
                0 <= t < j ==> outcome_of(#[trigger] rs@[t]) == spec_run_lint(
                    map_idx(reg_idx@, regs@)[t],
                    node_view(*root),
                    delegates_view(*d),
                ),
        decreases reg_idx@.len() - j,
    {
        let r = run_regular(reg_kinds[j], root, d);
        rs.push(r);
        j = j + 1;
    }
    rs
}

/// Drive the single shared walk, returning one slot per applicable
/// per-node lint: `None` where the lint passed everywhere, its captured
/// outcome where it failed.
fn run_recursives(root: &Node, rec_kinds: &Vec<RecursiveCheck>) -> (state: Vec<
    Option<LintResult>,
>)
    ensures
        state@.len() == rec_kinds@.len(),
        forall|u: int|
            0 <= u < rec_kinds@.len() ==> (match state@[u] {
                Some(r) => outcome_of(r),
                None => OutcomeV::Pass,
            }) == spec_run_recursive(#[trigger] rec_kinds@[u], node_view(*root)),
{
    proof {
        reveal(spec_run_recursive);
    }
    let mut state: Vec<Option<LintResult>> = Vec::new();
    let mut t: usize = 0;
    while t < rec_kinds.len()
        invariant
            state@.len() == t,
            t <= rec_kinds@.len(),
            forall|u: int| 0 <= u < t ==> state@[u] is None,
        decreases rec_kinds@.len() - t,
    {
        state.push(None);
        t = t + 1;
    }
    let ghost st_init = state@;
    match root {
        Node::Directory { entries } => {
            let base: Vec<u8> = Vec::new();
            proof {
                assert(base@ =~= Seq::<u8>::empty());
            }
            walk_dir(entries, &base, rec_kinds, &mut state);
            proof {
                assert(node_view(*root) == NodeV::Directory { entries: entries_view(entries@) });
                assert forall|u: int| 0 <= u < rec_kinds@.len() implies (match state@[u] {
                    Some(r) => outcome_of(r),
                    None => OutcomeV::Pass,
                }) == spec_run_recursive(#[trigger] rec_kinds@[u], node_view(*root)) by {
                    assert(state_view(st_init)[u] is None);
                    assert(state_view(state@)[u] == spec_after(
                        state_view(st_init)[u],
                        spec_walk_entries(rec_kinds@[u], entries_view(entries@), base@),
                    ));
                    assert(state_view(state@)[u] == (match state@[u] {
                        Some(r) => Some(outcome_of(r)),
                        None => None::<OutcomeV>,
                    }));
                }
            }
        },
        _ => {
            proof {
                assert forall|u: int| 0 <= u < rec_kinds@.len() implies (match state@[u] {
                    Some(r) => outcome_of(r),
                    None => OutcomeV::Pass,
                }) == spec_run_recursive(#[trigger] rec_kinds@[u], node_view(*root)) by {
                    assert(state@[u] is None);
                }
            }
        },
    }
    state
}

/// Merge one lint's outcome: write its transcript line and count it, or
/// return the error that aborts the run.
fn merge_one(
    l: &Lint,
    r: &LintResult,
    passed: &mut usize,
    warnings: &mut usize,
    fatal: &mut usize,
    output: &mut Vec<u8>,
) -> (res: Result<(), RuntimeError>)
    requires
        *old(passed) < usize::MAX,
        *old(warnings) < usize::MAX,
        *old(fatal) < usize::MAX,
    ensures
        ({
            let p0 = ProcessV {
                err: None,
                transcript: old(output)@,
                passed: *old(passed) as int,
                warnings: *old(warnings) as int,
                fatal: *old(fatal) as int,
            };
            let p1 = process_step(p0, lint_view(*l), outcome_of(*r));
            match res {
                Ok(()) => p1.err is None && final(output)@ == p1.transcript
                    && *final(passed) as int == p1.passed
                    && *final(warnings) as int == p1.warnings
                    && *final(fatal) as int == p1.fatal,
                Err(e) => (p1.err matches Some(em) && e.msg@ == runtime_line(em.0, em.1)
                    && final(output)@ == old(output)@
                    && *final(passed) == *old(passed)
                    && *final(warnings) == *old(warnings)
                    && *final(fatal) == *old(fatal)),
            }
        }),
{
    match r {
        Err(e) => {
            let mut msg = lit("Unexpected runtime error running lint ");
            append_bytes(&mut msg, &l.name);
            let sep = lit(": ");
            append_bytes(&mut msg, &sep);
            append_bytes(&mut msg, &e.msg);
            Err(RuntimeError { msg })
        },
        Ok(Err(e)) => {
            let head = match l.ty {
                LintType::Fatal => lit("Failed lint: "),
                LintType::Warning => lit("Lint warning: "),
            };
            append_bytes(output, &head);
            append_bytes(output, &l.name);
            let sep = lit(": ");
            append_bytes(output, &sep);
            append_bytes(output, &e.msg);
            let nl = lit("\n");
            append_bytes(output, &nl);
            match l.ty {
                LintType::Fatal => {
                    *fatal = *fatal + 1;
                },
                LintType::Warning => {
                    *warnings = *warnings + 1;
                },
            }
            proof {
                assert(output@ =~= old(output)@ + violation_line(lint_view(*l), e.msg@));
            }
            Ok(())
        },
        Ok(Ok(())) => {
            *passed = *passed + 1;
            Ok(())
        },
    }
}

/// Run all applicable lints over the snapshot and the delegate results,
/// appending one transcript line per violation to `output`.  An execution
/// failure anywhere aborts the run, naming the offending lint.
#[verifier::rlimit(100)]
pub fn lint_inner(
    root: &Node,
    d: &Delegates,
    root_type: RootType,
    skip: &Vec<Vec<u8>>,
    output: &mut Vec<u8>,
) -> (r: Result<LintExecutionResult, RuntimeError>)
    ensures
        ({
            let p = spec_process(
                spec_ordered(seqs_view(skip@), root_type),
                node_view(*root),
                delegates_view(*d),
            );
            &&& final(output)@ == old(output)@ + p.transcript
            &&& match r {
                Ok(res) => p.err is None && res.passed as int == p.passed && res.warnings as int
                    == p.warnings && res.fatal as int == p.fatal && res.skipped as int
                    == count_skipped(spec_registry(), seqs_view(skip@), root_type),
                Err(e) => (p.err matches Some(em) && e.msg@ == runtime_line(em.0, em.1)),
            }
        }),
{
    let regs = lints();
    let ghost lv = lints_view(regs@);
    let ghost skips = seqs_view(skip@);
    let ghost rv = node_view(*root);
    let ghost dv = delegates_view(*d);
    let ghost app = filter_applicable(lv, skips, root_type);
    let ghost ordered = filter_regular(app) + filter_recursive(app);

    let plan = plan_lints(&regs, skip, root_type);
    let reg_results = run_regulars(&regs, &plan.reg_idx, &plan.reg_kinds, root, d);
    let state = run_recursives(root, &plan.rec_kinds);
    let ghost regv = map_idx(plan.reg_idx@, regs@);
    let ghost recv = map_idx(plan.rec_idx@, regs@);
    proof {
        assert(ordered == spec_ordered(skips, root_type));
        lemma_filter_lens(app);
        lemma_filter_applicable_len(lv, skips, root_type);
        assert(ordered.take(0) =~= Seq::<LintV>::empty());
    }

    // Merge the outcomes in canonical order: whole-tree lints first.
    let mut passed: usize = 0;
    let mut warnings: usize = 0;
    let mut fatal: usize = 0;
    let mut j: usize = 0;
    while j < reg_results.len()
        invariant
            j <= reg_results@.len(),
            reg_results@.len() == plan.reg_idx@.len(),
            plan.reg_kinds@.len() == plan.reg_idx@.len(),
            forall|t: int|
                0 <= t < plan.reg_idx@.len() ==> #[trigger] plan.reg_idx@[t] < regs@.len(),
            regv == map_idx(plan.reg_idx@, regs@),
            regv == filter_regular(app),
            ordered == filter_regular(app) + filter_recursive(app),
            ordered == spec_ordered(skips, root_type),
            skips == seqs_view(skip@),
            rv == node_view(*root),
            dv == delegates_view(*d),
            forall|t: int|
                0 <= t < reg_results@.len() ==> outcome_of(#[trigger] reg_results@[t])
                    == spec_run_lint(regv[t], rv, dv),
            passed + warnings + fatal <= j,
            ({
                let pp = spec_process(ordered.take(j as int), rv, dv);
                &&& pp.err is None
                &&& output@ == old(output)@ + pp.transcript
                &&& passed as int == pp.passed
                &&& warnings as int == pp.warnings
                &&& fatal as int == pp.fatal
            }),
        decreases reg_results@.len() - j,
    {
        let ghost pp = spec_process(ordered.take(j as int), rv, dv);
        proof {
            assert(ordered.take(j as int + 1).drop_last() =~= ordered.take(j as int));
            assert(ordered.take(j as int + 1).last() == ordered[j as int]);
            assert(ordered[j as int] == regv[j as int]);
        }
        let l = &regs[plan.reg_idx[j]];
        proof {
            assert(lint_view(*l) == regv[j as int]);
        }
        let ghost obefore = output@;
        let res = merge_one(l, &reg_results[j], &mut passed, &mut warnings, &mut fatal, output);
        proof {
            let o = outcome_of(reg_results@[j as int]);
            let step = spec_process(ordered.take(j as int + 1), rv, dv);
            assert(step == process_step(pp, ordered[j as int], o));
            match o {
                OutcomeV::Fail(m) => {
                    assert(obefore + violation_line(lint_view(*l), m) =~= old(output)@ + (
                    pp.transcript + violation_line(lint_view(*l), m)));
                },
                _ => {},
            }
        }
        match res {
            Ok(()) => {},
            Err(e) => {
                proof {
                    lemma_process_err_stable(ordered, rv, dv, j as int + 1);
                }
                return Err(e);
            },
        }
        j = j + 1;
    }

    // Then the per-node lints, from the walk state.
    let ghost nreg = reg_results@.len() as int;
    let nregs = regs.len();
    proof {
        assert(regs@.len() == nregs as int);
        assert(app.len() <= lv.len());
        assert(nreg + state@.len() == ordered.len());
        assert(ordered.len() <= regs@.len());
    }
    let mut u: usize = 0;
    while u < state.len()
        invariant
            u <= state@.len(),
            state@.len() == plan.rec_idx@.len(),
            state@.len() == plan.rec_kinds@.len(),
            nreg == reg_results@.len(),
            nreg == regv.len(),
            forall|t: int|
                0 <= t < plan.rec_idx@.len() ==> #[trigger] plan.rec_idx@[t] < regs@.len(),
            forall|t: int|
                0 <= t < plan.rec_idx@.len() ==> map_idx(plan.rec_idx@, regs@)[t].f
                    == LintFnTy::Recursive(#[trigger] plan.rec_kinds@[t]),
            recv == map_idx(plan.rec_idx@, regs@),
            recv == filter_recursive(app),
            regv == filter_regular(app),
            ordered == filter_regular(app) + filter_recursive(app),
            ordered == spec_ordered(skips, root_type),
            nreg + state@.len() <= usize::MAX,
            skips == seqs_view(skip@),
            rv == node_view(*root),
            dv == delegates_view(*d),
            forall|t: int|
                0 <= t < state@.len() ==> (match state@[t] {
                    Some(r) => outcome_of(r),
                    None => OutcomeV::Pass,
                }) == spec_run_recursive(#[trigger] plan.rec_kinds@[t], rv),
            passed + warnings + fatal <= nreg + u,
            ({
                let pp = spec_process(ordered.take(nreg + u as int), rv, dv);
                &&& pp.err is None
                &&& output@ == old(output)@ + pp.transcript
                &&& passed as int == pp.passed
                &&& warnings as int == pp.warnings
                &&& fatal as int == pp.fatal
            }),
        decreases state@.len() - u,
    {
        let ghost pp = spec_process(ordered.take(nreg + u as int), rv, dv);
        proof {
            assert(nreg + u as int + 1 <= ordered.len());
            assert(ordered.take(nreg + u as int + 1).drop_last() =~= ordered.take(
                nreg + u as int,
            ));
            assert(ordered.take(nreg + u as int + 1).last() == ordered[nreg + u as int]);
            assert(ordered[nreg + u as int] == recv[u as int]);
        }
        let l = &regs[plan.rec_idx[u]];
        proof {
            assert(lint_view(*l) == recv[u as int]);
            assert(lint_view(*l).f == LintFnTy::Recursive(plan.rec_kinds@[u as int]));
            assert(spec_run_lint(lint_view(*l), rv, dv) == spec_run_recursive(
                plan.rec_kinds@[u as int],
                rv,
            ));
        }
        let ghost obefore = output@;
        let okr = lint_ok();
        let res = match &state[u] {
            None => merge_one(l, &okr, &mut passed, &mut warnings, &mut fatal, output),
            Some(r) => merge_one(l, r, &mut passed, &mut warnings, &mut fatal, output),
        };
        proof {
            let o = spec_run_lint(lint_view(*l), rv, dv);
            let step = spec_process(ordered.take(nreg + u as int + 1), rv, dv);
            assert(step == process_step(pp, ordered[nreg + u as int], o));
            match o {
                OutcomeV::Fail(m) => {
                    assert(obefore + violation_line(lint_view(*l), m) =~= old(output)@ + (
                    pp.transcript + violation_line(lint_view(*l), m)));
                },
                _ => {},
            }
        }
        match res {
            Ok(()) => {},
            Err(e) => {
                proof {
                    lemma_process_err_stable(ordered, rv, dv, nreg + u as int + 1);
                }
                return Err(e);
            },
        }
        u = u + 1;
    }
    proof {
        assert(ordered.take(nreg + u as int) =~= ordered);
        assert(plan.skipped as int == count_skipped(spec_registry(), skips, root_type));
    }
    Ok(LintExecutionResult { warnings, passed, skipped: plan.skipped, fatal })
}

/// The positions of `is` in the registry vector, as lint views.
pub open spec fn map_idx(is: Seq<usize>, regs: Seq<Lint>) -> Seq<LintV> {
    Seq::new(is.len(), |j: int| lint_view(regs[is[j] as int]))
}

/// How many lints the registry holds.
pub proof fn lemma_registry_len()
    ensures
        spec_registry().len() == 13,
{
    reveal(spec_registry);
}

/// Why a lint run failed: an execution failure somewhere, or a nonzero
/// effective fatal count.
#[derive(Debug)]
pub enum LintFailure {
    Runtime(RuntimeError),
    ChecksFailed(usize),
}

/// The count the pass/fail outcome rests on: fatal violations, plus
/// warnings when the disposition makes warnings fatal.
pub open spec fn effective_fatal(p: ProcessV, disp: WarningDisposition) -> int {
    p.fatal + (match disp {
        WarningDisposition::FatalWarnings => p.warnings,
        WarningDisposition::AllowWarnings => 0int,
    })
}

/// The summary lines after a completed run: the pass count always, the
/// skipped and warning counts only when nonzero.
pub open spec fn summary_lines(p: ProcessV, skipped: int) -> Seq<u8> {
    "Checks passed: ".spec_bytes() + dec_digits(p.passed as nat) + "\n".spec_bytes() + (if skipped
        > 0 {
        "Checks skipped: ".spec_bytes() + dec_digits(skipped as nat) + "\n".spec_bytes()
    } else {
        Seq::empty()
    }) + (if p.warnings > 0 {
        "Warnings: ".spec_bytes() + dec_digits(p.warnings as nat) + "\n".spec_bytes()
    } else {
        Seq::empty()
    })
}

/// Run all applicable lints: the transcript plus summary is appended to
/// `output`, and the run fails on an execution failure or on a nonzero
/// effective fatal count.
#[verifier::rlimit(100)]
pub fn lint(
    root: &Node,
    d: &Delegates,
    warning_disposition: WarningDisposition,
    root_type: RootType,
    skip: &Vec<Vec<u8>>,
    output: &mut Vec<u8>,
) -> (r: Result<(), LintFailure>)
    ensures
        ({
            let p = spec_process(
                spec_ordered(seqs_view(skip@), root_type),
                node_view(*root),
                delegates_view(*d),
            );
            let skipped = count_skipped(spec_registry(), seqs_view(skip@), root_type);
            match r {
                Ok(()) => p.err is None && effective_fatal(p, warning_disposition) == 0
                    && final(output)@ == old(output)@ + p.transcript + summary_lines(p, skipped),
                Err(LintFailure::Runtime(e)) => (p.err matches Some(em) && e.msg@ == runtime_line(
                    em.0,
                    em.1,
                ) && final(output)@ == old(output)@ + p.transcript),
                Err(LintFailure::ChecksFailed(n)) => p.err is None && n as int == effective_fatal(
                    p,
                    warning_disposition,
                ) && n > 0 && final(output)@ == old(output)@ + p.transcript + summary_lines(
                    p,
                    skipped,
                ),
            }
        }),
{
    let ghost skips = seqs_view(skip@);
    let ghost rv = node_view(*root);
    let ghost dv = delegates_view(*d);
    let ghost p = spec_process(spec_ordered(skips, root_type), rv, dv);
    let res = match lint_inner(root, d, root_type, skip, output) {
        Ok(res) => res,
        Err(e) => {
            return Err(LintFailure::Runtime(e));
        },
    };
    proof {
        lemma_registry_len();
        lemma_filter_applicable_len(spec_registry(), skips, root_type);
        lemma_filter_lens(filter_applicable(spec_registry(), skips, root_type));
        lemma_process_bounds(spec_ordered(skips, root_type), rv, dv);
        assert(p.passed + p.warnings + p.fatal <= 13);
    }
    let ghost obase = output@;
    let head = lit("Checks passed: ");
    append_bytes(output, &head);
    let n = format_usize(res.passed);
    append_bytes(output, &n);
    let nl = lit("\n");
    append_bytes(output, &nl);
    if res.skipped > 0 {
        let h = lit("Checks skipped: ");
        append_bytes(output, &h);
        let c = format_usize(res.skipped);
        append_bytes(output, &c);
        let nl2 = lit("\n");
        append_bytes(output, &nl2);
    }
    let fatal = match warning_disposition {
        WarningDisposition::FatalWarnings => res.fatal + res.warnings,
        WarningDisposition::AllowWarnings => res.fatal,
    };
    if res.warnings > 0 {
        let h = lit("Warnings: ");
        append_bytes(output, &h);
        let c = format_usize(res.warnings);
        append_bytes(output, &c);
        let nl3 = lit("\n");
        append_bytes(output, &nl3);
    }
    proof {
        let skipped = count_skipped(spec_registry(), skips, root_type);
        assert(output@ =~= obase + summary_lines(p, skipped));
        assert(output@ =~= old(output)@ + p.transcript + summary_lines(p, skipped));
    }
    if fatal > 0 {
        return Err(LintFailure::ChecksFailed(fatal));
    }
    Ok(())
}

/// How a severity shows in the listing.
pub open spec fn yaml_severity(t: LintType) -> Seq<u8> {
    if t is Fatal {
        "fatal".spec_bytes()
    } else {
        "warning".spec_bytes()
    }
}

/// How an applicability restriction shows in the listing.
pub open spec fn yaml_root_type(rt: Option<RootType>) -> Seq<u8> {
    match rt {
        None => Seq::empty(),
        Some(RootType::Running) => "  root-type: running\n".spec_bytes(),
        Some(RootType::Alternative) => "  root-type: alternative\n".spec_bytes(),
    }
}

/// One lint's entry in the listing: name, severity, description and,
/// when restricted, the root type.  The check procedure itself is not
/// representable and is omitted.
pub open spec fn yaml_entry(l: LintV) -> Seq<u8> {
    "- name: ".spec_bytes() + l.name + "\n  type: ".spec_bytes() + yaml_severity(l.ty)
        + "\n  description: \"".spec_bytes() + escape_bytes(l.description) + "\"\n".spec_bytes()
        + yaml_root_type(l.root_type)
}

/// The whole listing, in registry order.
pub open spec fn yaml_list(s: Seq<LintV>) -> Seq<u8>
    decreases s.len(),
{
    if s.len() == 0 {
        Seq::empty()
    } else {
        yaml_list(s.drop_last()) + yaml_entry(s.last())
    }
}

/// Write one lint's listing entry.
#[verifier::rlimit(100)]
fn append_yaml_entry(output: &mut Vec<u8>, l: &Lint)
    ensures
        final(output)@ == old(output)@ + yaml_entry(lint_view(*l)),
{
    let h1 = lit("- name: ");
    append_bytes(output, &h1);
    append_bytes(output, &l.name);
    let h2 = lit("\n  type: ");
    append_bytes(output, &h2);
    let sev = match l.ty {
        LintType::Fatal => lit("fatal"),
        LintType::Warning => lit("warning"),
    };
    append_bytes(output, &sev);
    let h3 = lit("\n  description: \"");
    append_bytes(output, &h3);
    let esc = crate::bytestr::escape(&l.description);
    append_bytes(output, &esc);
    let h4 = lit("\"\n");
    append_bytes(output, &h4);
    match l.root_type {
        None => {},
        Some(RootType::Running) => {
            let h5 = lit("  root-type: running\n");
            append_bytes(output, &h5);
        },
        Some(RootType::Alternative) => {
            let h5 = lit("  root-type: alternative\n");
            append_bytes(output, &h5);
        },
    }
    proof {
        assert(output@ =~= old(output)@ + yaml_entry(lint_view(*l)));
    }
}

/// Write a machine-parseable dump of every registered lint, in registry
/// order: one document per run, one entry per lint.
pub fn lint_list(output: &mut Vec<u8>)
    ensures
        final(output)@ == old(output)@ + yaml_list(spec_registry()),
{
    let regs = lints();
    let ghost lv = lints_view(regs@);
    proof {
        assert(lv.take(0) =~= Seq::<LintV>::empty());
    }
    let mut i: usize = 0;
    while i < regs.len()
        invariant
            i <= regs@.len(),
            lv == lints_view(regs@),
            lv == spec_registry(),
            output@ == old(output)@ + yaml_list(lv.take(i as int)),
        decreases regs@.len() - i,
    {
        proof {
            assert(lv.take(i as int + 1).drop_last() =~= lv.take(i as int));
            assert(lv.take(i as int + 1).last() == lv[i as int]);
            assert(lv[i as int] == lint_view(regs@[i as int]));
        }
        let l = &regs[i];
        append_yaml_entry(output, l);
        proof {
            assert(output@ =~= old(output)@ + yaml_list(lv.take(i as int + 1)));
        }
        i = i + 1;
    }
    proof {
        assert(lv.take(regs@.len() as int) =~= lv);
    }
}

} // verus!
