//! The individual correctness rules.
//!
//! Each rule is an exec function returning a [`LintResult`], specified
//! exactly by a spec-level mirror over the snapshot's mathematical view.
//! Rules that consult a delegate subsystem take its result as a plain
//! value (see [`crate::delegates`]).

use vstd::prelude::*;
use vstd::string::StringSliceAdditionalSpecFns;
use vstd::utf8::valid_utf8;

use crate::bytestr::{
    append_bytes, copy_bytes, debug_quote, debug_quoted, dec_digits, escape_bytes, format_usize,
    insert_sorted, insert_sorted_spec, is_utf8, lit, quote_path, quoted_path, seqs_view,
};
use crate::delegates::{
    delegates_view, Delegates, SysusersReport, SysusersReportV, TmpfilesReport, TmpfilesReportV,
};
use crate::fsmodel::{
    child_of, entries_view, node_at, node_at_path, node_view, path_view, Entry, EntryV, Node,
    NodeV,
};
use crate::outcome::{lint_err, lint_ok, outcome_of, LintError, LintResult, OutcomeV, RuntimeError};

verus! {

/// Look a single name up under a node.
pub fn node_at1<'a>(root: &'a Node, name: &Vec<u8>) -> (r: Option<&'a Node>)
    ensures
        match r {
            Some(n) => node_at(node_view(*root), seq![name@]) == Some(node_view(*n)),
            None => node_at(node_view(*root), seq![name@]) is None,
        },
{
    let mut path: Vec<Vec<u8>> = Vec::new();
    path.push(copy_bytes(name));
    proof {
        assert(path_view(path@) =~= seq![name@]);
    }
    node_at_path(root, &path)
}

/// Check for `/var/run` being a physical directory; this is always a bug.
pub open spec fn spec_check_var_run(root: NodeV) -> OutcomeV {
    match node_at(root, seq!["var".spec_bytes(), "run".spec_bytes()]) {
        Some(n) => if n is Symlink {
            OutcomeV::Pass
        } else {
            OutcomeV::Fail("Not a symlink: var/run".spec_bytes())
        },
        None => OutcomeV::Pass,
    }
}

pub fn check_var_run(root: &Node) -> (r: LintResult)
    ensures
        outcome_of(r) == spec_check_var_run(node_view(*root)),
{
    let mut path: Vec<Vec<u8>> = Vec::new();
    path.push(lit("var"));
    path.push(lit("run"));
    proof {
        assert(path_view(path@) =~= seq!["var".spec_bytes(), "run".spec_bytes()]);
    }
    match node_at_path(root, &path) {
        Some(n) => match n {
            Node::Symlink { .. } => lint_ok(),
            _ => lint_err(lit("Not a symlink: var/run")),
        },
        None => lint_ok(),
    }
}

/// Whether the node at `path` is an empty regular file.
pub open spec fn empty_file_at(root: NodeV, path: Seq<Seq<u8>>) -> bool {
    match node_at(root, path) {
        Some(NodeV::Regular { size }) => size == 0,
        _ => false,
    }
}

/// Check for an invalid `/etc/hostname` or `/etc/resolv.conf` that may
/// have been injected by a container build system.
pub open spec fn spec_check_buildah_injected(root: NodeV) -> OutcomeV {
    if empty_file_at(root, seq!["etc".spec_bytes(), "hostname".spec_bytes()]) {
        OutcomeV::Fail(
            "/etc/hostname is an empty file; this may have been synthesized by a container runtime.".spec_bytes(),
        )
    } else if empty_file_at(root, seq!["etc".spec_bytes(), "resolv.conf".spec_bytes()]) {
        OutcomeV::Fail(
            "/etc/resolv.conf is an empty file; this may have been synthesized by a container runtime.".spec_bytes(),
        )
    } else {
        OutcomeV::Pass
    }
}

fn empty_file_at_exec(root: &Node, a: &str, b: &str) -> (r: bool)
    ensures
        r == empty_file_at(node_view(*root), seq![a.spec_bytes(), b.spec_bytes()]),
{
    let mut path: Vec<Vec<u8>> = Vec::new();
    path.push(lit(a));
    path.push(lit(b));
    proof {
        assert(path_view(path@) =~= seq![a.spec_bytes(), b.spec_bytes()]);
    }
    match node_at_path(root, &path) {
        Some(n) => match n {
            Node::Regular { size } => *size == 0,
            _ => false,
        },
        None => false,
    }
}

pub fn check_buildah_injected(root: &Node) -> (r: LintResult)
    ensures
        outcome_of(r) == spec_check_buildah_injected(node_view(*root)),
{
    if empty_file_at_exec(root, "etc", "hostname") {
        return lint_err(
            lit(
                "/etc/hostname is an empty file; this may have been synthesized by a container runtime.",
            ),
        );
    }
    if empty_file_at_exec(root, "etc", "resolv.conf") {
        return lint_err(
            lit(
                "/etc/resolv.conf is an empty file; this may have been synthesized by a container runtime.",
            ),
        );
    }
    lint_ok()
}

/// Verify that only one of `/etc` or `/usr/etc` exist.
pub open spec fn spec_check_usretc(root: NodeV) -> OutcomeV {
    if node_at(root, seq!["etc".spec_bytes()]) is None {
        OutcomeV::Pass
    } else if node_at(root, seq!["usr".spec_bytes(), "etc".spec_bytes()]) is Some {
        OutcomeV::Fail(
            "Found /usr/etc - this is a bootc implementation detail and not supported to use in containers".spec_bytes(),
        )
    } else {
        OutcomeV::Pass
    }
}

pub fn check_usretc(root: &Node) -> (r: LintResult)
    ensures
        outcome_of(r) == spec_check_usretc(node_view(*root)),
{
    let etc = lit("etc");
    let etc_exists = node_at1(root, &etc).is_some();
    if !etc_exists {
        return lint_ok();
    }
    let mut path: Vec<Vec<u8>> = Vec::new();
    path.push(lit("usr"));
    path.push(lit("etc"));
    proof {
        assert(path_view(path@) =~= seq!["usr".spec_bytes(), "etc".spec_bytes()]);
    }
    if node_at_path(root, &path).is_some() {
        return lint_err(
            lit(
                "Found /usr/etc - this is a bootc implementation detail and not supported to use in containers",
            ),
        );
    }
    lint_ok()
}

/// Verify syntax of `/usr/lib/bootc/kargs.d`: the parse either succeeded
/// or its failure aborts the run.
pub open spec fn spec_check_kargs(k: Result<Seq<Seq<u8>>, Seq<u8>>) -> OutcomeV {
    match k {
        Ok(_) => OutcomeV::Pass,
        Err(m) => OutcomeV::Error(m),
    }
}

pub fn check_parse_kargs(kargs: &Result<Vec<Vec<u8>>, Vec<u8>>) -> (r: LintResult)
    ensures
        outcome_of(r) == spec_check_kargs(
            match *kargs {
                Ok(ref v) => Ok(seqs_view(v@)),
                Err(ref e) => Err(e@),
            },
        ),
{
    match kargs {
        Ok(_) => lint_ok(),
        Err(m) => Err(RuntimeError { msg: copy_bytes(m) }),
    }
}

/// Check for multiple kernels: the kernel-directory finder either found
/// at most one, or its failure aborts the run.
pub open spec fn spec_check_kernel(k: Result<Option<Seq<u8>>, Seq<u8>>) -> OutcomeV {
    match k {
        Ok(_) => OutcomeV::Pass,
        Err(m) => OutcomeV::Error(m),
    }
}

pub fn check_kernel(kernel: &Result<Option<Vec<u8>>, Vec<u8>>) -> (r: LintResult)
    ensures
        outcome_of(r) == spec_check_kernel(
            match *kernel {
                Ok(None) => Ok(None),
                Ok(Some(ref v)) => Ok(Some(v@)),
                Err(ref e) => Err(e@),
            },
        ),
{
    match kernel {
        Ok(_) => lint_ok(),
        Err(m) => Err(RuntimeError { msg: copy_bytes(m) }),
    }
}

/// The base API directories every image must carry.
pub open spec fn api_dirs() -> Seq<Seq<u8>> {
    seq![
        "dev".spec_bytes(),
        "proc".spec_bytes(),
        "sys".spec_bytes(),
        "run".spec_bytes(),
        "tmp".spec_bytes(),
        "var".spec_bytes(),
    ]
}

pub open spec fn spec_check_api_dirs_from(root: NodeV, i: int) -> OutcomeV
    decreases 6 - i,
{
    if 0 <= i < 6 {
        match node_at(root, seq![api_dirs()[i]]) {
            None => OutcomeV::Fail(
                "Missing API filesystem base directory: /".spec_bytes() + api_dirs()[i],
            ),
            Some(n) => if !(n is Directory) {
                OutcomeV::Fail(
                    "Expected directory for API filesystem base directory: /".spec_bytes()
                        + api_dirs()[i],
                )
            } else {
                spec_check_api_dirs_from(root, i + 1)
            },
        }
    } else {
        OutcomeV::Pass
    }
}

/// Verify that expected base API directories exist.
pub open spec fn spec_check_api_dirs(root: NodeV) -> OutcomeV {
    spec_check_api_dirs_from(root, 0)
}

pub fn check_api_dirs(root: &Node) -> (r: LintResult)
    ensures
        outcome_of(r) == spec_check_api_dirs(node_view(*root)),
{
    let mut names: Vec<Vec<u8>> = Vec::new();
    names.push(lit("dev"));
    names.push(lit("proc"));
    names.push(lit("sys"));
    names.push(lit("run"));
    names.push(lit("tmp"));
    names.push(lit("var"));
    proof {
        assert(seqs_view(names@) =~= api_dirs());
    }
    let mut i: usize = 0;
    while i < 6
        invariant
            i <= 6,
            names@.len() == 6,
            seqs_view(names@) == api_dirs(),
            spec_check_api_dirs(node_view(*root)) == spec_check_api_dirs_from(
                node_view(*root),
                i as int,
            ),
        decreases 6 - i,
    {
        proof {
            assert(names@[i as int]@ == api_dirs()[i as int]);
        }
        match node_at1(root, &names[i]) {
            None => {
                let mut msg = lit("Missing API filesystem base directory: /");
                append_bytes(&mut msg, &names[i]);
                return lint_err(msg);
            },
            Some(n) => {
                let is_dir = match n {
                    Node::Directory { .. } => true,
                    _ => false,
                };
                if !is_dir {
                    let mut msg = lit("Expected directory for API filesystem base directory: /");
                    append_bytes(&mut msg, &names[i]);
                    return lint_err(msg);
                }
            },
        }
        i = i + 1;
    }
    lint_ok()
}

/// Outcome of reading one prepare-root configuration result: absent or
/// disabled is a violation, a loader failure aborts.
pub open spec fn spec_check_prepareroot(c: Result<Option<bool>, Seq<u8>>) -> OutcomeV {
    match c {
        Err(m) => OutcomeV::Error(m),
        Ok(None) => OutcomeV::Fail(
            "usr/lib/ostree/prepare-root.conf is not present to enable composefs".spec_bytes(),
        ),
        Ok(Some(enabled)) => if enabled {
            OutcomeV::Pass
        } else {
            OutcomeV::Fail(
                "usr/lib/ostree/prepare-root.conf does not have composefs enabled".spec_bytes(),
            )
        },
    }
}

pub fn check_prepareroot_composefs_norecurse(c: &Result<Option<bool>, Vec<u8>>) -> (r: LintResult)
    ensures
        outcome_of(r) == spec_check_prepareroot(
            match *c {
                Ok(v) => Ok(v),
                Err(ref e) => Err(e@),
            },
        ),
{
    match c {
        Err(m) => Err(RuntimeError { msg: copy_bytes(m) }),
        Ok(None) => lint_err(
            lit("usr/lib/ostree/prepare-root.conf is not present to enable composefs"),
        ),
        Ok(Some(enabled)) => {
            if *enabled {
                lint_ok()
            } else {
                lint_err(
                    lit("usr/lib/ostree/prepare-root.conf does not have composefs enabled"),
                )
            }
        },
    }
}

/// Where the embedded default base-image content lives, if the image
/// ships its own documentation copy of it.
pub open spec fn baseimage_path() -> Seq<Seq<u8>> {
    seq![
        "usr".spec_bytes(),
        "share".spec_bytes(),
        "doc".spec_bytes(),
        "bootc".spec_bytes(),
        "baseimage".spec_bytes(),
        "base".spec_bytes(),
    ]
}

/// How the embedded base-image directory stands in the tree.
pub enum BaseImageDir {
    Absent,
    Present,
    NotADirectory,
}

pub open spec fn spec_baseimage_dir(root: NodeV) -> BaseImageDir {
    match node_at(root, baseimage_path()) {
        None => BaseImageDir::Absent,
        Some(NodeV::Directory { .. }) => BaseImageDir::Present,
        Some(_) => BaseImageDir::NotADirectory,
    }
}

fn baseimage_dir<'a>(root: &'a Node) -> (r: (BaseImageDir, Option<&'a Node>))
    ensures
        r.0 == spec_baseimage_dir(node_view(*root)),
        r.0 is Present ==> (r.1 matches Some(n) && node_at(node_view(*root), baseimage_path())
            == Some(node_view(*n))),
{
    let mut path: Vec<Vec<u8>> = Vec::new();
    path.push(lit("usr"));
    path.push(lit("share"));
    path.push(lit("doc"));
    path.push(lit("bootc"));
    path.push(lit("baseimage"));
    path.push(lit("base"));
    proof {
        assert(path_view(path@) =~= baseimage_path());
    }
    match node_at_path(root, &path) {
        None => (BaseImageDir::Absent, None),
        Some(n) => match n {
            Node::Directory { .. } => (BaseImageDir::Present, Some(n)),
            _ => (BaseImageDir::NotADirectory, None),
        },
    }
}

/// Check that composefs is enabled for ostree, both for the root and,
/// when the image embeds its expected base-image content, for that copy.
pub open spec fn spec_check_composefs(
    root: NodeV,
    c_root: Result<Option<bool>, Seq<u8>>,
    c_base: Result<Option<bool>, Seq<u8>>,
) -> OutcomeV {
    match spec_check_prepareroot(c_root) {
        OutcomeV::Pass => match spec_baseimage_dir(root) {
            BaseImageDir::Absent => OutcomeV::Pass,
            BaseImageDir::Present => spec_check_prepareroot(c_base),
            BaseImageDir::NotADirectory => OutcomeV::Error(
                "usr/share/doc/bootc/baseimage/base is not a directory".spec_bytes(),
            ),
        },
        o => o,
    }
}

pub fn check_composefs(root: &Node, d: &Delegates) -> (r: LintResult)
    ensures
        outcome_of(r) == spec_check_composefs(
            node_view(*root),
            delegates_view(*d).prepareroot,
            delegates_view(*d).prepareroot_baseimage,
        ),
{
    let first = check_prepareroot_composefs_norecurse(&d.prepareroot);
    match &first {
        Ok(Ok(())) => {},
        _ => {
            return first;
        },
    }
    let (bi, _) = baseimage_dir(root);
    match bi {
        BaseImageDir::Absent => lint_ok(),
        BaseImageDir::Present => check_prepareroot_composefs_norecurse(&d.prepareroot_baseimage),
        BaseImageDir::NotADirectory => Err(
            RuntimeError { msg: lit("usr/share/doc/bootc/baseimage/base is not a directory") },
        ),
    }
}

/// Check a few files and directories we expect in the base image: a
/// `/sysroot` directory and an `/ostree -> sysroot/ostree` link.
pub open spec fn spec_check_baseimage_norecurse(d: NodeV) -> OutcomeV {
    match node_at(d, seq!["sysroot".spec_bytes()]) {
        None => OutcomeV::Fail("Missing /sysroot".spec_bytes()),
        Some(s) => if !(s is Directory) {
            OutcomeV::Fail("Expected a directory for /sysroot".spec_bytes())
        } else {
            match node_at(d, seq!["ostree".spec_bytes()]) {
                None => OutcomeV::Fail("Missing ostree -> sysroot/ostree link".spec_bytes()),
                Some(NodeV::Symlink { target }) => if target == "sysroot/ostree".spec_bytes() {
                    OutcomeV::Pass
                } else {
                    OutcomeV::Fail(
                        "Expected /ostree -> sysroot/ostree, not ".spec_bytes() + debug_quoted(
                            target,
                        ),
                    )
                },
                Some(_) => OutcomeV::Fail("/ostree should be a symlink".spec_bytes()),
            }
        },
    }
}

pub fn check_baseimage_root_norecurse(dir: &Node) -> (r: LintResult)
    ensures
        outcome_of(r) == spec_check_baseimage_norecurse(node_view(*dir)),
{
    let sysroot = lit("sysroot");
    match node_at1(dir, &sysroot) {
        None => {
            return lint_err(lit("Missing /sysroot"));
        },
        Some(n) => {
            let is_dir = match n {
                Node::Directory { .. } => true,
                _ => false,
            };
            if !is_dir {
                return lint_err(lit("Expected a directory for /sysroot"));
            }
        },
    }
    let ostree = lit("ostree");
    match node_at1(dir, &ostree) {
        None => lint_err(lit("Missing ostree -> sysroot/ostree link")),
        Some(n) => match n {
            Node::Symlink { target } => {
                let expected = lit("sysroot/ostree");
                if crate::bytestr::bytes_eq(target, &expected) {
                    lint_ok()
                } else {
                    let mut msg = lit("Expected /ostree -> sysroot/ostree, not ");
                    let q = debug_quote(target);
                    append_bytes(&mut msg, &q);
                    lint_err(msg)
                }
            },
            _ => lint_err(lit("/ostree should be a symlink")),
        },
    }
}

/// Check ostree-related base image content, in the root and in the
/// embedded base-image copy when that is present.
pub open spec fn spec_check_baseimage_root(root: NodeV) -> OutcomeV {
    match spec_check_baseimage_norecurse(root) {
        OutcomeV::Pass => match spec_baseimage_dir(root) {
            BaseImageDir::Absent => OutcomeV::Pass,
            BaseImageDir::Present => spec_check_baseimage_norecurse(
                match node_at(root, baseimage_path()) {
                    Some(n) => n,
                    None => NodeV::Other,
                },
            ),
            BaseImageDir::NotADirectory => OutcomeV::Error(
                "usr/share/doc/bootc/baseimage/base is not a directory".spec_bytes(),
            ),
        },
        o => o,
    }
}

pub fn check_baseimage_root(root: &Node) -> (r: LintResult)
    ensures
        outcome_of(r) == spec_check_baseimage_root(node_view(*root)),
{
    let first = check_baseimage_root_norecurse(root);
    match &first {
        Ok(Ok(())) => {},
        _ => {
            return first;
        },
    }
    let (bi, sub) = baseimage_dir(root);
    match bi {
        BaseImageDir::Absent => lint_ok(),
        BaseImageDir::Present => match sub {
            Some(n) => check_baseimage_root_norecurse(n),
            None => lint_ok(),  // unreachable by the contract of baseimage_dir
        },
        BaseImageDir::NotADirectory => Err(
            RuntimeError { msg: lit("usr/share/doc/bootc/baseimage/base is not a directory") },
        ),
    }
}

/// The `/boot` directory should be present, but empty.
pub open spec fn spec_check_boot(root: NodeV) -> OutcomeV {
    match node_at(root, seq!["boot".spec_bytes()]) {
        None => OutcomeV::Fail("Missing /boot directory".spec_bytes()),
        Some(NodeV::Directory { entries }) => if entries.len() == 0 {
            OutcomeV::Pass
        } else {
            OutcomeV::Fail(
                "Found non-empty /boot: ".spec_bytes() + debug_quoted(entries[0].name) + (
                if entries.len() > 1 {
                    " (and ".spec_bytes() + dec_digits((entries.len() - 1) as nat)
                        + " more)".spec_bytes()
                } else {
                    Seq::empty()
                }),
            )
        },
        Some(_) => OutcomeV::Error("boot exists but is not a directory".spec_bytes()),
    }
}

pub fn check_boot(root: &Node) -> (r: LintResult)
    ensures
        outcome_of(r) == spec_check_boot(node_view(*root)),
{
    let boot = lit("boot");
    match node_at1(root, &boot) {
        None => lint_err(lit("Missing /boot directory")),
        Some(n) => match n {
            Node::Directory { entries } => {
                if entries.len() == 0 {
                    proof {
                        crate::fsmodel::lemma_entries_view(entries@);
                    }
                    lint_ok()
                } else {
                    proof {
                        crate::fsmodel::lemma_entries_view(entries@);
                    }
                    let mut msg = lit("Found non-empty /boot: ");
                    let q = debug_quote(&entries[0].name);
                    append_bytes(&mut msg, &q);
                    if entries.len() > 1 {
                        let and = lit(" (and ");
                        append_bytes(&mut msg, &and);
                        let n = format_usize(entries.len() - 1);
                        append_bytes(&mut msg, &n);
                        let more = lit(" more)");
                        append_bytes(&mut msg, &more);
                    }
                    lint_err(msg)
                }
            },
            _ => Err(RuntimeError { msg: lit("boot exists but is not a directory") }),
        },
    }
}

/// Sorted collection of the non-empty regular files below a directory,
/// full paths built from `prefix`; a raw name that is not valid text
/// fails the collection.
pub open spec fn spec_collect(es: Seq<EntryV>, prefix: Seq<u8>, acc: Seq<Seq<u8>>) -> Result<
    Seq<Seq<u8>>,
    Seq<u8>,
>
    decreases es,
{
    if es.len() == 0 {
        Ok(acc)
    } else if !valid_utf8(es[0].name) {
        Err("non-UTF-8 filename in /var/log".spec_bytes())
    } else {
        let p = prefix + "/".spec_bytes() + es[0].name;
        match es[0].node {
            NodeV::Regular { size } => spec_collect(
                es.drop_first(),
                prefix,
                if size > 0 {
                    insert_sorted_spec(acc, p)
                } else {
                    acc
                },
            ),
            NodeV::Directory { entries } => match spec_collect(entries, p, acc) {
                Ok(acc2) => spec_collect(es.drop_first(), prefix, acc2),
                Err(m) => Err(m),
            },
            _ => spec_collect(es.drop_first(), prefix, acc),
        }
    }
}

pub fn collect_nonempty_regfiles(entries: &Vec<Entry>, path: &Vec<u8>, out: &mut Vec<Vec<u8>>) -> (r:
    Result<(), RuntimeError>)
    ensures
        match r {
            Ok(()) => spec_collect(entries_view(entries@), path@, seqs_view(old(out)@))
                == Ok::<Seq<Seq<u8>>, Seq<u8>>(seqs_view(final(out)@)),
            Err(e) => spec_collect(entries_view(entries@), path@, seqs_view(old(out)@))
                == Err::<Seq<Seq<u8>>, Seq<u8>>(e.msg@),
        },
    decreases entries@,
{
    proof {
        crate::fsmodel::lemma_entries_view(entries@);
    }
    let ghost esv = entries_view(entries@);
    let ghost acc0 = seqs_view(out@);
    proof {
        assert(esv.skip(0) =~= esv);
    }
    let mut i: usize = 0;
    while i < entries.len()
        invariant
            i <= entries.len(),
            esv == entries_view(entries@),
            acc0 == seqs_view(old(out)@),
            esv.len() == entries@.len(),
            forall|k: int|
                0 <= k < entries@.len() ==> esv[k] == (EntryV {
                    name: entries@[k].name@,
                    node: node_view(entries@[k].node),
                }),
            spec_collect(esv, path@, acc0) == spec_collect(
                esv.skip(i as int),
                path@,
                seqs_view(out@),
            ),
        decreases entries.len() - i,
    {
        proof {
            assert(esv.skip(i as int)[0] == esv[i as int]);
            assert(esv.skip(i as int).drop_first() =~= esv.skip(i as int + 1));
        }
        let e = &entries[i];
        if !is_utf8(&e.name) {
            return Err(RuntimeError { msg: lit("non-UTF-8 filename in /var/log") });
        }
        let mut p = copy_bytes(path);
        let slash = lit("/");
        append_bytes(&mut p, &slash);
        append_bytes(&mut p, &e.name);
        match &e.node {
            Node::Regular { size } => {
                if *size > 0 {
                    insert_sorted(out, &p);
                }
            },
            Node::Directory { entries: sub } => {
                proof {
                    assert(decreases_to!(entries@ => entries@[i as int]));
                    assert(decreases_to!(entries@[i as int] => entries@[i as int].node));
                    assert(decreases_to!(entries@ => sub@));
                }
                let sr = collect_nonempty_regfiles(sub, &p, out);
                match sr {
                    Ok(()) => {},
                    Err(e) => {
                        return Err(e);
                    },
                }
            },
            _ => {},
        }
        i = i + 1;
    }
    proof {
        assert(esv.skip(i as int).len() == 0);
    }
    Ok(())
}

/// Check for non-empty regular files in `/var/log`.  The violation names
/// the lexicographically least offending path and how many more exist.
pub open spec fn spec_check_varlog(root: NodeV) -> OutcomeV {
    match node_at(root, seq!["var".spec_bytes(), "log".spec_bytes()]) {
        None => OutcomeV::Pass,
        Some(NodeV::Directory { entries }) => match spec_collect(
            entries,
            "/var/log".spec_bytes(),
            Seq::empty(),
        ) {
            Err(m) => OutcomeV::Error(m),
            Ok(files) => if files.len() == 0 {
                OutcomeV::Pass
            } else {
                OutcomeV::Fail(
                    "Found non-empty logfile: ".spec_bytes() + files[0] + (if files.len() > 1 {
                        " (and ".spec_bytes() + dec_digits((files.len() - 1) as nat)
                            + " more)".spec_bytes()
                    } else {
                        Seq::empty()
                    }),
                )
            },
        },
        Some(_) => OutcomeV::Error("var/log exists but is not a directory".spec_bytes()),
    }
}

pub fn check_varlog(root: &Node) -> (r: LintResult)
    ensures
        outcome_of(r) == spec_check_varlog(node_view(*root)),
{
    let mut path: Vec<Vec<u8>> = Vec::new();
    path.push(lit("var"));
    path.push(lit("log"));
    proof {
        assert(path_view(path@) =~= seq!["var".spec_bytes(), "log".spec_bytes()]);
    }
    match node_at_path(root, &path) {
        None => lint_ok(),
        Some(n) => match n {
            Node::Directory { entries } => {
                let mut files: Vec<Vec<u8>> = Vec::new();
                proof {
                    assert(seqs_view(files@) =~= Seq::<Seq<u8>>::empty());
                }
                let base = lit("/var/log");
                match collect_nonempty_regfiles(entries, &base, &mut files) {
                    Err(e) => Err(e),
                    Ok(()) => {
                        if files.len() == 0 {
                            lint_ok()
                        } else {
                            let mut msg = lit("Found non-empty logfile: ");
                            append_bytes(&mut msg, &files[0]);
                            proof {
                                assert(seqs_view(files@)[0] == files@[0]@);
                            }
                            if files.len() > 1 {
                                let and = lit(" (and ");
                                append_bytes(&mut msg, &and);
                                let c = format_usize(files.len() - 1);
                                append_bytes(&mut msg, &c);
                                let more = lit(" more)");
                                append_bytes(&mut msg, &more);
                            }
                            lint_err(msg)
                        }
                    },
                }
            },
            _ => Err(RuntimeError { msg: lit("var/log exists but is not a directory") }),
        },
    }
}

/// The lines showing items `i..k` of a listing, two-space indented, the
/// items optionally quoted.
pub open spec fn sample_lines(items: Seq<Seq<u8>>, i: int, k: int, quote: bool) -> Seq<u8>
    decreases k - i,
{
    if i < k {
        "  ".spec_bytes() + (if quote {
            quoted_path(items[i])
        } else {
            items[i]
        }) + "\n".spec_bytes() + sample_lines(items, i + 1, k, quote)
    } else {
        Seq::empty()
    }
}

/// A block of a violation message: a header, up to five sample items,
/// and a count of the rest; an empty item list yields no block.
pub open spec fn listing_block(header: Seq<u8>, items: Seq<Seq<u8>>, quote: bool) -> Seq<u8> {
    if items.len() == 0 {
        Seq::empty()
    } else {
        let k: int = if items.len() > 5 {
            5
        } else {
            items.len() as int
        };
        header + sample_lines(items, 0, k, quote) + (if items.len() > 5 {
            "  ...and ".spec_bytes() + dec_digits((items.len() - 5) as nat)
                + " more\n".spec_bytes()
        } else {
            Seq::empty()
        })
    }
}

fn append_listing_block(out: &mut Vec<u8>, header: &Vec<u8>, items: &Vec<Vec<u8>>, quote: bool)
    ensures
        final(out)@ == old(out)@ + listing_block(header@, seqs_view(items@), quote),
{
    if items.len() == 0 {
        proof {
            assert(out@ =~= old(out)@ + listing_block(header@, seqs_view(items@), quote));
        }
        return ;
    }
    let ghost target = old(out)@ + listing_block(header@, seqs_view(items@), quote);
    let k: usize = if items.len() > 5 {
        5
    } else {
        items.len()
    };
    let ghost tail = if items@.len() > 5 {
        "  ...and ".spec_bytes() + dec_digits((items@.len() - 5) as nat) + " more\n".spec_bytes()
    } else {
        Seq::<u8>::empty()
    };
    append_bytes(out, header);
    let mut i: usize = 0;
    while i < k
        invariant
            i <= k,
            k <= items.len(),
            target == out@ + sample_lines(seqs_view(items@), i as int, k as int, quote) + tail,
        decreases k - i,
    {
        let two = lit("  ");
        append_bytes(out, &two);
        if quote {
            let q = quote_path(&items[i]);
            append_bytes(out, &q);
        } else {
            append_bytes(out, &items[i]);
        }
        let nl = lit("\n");
        append_bytes(out, &nl);
        proof {
            assert(seqs_view(items@)[i as int] == items@[i as int]@);
        }
        i = i + 1;
    }
    if items.len() > 5 {
        let dots = lit("  ...and ");
        append_bytes(out, &dots);
        let c = format_usize(items.len() - 5);
        append_bytes(out, &c);
        let more = lit(" more\n");
        append_bytes(out, &more);
    }
    proof {
        assert(out@ =~= target);
    }
}

/// Check for content in `/var` that has no systemd tmpfiles.d coverage.
pub open spec fn spec_check_var_tmpfiles(t: Result<TmpfilesReportV, Seq<u8>>) -> OutcomeV {
    match t {
        Err(m) => OutcomeV::Error(m),
        Ok(r) => if r.tmpfiles.len() == 0 && r.unsupported.len() == 0 {
            OutcomeV::Pass
        } else {
            OutcomeV::Fail(
                listing_block(
                    "Found content in /var missing systemd tmpfiles.d entries:\n".spec_bytes(),
                    r.tmpfiles,
                    false,
                ) + listing_block(
                    "Found non-directory/non-symlink files in /var:\n".spec_bytes(),
                    r.unsupported,
                    true,
                ),
            )
        },
    }
}

pub fn check_var_tmpfiles(t: &Result<TmpfilesReport, Vec<u8>>) -> (r: LintResult)
    ensures
        outcome_of(r) == spec_check_var_tmpfiles(
            match *t {
                Ok(ref rep) => Ok(
                    TmpfilesReportV {
                        tmpfiles: seqs_view(rep.tmpfiles@),
                        unsupported: seqs_view(rep.unsupported@),
                    },
                ),
                Err(ref e) => Err(e@),
            },
        ),
{
    match t {
        Err(m) => Err(RuntimeError { msg: copy_bytes(m) }),
        Ok(rep) => {
            if rep.tmpfiles.len() == 0 && rep.unsupported.len() == 0 {
                return lint_ok();
            }
            let mut msg: Vec<u8> = Vec::new();
            let h1 = lit("Found content in /var missing systemd tmpfiles.d entries:\n");
            append_listing_block(&mut msg, &h1, &rep.tmpfiles, false);
            let h2 = lit("Found non-directory/non-symlink files in /var:\n");
            append_listing_block(&mut msg, &h2, &rep.unsupported, true);
            proof {
                assert(Seq::<u8>::empty() + listing_block(
                    h1@,
                    seqs_view(rep.tmpfiles@),
                    false,
                ) + listing_block(h2@, seqs_view(rep.unsupported@), true) =~= listing_block(
                    h1@,
                    seqs_view(rep.tmpfiles@),
                    false,
                ) + listing_block(h2@, seqs_view(rep.unsupported@), true));
            }
            lint_err(msg)
        },
    }
}

/// Check for passwd and group entries without systemd sysusers.d entries.
pub open spec fn spec_check_sysusers(s: Result<SysusersReportV, Seq<u8>>) -> OutcomeV {
    match s {
        Err(m) => OutcomeV::Error(m),
        Ok(r) => if r.missing_users.len() == 0 && r.missing_groups.len() == 0 {
            OutcomeV::Pass
        } else {
            OutcomeV::Fail(
                listing_block(
                    "Found /etc/passwd entry without corresponding systemd sysusers.d:\n".spec_bytes(),
                    r.missing_users,
                    false,
                ) + listing_block(
                    "Found /etc/group entry without corresponding systemd sysusers.d:\n".spec_bytes(),
                    r.missing_groups,
                    false,
                ),
            )
        },
    }
}

pub fn check_sysusers(s: &Result<SysusersReport, Vec<u8>>) -> (r: LintResult)
    ensures
        outcome_of(r) == spec_check_sysusers(
            match *s {
                Ok(ref rep) => Ok(
                    SysusersReportV {
                        missing_users: seqs_view(rep.missing_users@),
                        missing_groups: seqs_view(rep.missing_groups@),
                    },
                ),
                Err(ref e) => Err(e@),
            },
        ),
{
    match s {
        Err(m) => Err(RuntimeError { msg: copy_bytes(m) }),
        Ok(rep) => {
            if rep.missing_users.len() == 0 && rep.missing_groups.len() == 0 {
                return lint_ok();
            }
            let mut msg: Vec<u8> = Vec::new();
            let h1 = lit("Found /etc/passwd entry without corresponding systemd sysusers.d:\n");
            append_listing_block(&mut msg, &h1, &rep.missing_users, false);
            let h2 = lit("Found /etc/group entry without corresponding systemd sysusers.d:\n");
            append_listing_block(&mut msg, &h2, &rep.missing_groups, false);
            proof {
                assert(Seq::<u8>::empty() + listing_block(
                    h1@,
                    seqs_view(rep.missing_users@),
                    false,
                ) + listing_block(h2@, seqs_view(rep.missing_groups@), false) =~= listing_block(
                    h1@,
                    seqs_view(rep.missing_users@),
                    false,
                ) + listing_block(h2@, seqs_view(rep.missing_groups@), false));
            }
            lint_err(msg)
        },
    }
}

/// How a directory path is shown at the front of a message: the scan
/// root shows as `/`, anything else is quoted only when needed.
pub open spec fn display_dir(dir: Seq<u8>) -> Seq<u8> {
    if dir.len() == 0 {
        "/".spec_bytes()
    } else {
        quoted_path(dir)
    }
}

/// The full path of an entry under a directory.
pub open spec fn joined(dir: Seq<u8>, name: Seq<u8>) -> Seq<u8> {
    dir + "/".spec_bytes() + name
}

/// Check one visited entry for a non-UTF-8 name, and for a symlink, a
/// non-UTF-8 target; the name is checked first.
pub open spec fn spec_check_utf8(dir: Seq<u8>, e: EntryV) -> OutcomeV {
    if !valid_utf8(e.name) {
        OutcomeV::Fail(
            display_dir(dir) + ": Found non-utf8 filename ".spec_bytes() + debug_quoted(e.name),
        )
    } else {
        match e.node {
            NodeV::Symlink { target } => if !valid_utf8(target) {
                OutcomeV::Fail(
                    quoted_path(joined(dir, e.name))
                        + ": Found non-utf8 symlink target".spec_bytes(),
                )
            } else {
                OutcomeV::Pass
            },
            _ => OutcomeV::Pass,
        }
    }
}

pub fn check_utf8(dir: &Vec<u8>, e: &Entry) -> (r: LintResult)
    ensures
        outcome_of(r) == spec_check_utf8(
            dir@,
            EntryV { name: e.name@, node: node_view(e.node) },
        ),
{
    if !is_utf8(&e.name) {
        let mut msg = if dir.len() == 0 {
            lit("/")
        } else {
            quote_path(dir)
        };
        let mid = lit(": Found non-utf8 filename ");
        append_bytes(&mut msg, &mid);
        let q = debug_quote(&e.name);
        append_bytes(&mut msg, &q);
        return lint_err(msg);
    }
    match &e.node {
        Node::Symlink { target } => {
            if !is_utf8(target) {
                let mut p = copy_bytes(dir);
                let slash = lit("/");
                append_bytes(&mut p, &slash);
                append_bytes(&mut p, &e.name);
                let mut msg = quote_path(&p);
                let tailmsg = lit(": Found non-utf8 symlink target");
                append_bytes(&mut msg, &tailmsg);
                lint_err(msg)
            } else {
                lint_ok()
            }
        },
        _ => lint_ok(),
    }
}

} // verus!
