use bootc_lints::checks::check_utf8;
use bootc_lints::delegates::{Delegates, SysusersReport, TmpfilesReport};
use bootc_lints::engine::{lint, lint_inner};
use bootc_lints::fsmodel::{Entry, Node};
use bootc_lints::lints::{RootType, WarningDisposition};

fn dir(entries: Vec<Entry>) -> Node {
    Node::Directory { entries }
}

fn ent(name: &[u8], node: Node) -> Entry {
    Entry { name: name.to_vec(), node }
}

fn file(size: u64) -> Node {
    Node::Regular { size }
}

fn symlink(target: &[u8]) -> Node {
    Node::Symlink { target: target.to_vec() }
}

fn passing_fixture() -> Node {
    dir(vec![
        ent(b"dev", dir(vec![])),
        ent(b"proc", dir(vec![])),
        ent(b"sys", dir(vec![])),
        ent(b"run", dir(vec![])),
        ent(b"tmp", dir(vec![])),
        ent(b"var", dir(vec![])),
        ent(
            b"usr",
            dir(vec![ent(
                b"lib",
                dir(vec![ent(
                    b"modules",
                    dir(vec![ent(b"5.7.2", dir(vec![ent(b"vmlinuz", file(7))]))]),
                )]),
            )]),
        ),
        ent(b"boot", dir(vec![])),
        ent(b"sysroot", dir(vec![])),
        ent(b"ostree", symlink(b"sysroot/ostree")),
    ])
}

fn passing_delegates() -> Delegates {
    Delegates {
        kernel: Ok(Some(b"5.7.2".to_vec())),
        kargs: Ok(vec![]),
        tmpfiles: Ok(TmpfilesReport { tmpfiles: vec![], unsupported: vec![] }),
        sysusers: Ok(SysusersReport { missing_users: vec![], missing_groups: vec![] }),
        prepareroot: Ok(Some(true)),
        prepareroot_baseimage: Ok(None),
    }
}

/// A clean root passes with zero warnings and fatal violations, and the
/// transcript holds the summary alone.
#[test]
fn clean_root_passes() {
    let root = passing_fixture();
    let d = passing_delegates();
    let mut out: Vec<u8> = Vec::new();
    let r = lint_inner(&root, &d, RootType::Alternative, &vec![], &mut out).unwrap();
    assert_eq!(r.fatal, 0);
    assert_eq!(r.warnings, 0);
    assert_eq!(out, b"");
}

/// The skipped tally counts skip-set names plus root-type mismatches; a
/// name no lint carries counts for nothing.
#[test]
fn skip_list_counts() {
    let root = passing_fixture();
    let d = passing_delegates();
    let mut out: Vec<u8> = Vec::new();
    let skip = vec![b"var-run".to_vec(), b"no-such-lint".to_vec()];
    // Under the alternative root type, var-tmpfiles is skipped too.
    let r = lint_inner(&root, &d, RootType::Alternative, &skip, &mut out).unwrap();
    assert_eq!(r.skipped, 2);
    assert_eq!(r.fatal, 0);
}

/// A lint restricted to the alternative root is always skipped when the
/// running root is scanned, and vice versa.
#[test]
fn root_type_filtering() {
    let root = passing_fixture();
    let d = passing_delegates();
    let mut out: Vec<u8> = Vec::new();
    // buildah-injected (alternative-only) is skipped under Running.
    let r = lint_inner(&root, &d, RootType::Running, &vec![], &mut out).unwrap();
    assert_eq!(r.skipped, 1);
    // var-tmpfiles (running-only) is skipped under Alternative.
    let mut out: Vec<u8> = Vec::new();
    let r = lint_inner(&root, &d, RootType::Alternative, &vec![], &mut out).unwrap();
    assert_eq!(r.skipped, 1);
}

/// First failure wins: two independently violating nodes for the same
/// per-node rule yield exactly one reported violation.
#[test]
fn first_failure_wins() {
    let mut root = passing_fixture();
    match &mut root {
        Node::Directory { entries } => {
            entries.push(ent(b"aaa\xff", file(3)));
            entries.push(ent(b"zzz\xff", file(3)));
        }
        _ => unreachable!(),
    }
    let d = passing_delegates();
    let mut out: Vec<u8> = Vec::new();
    let r = lint_inner(&root, &d, RootType::Alternative, &vec![], &mut out).unwrap();
    assert_eq!(r.fatal, 1);
    let text = String::from_utf8(out).unwrap();
    assert_eq!(text.matches("Failed lint: utf8").count(), 1);
    assert!(text.contains(r#"/: Found non-utf8 filename "aaa\xFF""#));
}

/// Two runs over byte-identical trees with identical arguments produce
/// byte-identical transcripts.
#[test]
fn deterministic_transcripts() {
    let d = passing_delegates();
    let mut out1: Vec<u8> = Vec::new();
    let mut out2: Vec<u8> = Vec::new();
    let root1 = passing_fixture();
    let root2 = passing_fixture();
    let r1 = lint(&root1, &d, WarningDisposition::AllowWarnings, RootType::Alternative, &vec![], &mut out1);
    let r2 = lint(&root2, &d, WarningDisposition::AllowWarnings, RootType::Alternative, &vec![], &mut out2);
    assert_eq!(out1, out2);
    assert_eq!(r1.is_ok(), r2.is_ok());
}

/// A physical /var/run directory is a fatal violation naming the path;
/// removing it restores a passing result.
#[test]
fn var_run_physical_directory() {
    let mut root = passing_fixture();
    match &mut root {
        Node::Directory { entries } => {
            for e in entries.iter_mut() {
                if e.name == b"var" {
                    e.node = dir(vec![ent(b"run", dir(vec![]))]);
                }
            }
        }
        _ => unreachable!(),
    }
    let d = passing_delegates();
    let mut out: Vec<u8> = Vec::new();
    let r = lint_inner(&root, &d, RootType::Alternative, &vec![], &mut out).unwrap();
    assert_eq!(r.fatal, 1);
    let text = String::from_utf8(out).unwrap();
    assert!(text.contains("Failed lint: var-run"));
    assert!(text.contains("var/run"));
    // Remove the directory: passing again.
    match &mut root {
        Node::Directory { entries } => {
            for e in entries.iter_mut() {
                if e.name == b"var" {
                    e.node = dir(vec![]);
                }
            }
        }
        _ => unreachable!(),
    }
    let mut out: Vec<u8> = Vec::new();
    let r = lint_inner(&root, &d, RootType::Alternative, &vec![], &mut out).unwrap();
    assert_eq!(r.fatal, 0);
}

/// Two non-empty log files: the message names the lexicographically
/// least path and counts the rest.
#[test]
fn varlog_two_files() {
    let mut root = passing_fixture();
    match &mut root {
        Node::Directory { entries } => {
            for e in entries.iter_mut() {
                if e.name == b"var" {
                    e.node = dir(vec![ent(
                        b"log",
                        dir(vec![
                            ent(b"app.log", file(10)),
                            ent(b"app2", dir(vec![ent(b"info.log", file(5))])),
                        ]),
                    )]);
                }
            }
        }
        _ => unreachable!(),
    }
    let d = passing_delegates();
    let mut out: Vec<u8> = Vec::new();
    let r = lint_inner(&root, &d, RootType::Alternative, &vec![], &mut out).unwrap();
    assert_eq!(r.warnings, 1);
    let text = String::from_utf8(out).unwrap();
    assert!(text.contains("Lint warning: var-log: Found non-empty logfile: /var/log/app.log (and 1 more)"));
}

/// A non-UTF-8 name is a fatal violation naming the parent path and the
/// escaped raw name; a valid symlink whose target is not UTF-8 is a
/// distinct violation citing the symlink's own path.
#[test]
fn non_utf8_name_and_target() {
    let e = ent(b"bad\xffdir", dir(vec![]));
    let r = check_utf8(&b"/subdir/2".to_vec(), &e).unwrap().unwrap_err();
    assert_eq!(
        String::from_utf8(r.msg).unwrap(),
        r#"/subdir/2: Found non-utf8 filename "bad\xFFdir""#
    );
    let e = ent(b"good-name", symlink(b"regular\xff"));
    let r = check_utf8(&b"/subdir".to_vec(), &e).unwrap().unwrap_err();
    assert_eq!(
        String::from_utf8(r.msg).unwrap(),
        "/subdir/good-name: Found non-utf8 symlink target"
    );
    // The name is checked before the target.
    let e = ent(b"regular\xff", symlink(b"regular\xff"));
    let r = check_utf8(&Vec::new(), &e).unwrap().unwrap_err();
    assert_eq!(
        String::from_utf8(r.msg).unwrap(),
        r#"/: Found non-utf8 filename "regular\xFF""#
    );
}

/// Adversarial symlinks: self-referential, parent-relative, broken and
/// escaping links are leaves of the snapshot, and the run completes.
#[test]
fn adversarial_symlinks() {
    let mut root = passing_fixture();
    match &mut root {
        Node::Directory { entries } => {
            entries.push(ent(b"self", symlink(b"self")));
            entries.push(ent(b"subdir", dir(vec![ent(b"parent", symlink(b".."))])));
            entries.push(ent(b"broken", symlink(b"does-not-exist")));
            entries.push(ent(b"escape", symlink(b"../../x")));
        }
        _ => unreachable!(),
    }
    let d = passing_delegates();
    let mut out: Vec<u8> = Vec::new();
    let r = lint_inner(&root, &d, RootType::Alternative, &vec![], &mut out).unwrap();
    assert_eq!(r.fatal, 0);
    assert_eq!(r.warnings, 0);
}

/// A failing delegate aborts the whole run, naming the offending lint.
#[test]
fn delegate_failure_aborts() {
    let root = passing_fixture();
    let mut d = passing_delegates();
    d.kargs = Err(b"kargs.d is unreadable".to_vec());
    let mut out: Vec<u8> = Vec::new();
    let e = lint_inner(&root, &d, RootType::Alternative, &vec![], &mut out).unwrap_err();
    assert_eq!(
        String::from_utf8(e.msg).unwrap(),
        "Unexpected runtime error running lint bootc-kargs: kargs.d is unreadable"
    );
}

/// The tmpfiles report shows at most five samples and counts the rest.
#[test]
fn tmpfiles_listing() {
    let root = passing_fixture();
    let mut d = passing_delegates();
    d.tmpfiles = Ok(TmpfilesReport {
        tmpfiles: vec![
            b"d /var/a".to_vec(),
            b"d /var/b".to_vec(),
            b"d /var/c".to_vec(),
            b"d /var/d".to_vec(),
            b"d /var/e".to_vec(),
            b"d /var/f".to_vec(),
            b"d /var/g".to_vec(),
        ],
        unsupported: vec![],
    });
    let mut out: Vec<u8> = Vec::new();
    let r = lint_inner(&root, &d, RootType::Running, &vec![], &mut out).unwrap();
    assert_eq!(r.warnings, 1);
    let text = String::from_utf8(out).unwrap();
    assert!(text.contains("Found content in /var missing systemd tmpfiles.d entries:"));
    assert!(text.contains("  d /var/e\n"));
    assert!(!text.contains("  d /var/f\n"));
    assert!(text.contains("  ...and 2 more\n"));
}

/// Warnings count toward the verdict exactly when the disposition makes
/// them fatal.
#[test]
fn warning_disposition() {
    let mut root = passing_fixture();
    match &mut root {
        Node::Directory { entries } => {
            for e in entries.iter_mut() {
                if e.name == b"boot" {
                    e.node = dir(vec![ent(b"grub", dir(vec![]))]);
                }
            }
        }
        _ => unreachable!(),
    }
    let d = passing_delegates();
    let mut out: Vec<u8> = Vec::new();
    lint(&root, &d, WarningDisposition::AllowWarnings, RootType::Alternative, &vec![], &mut out)
        .unwrap();
    let text = String::from_utf8(out).unwrap();
    assert!(text.contains("Lint warning: nonempty-boot"));
    assert!(text.contains("Warnings: 1\n"));
    let mut out: Vec<u8> = Vec::new();
    assert!(lint(
        &root,
        &d,
        WarningDisposition::FatalWarnings,
        RootType::Alternative,
        &vec![],
        &mut out
    )
    .is_err());
}
