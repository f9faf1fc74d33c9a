use bootc_lints::checks::{
    check_api_dirs, check_baseimage_root, check_boot, check_buildah_injected, check_composefs,
    check_kernel, check_parse_kargs, check_usretc, check_var_run, check_varlog,
};
use bootc_lints::delegates::{Delegates, SysusersReport, TmpfilesReport};
use bootc_lints::engine::{lint, lint_inner, lint_list};
use bootc_lints::fsmodel::{Entry, Node};
use bootc_lints::lints::{lints, RootType, WarningDisposition};

fn dir0() -> Node {
    Node::Directory { entries: vec![] }
}

fn file(size: u64) -> Node {
    Node::Regular { size }
}

fn symlink(target: &[u8]) -> Node {
    Node::Symlink { target: target.to_vec() }
}

/// Create the node at `path`, creating intermediate directories.
fn insert(node: &mut Node, path: &[&[u8]], leaf: Node) {
    match node {
        Node::Directory { entries } => {
            if path.len() == 1 {
                entries.push(Entry { name: path[0].to_vec(), node: leaf });
                return;
            }
            for e in entries.iter_mut() {
                if e.name == path[0] {
                    insert(&mut e.node, &path[1..], leaf);
                    return;
                }
            }
            let mut d = dir0();
            insert(&mut d, &path[1..], leaf);
            entries.push(Entry { name: path[0].to_vec(), node: d });
        }
        _ => panic!("not a directory"),
    }
}

fn remove(node: &mut Node, path: &[&[u8]]) {
    match node {
        Node::Directory { entries } => {
            if path.len() == 1 {
                entries.retain(|e| e.name != path[0]);
                return;
            }
            for e in entries.iter_mut() {
                if e.name == path[0] {
                    remove(&mut e.node, &path[1..]);
                    return;
                }
            }
        }
        _ => panic!("not a directory"),
    }
}

fn fixture() -> Node {
    dir0()
}

fn passing_fixture() -> Node {
    let mut root = dir0();
    for d in [b"dev" as &[u8], b"proc", b"sys", b"run", b"tmp", b"var"] {
        insert(&mut root, &[d], dir0());
    }
    insert(&mut root, &[b"usr", b"lib", b"modules", b"5.7.2", b"vmlinuz"], file(7));
    insert(&mut root, &[b"boot"], dir0());
    insert(&mut root, &[b"sysroot"], dir0());
    insert(&mut root, &[b"ostree"], symlink(b"sysroot/ostree"));
    root
}

fn passing_delegates() -> Delegates {
    Delegates {
        kernel: Ok(Some(b"5.7.2".to_vec())),
        kargs: Ok(vec![]),
        tmpfiles: Ok(TmpfilesReport { tmpfiles: vec![], unsupported: vec![] }),
        sysusers: Ok(SysusersReport { missing_users: vec![], missing_groups: vec![] }),
        prepareroot: Ok(Some(true)),
        prepareroot_baseimage: Ok(None),
    }
}

fn msg(e: bootc_lints::outcome::LintError) -> String {
    String::from_utf8(e.msg).unwrap()
}

#[test]
fn test_var_run() {
    let mut root = fixture();
    // This one should pass
    check_var_run(&root).unwrap().unwrap();
    insert(&mut root, &[b"var", b"run", b"foo"], dir0());
    assert!(check_var_run(&root).unwrap().is_err());
    remove(&mut root, &[b"var", b"run"]);
    // Now we should pass again
    check_var_run(&root).unwrap().unwrap();
}

#[test]
fn test_api() {
    let mut root = passing_fixture();
    // This one should pass
    check_api_dirs(&root).unwrap().unwrap();
    remove(&mut root, &[b"var"]);
    assert!(check_api_dirs(&root).unwrap().is_err());
    insert(&mut root, &[b"var"], file(14));
    assert!(check_api_dirs(&root).unwrap().is_err());
}

#[test]
fn test_lint_main() {
    let mut root = passing_fixture();
    let d = passing_delegates();
    let warnings = WarningDisposition::FatalWarnings;
    let root_type = RootType::Alternative;
    let mut out: Vec<u8> = Vec::new();
    lint(&root, &d, warnings, root_type, &vec![], &mut out).unwrap();
    insert(&mut root, &[b"var", b"run", b"foo"], dir0());
    let mut out: Vec<u8> = Vec::new();
    assert!(lint(&root, &d, warnings, root_type, &vec![], &mut out).is_err());
}

#[test]
fn test_lint_inner() {
    let mut root = passing_fixture();
    let d = passing_delegates();
    let root_type = RootType::Alternative;
    let altroot_lints = lints()
        .iter()
        .filter(|l| l.root_type != Some(RootType::Running))
        .count();
    let running_only_lints = lints().len() - altroot_lints;

    // Verify that all lints run
    let mut out: Vec<u8> = Vec::new();
    let r = lint_inner(&root, &d, root_type, &vec![], &mut out).unwrap();
    assert_eq!(r.warnings, 0);
    assert_eq!(r.fatal, 0);
    assert_eq!(r.skipped, running_only_lints);
    assert_eq!(r.passed, altroot_lints);

    let r = lint_inner(&root, &d, root_type, &vec![b"var-log".to_vec()], &mut out).unwrap();
    // Trigger a failure in var-log
    insert(&mut root, &[b"var", b"log", b"dnf", b"dnf.log"], file(13));
    assert_eq!(r.passed, altroot_lints - 1);
    assert_eq!(r.fatal, 0);
    assert_eq!(r.skipped, running_only_lints + 1);
    assert_eq!(r.warnings, 0);

    // But verify that not skipping it results in a warning
    let mut out: Vec<u8> = Vec::new();
    let r = lint_inner(&root, &d, root_type, &vec![], &mut out).unwrap();
    assert_eq!(r.passed, altroot_lints - 1);
    assert_eq!(r.fatal, 0);
    assert_eq!(r.skipped, running_only_lints);
    assert_eq!(r.warnings, 1);
}

#[test]
fn test_kernel_lint() {
    // This one should pass: no kernel directory at all, or exactly one
    check_kernel(&Ok(None)).unwrap().unwrap();
    check_kernel(&Ok(Some(b"usr/lib/modules/5.7.2".to_vec()))).unwrap().unwrap();
    // Two kernels: the finder fails
    let two = Err(b"multiple kernel directories: usr/lib/modules/5.7.2, usr/lib/modules/6.3.1"
        .to_vec());
    assert!(check_kernel(&two).is_err());
    // Back to one kernel: we should pass again
    check_kernel(&Ok(Some(b"usr/lib/modules/6.3.1".to_vec()))).unwrap().unwrap();
}

#[test]
fn test_kargs() {
    check_parse_kargs(&Ok(vec![])).unwrap().unwrap();
    // usr/lib/bootc/kargs.d is not a directory: the parser fails
    let bad = Err(b"usr/lib/bootc/kargs.d: not a directory".to_vec());
    assert!(check_parse_kargs(&bad).is_err());
}

#[test]
fn test_usr_etc() {
    let mut root = fixture();
    // This one should pass
    check_usretc(&root).unwrap().unwrap();
    insert(&mut root, &[b"etc"], dir0());
    insert(&mut root, &[b"usr", b"etc"], dir0());
    assert!(check_usretc(&root).unwrap().is_err());
    remove(&mut root, &[b"etc"]);
    // Now we should pass again
    check_usretc(&root).unwrap().unwrap();
}

#[test]
fn test_varlog() {
    let mut root = fixture();
    check_varlog(&root).unwrap().unwrap();
    insert(&mut root, &[b"var", b"log"], dir0());
    check_varlog(&root).unwrap().unwrap();
    insert(
        &mut root,
        &[b"var", b"log", b"README"],
        symlink(b"../../usr/share/doc/systemd/README.logs"),
    );
    check_varlog(&root).unwrap().unwrap();

    insert(&mut root, &[b"var", b"log", b"somefile.log"], file(12));
    let e = check_varlog(&root).unwrap().unwrap_err();
    assert_eq!(msg(e), "Found non-empty logfile: /var/log/somefile.log");

    insert(&mut root, &[b"var", b"log", b"someproject", b"audit.log"], file(9));
    insert(&mut root, &[b"var", b"log", b"someproject", b"info.log"], file(4));
    let e = check_varlog(&root).unwrap().unwrap_err();
    assert_eq!(msg(e), "Found non-empty logfile: /var/log/somefile.log (and 2 more)");
}

#[test]
fn test_boot() {
    let mut root = passing_fixture();
    check_boot(&root).unwrap().unwrap();
    insert(&mut root, &[b"boot", b"somesubdir"], dir0());
    let e = check_boot(&root).unwrap().unwrap_err();
    assert!(msg(e).contains("somesubdir"));
}

#[test]
fn test_baseimage_root() {
    let td = fixture();
    // An empty root should fail our test
    assert!(check_baseimage_root(&td).unwrap().is_err());

    let td = passing_fixture();
    check_baseimage_root(&td).unwrap().unwrap();
}

#[test]
fn test_composefs() {
    let td = fixture();
    // An empty root carries no prepare-root configuration at all
    let mut d = passing_delegates();
    d.prepareroot = Ok(None);
    assert!(check_composefs(&td, &d).unwrap().is_err());

    let td = passing_fixture();
    check_baseimage_root(&td).unwrap().unwrap();

    // A configuration with composefs disabled
    let mut d = passing_delegates();
    d.prepareroot = Ok(Some(false));
    assert!(check_composefs(&td, &d).unwrap().is_err());
}

#[test]
fn test_buildah_injected() {
    let mut td = fixture();
    insert(&mut td, &[b"etc"], dir0());
    assert!(check_buildah_injected(&td).unwrap().is_ok());
    insert(&mut td, &[b"etc", b"hostname"], file(0));
    assert!(check_buildah_injected(&td).unwrap().is_err());
    remove(&mut td, &[b"etc", b"hostname"]);
    insert(&mut td, &[b"etc", b"hostname"], file(20));
    assert!(check_buildah_injected(&td).unwrap().is_ok());
}

#[test]
fn test_list() {
    let mut r: Vec<u8> = Vec::new();
    lint_list(&mut r);
    let parsed: Vec<serde_yaml::Value> = serde_yaml::from_slice(&r).unwrap();
    assert_eq!(parsed.len(), lints().len());
}

/// Drive one per-node check over a snapshot, first failure winning, the
/// way the engine's shared walk does.
fn run_recursive_lint(
    node: &Node,
    dir: &[u8],
) -> Result<(), bootc_lints::outcome::LintError> {
    if let Node::Directory { entries } = node {
        for e in entries {
            match bootc_lints::checks::check_utf8(&dir.to_vec(), e).unwrap() {
                Ok(()) => {}
                Err(err) => return Err(err),
            }
            if let Node::Directory { .. } = e.node {
                let mut p = dir.to_vec();
                p.push(b'/');
                p.extend_from_slice(&e.name);
                run_recursive_lint(&e.node, &p)?;
            }
        }
    }
    Ok(())
}

#[test]
fn test_non_utf8() {
    let mut root = fixture();

    // Adversarial symlink situations must not break the walk.
    insert(&mut root, &[b"subdir"], dir0());
    // Self-referential symlinks
    insert(&mut root, &[b"self"], symlink(b"self"));
    // Infinitely looping dir symlinks
    insert(&mut root, &[b"subdir", b"parent"], symlink(b".."));
    // Broken symlinks
    insert(&mut root, &[b"broken"], symlink(b"does-not-exist"));
    // Out-of-scope symlinks
    insert(&mut root, &[b"escape"], symlink(b"../../x"));
    // Should be fine
    run_recursive_lint(&root, b"").unwrap();

    // But this will cause an issue
    insert(&mut root, &[b"subdir", b"2", b"bad\xffdir"], dir0());
    let err = run_recursive_lint(&root, b"").unwrap_err();
    assert_eq!(
        String::from_utf8(err.msg).unwrap(),
        r#"/subdir/2: Found non-utf8 filename "bad\xFFdir""#
    );
    remove(&mut root, &[b"subdir", b"2", b"bad\xffdir"]); // Get rid of the problem
    run_recursive_lint(&root, b"").unwrap(); // Check it

    // Create a new problem in the form of a regular file
    insert(&mut root, &[b"regular\xff"], file(14));
    let err = run_recursive_lint(&root, b"").unwrap_err();
    assert_eq!(
        String::from_utf8(err.msg).unwrap(),
        r#"/: Found non-utf8 filename "regular\xFF""#
    );
    remove(&mut root, &[b"regular\xff"]); // Get rid of the problem
    run_recursive_lint(&root, b"").unwrap(); // Check it

    // And now test invalid symlink targets
    insert(&mut root, &[b"subdir", b"good-name"], symlink(b"regular\xff"));
    let err = run_recursive_lint(&root, b"").unwrap_err();
    assert_eq!(
        String::from_utf8(err.msg).unwrap(),
        r#"/subdir/good-name: Found non-utf8 symlink target"#
    );
    remove(&mut root, &[b"subdir", b"good-name"]); // Get rid of the problem
    run_recursive_lint(&root, b"").unwrap(); // Check it

    // Finally, test a self-referential symlink with an invalid name.
    // We should spot the invalid name before we check the target.
    insert(&mut root, &[b"regular\xff"], symlink(b"regular\xff"));
    let err = run_recursive_lint(&root, b"").unwrap_err();
    assert_eq!(
        String::from_utf8(err.msg).unwrap(),
        r#"/: Found non-utf8 filename "regular\xFF""#
    );
    remove(&mut root, &[b"regular\xff"]); // Get rid of the problem
    run_recursive_lint(&root, b"").unwrap(); // Check it
}
