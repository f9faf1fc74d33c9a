//! The lint records and the registry.
//!
//! A lint is an immutable declarative record: a globally unique name (the
//! display and skip-list key, and the canonical ordering key for all
//! output), a severity, an optional restriction to one root type, a
//! description, and a check of one of two shapes — whole-tree or
//! per-node.  The registry is a build-time table, enumerated in canonical
//! name order.

use vstd::prelude::*;
use vstd::string::StringSliceAdditionalSpecFns;

use crate::bytestr::lit;

verus! {

/// The classification of a lint type.
#[derive(Clone, Copy, Debug, PartialEq, Eq, Structural)]
pub enum LintType {
    /// If this fails, it is known to be fatal - the system will not
    /// install or is effectively guaranteed to fail at runtime.
    Fatal,
    /// This is not a fatal problem, but something you likely want to fix.
    Warning,
}

/// Whether warning-severity violations count toward the failure verdict.
#[derive(Clone, Copy, Debug)]
pub enum WarningDisposition {
    AllowWarnings,
    FatalWarnings,
}

/// Which root the scan targets: the running system's root, or an
/// alternative root taken from a container image.
#[derive(Clone, Copy, Debug, PartialEq, Eq, Structural)]
pub enum RootType {
    Running,
    Alternative,
}

/// The whole-tree checks, by identity.
#[derive(Clone, Copy, Debug, PartialEq, Eq, Structural)]
pub enum RegularCheck {
    VarRun,
    BuildahInjected,
    EtcUsrEtc,
    Kargs,
    Kernel,
    ApiDirs,
    Composefs,
    BaseimageRoot,
    VarLog,
    VarTmpfiles,
    Sysusers,
    NonemptyBoot,
}

/// The per-node checks, by identity.
#[derive(Clone, Copy, Debug, PartialEq, Eq, Structural)]
pub enum RecursiveCheck {
    Utf8,
}

/// A lint can either operate as it pleases on a target root, or it can
/// be recursive: invoked once per node of the single shared traversal.
#[derive(Clone, Copy, Debug, PartialEq, Eq, Structural)]
pub enum LintFnTy {
    /// A lint that doesn't traverse the whole filesystem.
    Regular(RegularCheck),
    /// A recursive lint.
    Recursive(RecursiveCheck),
}

/// One registered lint.
pub struct Lint {
    pub name: Vec<u8>,
    pub ty: LintType,
    pub f: LintFnTy,
    pub description: Vec<u8>,
    /// Set if this only applies to a specific root type.
    pub root_type: Option<RootType>,
}

/// Mathematical mirror of a [`Lint`].
#[verifier::ext_equal]
pub struct LintV {
    pub name: Seq<u8>,
    pub ty: LintType,
    pub f: LintFnTy,
    pub description: Seq<u8>,
    pub root_type: Option<RootType>,
}

pub open spec fn lint_view(l: Lint) -> LintV {
    LintV {
        name: l.name@,
        ty: l.ty,
        f: l.f,
        description: l.description@,
        root_type: l.root_type,
    }
}

pub open spec fn lints_view(s: Seq<Lint>) -> Seq<LintV> {
    Seq::new(s.len(), |i: int| lint_view(s[i]))
}

impl Lint {
    pub fn new_fatal(name: Vec<u8>, description: Vec<u8>, f: RegularCheck) -> (r: Self)
        ensures
            lint_view(r) == (LintV {
                name: name@,
                ty: LintType::Fatal,
                f: LintFnTy::Regular(f),
                description: description@,
                root_type: None,
            }),
    {
        Lint { name, ty: LintType::Fatal, f: LintFnTy::Regular(f), description, root_type: None }
    }

    pub fn new_warning(name: Vec<u8>, description: Vec<u8>, f: RegularCheck) -> (r: Self)
        ensures
            lint_view(r) == (LintV {
                name: name@,
                ty: LintType::Warning,
                f: LintFnTy::Regular(f),
                description: description@,
                root_type: None,
            }),
    {
        Lint { name, ty: LintType::Warning, f: LintFnTy::Regular(f), description, root_type: None }
    }

    pub fn set_root_type(self, v: RootType) -> (r: Self)
        ensures
            lint_view(r) == (LintV { root_type: Some(v), ..lint_view(self) }),
    {
        Lint {
            name: self.name,
            ty: self.ty,
            f: self.f,
            description: self.description,
            root_type: Some(v),
        }
    }
}

/// The compiled-in registry, in canonical name order.
#[verifier::opaque]
pub open spec fn spec_registry() -> Seq<LintV> {
    seq![
        LintV {
            name: "api-base-directories".spec_bytes(),
            ty: LintType::Fatal,
            f: LintFnTy::Regular(RegularCheck::ApiDirs),
            description: "Verify that expected base API directories exist, including /var.".spec_bytes(),
            root_type: None,
        },
        LintV {
            name: "baseimage-composefs".spec_bytes(),
            ty: LintType::Warning,
            f: LintFnTy::Regular(RegularCheck::Composefs),
            description: "Check that composefs is enabled for ostree.".spec_bytes(),
            root_type: None,
        },
        LintV {
            name: "baseimage-root".spec_bytes(),
            ty: LintType::Fatal,
            f: LintFnTy::Regular(RegularCheck::BaseimageRoot),
            description: "Check that expected files are present in the root of the filesystem, such as /sysroot and an ostree -> sysroot/ostree link.".spec_bytes(),
            root_type: None,
        },
        LintV {
            name: "bootc-kargs".spec_bytes(),
            ty: LintType::Fatal,
            f: LintFnTy::Regular(RegularCheck::Kargs),
            description: "Verify syntax of /usr/lib/bootc/kargs.d.".spec_bytes(),
            root_type: None,
        },
        LintV {
            name: "buildah-injected".spec_bytes(),
            ty: LintType::Warning,
            f: LintFnTy::Regular(RegularCheck::BuildahInjected),
            description: "Check for an invalid /etc/hostname or /etc/resolv.conf that may have been injected by a container build system.".spec_bytes(),
            root_type: Some(RootType::Alternative),
        },
        LintV {
            name: "etc-usretc".spec_bytes(),
            ty: LintType::Fatal,
            f: LintFnTy::Regular(RegularCheck::EtcUsrEtc),
            description: "Verify that only one of /etc or /usr/etc exist; having both causes undefined behavior.".spec_bytes(),
            root_type: None,
        },
        LintV {
            name: "kernel".spec_bytes(),
            ty: LintType::Fatal,
            f: LintFnTy::Regular(RegularCheck::Kernel),
            description: "Check for multiple kernels; only one kernel is supported in an image.".spec_bytes(),
            root_type: None,
        },
        LintV {
            name: "nonempty-boot".spec_bytes(),
            ty: LintType::Warning,
            f: LintFnTy::Regular(RegularCheck::NonemptyBoot),
            description: "The /boot directory should be present, but empty; kernel content belongs in /usr/lib/modules.".spec_bytes(),
            root_type: None,
        },
        LintV {
            name: "sysusers".spec_bytes(),
            ty: LintType::Warning,
            f: LintFnTy::Regular(RegularCheck::Sysusers),
            description: "Check for users in /etc/passwd and groups in /etc/group that do not have corresponding systemd sysusers.d entries.".spec_bytes(),
            root_type: None,
        },
        LintV {
            name: "utf8".spec_bytes(),
            ty: LintType::Fatal,
            f: LintFnTy::Recursive(RecursiveCheck::Utf8),
            description: "Check for non-UTF8 filenames, which the ostree backend does not support.".spec_bytes(),
            root_type: None,
        },
        LintV {
            name: "var-log".spec_bytes(),
            ty: LintType::Warning,
            f: LintFnTy::Regular(RegularCheck::VarLog),
            description: "Check for non-empty regular files in /var/log; shipping log files in container images is usually undesired.".spec_bytes(),
            root_type: None,
        },
        LintV {
            name: "var-run".spec_bytes(),
            ty: LintType::Fatal,
            f: LintFnTy::Regular(RegularCheck::VarRun),
            description: "Check for /var/run being a physical directory; this is always a bug.".spec_bytes(),
            root_type: None,
        },
        LintV {
            name: "var-tmpfiles".spec_bytes(),
            ty: LintType::Warning,
            f: LintFnTy::Regular(RegularCheck::VarTmpfiles),
            description: "Check for content in /var that does not have corresponding systemd tmpfiles.d entries.".spec_bytes(),
            root_type: Some(RootType::Running),
        },
    ]
}

/// Whether the lints stand in strictly ascending name order: each name
/// lexicographically below the next, so names are unique and registry
/// order is canonical order.
pub open spec fn names_strictly_ascending(s: Seq<LintV>) -> bool {
    forall|i: int|
        0 <= i < s.len() - 1 ==> (crate::bytestr::lex_le(#[trigger] s[i].name, s[i + 1].name)
            && s[i].name != s[i + 1].name)
}

/// The registry as a vector of lint records.
pub fn lints() -> (r: Vec<Lint>)
    ensures
        lints_view(r@) == spec_registry(),
{
    let mut v: Vec<Lint> = Vec::new();
    v.push(
        Lint::new_fatal(
            lit("api-base-directories"),
            lit("Verify that expected base API directories exist, including /var."),
            RegularCheck::ApiDirs,
        ),
    );
    v.push(
        Lint::new_warning(
            lit("baseimage-composefs"),
            lit("Check that composefs is enabled for ostree."),
            RegularCheck::Composefs,
        ),
    );
    v.push(
        Lint::new_fatal(
            lit("baseimage-root"),
            lit(
                "Check that expected files are present in the root of the filesystem, such as /sysroot and an ostree -> sysroot/ostree link.",
            ),
            RegularCheck::BaseimageRoot,
        ),
    );
    v.push(
        Lint::new_fatal(
            lit("bootc-kargs"),
            lit("Verify syntax of /usr/lib/bootc/kargs.d."),
            RegularCheck::Kargs,
        ),
    );
    v.push(
        Lint::new_warning(
            lit("buildah-injected"),
            lit(
                "Check for an invalid /etc/hostname or /etc/resolv.conf that may have been injected by a container build system.",
            ),
            RegularCheck::BuildahInjected,
        ).set_root_type(RootType::Alternative),
    );
    v.push(
        Lint::new_fatal(
            lit("etc-usretc"),
            lit(
                "Verify that only one of /etc or /usr/etc exist; having both causes undefined behavior.",
            ),
            RegularCheck::EtcUsrEtc,
        ),
    );
    v.push(
        Lint::new_fatal(
            lit("kernel"),
            lit("Check for multiple kernels; only one kernel is supported in an image."),
            RegularCheck::Kernel,
        ),
    );
    v.push(
        Lint::new_warning(
            lit("nonempty-boot"),
            lit(
                "The /boot directory should be present, but empty; kernel content belongs in /usr/lib/modules.",
            ),
            RegularCheck::NonemptyBoot,
        ),
    );
    v.push(
        Lint::new_warning(
            lit("sysusers"),
            lit(
                "Check for users in /etc/passwd and groups in /etc/group that do not have corresponding systemd sysusers.d entries.",
            ),
            RegularCheck::Sysusers,
        ),
    );
    v.push(
        Lint {
            name: lit("utf8"),
            ty: LintType::Fatal,
            f: LintFnTy::Recursive(RecursiveCheck::Utf8),
            description: lit(
                "Check for non-UTF8 filenames, which the ostree backend does not support.",
            ),
            root_type: None,
        },
    );
    v.push(
        Lint::new_warning(
            lit("var-log"),
            lit(
                "Check for non-empty regular files in /var/log; shipping log files in container images is usually undesired.",
            ),
            RegularCheck::VarLog,
        ),
    );
    v.push(
        Lint::new_fatal(
            lit("var-run"),
            lit("Check for /var/run being a physical directory; this is always a bug."),
            RegularCheck::VarRun,
        ),
    );
    v.push(
        Lint::new_warning(
            lit("var-tmpfiles"),
            lit(
                "Check for content in /var that does not have corresponding systemd tmpfiles.d entries.",
            ),
            RegularCheck::VarTmpfiles,
        ).set_root_type(RootType::Running),
    );
    proof {
        reveal(spec_registry);
        assert(lints_view(v@) =~= spec_registry());
    }
    v
}

} // verus!
