//! Results of the delegate subsystems some rules consult.
//!
//! A few rules do not inspect the tree themselves but hand the work to an
//! external collaborator: a kernel-directory finder, a boot-argument-file
//! parser, a tmpfiles-policy analyzer, a user/group reconciliation
//! analyzer, and a loader that reports whether a composefs-style overlay
//! is enabled in the ostree root configuration.  Each is a black box that
//! either returns a structured value or fails; the caller runs them and
//! hands their results in as plain values, and the engine is verified for
//! every possible result.

use vstd::prelude::*;
use crate::bytestr::seqs_view;

verus! {

/// What the tmpfiles-policy analyzer found: content in `/var` without a
/// tmpfiles.d entry, and content no tmpfiles.d entry could cover.
pub struct TmpfilesReport {
    pub tmpfiles: Vec<Vec<u8>>,
    pub unsupported: Vec<Vec<u8>>,
}

/// What the user/group reconciliation analyzer found: passwd and group
/// entries without corresponding sysusers.d entries.
pub struct SysusersReport {
    pub missing_users: Vec<Vec<u8>>,
    pub missing_groups: Vec<Vec<u8>>,
}

/// The collected delegate results for one run.  An `Err` carries the
/// delegate's error message and is treated as an execution failure of the
/// rule that consults it.
pub struct Delegates {
    /// Kernel-directory discovery: at most one kernel directory, or a
    /// failure (as when several kernels are present).
    pub kernel: Result<Option<Vec<u8>>, Vec<u8>>,
    /// Parsed boot arguments, or a syntax failure.
    pub kargs: Result<Vec<Vec<u8>>, Vec<u8>>,
    pub tmpfiles: Result<TmpfilesReport, Vec<u8>>,
    pub sysusers: Result<SysusersReport, Vec<u8>>,
    /// Whether the root's prepare-root configuration enables composefs;
    /// `None` when the configuration file is absent.
    pub prepareroot: Result<Option<bool>, Vec<u8>>,
    /// The same, read from the embedded base-image documentation tree.
    pub prepareroot_baseimage: Result<Option<bool>, Vec<u8>>,
}

/// Mathematical mirror of [`TmpfilesReport`].
#[verifier::ext_equal]
pub struct TmpfilesReportV {
    pub tmpfiles: Seq<Seq<u8>>,
    pub unsupported: Seq<Seq<u8>>,
}

/// Mathematical mirror of [`SysusersReport`].
#[verifier::ext_equal]
pub struct SysusersReportV {
    pub missing_users: Seq<Seq<u8>>,
    pub missing_groups: Seq<Seq<u8>>,
}

/// Mathematical mirror of [`Delegates`].
#[verifier::ext_equal]
pub struct DelegatesV {
    pub kernel: Result<Option<Seq<u8>>, Seq<u8>>,
    pub kargs: Result<Seq<Seq<u8>>, Seq<u8>>,
    pub tmpfiles: Result<TmpfilesReportV, Seq<u8>>,
    pub sysusers: Result<SysusersReportV, Seq<u8>>,
    pub prepareroot: Result<Option<bool>, Seq<u8>>,
    pub prepareroot_baseimage: Result<Option<bool>, Seq<u8>>,
}

pub open spec fn delegates_view(d: Delegates) -> DelegatesV {
    DelegatesV {
        kernel: match d.kernel {
            Ok(None) => Ok(None),
            Ok(Some(v)) => Ok(Some(v@)),
            Err(e) => Err(e@),
        },
        kargs: match d.kargs {
            Ok(v) => Ok(seqs_view(v@)),
            Err(e) => Err(e@),
        },
        tmpfiles: match d.tmpfiles {
            Ok(t) => Ok(
                TmpfilesReportV {
                    tmpfiles: seqs_view(t.tmpfiles@),
                    unsupported: seqs_view(t.unsupported@),
                },
            ),
            Err(e) => Err(e@),
        },
        sysusers: match d.sysusers {
            Ok(s) => Ok(
                SysusersReportV {
                    missing_users: seqs_view(s.missing_users@),
                    missing_groups: seqs_view(s.missing_groups@),
                },
            ),
            Err(e) => Err(e@),
        },
        prepareroot: match d.prepareroot {
            Ok(v) => Ok(v),
            Err(e) => Err(e@),
        },
        prepareroot_baseimage: match d.prepareroot_baseimage {
            Ok(v) => Ok(v),
            Err(e) => Err(e@),
        },
    }
}

} // verus!
