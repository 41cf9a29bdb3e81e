//! Working-tree support: the file-system capability summary probed at
//! discovery time, and the decisions checkout makes per index entry.
//!
//! The probing and the writing are I/O and live with the caller; this
//! module fixes what is decided from their outcomes.

use vstd::prelude::*;

verus! {

/// Common knowledge about the file system a working tree lives on.
#[derive(Debug, Copy, Clone, Eq, PartialEq, Hash, Structural)]
pub struct Context {
    /// Whether the file system stores paths as decomposed unicode.
    pub precompose_unicode: bool,
    /// Whether the file system ignores the case of paths.
    pub ignore_case: bool,
    /// Whether the executable bit is honored as part of file modes.
    pub file_mode: bool,
    /// Whether symbolic links can be created.
    pub symlink: bool,
}

impl Default for Context {
    /// What a plain unix file system offers.
    fn default() -> (c: Context)
        ensures
            c == (Context {
                precompose_unicode: false,
                ignore_case: false,
                file_mode: true,
                symlink: true,
            }),
    {
        Context { precompose_unicode: false, ignore_case: false, file_mode: true, symlink: true }
    }
}

impl Context {
    /// Combines the outcomes of probing a repository directory: each
    /// probe that failed falls back to the platform default. The caller
    /// performs the probes; this fixes how their answers are read.
    pub fn probe(
        symlink: Option<bool>,
        ignore_case: Option<bool>,
        precompose_unicode: Option<bool>,
    ) -> (c: Context)
        ensures
            c.symlink == match symlink {
                Some(b) => b,
                None => Context::default_spec().symlink,
            },
            c.ignore_case == match ignore_case {
                Some(b) => b,
                None => Context::default_spec().ignore_case,
            },
            c.precompose_unicode == match precompose_unicode {
                Some(b) => b,
                None => Context::default_spec().precompose_unicode,
            },
            c.file_mode == Context::default_spec().file_mode,
    {
        let ctx = Context::default();
        Context {
            symlink: match symlink {
                Some(b) => b,
                None => ctx.symlink,
            },
            ignore_case: match ignore_case {
                Some(b) => b,
                None => ctx.ignore_case,
            },
            precompose_unicode: match precompose_unicode {
                Some(b) => b,
                None => ctx.precompose_unicode,
            },
            file_mode: ctx.file_mode,
        }
    }

    /// The value `default` returns.
    pub open spec fn default_spec() -> Context {
        Context { precompose_unicode: false, ignore_case: false, file_mode: true, symlink: true }
    }
}

/// How checkout is to behave.
#[derive(Debug, Copy, Clone, Eq, PartialEq, Structural)]
pub struct Options {
    /// Capabilities of the file system.
    pub fs: Context,
    /// Whether the target directory is assumed empty, as when cloning.
    pub destination_is_initially_empty: bool,
}

impl Default for Options {
    /// Default capabilities, and no assumption of an empty target.
    fn default() -> (o: Options)
        ensures
            o.fs == Context::default_spec(),
            !o.destination_is_initially_empty,
    {
        Options { fs: Context::default(), destination_is_initially_empty: false }
    }
}

/// The mode an index entry can carry.
#[derive(Debug, Copy, Clone, Eq, PartialEq, Structural)]
pub enum Mode {
    /// A regular file.
    File,
    /// A file with the executable bit.
    FileExecutable,
    /// A symbolic link.
    Symlink,
    /// A directory entry.
    Dir,
    /// A commit, as in a submodule.
    Commit,
}

/// What checkout is to do with one index entry.
#[derive(Debug, Copy, Clone, Eq, PartialEq, Structural)]
pub enum CheckoutAction {
    /// Leave the entry alone.
    Skip,
    /// Write the blob's bytes as a file.
    WriteFile {
        /// Whether to mark it executable.
        executable: bool,
    },
    /// Create a real symbolic link to the blob's content.
    WriteSymlink,
    /// Write the link target as the file's text instead.
    WriteSymlinkAsFile,
    /// Nothing this library decides: the caller must refuse.
    Unsupported,
}

/// Decides what checkout does with an entry: nothing unless the target
/// is known empty, nothing for an entry flagged to stay out of the
/// working tree, a plain or executable file write for file modes, a
/// link or its textual fallback for symbolic links depending on the
/// file system, and `Unsupported` for directories and commits.
pub fn checkout_action(mode: Mode, skip_worktree: bool, options: &Options) -> (a: CheckoutAction)
    ensures
        a == if !options.destination_is_initially_empty {
            CheckoutAction::Unsupported
        } else if skip_worktree {
            CheckoutAction::Skip
        } else {
            match mode {
                Mode::File => CheckoutAction::WriteFile { executable: false },
                Mode::FileExecutable => CheckoutAction::WriteFile { executable: true },
                Mode::Symlink => if options.fs.symlink {
                    CheckoutAction::WriteSymlink
                } else {
                    CheckoutAction::WriteSymlinkAsFile
                },
                Mode::Dir => CheckoutAction::Unsupported,
                Mode::Commit => CheckoutAction::Unsupported,
            }
        },
{
    if !options.destination_is_initially_empty {
        return CheckoutAction::Unsupported;
    }
    if skip_worktree {
        return CheckoutAction::Skip;
    }
    match mode {
        Mode::File => CheckoutAction::WriteFile { executable: false },
        Mode::FileExecutable => CheckoutAction::WriteFile { executable: true },
        Mode::Symlink => {
            if options.fs.symlink {
                CheckoutAction::WriteSymlink
            } else {
                CheckoutAction::WriteSymlinkAsFile
            }
        },
        Mode::Dir => CheckoutAction::Unsupported,
        Mode::Commit => CheckoutAction::Unsupported,
    }
}

/// One recorded file time: whole seconds and the nanosecond remainder.
#[derive(Debug, Copy, Clone, Eq, PartialEq, Structural)]
pub struct Stat {
    /// Seconds since the epoch, as the index stores them.
    pub secs: u32,
    /// Nanoseconds past the second.
    pub nsecs: u32,
}

/// The stat fields checkout refreshes on an entry after writing it.
#[derive(Debug, Copy, Clone, Eq, PartialEq, Structural)]
pub struct EntryStat {
    /// The modification time.
    pub mtime: Stat,
    /// The creation time.
    pub ctime: Stat,
}

impl EntryStat {
    /// Records fresh file times on an entry. Succeeds exactly when both
    /// second counts still fit the index's field width.
    pub fn update_fstat(
        &mut self,
        ctime_secs: u64,
        ctime_nsecs: u32,
        mtime_secs: u64,
        mtime_nsecs: u32,
    ) -> (r: Result<(), ()>)
        ensures
            match r {
                Ok(_) => {
                    &&& ctime_secs <= u32::MAX && mtime_secs <= u32::MAX
                    &&& *final(self) == (EntryStat {
                        mtime: Stat { secs: mtime_secs as u32, nsecs: mtime_nsecs },
                        ctime: Stat { secs: ctime_secs as u32, nsecs: ctime_nsecs },
                    })
                },
                Err(_) => (ctime_secs > u32::MAX || mtime_secs > u32::MAX) && *final(self) == *old(
                    self,
                ),
            },
    {
        if ctime_secs > u32::MAX as u64 || mtime_secs > u32::MAX as u64 {
            return Err(());
        }
        self.mtime = Stat { secs: mtime_secs as u32, nsecs: mtime_nsecs };
        self.ctime = Stat { secs: ctime_secs as u32, nsecs: ctime_nsecs };
        Ok(())
    }
}

} // verus!
