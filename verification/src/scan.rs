//! The decisions of a scan: how the traversal is configured and what becomes
//! of each item that it yields.

use crate::cancel::token_is_cancelled;
use crate::protocol::Entry;
use tokio_util::sync::CancellationToken;
use vstd::prelude::*;

verus! {

/// Capacity of the queue between a scan and the assembler of its response.
pub const QUEUE_CAPACITY: usize = 1024;

/// How the traversal of one directory is configured.
#[derive(Debug, Clone, Copy, PartialEq, Eq, Structural)]
pub struct ScanOptions {
    /// Whether symbolic links are followed.
    pub follow_links: bool,
    /// Whether hidden entries are filtered out.
    pub hidden: bool,
    /// Whether `.gitignore` files are honoured.
    pub git_ignore: bool,
    /// Whether the global git ignore file is honoured.
    pub git_global: bool,
    /// Whether `.git/info/exclude` is honoured.
    pub git_exclude: bool,
    /// Whether ignore files of parent directories are honoured.
    pub parents: bool,
    /// Greatest depth below the root that is visited.
    pub max_depth: usize,
}

/// The configuration of a one-level scan: links are not followed, hidden
/// entries are filtered unless they were asked for, every git ignore rule is
/// honoured, and nothing below the root's children is visited.
pub fn scan_options(show_hidden: bool) -> (r: ScanOptions)
    ensures
        r == (ScanOptions {
            follow_links: false,
            hidden: !show_hidden,
            git_ignore: true,
            git_global: true,
            git_exclude: true,
            parents: true,
            max_depth: 1,
        }),
{
    ScanOptions {
        follow_links: false,
        hidden: !show_hidden,
        git_ignore: true,
        git_global: true,
        git_exclude: true,
        parents: true,
        max_depth: 1,
    }
}

/// One item as the traversal yields it.
#[derive(Debug, Clone, PartialEq, Eq)]
pub enum WalkItem {
    /// A directory entry. `depth` is 0 for the root itself; `name` is the last
    /// segment of `path`, where it can be resolved.
    Found { depth: usize, name: Option<String>, path: String, is_dir: bool },
    /// An entry that could not be read; `at` is the depth at which the
    /// traversal failed, where it is known.
    Failed { at: Option<usize>, message: String },
}

/// What the scan does with one item.
#[derive(Debug, Clone, PartialEq, Eq)]
pub enum ScanStep {
    /// Cancellation was observed: the scan ends early, without error.
    Stop,
    /// The item yields no entry; the scan goes on.
    Skip,
    /// The item is a child of the root; the entry is queued.
    Push { entry: Entry },
    /// The root itself cannot be read: the scan fails with this message.
    Abort { message: String },
}

/// What becomes of `item` when cancellation has not been observed.
pub open spec fn item_outcome(item: WalkItem) -> ScanStep {
    match item {
        WalkItem::Found { depth, name, path, is_dir } => if depth == 1 && name is Some
            && name->0@.len() > 0 {
            ScanStep::Push { entry: Entry { name: name->0, path, is_dir } }
        } else {
            ScanStep::Skip
        },
        WalkItem::Failed { at, message } => if at == Some(0usize) {
            ScanStep::Abort { message }
        } else {
            ScanStep::Skip
        },
    }
}

/// One step of a scan, given whether cancellation has been observed. Once it
/// has, the scan stops. Otherwise a child of the root with a resolvable,
/// non-empty name is queued; the root itself, anything deeper, a child
/// without such a name and a child that could not be read are passed over;
/// and a failure on the root itself ends the scan with its message.
pub fn scan_step(cancelled: bool, item: WalkItem) -> (r: ScanStep)
    ensures
        r == (if cancelled {
            ScanStep::Stop
        } else {
            item_outcome(item)
        }),
{
    if cancelled {
        return ScanStep::Stop;
    }
    match item {
        WalkItem::Found { depth, name, path, is_dir } => {
            if depth != 1 {
                return ScanStep::Skip;
            }
            match name {
                Some(name) => {
                    if name.as_str().is_empty() {
                        ScanStep::Skip
                    } else {
                        ScanStep::Push { entry: Entry { name, path, is_dir } }
                    }
                },
                None => ScanStep::Skip,
            }
        },
        WalkItem::Failed { at, message } => {
            match at {
                Some(0) => ScanStep::Abort { message },
                _ => ScanStep::Skip,
            }
        },
    }
}

/// Polls the handle and takes one scan step with what it answered.
pub fn scan_poll(token: &CancellationToken, item: WalkItem) -> (r: ScanStep)
    ensures
        r == ScanStep::Stop || r == item_outcome(item),
{
    let cancelled = token_is_cancelled(token);
    scan_step(cancelled, item)
}

} // verus!
