use vstd::prelude::*;

pub mod dt;
pub mod feed;
pub mod keys;
pub mod locks;
pub mod publish;
pub mod store;
pub mod sync;
pub mod watermark;

verus! {

/// The kinds of unrecoverable failure a feed's sync run can end with.
#[derive(Clone, Copy, PartialEq, Eq, Structural, Debug)]
pub enum SyncError {
    /// Network or HTTP-layer failure while retrieving the feed.
    Fetch,
    /// Malformed feed body, missing build date, or an unparseable date.
    Parse,
    /// Key-value store read or write failure.
    Store,
    /// A send to the posting API failed.
    Publish,
}

} // verus!
