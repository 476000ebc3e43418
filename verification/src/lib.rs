//! Directory-listing service core: protocol values, the listing order,
//! pagination, the cancellation registry and the request router's decisions.

pub mod cancel;
pub mod merge;
pub mod order;
pub mod paging;
pub mod protocol;
pub mod registry;
pub mod router;
pub mod scan;
pub mod sort;
