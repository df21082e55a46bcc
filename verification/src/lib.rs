//! Grid-search curve fitting, verified.
//!
//! A fit evaluates an error metric at every point of a parameter grid and
//! takes the point with the smallest error. This crate holds what such a fit
//! decides and keeps track of:
//!
//! - [`samples`] and [`space`]: the validated input, and the bijection
//!   between a flat candidate index and one grid offset per axis
//!   ([`radix`]);
//! - [`partition`], [`buffer`], [`dispatch`] and [`transfer`]: the split of
//!   the candidates among workers, the result array they fill, the course of
//!   a bulk dispatch with its failures, and the buffers that cross to the
//!   execution context;
//! - [`select`] and [`search`]: the reduction to the best candidate, the
//!   lowest flat index winning among equal errors;
//! - [`refine`] and [`descent`]: a second, finer grid around the winner, or a
//!   coordinate descent from it;
//! - [`report`] and [`export`]: the fitted values beside the samples, as a
//!   table;
//! - [`data`] and [`headers`]: the columns of a measurement log.
//!
//! Sample, parameter and error values are IEEE-754 binary32 numbers carried
//! as bit patterns ([`bits::F32`]). The crate orders and saturates them; the
//! arithmetic on them (the metric itself, the grid values) is the caller's.

pub mod bits;
pub mod buffer;
pub mod data;
pub mod descent;
pub mod dispatch;
pub mod error;
pub mod export;
pub mod headers;
pub mod partition;
pub mod radix;
pub mod refine;
pub mod report;
pub mod samples;
pub mod search;
pub mod select;
pub mod space;
pub mod transfer;
