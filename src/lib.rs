//! A toast-notification scheduler: requests are queued in submission order,
//! admitted one at a time under a throttle, stacked along a monitor edge
//! without overlap, and dismissed when their time is up.
//!
//! Everything that touches the platform (the clock, the monitor under the
//! pointer, text measurement, the windows themselves) is supplied by the host
//! as plain values; this crate holds the decisions and proves them.

pub mod options;
pub mod geometry;
pub mod label;
pub mod pending;
pub mod store;
pub mod share;


pub use options::{ToastError, ToastOptions, ToastPosition};
pub use geometry::{MonitorGeometry, Point, Rect, Size};
pub use store::{ActiveToast, Store, StoreView, ToastPhase, ToastRequest};
pub use share::{PreferredEdge, RectEdge};
