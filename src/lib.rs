//! Guest side of the hypervisor doorbell page: the shared layout, the
//! priority gate, the pending-event pass, the drain loop and the
//! no-EOI query, with a model of the page under hypervisor interleavings.
pub mod flags;
pub mod protocol;
pub mod doorbell;
pub mod model;
