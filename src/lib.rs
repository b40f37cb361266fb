//! Share one component's state with other components by sending it messages.
//!
//! A [`Hub`] owns the data cells and the links of one hosted value type. A
//! data cell holds a value that changes only through messages, each of which
//! asks for one re-render of the cell's owner; a link routes messages to the
//! cell it is bound to, and queues them while it is unbound. The owner of a
//! hub drains its re-render requests with [`Hub::take_render_requests`].
//!
//! All the hub's state changes go through `&mut Hub`, so a message handler
//! cannot reach back into the hub that is applying its message.
pub mod hub;
pub mod laws;

pub mod model;
pub mod msg_data;

pub use hub::{Hub, NotBound, UseDataHandle, UseLinkHandle};
pub use msg_data::MsgData;
