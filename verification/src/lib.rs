//! Event routing and dispatch for a host of sandboxed worker components.
//!
//! Workers declare channels, each with the pattern of events it wants. The
//! [`router::Router`] indexes those declarations, the [`runtime::Runtime`]
//! turns ledger blocks and outside requests into events and decides, reply by
//! reply, how their delivery goes on, and [`worker`] holds the receiving half
//! that lives inside each component.

pub mod error;
pub mod json;
pub mod ledger;
pub mod protocol;
pub mod router;
pub mod routes;
pub mod runtime;
pub mod worker;

pub use error::{RuntimeError, WorkerId};
pub use ledger::{Block, BlockHash, BlockSlot, ChainPoint, LogSeq, Tx, TxOutput};
pub use protocol::{
    ChannelId, Event, EventPattern, HandleError, Response, TokenPattern, UtxoPattern,
};
pub use router::{Router, Target};
pub use runtime::{BlockRun, Delivery, Runtime};
pub use worker::{global_handle_request, global_init_worker, Channel, Env, Handler, Worker};
