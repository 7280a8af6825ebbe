//! Protocol-aware rendering core of a proxy for a block-framed database wire
//! protocol: the incremental block parser, the observers that turn a byte
//! stream into log output, the presenter that frames that output, and the
//! address and pipeline rules that the socket layer follows.

pub mod blocks;
pub mod formatter;
pub mod inspect;
pub mod network;
pub mod observers;
pub mod proxy;
