//! A single-decree Paxos library: a replica state machine that plays the
//! proposer, acceptor and learner roles, the datagram model it speaks, and
//! the self-delimited wire framing used to carry datagrams between replicas.
//!
//! The replica is a pure event-driven state machine: one incoming message in,
//! zero or more outgoing messages out, no blocking and no I/O. A host program
//! owns the sockets and the mailboxes and drives `Node::handle_incoming`.

pub mod cluster;
pub mod codec;
pub mod ids;
pub mod laws;
pub mod node;
pub mod proposal;
pub mod seq_num;
pub mod shell;
