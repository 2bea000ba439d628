//! A small proof-of-burn devnet ledger and the node logic around it.
pub mod acceptance;
pub mod automatic;
pub mod blinded;
pub mod block;
pub mod blocks;
pub mod builder;
pub mod bundling;
pub mod cli;
pub mod committee;
pub mod conduct;
pub mod crypto;
pub mod document;
pub mod draw;
pub mod error;
pub mod forks;
pub mod genesis;
pub mod gossip;
pub mod held;
pub mod hex;
pub mod history;
pub mod json;
pub mod ledger;
pub mod locks;
pub mod lottery;
pub mod mempool;
pub mod model;
pub mod network;
pub mod node;
pub mod payments;
pub mod peers;
pub mod proposals;
pub mod relay;
pub mod replay;
pub mod rewards;
pub mod sealing;
pub mod selection;
pub mod service;
pub mod sorted;
pub mod status;
pub mod stratum;
pub mod supply;
pub mod text;
pub mod tickets;
pub mod transaction;
pub mod utxo;
pub mod validate;
pub mod vdf;
pub mod wallet;
