//! Keeps `.env` files and other project secrets in a dedicated 1Password vault.
//!
//! A file is deleted from disk only after a verified, recorded copy of it exists
//! in the vault. The commands are in [`commands`], the `.prot` file that records
//! what is stored where is in [`prot`], and what holds of all of it is proved in
//! [`laws`].

#![allow(unused_imports)]

pub mod backup;
pub mod bytes;
pub mod commands;
pub mod exchange;
pub mod expand;
pub mod failure;
pub mod laws;
pub mod op;
pub mod outside;
pub mod paths;
pub mod prot;
pub mod session;
pub mod text;
