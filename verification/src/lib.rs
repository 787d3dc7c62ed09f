//! A read-only virtual filesystem over a message bus's introspectable
//! namespace: bus names become top-level directories, object paths nested
//! directories, interfaces directories of member files.
//!
//! The crate holds the verified core: the introspection-document model and
//! parser, the inode table with its allocation invariants, and the protocol
//! adapter answering lookup / get-attributes / list-children / read calls.
//! The bus transport and the kernel protocol loop live outside, handing the
//! core plain values and taking plain values back.

pub mod doc;
pub mod parse;
pub mod inode;
pub mod adapter;
