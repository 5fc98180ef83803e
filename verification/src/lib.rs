//! Selecting a network interface by its hardware address and managing the
//! IPv4 addresses bound to it, together with the prefix length of each.
//!
//! The operating system does not report the prefix length that an address was
//! configured with, so a mask store remembers it for every address that was
//! added here, until the address is removed here.
//!
//! The library decides and computes only. A driver reads lines, enumerates the
//! interfaces, starts the address configuration facility of the operating
//! system and keeps the mask store on disk; for each of these it hands plain
//! values in and carries out what it is handed back:
//!
//! - [`parser::dispatch`] turns a typed line into a [`parser::Plan`];
//! - the driver carries the steps of the plan out, in order, and reports how
//!   each went to [`parser::settle`], which ends the plan at a step that
//!   failed;
//! - [`parser::list_addrs`], [`parser::show_gateway`] and [`parser::help`]
//!   give what the plan shows at its end.

pub mod addr;
pub mod cidr;
pub mod mac;
pub mod mask;
pub mod net;
pub mod parser;
pub mod route;
pub mod settings;
pub mod store;
pub mod text;
