//! IPv4 subnet arithmetic: parsing of `A.B.C.D/P` notation, the addresses
//! derived from an address and a prefix length, and their textual forms.

pub mod addr;
pub mod text;
pub mod cidr;
