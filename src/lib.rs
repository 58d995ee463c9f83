//! Families of denominations related by powers of ten: exact conversion
//! between the denominations of one family, loading and saving through a
//! default denomination, and a dispatcher over every family registered in
//! a generation session.

pub mod amount;
pub mod error;
pub mod family;
pub mod exchange;
pub mod session;
