//! Finding the domain names that candidates to the 2022 French presidential election may
//! have registered: generating the likely names, reading the answers of the WHOIS servers
//! that register them, and pacing the lookups.

pub mod afilias;
pub mod afnic;
pub mod domains;
pub mod fib;
pub mod lookup;
pub mod model;
pub mod text;
pub mod whois;
