//! A WHOIS response parser: given the raw text a registry returned for a
//! domain, it extracts whether the domain is registered, its expiration
//! instant, and whether it sits in the ICANN redemption grace period.
//!
//! The parser is a pure function over the response text; performing the
//! network query itself is a caller concern.

pub mod dates;
pub mod parser;
pub mod text;

pub use parser::WhoIs;
pub use parser::WhoIsView;
