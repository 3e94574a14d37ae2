//! Rewrites the internationalized host of a URL into its ASCII form and
//! leaves every other code point of the URL as it was.

pub mod convert;
pub mod error;
pub mod host;
pub mod laws;
pub mod layout;
pub mod port;
pub mod scan;
pub mod url;

pub use convert::{convert_idn_to_ascii, safe_convert_idn_to_ascii};
