//! Reading cooptation requests from raw e-mail, deciding what is sent to the
//! company's APIs for them, and composing the receipt that answers each.
pub mod api;
pub mod pattern;
pub mod reader;
pub mod receipt;
pub mod text;
