//! What holds of the library as its callers see it: what an answer says of what
//! was asked, and how one call bears on the next.
pub mod access;
pub mod answers;
pub mod clients;
pub mod consent;
pub mod documents;
pub mod notes;
pub mod search;
pub mod settings;
pub mod tokens;
pub mod texts;
