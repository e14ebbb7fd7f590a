//! Typed search queries, decoded search results and a closed error taxonomy
//! for a MeiliSearch server.
//!
//! The crate computes and checks; it performs no I/O. A [`search::Query`] is
//! turned into the JSON body of a search request, the body of a response is
//! decoded into [`search::SearchResults`], and the body of a failed response or
//! a transport failure is classified as one [`errors::ClientError`].
pub mod errors;
pub mod json;
pub mod results;
pub mod search;
pub mod text;
