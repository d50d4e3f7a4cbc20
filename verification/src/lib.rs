//! Library for reading the users of a Cognito user pool.
//!
//! The heart of the library is the pagination controller in [`pagination`]:
//! the listing API serves at most 60 users per call and hands back a
//! continuation token, so fetching a pool means planning a sequence of
//! per-call limits, tracking the token, and stopping at the right moment.
//! Once all pages are in, [`cognito`] sorts the users by creation date,
//! applies the identifier, email and creation-date filters, and renders the
//! survivors as CSV text.
//!
//! Network calls themselves live outside this crate: a caller fetches each
//! page however it likes and feeds the outcome back into the controller.

pub mod cognito;
pub mod dates;
pub mod models;
pub mod pagination;
pub mod text;
