//! Path-template routing for request handlers.
//!
//! A [`Router`] keeps route templates with their handlers and hands a request
//! path to the first template that matches it, or answers with a not-found
//! response when none does.

pub mod matcher;
pub mod response;
pub mod router;

pub use matcher::template_matches;
pub use response::{
    bad_request, forbidden, hello_world, internal_server_error, no_content, not_found,
    status_code_response, text_response, unauthorized, Body, Response,
};
pub use router::Router;
