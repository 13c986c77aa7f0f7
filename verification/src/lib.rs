//! A small, fully verified HTTP route dispatcher.
//!
//! The crate keeps an ordered table of route matchers (method, mount prefix,
//! path pattern, query specification, rank, handler) and, for an incoming
//! request, selects the best-matching route, decodes its typed parameters,
//! and produces the handler's response — or a not-found response when no
//! candidate handles the request.

pub mod num;
pub mod text;
pub mod request;
pub mod route;
pub mod fsmodel;
pub mod handlers;
pub mod router;
pub mod site;
pub mod laws;
