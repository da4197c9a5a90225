//! A minimal HTTP/1.x server library: header storage, request parsing,
//! response composition with a head that goes out once, canonical request
//! paths, and the handler chain that answers the one request of each
//! connection.

pub mod clock;
pub mod exchange;
pub mod headers;
pub mod options;
pub mod paths;
pub mod request;
pub mod response;
pub mod server;
pub mod text;

pub use exchange::{Action, Event, Exchange};
pub use headers::Headers;
pub use request::Request;
pub use response::Response;
pub use server::{Handler, Server};
