//! A parser for `multipart` bodies that are read as they arrive.
//!
//! [`Multipart`] and [`BodyPart`] take steps: each step is given what has happened, an [`Event`],
//! and says what is to be done, a [`Step`]. Whoever drives them asks the payload for more when a
//! step demands it, and hands on what it gives.
//!
//! ```
//! use multipart::{Boundary, Event, Multipart, Step};
//!
//! let data = "--xoxo\r\nContent-Type: text/plain\r\n\r\nHello World!\n--xoxo--";
//! let mut payload = Some(Ok::<_, ()>(bytes::Bytes::from(data)));
//! let mut multipart = Multipart::new(Boundary::new("xoxo"), ());
//!
//! assert!(matches!(multipart.poll_next::<()>(Event::Poll), Step::Extend));
//! match multipart.poll_next(Event::Item(payload.take())) {
//!     Step::Ready(Some(Ok(part))) => assert!(part.content_type().is_some()),
//!     _ => unreachable!(),
//! }
//! ```
pub mod answers;
pub mod boundary;
pub mod buffer;
pub mod error;
pub mod inner;
pub mod laws;
pub mod media;
pub mod message;
pub mod multipart;
pub mod parser;
pub mod search;
pub mod section;
pub mod session;
pub mod steps;

pub use crate::boundary::Boundary;
pub use crate::error::{InvalidBoundary, MultipartError, ParseHeadersError};
pub use crate::inner::InnerMultipart;
pub use crate::multipart::{BodyPart, Event, Multipart, Step};
pub use crate::parser::State;
