//! Incremental matching of a request path.
//!
//! A [`Matcher`] walks the path of a request from left to right. Each step
//! either goes over what a [`Pattern`] accounts for or records the text it
//! goes over as a capture. A step that looks for something at the cursor
//! gives `None` when it is not there, so that a route that does not fit
//! can be given up for the next. The captures come out at the end as
//! slices of the path, one for each capturing step and in the order of the
//! steps:
//!
//! ```
//! use hyro::{Matcher, RequestTarget};
//!
//! let target = RequestTarget::AbsolutePath("/bars/42/edit.json?draft");
//! let route = Matcher::build(&target)
//!     .chomp("/bars/")
//!     .and_then(|m| m.capture_while(|c: char| c.is_ascii_digit()))
//!     .and_then(|m| m.chomp('/'))
//!     .map(|m| m.capture_until('.'))
//!     .map(|m| m.capture_rest());
//! let (id, action, format) = route.unwrap().captures();
//! assert_eq!((id, action, format), ("42", "edit", ".json"));
//! ```
//!
//! The number of captures is part of the type of a matcher: the tuple that
//! `captures` gives has as many slices as capturing steps were made, up to
//! ten.
//!
//! Offsets into the path count bytes of its UTF-8 form, as the offsets of
//! a `str` do. The contracts speak of the path as a sequence of characters
//! and relate the two in [`text`].

pub mod laws;
pub mod matcher;
pub mod pattern;
pub mod shape;
pub mod text;

pub use matcher::{Matcher, MatcherView, RequestTarget};
pub use pattern::{Pattern, PatternKind};
pub use shape::{Extract, Grow, Shape, Span};
