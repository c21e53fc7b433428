//! Route-path matching: a pattern such as `/users/:user_id/friend/:friend_id`
//! is matched against a request path, and the segments that stand in the
//! places of its `:name` parameters are captured by name.
//!
//! `path` holds the matcher and the model of a match that its contract speaks
//! of; `laws` proves what holds of every match; `parameters` is the map of
//! captured values; `text` holds the segment model and the character cursors.
pub mod laws;
pub mod parameters;
pub mod path;
pub mod text;
