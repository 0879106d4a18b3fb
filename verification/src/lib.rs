//! Detection of file-path links, with optional row and column annotations, in
//! a single line of terminal output. Nothing here touches the file system:
//! a link is a span of the line that looks like a path.
//!
//! [`detect_links`] looks for annotations such as `:339:12`,
//! `", line 339, col 12` or `(339, 12)`, takes the text in front of each as
//! a path, then looks for paths without regard to annotations and merges
//! those in that find room. [`detect_link_suffixes`] and [`get_link_suffix`]
//! find the annotations alone; [`remove_link_suffix`] and
//! [`remove_link_query_string`] cut a path down to the file that it names.
//!
//! Every offset counts bytes of the line.
//!
//! The searching is done by regular expressions. The patterns are built in
//! [`pattern`], and [`engine`] runs them. What a search finds enters the
//! contracts under a name, [`engine::captures_iter_spans`] or
//! [`engine::captures_spans`]: a contract says what a function makes of the
//! matches, not what the patterns match. All that is made of the matches is
//! verified for every list of matches that could come back.
//!
//! - [`text`]: pieces of a text by byte offsets, numbers, white space.
//! - [`link`]: the values handed back, and their views.
//! - [`suffix`]: annotations.
//! - [`anchored`]: the path in front of an annotation, and its quote.
//! - [`bare`]: paths without regard to annotations, and git diffs.
//! - [`merge`]: the merge of the two lists by binary search.
//! - [`detect`]: the links of a line.
//! - [`soundness`]: what holds of every link.
//! - [`query`]: query strings.

pub mod anchored;
pub mod bare;
pub mod detect;
pub mod engine;
pub mod link;
pub mod merge;
pub mod pattern;
pub mod query;
pub mod soundness;
pub mod suffix;
pub mod text;

pub use detect::detect_links;
pub use link::LinkPartialRange;
pub use link::LinkSuffix;
pub use link::OperatingSystem;
pub use link::ParsedLink;
pub use query::remove_link_query_string;
pub use suffix::detect_link_suffixes;
pub use suffix::get_link_suffix;
pub use suffix::remove_link_suffix;
