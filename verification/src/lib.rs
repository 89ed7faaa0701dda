//! Disk-usage trees and a browser over them.
//!
//! [`tree`] holds the size tree and the rules by which a directory's totals
//! are folded from its children. [`units`] turns byte counts into text and
//! bars. [`nav`] is the navigation state machine of the browser, and
//! [`screen`] lays out the lines of one frame.

pub mod nav;
pub mod screen;
pub mod tree;
pub mod units;

pub use tree::FileInfo;
pub use tree::TraversalError;
