//! A hash map that remembers the order in which its entries were pushed.
//!
//! The entries are the records of a doubly linked list, the order list; a
//! hash index finds the record of a key. Records live in an arena and are
//! named by handle, so the list and the index never hold an entry twice.

pub mod fmt;
pub mod index;
pub mod iter;
pub mod keys;
pub mod laws;
pub mod map;
pub mod node;
pub mod ops;
pub mod order;
pub mod visitor;

pub use iter::{IntoIter, Iter};
pub use map::LinkedHashMap;
pub use node::Node;
pub use visitor::LinkedHashMapVisitor;
