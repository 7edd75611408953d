//! The map as `Debug` shows maps: `{key: value, key: value}`.

use vstd::prelude::*;
use std::fmt::{Debug, DebugMap, Formatter};
use std::hash::{BuildHasher, Hash};
use crate::map::LinkedHashMap;

verus! {

/// `std::fmt::Formatter`, the place where formatted text goes. Nothing is
/// known of what a value of it holds.
#[verifier::external_type_specification]
#[verifier::external_body]
pub struct ExFormatter<'a>(Formatter<'a>);

/// `std::fmt::DebugMap`, the helper with which `Debug` impls show maps.
/// Nothing is known of what a value of it holds.
#[verifier::external_type_specification]
#[verifier::external_body]
pub struct ExDebugMap<'a, 'b: 'a>(DebugMap<'a, 'b>);

/// `std::fmt::Error`, the error of a formatter that could not write.
#[verifier::external_type_specification]
#[verifier::external_body]
pub struct ExFmtError(std::fmt::Error);

/// `std::fmt::Formatter::debug_map`: a helper that will show a map on `f`.
/// Nothing is claimed of it.
#[verifier::external_body]
fn debug_map<'a, 'b>(f: &'a mut Formatter<'b>) -> (shown: DebugMap<'a, 'b>) {
    f.debug_map()
}

/// `std::fmt::DebugMap::entry`: shows one more entry. Nothing is claimed of
/// the helper afterwards.
#[verifier::external_body]
fn debug_entry<K: Debug, V: Debug>(shown: &mut DebugMap<'_, '_>, key: &K, value: &V) {
    shown.entry(key, value);
}

/// `std::fmt::DebugMap::finish`: closes the map that was shown and says
/// whether all of it could be written. Nothing is claimed of the answer.
#[verifier::external_body]
fn debug_finish(shown: &mut DebugMap<'_, '_>) -> (done: Result<(), std::fmt::Error>) {
    shown.finish()
}

impl<K: Debug + Hash + Eq + Clone, V: Debug, S: BuildHasher> Debug for LinkedHashMap<K, V, S> {
    /// Shows the entries as a map, from the front to the back.
    fn fmt(&self, f: &mut Formatter<'_>) -> (done: Result<(), std::fmt::Error>) {
        let mut shown = debug_map(f);
        let mut iter = self.iter();
        loop
            decreases iter@.len(),
        {
            match iter.next() {
                Some((k, v)) => {
                    debug_entry(&mut shown, k, v);
                },
                None => {
                    return debug_finish(&mut shown);
                },
            }
        }
    }
}

} // verus!
