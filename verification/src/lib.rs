//! Audits an installed package catalog for two kinds of breakage:
//! executables whose shared-library dependencies no longer resolve, and
//! interpreter-managed packages that left files under a library root
//! belonging to a version other than the active one.
//!
//! The crate holds the decision and parsing logic; a thin front end
//! performs the catalog queries, probe invocations and console output
//! and hands their results in as plain byte strings.
use vstd::prelude::*;

pub mod bytes;
pub mod ldd;
pub mod version;
pub mod manifest;
pub mod stray;
pub mod pipeline;

verus! {

/// The sequence of abstract values behind a sequence of concrete ones.
pub open spec fn seq_view<T: View>(s: Seq<T>) -> Seq<T::V> {
    s.map_values(|t: T| t@)
}

} // verus!
