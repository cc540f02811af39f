//! Order-independent checksum of a directory tree.
//!
//! Every filesystem entry (file, directory, symlink, socket) is turned into a
//! fixed-width digest seed that encodes its path, mode, a type tag, and — for
//! files and symlinks — its content or target bytes. The seeds are merged by a
//! commutative, associative combination, so the final checksum does not depend
//! on the order in which the entries were visited.

use vstd::prelude::*;

pub mod checksum;
pub mod walk;
pub mod seed;

verus! {

/// Width in bytes of a digest seed and of the final checksum.
pub const DIGEST_LEN: usize = 20;

} // verus!
