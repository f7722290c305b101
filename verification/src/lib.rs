use vstd::prelude::*;

pub mod artifacts;
pub mod checker;
pub mod claim;
pub mod codec;
pub mod err;
pub mod eval;
pub mod gpg;
pub mod hashing;
pub mod util;
