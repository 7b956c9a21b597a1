//! Recursive minification of component-based templates: directive scanning
//! and rewriting, shadow-workspace path mapping, minifier strategies and a
//! dependency walker with a per-walk and a process-wide cache.
use vstd::prelude::*;

pub mod bytes;
pub mod directive;
pub mod paths;
pub mod minifier;
pub mod cache;
pub mod walk;
pub mod attribute;

verus! {

} // verus!
