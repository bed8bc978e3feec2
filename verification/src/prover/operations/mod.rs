//! The two operations of a resolution step: unifying two atoms and building
//! the resolvent.

pub mod fresh_names;
pub mod resolve;
pub mod unify;
pub mod unify_guarantees;


pub use resolve::resolve;
pub use unify::unify;
pub use unify::Unification;
