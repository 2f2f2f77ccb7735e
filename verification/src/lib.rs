//! Role-based access control with single inheritance.
//!
//! Roles are kept by name in a [`Store`]; each role may name one parent and
//! carries a list of granted `(action, resource)` pairs.  An [`Acl`] registers
//! roles, hands out grants and answers whether a role may perform an action on
//! a resource, looking up the chain of parents when the role itself holds no
//! matching grant.

pub mod acl;
pub mod laws;
pub mod model;
pub mod role;
pub mod store;

pub use acl::{Acl, EMPTY_NAME};
pub use role::{Permission, Role};
pub use store::{Mem, Store, NO_ROLES, NO_SUCH_ROLE};
