//! The concurrent map of the `dashmap` crate, which the registry and the
//! sidecar use for every table they keep. Each module that holds one names
//! its contents and wraps the methods it calls.

use vstd::prelude::*;

verus! {

#[verifier::external_type_specification]
#[verifier::external_body]
#[verifier::reject_recursive_types(K)]
#[verifier::reject_recursive_types(V)]
#[verifier::reject_recursive_types(S)]
pub struct ExDashMap<K, V, S>(dashmap::DashMap<K, V, S>);

}
