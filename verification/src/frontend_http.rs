//! The HTTP frontend's entry in the list of frontends.
use vstd::prelude::*;

use crate::registry::{normal_name, FrontendRegistrationContext};

verus! {

/// The HTTP frontend.
#[derive(Clone, Copy, Debug, PartialEq, Eq, Structural)]
pub struct HttpFrontend;

/// Registers what starts the HTTP frontend.
pub fn register_frontend_on<S>(context: &mut FrontendRegistrationContext<S>, spawner: S)
    requires
        old(context).wf(),
    ensures
        final(context).wf(),
        final(context)@ == old(context)@.insert(normal_name("http"@), spawner),
{
    context.register_frontend("http", spawner);
}

} // verus!
