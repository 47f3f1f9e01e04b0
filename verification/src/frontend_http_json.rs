//! The JSON frontend's entry in the list of frontends.
use vstd::prelude::*;

use crate::registry::{normal_name, FrontendRegistrationContext};

verus! {

/// The JSON frontend.
#[derive(Clone, Copy, Debug, PartialEq, Eq, Structural)]
pub struct HttpJsonFrontend;

/// Registers what starts the JSON frontend.
pub fn register_frontend_on<S>(context: &mut FrontendRegistrationContext<S>, spawner: S)
    requires
        old(context).wf(),
    ensures
        final(context).wf(),
        final(context)@ == old(context)@.insert(normal_name("http-json"@), spawner),
{
    context.register_frontend("http-json", spawner);
}

} // verus!
