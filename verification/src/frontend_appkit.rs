//! The AppKit frontend's entry in the list of frontends.
use vstd::prelude::*;

use crate::registry::{normal_name, FrontendRegistrationContext};

verus! {

/// The AppKit frontend.
#[derive(Clone, Copy, Debug, PartialEq, Eq, Structural)]
pub struct AppKitFrontend;

/// Registers what starts the AppKit frontend, on platforms that have it.
pub fn register_frontend<S>(context: &mut FrontendRegistrationContext<S>, spawner: Option<S>)
    requires
        old(context).wf(),
    ensures
        final(context).wf(),
        final(context)@ == (match spawner {
            Some(s) => old(context)@.insert(normal_name("appkit"@), s),
            None => old(context)@,
        }),
{
    match spawner {
        Some(s) => {
            context.register_frontend("appkit", s);
        },
        None => {},
    }
}

} // verus!
