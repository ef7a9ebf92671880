use vstd::prelude::*;
use crate::newsletter::Newsletter;
use crate::subscription::ConfirmOutcome;

verus! {

/// The query of a confirmation link.
pub struct Parameters {
    pub subscription_token: String,
}

/// Confirms the subscriber whose confirmation link carried `parameters`.
pub fn confirm(newsletter: &mut Newsletter, parameters: &Parameters) -> (r: ConfirmOutcome)
    requires
        old(newsletter).wf(),
    ensures
        final(newsletter).wf(),
        final(newsletter).outbox == old(newsletter).outbox,
        final(newsletter).guard == old(newsletter).guard,
        final(newsletter).issues == old(newsletter).issues,
        r == old(newsletter).store@.confirm_outcome(parameters.subscription_token@),
        final(newsletter).store@ == old(newsletter).store@.after_confirm(
            parameters.subscription_token@,
        ),
{
    newsletter.confirm(&parameters.subscription_token)
}

} // verus!
