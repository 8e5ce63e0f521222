//! The fingerprint of a recording that derived artifacts store.

use crate::derived::bookmark::{BookmarkValidationError, SourceFingerprint};
use crate::message::text;
use crate::recording::identity::{McapSummaryIdentity, MCAP_SUMMARY_IDENTITY_ALGORITHM};
use vstd::prelude::*;

verus! {

/// Converts physical MCAP summary facts into the identity stored by derived artifacts.
pub fn mcap_summary_fingerprint(identity: McapSummaryIdentity) -> (outcome: Result<
    SourceFingerprint,
    BookmarkValidationError,
>)
    ensures
        match outcome {
            Ok(fingerprint) => !text::blank(identity.spec_value()) && fingerprint@.algorithm
                == MCAP_SUMMARY_IDENTITY_ALGORITHM@ && fingerprint@.value == identity.spec_value(),
            Err(error) => text::blank(identity.spec_value()) && error
                == BookmarkValidationError::BlankFingerprint,
        },
{
    proof {
        reveal_strlit("mcap-summary");
        assert(!text::white_space("mcap-summary"@[0]));
    }
    SourceFingerprint::new(
        MCAP_SUMMARY_IDENTITY_ALGORITHM.to_owned(),
        identity.value().to_owned(),
    )
}

} // verus!
