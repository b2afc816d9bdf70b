use vstd::prelude::*;
use crate::pallet::{create_outcome, read_outcome, record_outcome, update_outcome};
use crate::types::{Config, Error, ExperienceType, InteractionIdentifier, UserExperience};

verus! {

/// The registry after recording each of `keys` in turn, whether or not each
/// one succeeds.
pub open spec fn record_all(recorded: Set<InteractionIdentifier>, keys: Seq<InteractionIdentifier>) -> Set<InteractionIdentifier>
    decreases keys.len(),
{
    if keys.len() == 0 {
        recorded
    } else {
        record_all(record_outcome(recorded, keys[0]).1, keys.drop_first())
    }
}

proof fn lemma_record_all_keeps(recorded: Set<InteractionIdentifier>, keys: Seq<InteractionIdentifier>, key: InteractionIdentifier)
    requires
        recorded.contains(key),
    ensures
        record_all(recorded, keys).contains(key),
    decreases keys.len(),
{
    if keys.len() > 0 {
        lemma_record_all_keeps(record_outcome(recorded, keys[0]).1, keys.drop_first(), key);
    }
}

/// Once an interaction has been recorded, recording it again fails with
/// `InteractionAlreadyExisting` and changes nothing, whatever other
/// interactions were recorded in between.
pub proof fn law_interaction_recorded_once(
    recorded: Set<InteractionIdentifier>,
    key: InteractionIdentifier,
    between: Seq<InteractionIdentifier>,
)
    requires
        record_outcome(recorded, key).0 is Ok,
    ensures
        ({
            let later = record_all(record_outcome(recorded, key).1, between);
            record_outcome(later, key) == (Err::<(), Error>(Error::InteractionAlreadyExisting), later)
        }),
{
    lemma_record_all_keeps(record_outcome(recorded, key).1, between, key);
}

/// Once a record has been created for a pair, creating it again fails with
/// `UserAlreadyHasExperience` and changes nothing; and as long as no record
/// exists for a pair, reading it fails with `UserExperienceDoesNotExist`.
pub proof fn law_create_once(
    cfg: Config,
    ledger: Map<(u64, ExperienceType), UserExperience>,
    account_id: u64,
    exp_type: ExperienceType,
)
    ensures
        create_outcome(cfg, ledger, account_id, exp_type).0 is Ok ==> ({
            let after = create_outcome(cfg, ledger, account_id, exp_type).1;
            create_outcome(cfg, after, account_id, exp_type)
                == (Err::<UserExperience, Error>(Error::UserAlreadyHasExperience), after)
        }),
        !ledger.contains_key((account_id, exp_type)) ==> read_outcome(ledger, account_id, exp_type)
            == Err::<UserExperience, Error>(Error::UserExperienceDoesNotExist),
{
}

/// Updating a pair that has no record fails with
/// `UserExperienceDoesNotExist` and leaves the ledger as it was; no update
/// ever adds or removes a pair.
pub proof fn law_update_requires_existence(
    cfg: Config,
    ledger: Map<(u64, ExperienceType), UserExperience>,
    account_id: u64,
    exp_type: ExperienceType,
    record: UserExperience,
)
    ensures
        !ledger.contains_key((account_id, exp_type)) ==> update_outcome(cfg, ledger, account_id, exp_type, record)
            == (Err::<UserExperience, Error>(Error::UserExperienceDoesNotExist), ledger),
        update_outcome(cfg, ledger, account_id, exp_type, record).1.dom() == ledger.dom(),
{
    if ledger.contains_key((account_id, exp_type)) {
        assert(ledger.dom().insert((account_id, exp_type)) =~= ledger.dom());
    }
}

} // verus!
