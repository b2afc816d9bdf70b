use vstd::prelude::*;
use crate::leveling::{recomputed_record, threshold};
use crate::storage::{ExperienceStorage, InteractionStorage};
use crate::types::{Config, Error, ExperienceType, InteractionIdentifier, UserExperience};

verus! {

/// The record that `create_user_experience` stores for a new pair.
pub open spec fn fresh_record(cfg: Config, account_id: u64) -> UserExperience {
    UserExperience {
        account_id,
        experience: 0,
        level: 0,
        experience_to_next_level: cfg.base_experience,
    }
}

/// Result and resulting ledger of creating the record of (`account_id`, `exp_type`).
pub open spec fn create_outcome(
    cfg: Config,
    ledger: Map<(u64, ExperienceType), UserExperience>,
    account_id: u64,
    exp_type: ExperienceType,
) -> (Result<UserExperience, Error>, Map<(u64, ExperienceType), UserExperience>) {
    if ledger.contains_key((account_id, exp_type)) {
        (Err(Error::UserAlreadyHasExperience), ledger)
    } else {
        (Ok(fresh_record(cfg, account_id)), ledger.insert((account_id, exp_type), fresh_record(cfg, account_id)))
    }
}

/// Result of reading the record of (`account_id`, `exp_type`).
pub open spec fn read_outcome(
    ledger: Map<(u64, ExperienceType), UserExperience>,
    account_id: u64,
    exp_type: ExperienceType,
) -> Result<UserExperience, Error> {
    if ledger.contains_key((account_id, exp_type)) {
        Ok(ledger[(account_id, exp_type)])
    } else {
        Err(Error::UserExperienceDoesNotExist)
    }
}

/// Result and resulting ledger of updating (`account_id`, `exp_type`) with
/// the caller's `record`: the experience is taken from it, the level is
/// searched upwards from its level, and nothing changes unless the pair
/// exists and the whole recomputation succeeds.
pub open spec fn update_outcome(
    cfg: Config,
    ledger: Map<(u64, ExperienceType), UserExperience>,
    account_id: u64,
    exp_type: ExperienceType,
    record: UserExperience,
) -> (Result<UserExperience, Error>, Map<(u64, ExperienceType), UserExperience>) {
    if !ledger.contains_key((account_id, exp_type)) {
        (Err(Error::UserExperienceDoesNotExist), ledger)
    } else {
        match recomputed_record(cfg, account_id, record.experience, record.level) {
            Ok(rec) => (Ok(rec), ledger.insert((account_id, exp_type), rec)),
            Err(e) => (Err(e), ledger),
        }
    }
}

/// Result and resulting registry of recording `key`.
pub open spec fn record_outcome(
    recorded: Set<InteractionIdentifier>,
    key: InteractionIdentifier,
) -> (Result<(), Error>, Set<InteractionIdentifier>) {
    if recorded.contains(key) {
        (Err(Error::InteractionAlreadyExisting), recorded)
    } else {
        (Ok(()), recorded.insert(key))
    }
}

/// The experience ledger and the interaction registry, with the constants
/// they were built with.
pub struct Pallet {
    config: Config,
    experiences: ExperienceStorage,
    interactions: InteractionStorage,
}

impl Pallet {
    pub closed spec fn wf(&self) -> bool {
        self.experiences.wf()
    }

    /// The constants the ledger was built with.
    pub closed spec fn cfg(&self) -> Config {
        self.config
    }

    /// Every stored experience record, by (account, category).
    pub closed spec fn ledger(&self) -> Map<(u64, ExperienceType), UserExperience> {
        self.experiences@
    }

    /// Every interaction recorded so far.
    pub closed spec fn recorded(&self) -> Set<InteractionIdentifier> {
        self.interactions@
    }

    /// An empty ledger and an empty registry.
    pub fn new(config: Config) -> (r: Pallet)
        ensures
            r.wf(),
            r.cfg() == config,
            r.ledger() == Map::<(u64, ExperienceType), UserExperience>::empty(),
            r.recorded() == Set::<InteractionIdentifier>::empty(),
    {
        Pallet::with_storage(config, ExperienceStorage::new(), InteractionStorage::new())
    }

    /// A ledger and a registry over stores that the caller provides, with
    /// whatever they already hold.
    pub fn with_storage(config: Config, experiences: ExperienceStorage, interactions: InteractionStorage) -> (r: Pallet)
        requires
            experiences.wf(),
        ensures
            r.wf(),
            r.cfg() == config,
            r.ledger() == experiences@,
            r.recorded() == interactions@,
    {
        Pallet { config, experiences, interactions }
    }

    /// The constants the ledger was built with.
    pub fn config(&self) -> (r: Config)
        ensures
            r == self.cfg(),
    {
        self.config
    }

    /// Records that `approver` validated the transition of a task done by
    /// `worker`; an interaction can be recorded once only.
    pub fn interact(
        &mut self,
        approver: u64,
        worker: u64,
        board_id: u32,
        task_id: u32,
        org_id: u32,
        initial_state_id: u8,
        final_state_id: u8,
    ) -> (r: Result<(), Error>)
        requires
            old(self).wf(),
        ensures
            final(self).wf(),
            final(self).cfg() == old(self).cfg(),
            final(self).ledger() == old(self).ledger(),
            (r, final(self).recorded()) == record_outcome(
                old(self).recorded(),
                (InteractionIdentifier {
                    approver,
                    worker,
                    board_id,
                    task_id,
                    org_id,
                    initial_state_id,
                    final_state_id,
                }),
            ),
    {
        let upi = InteractionIdentifier {
            approver,
            worker,
            board_id,
            task_id,
            org_id,
            initial_state_id,
            final_state_id,
        };
        self.store_interaction(upi)
    }

    /// Records `upi`, failing with `InteractionAlreadyExisting` when it is
    /// already recorded.
    pub fn store_interaction(&mut self, upi: InteractionIdentifier) -> (r: Result<(), Error>)
        requires
            old(self).wf(),
        ensures
            final(self).wf(),
            final(self).cfg() == old(self).cfg(),
            final(self).ledger() == old(self).ledger(),
            (r, final(self).recorded()) == record_outcome(old(self).recorded(), upi),
    {
        if self.interactions.insert_if_absent(upi) {
            Ok(())
        } else {
            proof {
                assert(old(self).recorded().insert(upi) =~= old(self).recorded());
            }
            Err(Error::InteractionAlreadyExisting)
        }
    }

    /// Creates the record of (`user`, `exp_type`) at level 0 with no
    /// experience, failing with `UserAlreadyHasExperience` when it exists.
    pub fn create_user_experience(&mut self, user: u64, exp_type: ExperienceType) -> (r: Result<UserExperience, Error>)
        requires
            old(self).wf(),
        ensures
            final(self).wf(),
            final(self).cfg() == old(self).cfg(),
            final(self).recorded() == old(self).recorded(),
            (r, final(self).ledger()) == create_outcome(old(self).cfg(), old(self).ledger(), user, exp_type),
    {
        let new_user_exp = UserExperience {
            account_id: user,
            experience: 0,
            level: 0,
            experience_to_next_level: self.config.base_experience,
        };
        if self.experiences.insert_if_absent(user, exp_type, new_user_exp) {
            Ok(new_user_exp)
        } else {
            Err(Error::UserAlreadyHasExperience)
        }
    }

    /// The record of (`user`, `exp_type`), or `UserExperienceDoesNotExist`.
    /// Reading changes nothing, so two reads in a row give the same result.
    pub fn get_user_experience(&self, user: u64, exp_type: ExperienceType) -> (r: Result<UserExperience, Error>)
        requires
            self.wf(),
        ensures
            r == read_outcome(self.ledger(), user, exp_type),
    {
        match self.experiences.get(user, exp_type) {
            Some(rec) => Ok(rec),
            None => Err(Error::UserExperienceDoesNotExist),
        }
    }

    /// Sets the experience of (`user`, `exp_type`) to `experience.experience`
    /// and derives the level and the experience missing to the next level
    /// anew, searching upwards from `experience.level`; the caller's
    /// `experience_to_next_level` is not used, and the stored record is
    /// replaced by the recomputed one. On any error the ledger is left
    /// unchanged.
    pub fn update_user_experience(
        &mut self,
        user: u64,
        exp_type: ExperienceType,
        experience: UserExperience,
    ) -> (r: Result<UserExperience, Error>)
        requires
            old(self).wf(),
        ensures
            final(self).wf(),
            final(self).cfg() == old(self).cfg(),
            final(self).recorded() == old(self).recorded(),
            (r, final(self).ledger()) == update_outcome(old(self).cfg(), old(self).ledger(), user, exp_type, experience),
            r is Ok ==> experience.level <= r->Ok_0.level <= experience.level
                + old(self).cfg().max_level_advances_per_update + 1,
            r is Ok && old(self).cfg().base_experience > 0 && old(self).cfg().difficulty_exponent > 0
                && threshold(old(self).cfg(), experience.level as nat) <= experience.experience ==> {
                &&& threshold(old(self).cfg(), r->Ok_0.level as nat) <= experience.experience
                &&& experience.experience < threshold(old(self).cfg(), r->Ok_0.level as nat + 1)
                &&& r->Ok_0.experience_to_next_level == threshold(old(self).cfg(), r->Ok_0.level as nat + 1)
                    - experience.experience
            },
    {
        match self.experiences.get(user, exp_type) {
            Some(_) => {},
            None => {
                return Err(Error::UserExperienceDoesNotExist);
            },
        }
        match self.config.recompute(user, experience.experience, experience.level) {
            Ok(rec) => {
                self.experiences.set(user, exp_type, rec);
                Ok(rec)
            },
            Err(e) => Err(e),
        }
    }
}

} // verus!
