//! A user's settings: the ones that are known, and how the others are found or made.
use crate::error::VfsError;
use crate::hub::{parse_role_id, role_number, NewUserSettings, VfsStorageHub};
use crate::ledger::Ledger;
use vstd::prelude::*;

verus! {

/// The settings that were found, by user.
pub struct KnownSettings<S> {
    rows: Ledger<S>,
}

impl<S> KnownSettings<S> {
    pub closed spec fn view(self) -> Map<Seq<char>, S> {
        self.rows@
    }

    pub closed spec fn wf(self) -> bool {
        self.rows.wf()
    }

    pub fn new() -> (res: KnownSettings<S>)
        ensures
            res.wf(),
            res@ == Map::<Seq<char>, S>::empty(),
    {
        KnownSettings { rows: Ledger::new() }
    }

    pub fn get(&self, user_id: &str) -> (res: Option<&S>)
        requires
            self.wf(),
        ensures
            match res {
                Some(row) => self@.contains_key(user_id@) && *row == self@[user_id@],
                None => !self@.contains_key(user_id@),
            },
    {
        self.rows.get(user_id)
    }

    /// Keep the settings of a user, for whom they are known from now on.
    pub fn remember(&mut self, user_id: &str, row: S)
        requires
            old(self).wf(),
        ensures
            final(self).wf(),
            final(self)@ == old(self)@.insert(user_id@, row),
    {
        self.rows.insert(user_id, row);
    }
}

/// Where the search for a user's settings stands.
#[derive(Debug, Clone, Copy, PartialEq, Eq, Structural)]
pub enum SearchPhase {
    /// The user's row is looked for.
    Row,
    /// There is none: the quota that is recorded of the role is looked for.
    RoleQuota,
    /// The user gets new settings.
    Create,
    /// The settings are there.
    Over,
}

/// What the search for a user's settings needs next.
#[derive(Debug)]
pub enum SearchStep {
    /// Read the user's row.
    ReadRow,
    /// Read the quota of the role with this number.
    ReadRoleQuota(i16),
    /// Write these settings down for the user.
    Create(NewUserSettings),
    /// Nothing.
    Nothing,
}

/// The phase that follows `phase`: `found` tells whether the user has a row, and
/// `numbered` whether the role is a number.
pub open spec fn phase_after(phase: SearchPhase, found: bool, numbered: bool) -> SearchPhase {
    match phase {
        SearchPhase::Row => if found {
            SearchPhase::Over
        } else if numbered {
            SearchPhase::RoleQuota
        } else {
            SearchPhase::Create
        },
        SearchPhase::RoleQuota => SearchPhase::Create,
        SearchPhase::Create => SearchPhase::Over,
        SearchPhase::Over => SearchPhase::Over,
    }
}

/// The search for a user's settings.
pub struct SettingsSearch {
    user_id: String,
    role_id: String,
    phase: SearchPhase,
    role_quota: Option<i64>,
}

impl SettingsSearch {
    pub closed spec fn user(self) -> Seq<char> {
        self.user_id@
    }

    pub closed spec fn role(self) -> Seq<char> {
        self.role_id@
    }

    pub closed spec fn stands_at(self) -> SearchPhase {
        self.phase
    }

    /// The quota that is recorded of the role, as far as it was read.
    pub closed spec fn recorded(self) -> Option<i64> {
        self.role_quota
    }

    /// Only a role that is a number is asked for its quota.
    pub open spec fn wf(self) -> bool {
        self.stands_at() == SearchPhase::RoleQuota ==> role_number(self.role()) is Some
    }

    /// `next` is the search one phase further.
    pub open spec fn goes_on(self, next: SettingsSearch, found: bool) -> bool {
        &&& next.wf()
        &&& next.user() == self.user()
        &&& next.role() == self.role()
        &&& next.stands_at() == phase_after(
            self.stands_at(),
            found,
            role_number(self.role()) is Some,
        )
    }

    /// Begin a search; where the settings are known, it is over.
    pub fn start(known: bool, user_id: &str, role_id: &str) -> (res: SettingsSearch)
        ensures
            res.wf(),
            res.user() == user_id@,
            res.role() == role_id@,
            res.recorded() is None,
            res.stands_at() == if known {
                SearchPhase::Over
            } else {
                SearchPhase::Row
            },
    {
        SettingsSearch {
            user_id: user_id.to_owned(),
            role_id: role_id.to_owned(),
            phase: if known {
                SearchPhase::Over
            } else {
                SearchPhase::Row
            },
            role_quota: None,
        }
    }

    /// What the search needs next. New settings need a pool.
    pub fn next(&self, hub: &VfsStorageHub) -> (res: Result<SearchStep, VfsError>)
        requires
            self.wf(),
            hub.wf(),
        ensures
            match res {
                Ok(SearchStep::ReadRow) => self.stands_at() == SearchPhase::Row,
                Ok(SearchStep::ReadRoleQuota(n)) => self.stands_at() == SearchPhase::RoleQuota
                    && role_number(self.role()) == Some(n),
                Ok(SearchStep::Create(row)) => self.stands_at() == SearchPhase::Create
                    && hub.is_for_new_user(self.user(), self.role(), self.recorded(), row),
                Ok(SearchStep::Nothing) => self.stands_at() == SearchPhase::Over,
                Err(e) => self.stands_at() == SearchPhase::Create && hub@.dom().is_empty()
                    && e.is_internal("No pools configured or initialized"@),
            },
    {
        match self.phase {
            SearchPhase::Row => Ok(SearchStep::ReadRow),
            SearchPhase::RoleQuota => match parse_role_id(self.role_id.as_str()) {
                Some(n) => Ok(SearchStep::ReadRoleQuota(n)),
                None => Ok(SearchStep::Nothing),
            },
            SearchPhase::Create => {
                let made: Result<NewUserSettings, VfsError> = hub.new_user_settings(
                    self.user_id.as_str(),
                    self.role_id.as_str(),
                    self.role_quota,
                );
                match made {
                    Ok(row) => Ok(SearchStep::Create(row)),
                    Err(e) => Err(e),
                }
            },
            SearchPhase::Over => Ok(SearchStep::Nothing),
        }
    }

    /// The user's row was read; `found` tells whether there is one.
    pub fn row_read(&mut self, found: bool)
        requires
            old(self).wf(),
            old(self).stands_at() == SearchPhase::Row,
        ensures
            old(self).goes_on(*final(self), found),
            final(self).recorded() == old(self).recorded(),
    {
        self.phase = if found {
            SearchPhase::Over
        } else if parse_role_id(self.role_id.as_str()).is_some() {
            SearchPhase::RoleQuota
        } else {
            SearchPhase::Create
        };
    }

    /// The quota that is recorded of the role was read, where there is one.
    pub fn role_quota_read(&mut self, quota: Option<i64>)
        requires
            old(self).wf(),
            old(self).stands_at() == SearchPhase::RoleQuota,
        ensures
            old(self).goes_on(*final(self), false),
            final(self).recorded() == quota,
    {
        self.role_quota = quota;
        self.phase = SearchPhase::Create;
    }

    /// The new settings were written down.
    pub fn created(&mut self)
        requires
            old(self).wf(),
            old(self).stands_at() == SearchPhase::Create,
        ensures
            old(self).goes_on(*final(self), false),
            final(self).recorded() == old(self).recorded(),
    {
        self.phase = SearchPhase::Over;
    }
}

/// Phases that are left after `phase`, at most.
pub open spec fn phases_left(phase: SearchPhase) -> nat {
    match phase {
        SearchPhase::Row => 3,
        SearchPhase::RoleQuota => 2,
        SearchPhase::Create => 1,
        SearchPhase::Over => 0,
    }
}

/// What a search does from `phase` on.
pub open spec fn course(phase: SearchPhase, found: bool, numbered: bool) -> Seq<SearchPhase>
    decreases phases_left(phase),
{
    if phase == SearchPhase::Over {
        Seq::empty()
    } else {
        seq![phase] + course(phase_after(phase, found, numbered), found, numbered)
    }
}

/// A user without settings gets new ones once, after the role's quota was looked for
/// where the role is a number; a user with a row gets no others; and where the
/// settings are known, nothing is read or written.
pub proof fn settings_are_created_once(found: bool, numbered: bool)
    ensures
        course(SearchPhase::Over, found, numbered) == Seq::<SearchPhase>::empty(),
        course(SearchPhase::Row, found, numbered) == if found {
            seq![SearchPhase::Row]
        } else if numbered {
            seq![SearchPhase::Row, SearchPhase::RoleQuota, SearchPhase::Create]
        } else {
            seq![SearchPhase::Row, SearchPhase::Create]
        },
{
    reveal_with_fuel(course, 4);
    assert(course(SearchPhase::Over, found, numbered) =~= Seq::<SearchPhase>::empty());
    assert(course(SearchPhase::Create, found, numbered) =~= seq![SearchPhase::Create]);
    assert(course(SearchPhase::RoleQuota, found, numbered) =~= seq![
        SearchPhase::RoleQuota,
        SearchPhase::Create,
    ]);
    assert(course(SearchPhase::Row, found, numbered) =~= if found {
        seq![SearchPhase::Row]
    } else if numbered {
        seq![SearchPhase::Row, SearchPhase::RoleQuota, SearchPhase::Create]
    } else {
        seq![SearchPhase::Row, SearchPhase::Create]
    });
}

/// What is remembered is what is answered from then on, and what is known of others
/// stays.
pub proof fn remembered_settings_are_answered<S>(
    before: KnownSettings<S>,
    after: KnownSettings<S>,
    user_id: Seq<char>,
    row: S,
    other: Seq<char>,
)
    requires
        after@ == before@.insert(user_id, row),
    ensures
        after@.contains_key(user_id) && after@[user_id] == row,
        other != user_id ==> after@.contains_key(other) == before@.contains_key(other),
        other != user_id && before@.contains_key(other) ==> after@[other] == before@[other],
{
}

} // verus!
