//! The player accounts that the launcher knows, and which of them is in use.

use crate::text::{chars_of, string_of};
use vstd::prelude::*;

verus! {

/// One player account.
#[derive(Debug)]
pub struct Account {
    /// The player's name.
    pub name: String,
    /// The player's identifier; an offline account has none.
    pub uuid: Option<String>,
    /// Whether the account plays without signing in.
    pub offline: bool,
}

/// What an account holds, as plain values.
pub struct AccountView {
    pub name: Seq<char>,
    pub uuid: Option<Seq<char>>,
    pub offline: bool,
}

impl View for Account {
    type V = AccountView;

    open spec fn view(&self) -> AccountView {
        AccountView {
            name: self.name@,
            uuid: match self.uuid {
                Some(uuid) => Some(uuid@),
                None => None,
            },
            offline: self.offline,
        }
    }
}

/// The accounts that the launcher knows and the name of the one in use.
#[derive(Debug)]
pub struct Accounts {
    /// The name of the account in use; empty where there is none.
    pub selected: String,
    /// The accounts, in the order in which they were added.
    pub accounts: Vec<Account>,
}

/// The views of a sequence of accounts.
pub open spec fn account_views(accounts: Seq<Account>) -> Seq<AccountView> {
    accounts.map_values(|a: Account| a@)
}

/// The index of the first of `accounts` from `from` on that is named `name`.
pub open spec fn position_of(accounts: Seq<AccountView>, name: Seq<char>, from: int) -> Option<int>
    decreases accounts.len() - from,
{
    if from < 0 || from >= accounts.len() {
        None
    } else if accounts[from].name == name {
        Some(from)
    } else {
        position_of(accounts, name, from + 1)
    }
}

/// `accounts` with `account` in the place of the first one that has its
/// name, or at the end where none has.
pub open spec fn with_account(accounts: Seq<AccountView>, account: AccountView) -> Seq<AccountView> {
    match position_of(accounts, account.name, 0) {
        Some(at) => accounts.update(at, account),
        None => accounts.push(account),
    }
}

/// The members of the first `upto` of `accounts` that are not named `name`.
pub open spec fn others(accounts: Seq<AccountView>, name: Seq<char>, upto: int) -> Seq<AccountView>
    decreases upto,
{
    if upto <= 0 {
        Seq::<AccountView>::empty()
    } else if accounts[upto - 1].name != name {
        others(accounts, name, upto - 1).push(accounts[upto - 1])
    } else {
        others(accounts, name, upto - 1)
    }
}

/// What the launcher signs in with.
#[derive(Debug)]
pub enum Credential {
    /// No account is in use.
    NoAccount,
    /// An offline account: the name is all there is.
    Offline { name: String },
    /// An online account: its access token is kept under `uuid`.
    Online { name: String, uuid: String },
    /// An online account without an identifier, so that its token cannot be found.
    MissingUuid { name: String },
}

/// The position at which `position_of` finds a name is within bounds and
/// holds that name, and no earlier position from `from` on does.
pub proof fn lemma_position_of(accounts: Seq<AccountView>, name: Seq<char>, from: int)
    requires
        0 <= from,
    ensures
        position_of(accounts, name, from) matches Some(at) ==> from <= at < accounts.len()
            && accounts[at].name == name && forall|j: int|
            from <= j < at ==> (#[trigger] accounts[j]).name != name,
        position_of(accounts, name, from) is None ==> forall|j: int|
            from <= j < accounts.len() ==> (#[trigger] accounts[j]).name != name,
    decreases accounts.len() - from,
{
    if from < accounts.len() && accounts[from].name != name {
        lemma_position_of(accounts, name, from + 1);
    }
}

impl Account {
    /// A copy of the account.
    pub fn copy(&self) -> (out: Account)
        ensures
            out@ == self@,
    {
        Account {
            name: self.name.clone(),
            uuid: match &self.uuid {
                Some(uuid) => Some(uuid.clone()),
                None => None,
            },
            offline: self.offline,
        }
    }

    /// The name under which the account's access token is kept: its
    /// identifier, for an online account that has one.
    pub fn token_owner(&self) -> (r: Option<String>)
        ensures
            match r {
                Some(uuid) => !self.offline && self@.uuid == Some(uuid@),
                None => self.offline || self.uuid is None,
            },
    {
        if self.offline {
            return None;
        }
        match &self.uuid {
            Some(uuid) => Some(uuid.clone()),
            None => None,
        }
    }
}

impl Accounts {
    /// The accounts' views, in order.
    pub open spec fn members(&self) -> Seq<AccountView> {
        account_views(self.accounts@)
    }

    /// One account, in use.
    pub fn single(account: Account) -> (out: Accounts)
        ensures
            out.selected@ == account.name@,
            out.members() == seq![account@],
    {
        let selected = account.name.clone();
        let mut accounts: Vec<Account> = Vec::new();
        accounts.push(account);
        proof {
            assert(account_views(accounts@) =~= seq![account@]);
        }
        Accounts { selected, accounts }
    }

    /// The index of the first account named `name`.
    pub fn find(&self, name: &str) -> (r: Option<usize>)
        ensures
            match r {
                Some(at) => position_of(self.members(), name@, 0) == Some(at as int) && at
                    < self.accounts.len(),
                None => position_of(self.members(), name@, 0) is None,
            },
    {
        let wanted = chars_of(name);
        let mut i: usize = 0;
        while i < self.accounts.len()
            invariant
                i <= self.accounts.len(),
                wanted@ == name@,
                position_of(self.members(), name@, 0) == position_of(
                    self.members(),
                    name@,
                    i as int,
                ),
            decreases self.accounts.len() - i,
        {
            proof {
                assert(self.members()[i as int] == self.accounts@[i as int]@);
            }
            if crate::text::same_chars(&chars_of(self.accounts[i].name.as_str()), &wanted) {
                return Some(i);
            }
            i += 1;
        }
        None
    }

    /// The index of the account in use.
    pub fn selected_index(&self) -> (r: Option<usize>)
        ensures
            match r {
                Some(at) => position_of(self.members(), self.selected@, 0) == Some(at as int)
                    && at < self.accounts.len(),
                None => position_of(self.members(), self.selected@, 0) is None,
            },
    {
        self.find(self.selected.as_str())
    }

    /// Puts `name` in use.
    pub fn select(&mut self, name: &str)
        ensures
            final(self).selected@ == name@,
            final(self).accounts == old(self).accounts,
    {
        self.selected = string_of(&chars_of(name));
    }

    /// Adds `account` and puts it in use. Where an account of that name is
    /// known already, the new one takes the place of the first such account.
    pub fn upsert(&mut self, account: Account)
        ensures
            final(self).selected@ == account.name@,
            final(self).members() == with_account(old(self).members(), account@),
    {
        let ghost before = self.members();
        self.selected = account.name.clone();
        match self.find(account.name.as_str()) {
            Some(at) => {
                self.accounts.set(at, account);
                proof {
                    assert(self.members() =~= before.update(at as int, account@));
                }
            },
            None => {
                self.accounts.push(account);
                proof {
                    assert(self.members() =~= before.push(account@));
                }
            },
        }
    }

    /// The accounts without those named as the one in use. The first that
    /// is left is then in use; where none is left, none is.
    pub fn without_selected(&self) -> (out: Accounts)
        ensures
            out.members() == others(self.members(), self.selected@, self.accounts.len() as int),
            out.selected@ == if out.members().len() > 0 {
                out.members()[0].name
            } else {
                Seq::<char>::empty()
            },
    {
        let gone = chars_of(self.selected.as_str());
        let mut kept: Vec<Account> = Vec::new();
        let mut i: usize = 0;
        proof {
            assert(account_views(kept@) =~= Seq::<AccountView>::empty());
        }
        while i < self.accounts.len()
            invariant
                i <= self.accounts.len(),
                gone@ == self.selected@,
                account_views(kept@) == others(self.members(), self.selected@, i as int),
            decreases self.accounts.len() - i,
        {
            proof {
                assert(self.members()[i as int] == self.accounts@[i as int]@);
            }
            if !crate::text::same_chars(&chars_of(self.accounts[i].name.as_str()), &gone) {
                let copy = self.accounts[i].copy();
                proof {
                    assert(account_views(kept@.push(copy)) == account_views(kept@).push(copy@));
                }
                kept.push(copy);
            }
            i += 1;
        }
        let selected = if kept.len() > 0 {
            proof {
                assert(account_views(kept@)[0] == kept@[0]@);
            }
            kept[0].name.clone()
        } else {
            String::new()
        };
        proof {
            assert(account_views(kept@).len() == kept@.len());
        }
        Accounts { selected, accounts: kept }
    }

    /// What to sign in with: the account in use, told apart by how it signs in.
    pub fn credential(&self) -> (r: Credential)
        ensures
            match position_of(self.members(), self.selected@, 0) {
                None => r is NoAccount,
                Some(at) => {
                    let account = self.members()[at];
                    if account.offline {
                        r matches Credential::Offline { name } && name@ == account.name
                    } else {
                        match account.uuid {
                            Some(id) => r matches Credential::Online { name, uuid } && name@
                                == account.name && uuid@ == id,
                            None => r matches Credential::MissingUuid { name } && name@
                                == account.name,
                        }
                    }
                },
            },
    {
        match self.selected_index() {
            None => Credential::NoAccount,
            Some(at) => {
                let account = &self.accounts[at];
                proof {
                    assert(self.members()[at as int] == self.accounts@[at as int]@);
                }
                if account.offline {
                    Credential::Offline { name: account.name.clone() }
                } else {
                    match &account.uuid {
                        Some(uuid) => Credential::Online {
                            name: account.name.clone(),
                            uuid: uuid.clone(),
                        },
                        None => Credential::MissingUuid { name: account.name.clone() },
                    }
                }
            },
        }
    }
}

} // verus!
