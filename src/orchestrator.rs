//! The orchestrator: deploys one voting module and the proposal modules,
//! keeps the registry of them, and hands control of each child whose
//! descriptor asks for it to the orchestrator once the child's address is
//! known.

use vstd::prelude::*;

verus! {

/// Errors of the orchestrator.
#[derive(Clone, Copy, Debug, PartialEq, Eq, Structural)]
pub enum CoreError {
    /// The sender may not change the registry.
    Unauthorized,
    /// No voting module descriptor was given.
    MissingVotingModule,
    /// The proposal module set would be empty.
    NoProposalModules,
    /// The address is not a registered proposal module.
    ModuleNotFound,
    /// The voting module is already recorded.
    VotingModuleAlreadySet,
    /// A deployment acknowledgment carries an unknown correlation id.
    UnknownCorrelation,
    /// No correlation id is left.
    CorrelationIdsExhausted,
    /// The hook subscriber is registered already.
    HookAlreadyRegistered,
}

/// Who administers a deployed child.
#[derive(Debug)]
pub enum Admin {
    /// A fixed address.
    Address { addr: String },
    /// The orchestrator itself.
    CoreModule,
}

/// How to deploy a child module.
#[derive(Debug)]
pub struct ModuleInstantiateInfo {
    pub code_id: u64,
    /// The child's instantiate payload, passed through untouched.
    pub msg: Vec<u8>,
    pub admin: Option<Admin>,
    pub label: String,
}

/// The role a child takes in the registry.
#[derive(Clone, Copy, Debug, PartialEq, Eq, Structural)]
pub enum ModuleRole {
    Voting,
    Proposal,
}

/// A deployment request tagged with its correlation id.
#[derive(Debug)]
pub struct Deployment {
    pub correlation_id: u64,
    pub role: ModuleRole,
    pub code_id: u64,
    pub msg: Vec<u8>,
    pub label: String,
    /// The admin set at deployment: a fixed address, or none at all; never a
    /// stand-in for the orchestrator.
    pub admin: Option<String>,
}

/// A deployment whose acknowledgment has not come yet.
#[derive(Clone, Copy, Debug, PartialEq, Eq, Structural)]
pub struct Pending {
    pub correlation_id: u64,
    pub role: ModuleRole,
    /// The descriptor named the orchestrator as admin.
    pub core_admin: bool,
}

/// An instruction to make `admin` the admin of `contract`.
#[derive(Debug)]
pub struct AdminUpdate {
    pub contract: String,
    pub admin: String,
}

/// The orchestrator's registry.
#[derive(Debug)]
pub struct Core {
    /// An extra address allowed to change the registry, besides the
    /// orchestrator itself.
    pub admin: Option<String>,
    pub name: String,
    pub description: String,
    pub dao_uri: Option<String>,
    pub voting_module: Option<String>,
    pub proposal_modules: Vec<String>,
    pub items: Vec<(String, String)>,
    pub pending: Vec<Pending>,
    pub next_correlation_id: u64,
    /// Listeners told of membership changes.
    pub hook_subscribers: Vec<String>,
}

/// The deployment request for `info` under correlation id `id`.
pub open spec fn deployment_for(info: ModuleInstantiateInfo, id: u64, role: ModuleRole) -> Deployment {
    Deployment {
        correlation_id: id,
        role,
        code_id: info.code_id,
        msg: info.msg,
        label: info.label,
        admin: match info.admin {
            Some(Admin::Address { addr }) => Some(addr),
            _ => None,
        },
    }
}

/// The pending record for `info` under correlation id `id`.
pub open spec fn pending_for(info: ModuleInstantiateInfo, id: u64, role: ModuleRole) -> Pending {
    Pending { correlation_id: id, role, core_admin: info.admin matches Some(Admin::CoreModule) }
}

pub open spec fn has_pending(p: Seq<Pending>, id: u64) -> bool {
    exists|i: int| 0 <= i < p.len() && p[i].correlation_id == id
}

pub open spec fn pending_index(p: Seq<Pending>, id: u64) -> int {
    choose|i: int| 0 <= i < p.len() && p[i].correlation_id == id
}

/// The admin update owed for a child deployed as `entry` at `child`, by an
/// orchestrator at `me`.
pub open spec fn admin_update_for(entry: Pending, child: String, me: String) -> Option<AdminUpdate> {
    if entry.core_admin {
        Some(AdminUpdate { contract: child, admin: me })
    } else {
        None
    }
}

pub open spec fn contains_addr(s: Seq<String>, a: Seq<char>) -> bool {
    exists|i: int| 0 <= i < s.len() && s[i]@ == a
}

fn deploy(info: ModuleInstantiateInfo, id: u64, role: ModuleRole) -> (r: (Deployment, Pending))
    ensures
        r.0 == deployment_for(info, id, role),
        r.1 == pending_for(info, id, role),
{
    let core_admin = matches!(info.admin, Some(Admin::CoreModule));
    let admin = match info.admin {
        Some(Admin::Address { addr }) => Some(addr),
        _ => None,
    };
    (
        Deployment {
            correlation_id: id,
            role,
            code_id: info.code_id,
            msg: info.msg,
            label: info.label,
            admin,
        },
        Pending { correlation_id: id, role, core_admin },
    )
}

impl Core {
    /// Pending correlation ids are distinct and below the next one.
    pub open spec fn wf(self) -> bool {
        &&& forall|i: int|
            0 <= i < self.pending@.len() ==> #[trigger] self.pending@[i].correlation_id
                < self.next_correlation_id
        &&& forall|i: int, j: int|
            0 <= i < j < self.pending@.len() ==> #[trigger] self.pending@[i].correlation_id
                != #[trigger] self.pending@[j].correlation_id
    }

    /// `sender` may change the registry of an orchestrator at `me`.
    pub open spec fn authorized(self, sender: Seq<char>, me: Seq<char>) -> bool {
        sender == me || (self.admin matches Some(a) && a@ == sender)
    }

    /// Sets up the registry and asks for the deployment of the voting module
    /// (correlation id 0) and of each proposal module (ids 1, 2, ...), in
    /// order. Children that name the orchestrator as admin are deployed
    /// without an admin and recorded as pending for the second step.
    pub fn instantiate(
        name: String,
        description: String,
        admin: Option<String>,
        dao_uri: Option<String>,
        voting_module: Option<ModuleInstantiateInfo>,
        proposal_modules: Vec<ModuleInstantiateInfo>,
        items: Vec<(String, String)>,
    ) -> (r: Result<(Core, Vec<Deployment>), CoreError>)
        requires
            proposal_modules@.len() < u64::MAX,
        ensures
            voting_module is None ==> r == Err::<(Core, Vec<Deployment>), CoreError>(
                CoreError::MissingVotingModule,
            ),
            voting_module is Some && proposal_modules@.len() == 0 ==> r == Err::<
                (Core, Vec<Deployment>),
                CoreError,
            >(CoreError::NoProposalModules),
            voting_module is Some && proposal_modules@.len() > 0 ==> (r matches Ok((core, ds)) && {
                let n = proposal_modules@.len();
                &&& core.wf()
                &&& core.name == name
                &&& core.description == description
                &&& core.admin == admin
                &&& core.dao_uri == dao_uri
                &&& core.items == items
                &&& core.voting_module is None
                &&& core.proposal_modules@.len() == 0
                &&& core.next_correlation_id == n + 1
                &&& core.hook_subscribers@.len() == 0
                &&& ds@.len() == n + 1
                &&& core.pending@.len() == n + 1
                &&& ds@[0] == deployment_for(voting_module.unwrap(), 0, ModuleRole::Voting)
                &&& core.pending@[0] == pending_for(voting_module.unwrap(), 0, ModuleRole::Voting)
                &&& forall|i: int|
                    0 <= i < n ==> #[trigger] ds@[i + 1] == deployment_for(
                        proposal_modules@[i],
                        (i + 1) as u64,
                        ModuleRole::Proposal,
                    ) && core.pending@[i + 1] == pending_for(
                        proposal_modules@[i],
                        (i + 1) as u64,
                        ModuleRole::Proposal,
                    )
            }),
    {
        let voting = match voting_module {
            Some(v) => v,
            None => {
                return Err(CoreError::MissingVotingModule);
            },
        };
        if proposal_modules.len() == 0 {
            return Err(CoreError::NoProposalModules);
        }
        let ghost orig = proposal_modules@;
        let n: usize = proposal_modules.len();
        let mut infos = proposal_modules;
        let mut deployments: Vec<Deployment> = Vec::new();
        let mut pending: Vec<Pending> = Vec::new();
        let (d0, p0) = deploy(voting, 0, ModuleRole::Voting);
        deployments.push(d0);
        pending.push(p0);
        let mut k: usize = 0;
        while k < n
            invariant
                n == orig.len(),
                n < u64::MAX,
                k <= n,
                infos@ == orig.subrange(k as int, n as int),
                deployments@.len() == k + 1,
                pending@.len() == k + 1,
                deployments@[0] == d0,
                pending@[0] == p0,
                forall|i: int| 0 <= i < pending@.len() ==> #[trigger] pending@[i].correlation_id == i,
                forall|i: int|
                    0 <= i < k ==> #[trigger] deployments@[i + 1] == deployment_for(
                        orig[i],
                        (i + 1) as u64,
                        ModuleRole::Proposal,
                    ) && pending@[i + 1] == pending_for(orig[i], (i + 1) as u64, ModuleRole::Proposal),
            decreases n - k,
        {
            let info = infos.remove(0);
            let ghost rest = infos@;
            assert(info == orig[k as int]);
            assert(rest =~= orig.subrange(k + 1, n as int));
            let id: u64 = (k + 1) as u64;
            let (d, p) = deploy(info, id, ModuleRole::Proposal);
            deployments.push(d);
            pending.push(p);
            k = k + 1;
        }
        let core = Core {
            admin,
            name,
            description,
            dao_uri,
            voting_module: None,
            proposal_modules: Vec::new(),
            items,
            pending,
            next_correlation_id: (n as u64) + 1,
            hook_subscribers: Vec::new(),
        };
        Ok((core, deployments))
    }

    /// What the acknowledgment of deployment `id` at address `child` does.
    pub open spec fn reply_error(self, id: u64) -> Option<CoreError> {
        if !has_pending(self.pending@, id) {
            Some(CoreError::UnknownCorrelation)
        } else if self.pending@[pending_index(self.pending@, id)].role == ModuleRole::Voting
            && self.voting_module is Some {
            Some(CoreError::VotingModuleAlreadySet)
        } else {
            None
        }
    }

    /// Handles the acknowledgment of deployment `id`, which created `child`,
    /// in an orchestrator at `me`: records the child in its role and, where
    /// its descriptor named the orchestrator as admin, returns the update
    /// that makes `me` its admin.
    pub fn handle_reply(&mut self, id: u64, child: String, me: &String) -> (r: Result<
        Option<AdminUpdate>,
        CoreError,
    >)
        requires
            old(self).wf(),
        ensures
            final(self).wf(),
            match old(self).reply_error(id) {
                Some(e) => r == Err::<Option<AdminUpdate>, CoreError>(e) && *final(self) == *old(
                    self,
                ),
                None => {
                    let k = pending_index(old(self).pending@, id);
                    let entry = old(self).pending@[k];
                    &&& r == Ok::<Option<AdminUpdate>, CoreError>(
                        admin_update_for(entry, child, *me),
                    )
                    &&& final(self).pending@ == old(self).pending@.remove(k)
                    &&& entry.role == ModuleRole::Voting ==> final(self).voting_module == Some(
                        child,
                    ) && final(self).proposal_modules == old(self).proposal_modules
                    &&& entry.role == ModuleRole::Proposal ==> final(self).proposal_modules@
                        == old(self).proposal_modules@.push(child) && final(self).voting_module
                        == old(self).voting_module
                    &&& final(self).admin == old(self).admin
                    &&& final(self).next_correlation_id == old(self).next_correlation_id
                },
            },
    {
        let mut i: usize = 0;
        let mut found: bool = false;
        while !found && i < self.pending.len()
            invariant
                i <= self.pending@.len(),
                forall|k: int| 0 <= k < i ==> self.pending@[k].correlation_id != id,
                found ==> i < self.pending@.len() && self.pending@[i as int].correlation_id == id,
            decreases self.pending@.len() - i + if found {
                0int
            } else {
                1int
            },
        {
            if self.pending[i].correlation_id == id {
                found = true;
            } else {
                i = i + 1;
            }
        }
        if !found {
            assert(!has_pending(self.pending@, id));
            return Err(CoreError::UnknownCorrelation);
        }
        proof {
            let c = pending_index(self.pending@, id);
            if c != i {
                if c < i {
                    assert(self.pending@[c].correlation_id != self.pending@[i as int].correlation_id);
                } else {
                    assert(self.pending@[i as int].correlation_id != self.pending@[c].correlation_id);
                }
            }
        }
        let entry = self.pending[i];
        match entry.role {
            ModuleRole::Voting => {
                if self.voting_module.is_some() {
                    return Err(CoreError::VotingModuleAlreadySet);
                }
                self.pending.remove(i);
                self.voting_module = Some(child.clone());
            },
            ModuleRole::Proposal => {
                self.pending.remove(i);
                self.proposal_modules.push(child.clone());
            },
        }
        if entry.core_admin {
            Ok(Some(AdminUpdate { contract: child, admin: me.clone() }))
        } else {
            Ok(None)
        }
    }

    /// Asks for the deployment of one more proposal module; the same two
    /// steps then settle its admin.
    pub fn add_proposal_module(
        &mut self,
        sender: &String,
        me: &String,
        info: ModuleInstantiateInfo,
    ) -> (r: Result<Deployment, CoreError>)
        requires
            old(self).wf(),
        ensures
            final(self).wf(),
            !old(self).authorized(sender@, me@) ==> r == Err::<Deployment, CoreError>(
                CoreError::Unauthorized,
            ) && *final(self) == *old(self),
            old(self).authorized(sender@, me@) && old(self).next_correlation_id == u64::MAX ==> r
                == Err::<Deployment, CoreError>(CoreError::CorrelationIdsExhausted) && *final(self)
                == *old(self),
            old(self).authorized(sender@, me@) && old(self).next_correlation_id < u64::MAX ==> {
                let id = old(self).next_correlation_id;
                &&& r == Ok::<Deployment, CoreError>(
                    deployment_for(info, id, ModuleRole::Proposal),
                )
                &&& final(self).pending@ == old(self).pending@.push(
                    pending_for(info, id, ModuleRole::Proposal),
                )
                &&& final(self).next_correlation_id == id + 1
                &&& final(self).proposal_modules == old(self).proposal_modules
                &&& final(self).voting_module == old(self).voting_module
                &&& final(self).admin == old(self).admin
            },
    {
        if !self.is_authorized(sender, me) {
            return Err(CoreError::Unauthorized);
        }
        if self.next_correlation_id == u64::MAX {
            return Err(CoreError::CorrelationIdsExhausted);
        }
        let id = self.next_correlation_id;
        let (d, p) = deploy(info, id, ModuleRole::Proposal);
        self.pending.push(p);
        self.next_correlation_id = id + 1;
        Ok(d)
    }

    /// Whether `sender` may change the registry of an orchestrator at `me`.
    pub fn is_authorized(&self, sender: &String, me: &String) -> (r: bool)
        ensures
            r == self.authorized(sender@, me@),
    {
        if *sender == *me {
            return true;
        }
        match &self.admin {
            Some(a) => *a == *sender,
            None => false,
        }
    }

    /// Whether `addr` is a registered proposal module, the only callers that
    /// may dispatch instructions with the orchestrator's authority.
    pub fn is_proposal_module(&self, addr: &String) -> (r: bool)
        ensures
            r == contains_addr(self.proposal_modules@, addr@),
    {
        let mut i: usize = 0;
        while i < self.proposal_modules.len()
            invariant
                i <= self.proposal_modules@.len(),
                forall|k: int| 0 <= k < i ==> self.proposal_modules@[k]@ != addr@,
            decreases self.proposal_modules@.len() - i,
        {
            if self.proposal_modules[i] == *addr {
                return true;
            }
            i = i + 1;
        }
        false
    }

    /// Removes proposal module `addr`; the set may not become empty.
    pub fn remove_proposal_module(&mut self, sender: &String, me: &String, addr: &String) -> (r:
        Result<(), CoreError>)
        requires
            old(self).wf(),
        ensures
            final(self).wf(),
            r == if !old(self).authorized(sender@, me@) {
                Err::<(), CoreError>(CoreError::Unauthorized)
            } else if !contains_addr(old(self).proposal_modules@, addr@) {
                Err(CoreError::ModuleNotFound)
            } else if old(self).proposal_modules@.len() == 1 {
                Err(CoreError::NoProposalModules)
            } else {
                Ok(())
            },
            r is Err ==> *final(self) == *old(self),
            r is Ok ==> exists|k: int|
                0 <= k < old(self).proposal_modules@.len() && old(self).proposal_modules@[k]@
                    == addr@ && final(self).proposal_modules@ == old(self).proposal_modules@.remove(
                    k,
                ),
            r is Ok ==> final(self).voting_module == old(self).voting_module && final(self).pending
                == old(self).pending,
    {
        if !self.is_authorized(sender, me) {
            return Err(CoreError::Unauthorized);
        }
        let mut i: usize = 0;
        let mut found: bool = false;
        while !found && i < self.proposal_modules.len()
            invariant
                i <= self.proposal_modules@.len(),
                forall|k: int| 0 <= k < i ==> self.proposal_modules@[k]@ != addr@,
                found ==> i < self.proposal_modules@.len() && self.proposal_modules@[i as int]@
                    == addr@,
            decreases self.proposal_modules@.len() - i + if found {
                0int
            } else {
                1int
            },
        {
            if self.proposal_modules[i] == *addr {
                found = true;
            } else {
                i = i + 1;
            }
        }
        if !found {
            return Err(CoreError::ModuleNotFound);
        }
        if self.proposal_modules.len() == 1 {
            return Err(CoreError::NoProposalModules);
        }
        self.proposal_modules.remove(i);
        Ok(())
    }
}

/// The subscribers, in order, whose notification failed.
pub open spec fn failed_subscribers(subs: Seq<String>, succeeded: Seq<bool>) -> Seq<String>
    decreases subs.len(),
{
    if subs.len() == 0 {
        Seq::empty()
    } else {
        let rest = failed_subscribers(subs.drop_last(), succeeded);
        if succeeded[subs.len() - 1] {
            rest
        } else {
            rest.push(subs.last())
        }
    }
}

impl Core {
    /// Registers `addr` to be told of membership changes.
    pub fn register_hook(&mut self, sender: &String, me: &String, addr: String) -> (r: Result<
        (),
        CoreError,
    >)
        requires
            old(self).wf(),
        ensures
            final(self).wf(),
            r == if !old(self).authorized(sender@, me@) {
                Err::<(), CoreError>(CoreError::Unauthorized)
            } else if contains_addr(old(self).hook_subscribers@, addr@) {
                Err(CoreError::HookAlreadyRegistered)
            } else {
                Ok(())
            },
            r is Err ==> *final(self) == *old(self),
            r is Ok ==> final(self).hook_subscribers@ == old(self).hook_subscribers@.push(addr)
                && final(self).proposal_modules == old(self).proposal_modules
                && final(self).voting_module == old(self).voting_module && final(self).pending
                == old(self).pending,
    {
        if !self.is_authorized(sender, me) {
            return Err(CoreError::Unauthorized);
        }
        let mut i: usize = 0;
        while i < self.hook_subscribers.len()
            invariant
                *self == *old(self),
                old(self).wf(),
                old(self).authorized(sender@, me@),
                i <= self.hook_subscribers@.len(),
                forall|k: int| 0 <= k < i ==> self.hook_subscribers@[k]@ != addr@,
            decreases self.hook_subscribers@.len() - i,
        {
            if self.hook_subscribers[i] == addr {
                assert(contains_addr(self.hook_subscribers@, addr@));
                return Err(CoreError::HookAlreadyRegistered);
            }
            i = i + 1;
        }
        self.hook_subscribers.push(addr);
        Ok(())
    }

    /// The subscribers whose notification of a membership change failed,
    /// reported as warnings: `succeeded[i]` is the outcome for subscriber
    /// `i`. A failure never undoes the change itself.
    pub fn failed_hooks(&self, succeeded: &Vec<bool>) -> (r: Vec<String>)
        requires
            succeeded@.len() == self.hook_subscribers@.len(),
        ensures
            r@ == failed_subscribers(self.hook_subscribers@, succeeded@),
    {
        let mut out: Vec<String> = Vec::new();
        let mut i: usize = 0;
        while i < self.hook_subscribers.len()
            invariant
                succeeded@.len() == self.hook_subscribers@.len(),
                i <= self.hook_subscribers@.len(),
                out@ == failed_subscribers(self.hook_subscribers@.take(i as int), succeeded@),
            decreases self.hook_subscribers@.len() - i,
        {
            proof {
                let t = self.hook_subscribers@.take(i as int + 1);
                assert(t.drop_last() =~= self.hook_subscribers@.take(i as int));
            }
            if !succeeded[i] {
                out.push(self.hook_subscribers[i].clone());
            }
            i = i + 1;
        }
        assert(self.hook_subscribers@.take(i as int) =~= self.hook_subscribers@);
        out
    }
}

/// Every child whose descriptor names the orchestrator as admin is deployed
/// with no admin, and its acknowledgment yields the update that makes the
/// orchestrator's own resolved address its admin.
pub proof fn lemma_core_module_admin_resolved(
    info: ModuleInstantiateInfo,
    id: u64,
    role: ModuleRole,
    child: String,
    me: String,
)
    requires
        info.admin matches Some(Admin::CoreModule),
    ensures
        deployment_for(info, id, role).admin is None,
        admin_update_for(pending_for(info, id, role), child, me) == Some(
            (AdminUpdate { contract: child, admin: me }),
        ),
{
}

} // verus!
