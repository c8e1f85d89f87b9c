use cwd_governance::genesis::{balances_or_default, collapse_balances, members_from_weights, Cw20Coin};
use cwd_governance::orchestrator::{Admin, Core, CoreError, ModuleInstantiateInfo, ModuleRole, Pending};

fn coin(address: &str, amount: u128) -> Cw20Coin {
    Cw20Coin { address: address.to_string(), amount }
}

fn info(code_id: u64, admin: Option<Admin>) -> ModuleInstantiateInfo {
    ModuleInstantiateInfo { code_id, msg: vec![1, 2, 3], admin, label: format!("module {code_id}") }
}

fn setup() -> (Core, Vec<cwd_governance::orchestrator::Deployment>) {
    Core::instantiate(
        "DAO DAO".to_string(),
        "A DAO that builds DAOs".to_string(),
        None,
        None,
        Some(info(1, Some(Admin::Address { addr: "ekez".to_string() }))),
        vec![info(2, Some(Admin::CoreModule)), info(3, None)],
        vec![],
    )
    .unwrap()
}

#[test]
fn default_balance_goes_to_creator() {
    let b = balances_or_default(None, "creator".to_string(), 100_000_000);
    assert_eq!(b.len(), 1);
    assert_eq!(b[0].address, "creator");
    assert_eq!(b[0].amount, 100_000_000);
    let b = balances_or_default(Some(vec![coin("x", 1), coin("y", 2)]), "creator".to_string(), 5);
    assert_eq!(b.len(), 2);
    assert_eq!(b[1].address, "y");
}

#[test]
fn collapse_keeps_first_balance_per_address() {
    let b = collapse_balances(vec![coin("a", 1), coin("b", 2), coin("a", 3), coin("c", 4), coin("b", 5)]);
    let got: Vec<(String, u128)> = b.into_iter().map(|c| (c.address, c.amount)).collect();
    assert_eq!(got, vec![("a".to_string(), 1), ("b".to_string(), 2), ("c".to_string(), 4)]);
    assert!(collapse_balances(vec![]).is_empty());
}

#[test]
fn members_take_amounts_as_weights() {
    let m = members_from_weights(vec![coin("a", 7), coin("a", 9), coin("b", (1u128 << 64) + 5)]);
    assert_eq!(m.len(), 2);
    assert_eq!((m[0].addr.as_str(), m[0].weight), ("a", 7));
    assert_eq!((m[1].addr.as_str(), m[1].weight), ("b", 5));
}

#[test]
fn instantiate_requires_modules() {
    let r = Core::instantiate("n".to_string(), "d".to_string(), None, None, None, vec![info(2, None)], vec![]);
    assert!(matches!(r, Err(CoreError::MissingVotingModule)));
    let r = Core::instantiate("n".to_string(), "d".to_string(), None, None, Some(info(1, None)), vec![], vec![]);
    assert!(matches!(r, Err(CoreError::NoProposalModules)));
}

#[test]
fn core_module_admin_is_resolved_to_the_orchestrator() {
    let (mut core, ds) = setup();
    let me = "core".to_string();
    assert_eq!(ds.len(), 3);
    assert_eq!(ds[0].correlation_id, 0);
    assert_eq!(ds[0].role, ModuleRole::Voting);
    assert_eq!(ds[0].admin.as_deref(), Some("ekez"));
    assert_eq!(ds[1].admin, None);
    assert_eq!(ds[1].code_id, 2);
    assert_eq!(ds[1].msg, vec![1, 2, 3]);
    assert_eq!(ds[2].admin, None);
    assert!(core.handle_reply(0, "voting".to_string(), &me).unwrap().is_none());
    let up = core.handle_reply(1, "prop1".to_string(), &me).unwrap().unwrap();
    assert_eq!(up.contract, "prop1");
    assert_eq!(up.admin, "core");
    assert!(core.handle_reply(2, "prop2".to_string(), &me).unwrap().is_none());
    assert_eq!(core.voting_module.as_deref(), Some("voting"));
    assert_eq!(core.proposal_modules, vec!["prop1".to_string(), "prop2".to_string()]);
    assert!(core.pending.is_empty());
    assert!(core.is_proposal_module(&"prop2".to_string()));
    assert!(!core.is_proposal_module(&"voting".to_string()));
}

#[test]
fn unknown_correlation_is_refused() {
    let (mut core, _) = setup();
    let me = "core".to_string();
    assert!(matches!(core.handle_reply(9, "x".to_string(), &me), Err(CoreError::UnknownCorrelation)));
    core.handle_reply(0, "voting".to_string(), &me).unwrap();
    assert!(matches!(core.handle_reply(0, "again".to_string(), &me), Err(CoreError::UnknownCorrelation)));
    core.pending.push(Pending { correlation_id: 5, role: ModuleRole::Voting, core_admin: false });
    assert!(matches!(core.handle_reply(5, "again".to_string(), &me), Err(CoreError::VotingModuleAlreadySet)));
}

#[test]
fn adding_and_removing_proposal_modules() {
    let (mut core, _) = setup();
    let me = "core".to_string();
    core.handle_reply(0, "voting".to_string(), &me).unwrap();
    core.handle_reply(1, "prop1".to_string(), &me).unwrap();
    let stranger = "stranger".to_string();
    assert!(matches!(core.add_proposal_module(&stranger, &me, info(4, None)), Err(CoreError::Unauthorized)));
    let d = core.add_proposal_module(&me, &me, info(4, Some(Admin::CoreModule))).unwrap();
    assert_eq!(d.correlation_id, 3);
    assert_eq!(d.admin, None);
    let up = core.handle_reply(3, "prop3".to_string(), &me).unwrap().unwrap();
    assert_eq!((up.contract.as_str(), up.admin.as_str()), ("prop3", "core"));
    assert!(matches!(core.remove_proposal_module(&stranger, &me, &"prop1".to_string()), Err(CoreError::Unauthorized)));
    assert!(matches!(core.remove_proposal_module(&me, &me, &"nope".to_string()), Err(CoreError::ModuleNotFound)));
    assert_eq!(core.remove_proposal_module(&me, &me, &"prop1".to_string()), Ok(()));
    assert!(matches!(core.remove_proposal_module(&me, &me, &"prop3".to_string()), Err(CoreError::NoProposalModules)));
    assert_eq!(core.proposal_modules, vec!["prop3".to_string()]);
}

#[test]
fn explicit_admin_may_change_the_registry() {
    let (mut core, _) = Core::instantiate(
        "n".to_string(),
        "d".to_string(),
        Some("boss".to_string()),
        Some("https://dao.example".to_string()),
        Some(info(1, None)),
        vec![info(2, None)],
        vec![("k".to_string(), "v".to_string())],
    )
    .unwrap();
    assert!(core.is_authorized(&"boss".to_string(), &"core".to_string()));
    assert!(!core.is_authorized(&"other".to_string(), &"core".to_string()));
    assert_eq!(core.next_correlation_id, 2);
    assert_eq!(core.items.len(), 1);
    assert!(core.add_proposal_module(&"boss".to_string(), &"core".to_string(), info(5, None)).is_ok());
}

#[test]
fn hook_failures_are_reported_not_fatal() {
    let (mut core, _) = setup();
    let me = "core".to_string();
    assert_eq!(core.register_hook(&me, &me, "h1".to_string()), Ok(()));
    assert_eq!(core.register_hook(&me, &me, "h2".to_string()), Ok(()));
    assert_eq!(core.register_hook(&me, &me, "h3".to_string()), Ok(()));
    assert_eq!(core.register_hook(&me, &me, "h2".to_string()), Err(CoreError::HookAlreadyRegistered));
    assert_eq!(core.register_hook(&"x".to_string(), &me, "h4".to_string()), Err(CoreError::Unauthorized));
    assert_eq!(core.failed_hooks(&vec![true, false, false]), vec!["h2".to_string(), "h3".to_string()]);
    assert!(core.failed_hooks(&vec![true, true, true]).is_empty());
    assert_eq!(core.hook_subscribers.len(), 3);
}
