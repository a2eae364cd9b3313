use dep_dns::error::RegistryError;
use dep_dns::event::Event;
use dep_dns::fee::FeeLedger;
use dep_dns::registry::Registry;

fn setup(fee: u64, period: u64, min_balance: u64) -> (Registry, FeeLedger) {
    (Registry::new(fee, period), FeeLedger::new(min_balance))
}

#[test]
fn configuration_is_fixed_at_construction() {
    let (reg, ledger) = setup(10, 25, 0);
    assert_eq!(reg.fee(), 10);
    assert_eq!(reg.expiry_period(), 25);
    assert_eq!(ledger.balance_of(7), 0);
    assert!(reg.events().is_empty());
}

#[test]
fn it_should_register_domain_successfully() {
    let (mut reg, mut ledger) = setup(10, 10, 0);
    // Set the current ordinal
    let now = 1;

    let account_id = 1;
    let domain = "example".to_string();
    let domain_alias = vec!["alias".to_string()];
    let owner_info = "Owner Information".to_string();

    // Provide initial balance for account
    ledger.deposit(account_id, 1000);

    assert!(reg
        .register_domain(&mut ledger, now, account_id, domain.clone(), owner_info, domain_alias)
        .is_ok());

    // Test event has been recorded
    let event = Event::Registered { name: domain, owner: account_id, expire: 11 };
    assert!(reg.events().iter().any(|a| *a == event));
}

#[test]
fn it_should_not_register_domain_if_exists() {
    let (mut reg, mut ledger) = setup(10, 10, 0);
    let now = 1;

    let account_id = 1;
    let domain = "example".to_string();
    let domain_alias = vec!["alias".to_string()];
    let owner_info = "Owner Information".to_string();

    ledger.deposit(account_id, 2000);

    assert!(reg
        .register_domain(
            &mut ledger,
            now,
            account_id,
            domain.clone(),
            owner_info.clone(),
            domain_alias.clone(),
        )
        .is_ok());
    let balance_before = ledger.balance_of(account_id);
    let events_before = reg.events().len();
    assert_eq!(
        reg.register_domain(&mut ledger, now, account_id, domain.clone(), owner_info, domain_alias),
        Err(RegistryError::AlreadyExists)
    );
    // a failing call changes nothing
    assert_eq!(ledger.balance_of(account_id), balance_before);
    assert_eq!(reg.events().len(), events_before);
    assert!(reg.contains_domain(&domain));
}

#[test]
fn it_should_transfer_ownership() {
    let (mut reg, mut ledger) = setup(10, 10, 0);
    let now = 1;

    let old_owner = 1;
    let new_owner = 2;
    let domain = "example".to_string();
    let domain_alias = vec!["alias".to_string()];
    let owner_info = "Owner Information".to_string();

    ledger.deposit(old_owner, 1000);
    assert!(reg
        .register_domain(&mut ledger, now, old_owner, domain.clone(), owner_info, domain_alias)
        .is_ok());

    assert!(reg.transfer_ownership(old_owner, domain.clone(), new_owner).is_ok());

    // Test event has been recorded
    let event = Event::OwnershipTransferred { name: domain, old_owner, recipient: new_owner };
    assert!(reg.events().iter().any(|a| *a == event));
}

#[test]
fn register_scenario_fee_and_expiry() {
    // register "example" as account 1 with fee 10 and balance 1000 at
    // ordinal 1, expiry period 10
    let (mut reg, mut ledger) = setup(10, 10, 0);
    ledger.deposit(1, 1000);
    let r = reg.register_domain(
        &mut ledger,
        1,
        1,
        "example".to_string(),
        "Owner Information".to_string(),
        vec!["alias".to_string()],
    );
    assert!(r.is_ok());
    let d = reg.get_domain(&"example".to_string()).unwrap();
    assert_eq!(d.expire, 11);
    assert_eq!(d.owner, 1);
    assert_eq!(ledger.balance_of(1), 990);
    assert_eq!(
        reg.events()[0],
        Event::Registered { name: "example".to_string(), owner: 1, expire: 11 }
    );

    // a second register of "example" fails and the balance stays at 990
    let r2 = reg.register_domain(
        &mut ledger,
        1,
        1,
        "example".to_string(),
        "Owner Information".to_string(),
        vec![],
    );
    assert_eq!(r2, Err(RegistryError::AlreadyExists));
    assert_eq!(ledger.balance_of(1), 990);
}

#[test]
fn transfer_scenario_gating_then_success() {
    let (mut reg, mut ledger) = setup(10, 10, 0);
    ledger.deposit(1, 1000);
    reg.register_domain(
        &mut ledger,
        1,
        1,
        "example".to_string(),
        "info".to_string(),
        vec![],
    )
    .unwrap();

    // account 2 is not the owner
    let r = reg.transfer_ownership(2, "example".to_string(), 2);
    assert_eq!(r, Err(RegistryError::NotOwner));
    assert_eq!(reg.get_domain(&"example".to_string()).unwrap().owner, 1);

    // the owner transfers
    let r2 = reg.transfer_ownership(1, "example".to_string(), 2);
    assert!(r2.is_ok());
    assert_eq!(reg.get_domain(&"example".to_string()).unwrap().owner, 2);
    let event = Event::OwnershipTransferred {
        name: "example".to_string(),
        old_owner: 1,
        recipient: 2,
    };
    assert!(reg.events().iter().any(|a| *a == event));
}

#[test]
fn dns_record_scenario() {
    let (mut reg, mut ledger) = setup(10, 10, 0);
    ledger.deposit(1, 1000);
    reg.register_domain(
        &mut ledger,
        1,
        1,
        "example".to_string(),
        "info".to_string(),
        vec![],
    )
    .unwrap();

    // non-owner cannot set a record
    let r = reg.add_update_dns_record(2, "example".to_string(), "A".to_string(), "1.2.3.4".to_string());
    assert_eq!(r, Err(RegistryError::NotOwner));
    assert!(reg.get_dns_record(&"example".to_string(), &"A".to_string()).is_none());

    // the owner sets it
    let r2 = reg.add_update_dns_record(1, "example".to_string(), "A".to_string(), "1.2.3.4".to_string());
    assert!(r2.is_ok());
    assert_eq!(
        reg.get_dns_record(&"example".to_string(), &"A".to_string()),
        Some(&"1.2.3.4".to_string())
    );

    // the owner removes it; the record is then absent
    let r3 = reg.remove_dns_record(1, "example".to_string(), "A".to_string());
    assert!(r3.is_ok());
    assert!(reg.get_dns_record(&"example".to_string(), &"A".to_string()).is_none());
}

#[test]
fn dns_record_overwrite() {
    let (mut reg, mut ledger) = setup(10, 10, 0);
    ledger.deposit(1, 100);
    reg.register_domain(&mut ledger, 1, 1, "a".to_string(), "i".to_string(), vec![])
        .unwrap();
    reg.add_update_dns_record(1, "a".to_string(), "A".to_string(), "1.1.1.1".to_string())
        .unwrap();
    reg.add_update_dns_record(1, "a".to_string(), "A".to_string(), "2.2.2.2".to_string())
        .unwrap();
    assert_eq!(
        reg.get_dns_record(&"a".to_string(), &"A".to_string()),
        Some(&"2.2.2.2".to_string())
    );
}

#[test]
fn renewal_advances_expiry_from_stored_value() {
    let (mut reg, mut ledger) = setup(10, 10, 0);
    ledger.deposit(1, 1000);
    reg.register_domain(&mut ledger, 1, 1, "example".to_string(), "info".to_string(), vec![])
        .unwrap();
    assert_eq!(reg.get_domain(&"example".to_string()).unwrap().expire, 11);

    let r = reg.renew_registration(&mut ledger, 1, "example".to_string(), 3);
    assert!(r.is_ok());
    assert_eq!(reg.get_domain(&"example".to_string()).unwrap().expire, 41);
    assert_eq!(ledger.balance_of(1), 960);
    let event = Event::Renewed { name: "example".to_string(), new_expire: 41 };
    assert!(reg.events().iter().any(|a| *a == event));
}

#[test]
fn renewal_is_not_owner_gated() {
    // deliberate policy: anyone may pay to keep a domain alive
    let (mut reg, mut ledger) = setup(10, 10, 0);
    ledger.deposit(1, 100);
    ledger.deposit(2, 100);
    reg.register_domain(&mut ledger, 1, 1, "example".to_string(), "info".to_string(), vec![])
        .unwrap();

    let r = reg.renew_registration(&mut ledger, 2, "example".to_string(), 1);
    assert!(r.is_ok());
    assert_eq!(reg.get_domain(&"example".to_string()).unwrap().expire, 21);
    assert_eq!(ledger.balance_of(2), 90);
    // ownership is untouched
    assert_eq!(reg.get_domain(&"example".to_string()).unwrap().owner, 1);
}

#[test]
fn register_fee_failure_is_atomic() {
    let (mut reg, mut ledger) = setup(10, 10, 0);
    ledger.deposit(1, 5);
    let r = reg.register_domain(&mut ledger, 1, 1, "example".to_string(), "info".to_string(), vec![]);
    assert_eq!(r, Err(RegistryError::InsufficientFunds));
    assert!(!reg.contains_domain(&"example".to_string()));
    assert!(reg.events().is_empty());
    assert_eq!(ledger.balance_of(1), 5);
}

#[test]
fn renewal_fee_failure_is_atomic() {
    let (mut reg, mut ledger) = setup(10, 10, 0);
    ledger.deposit(1, 15);
    reg.register_domain(&mut ledger, 1, 1, "example".to_string(), "info".to_string(), vec![])
        .unwrap();
    assert_eq!(ledger.balance_of(1), 5);
    let events_before = reg.events().len();

    let r = reg.renew_registration(&mut ledger, 1, "example".to_string(), 1);
    assert_eq!(r, Err(RegistryError::InsufficientFunds));
    assert_eq!(reg.get_domain(&"example".to_string()).unwrap().expire, 11);
    assert_eq!(ledger.balance_of(1), 5);
    assert_eq!(reg.events().len(), events_before);
}

#[test]
fn min_balance_threshold_blocks_withdrawal() {
    // the debited account must keep at least the minimum-existence threshold
    let (mut reg, mut ledger) = setup(10, 10, 1);
    ledger.deposit(1, 10);
    let r = reg.register_domain(&mut ledger, 1, 1, "a".to_string(), "i".to_string(), vec![]);
    assert_eq!(r, Err(RegistryError::InsufficientFunds));

    ledger.deposit(1, 1);
    let r2 = reg.register_domain(&mut ledger, 1, 1, "a".to_string(), "i".to_string(), vec![]);
    assert!(r2.is_ok());
    assert_eq!(ledger.balance_of(1), 1);
}

#[test]
fn cancellation_is_final_and_name_reusable() {
    let (mut reg, mut ledger) = setup(10, 10, 0);
    ledger.deposit(1, 100);
    ledger.deposit(2, 100);
    reg.register_domain(&mut ledger, 1, 1, "example".to_string(), "info".to_string(), vec![])
        .unwrap();

    let r = reg.cancel_domain(1, "example".to_string());
    assert!(r.is_ok());
    assert!(!reg.contains_domain(&"example".to_string()));
    let event = Event::Cancelled { name: "example".to_string(), owner: 1 };
    assert!(reg.events().iter().any(|a| *a == event));

    // the name behaves as new: another account can register it
    let r2 = reg.register_domain(&mut ledger, 5, 2, "example".to_string(), "other".to_string(), vec![]);
    assert!(r2.is_ok());
    let d = reg.get_domain(&"example".to_string()).unwrap();
    assert_eq!(d.owner, 2);
    assert_eq!(d.expire, 15);
}

#[test]
fn cancellation_keeps_dns_records_in_storage() {
    // documented gap: cancelling does not cascade-delete records, and the
    // former owner can no longer reach them through the ownership gate
    let (mut reg, mut ledger) = setup(10, 10, 0);
    ledger.deposit(1, 100);
    reg.register_domain(&mut ledger, 1, 1, "example".to_string(), "info".to_string(), vec![])
        .unwrap();
    reg.add_update_dns_record(1, "example".to_string(), "A".to_string(), "1.2.3.4".to_string())
        .unwrap();
    reg.cancel_domain(1, "example".to_string()).unwrap();

    assert_eq!(
        reg.get_dns_record(&"example".to_string(), &"A".to_string()),
        Some(&"1.2.3.4".to_string())
    );
    let r = reg.remove_dns_record(1, "example".to_string(), "A".to_string());
    assert_eq!(r, Err(RegistryError::NotFound));
}

#[test]
fn update_replaces_details_wholesale() {
    let (mut reg, mut ledger) = setup(10, 10, 0);
    ledger.deposit(1, 100);
    reg.register_domain(
        &mut ledger,
        1,
        1,
        "example".to_string(),
        "first".to_string(),
        vec!["a".to_string(), "b".to_string()],
    )
    .unwrap();

    // non-owner is rejected and nothing changes
    let r = reg.update_registration(2, "example".to_string(), "evil".to_string(), vec![]);
    assert_eq!(r, Err(RegistryError::NotOwner));
    assert_eq!(reg.get_domain(&"example".to_string()).unwrap().regist_details.owner_info, "first");

    let r2 = reg.update_registration(1, "example".to_string(), "second".to_string(), vec!["c".to_string()]);
    assert!(r2.is_ok());
    let d = reg.get_domain(&"example".to_string()).unwrap();
    assert_eq!(d.regist_details.owner_info, "second");
    assert_eq!(d.regist_details.domain_aliases, vec!["c".to_string()]);
    let event = Event::RegistrationUpdated { name: "example".to_string() };
    assert!(reg.events().iter().any(|a| *a == event));
}

#[test]
fn excess_aliases_are_truncated() {
    let (mut reg, mut ledger) = setup(10, 10, 0);
    ledger.deposit(1, 100);
    let aliases: Vec<String> = (0..12).map(|i| format!("alias{}", i)).collect();
    reg.register_domain(&mut ledger, 1, 1, "example".to_string(), "info".to_string(), aliases)
        .unwrap();
    let stored = &reg.get_domain(&"example".to_string()).unwrap().regist_details.domain_aliases;
    assert_eq!(stored.len(), 10);
    assert_eq!(stored[0], "alias0");
    assert_eq!(stored[9], "alias9");
}

#[test]
fn absent_names_give_not_found() {
    let (mut reg, mut ledger) = setup(10, 10, 0);
    ledger.deposit(1, 100);
    let missing = "missing".to_string();
    assert_eq!(reg.transfer_ownership(1, missing.clone(), 2), Err(RegistryError::NotFound));
    assert_eq!(
        reg.renew_registration(&mut ledger, 1, missing.clone(), 1),
        Err(RegistryError::NotFound)
    );
    assert_eq!(
        reg.update_registration(1, missing.clone(), "x".to_string(), vec![]),
        Err(RegistryError::NotFound)
    );
    assert_eq!(reg.cancel_domain(1, missing.clone()), Err(RegistryError::NotFound));
    assert_eq!(
        reg.add_update_dns_record(1, missing.clone(), "A".to_string(), "v".to_string()),
        Err(RegistryError::NotFound)
    );
    assert_eq!(
        reg.remove_dns_record(1, missing.clone(), "A".to_string()),
        Err(RegistryError::NotFound)
    );
    assert!(reg.events().is_empty());
}

#[test]
fn removing_an_absent_record_is_not_an_error() {
    let (mut reg, mut ledger) = setup(10, 10, 0);
    ledger.deposit(1, 100);
    reg.register_domain(&mut ledger, 1, 1, "example".to_string(), "info".to_string(), vec![])
        .unwrap();
    let r = reg.remove_dns_record(1, "example".to_string(), "TXT".to_string());
    assert!(r.is_ok());
    let event = Event::DnsRecordRemoved { name: "example".to_string(), record_type: "TXT".to_string() };
    assert!(reg.events().iter().any(|a| *a == event));
}

#[test]
fn events_are_recorded_in_order() {
    let (mut reg, mut ledger) = setup(10, 10, 0);
    ledger.deposit(1, 100);
    reg.register_domain(&mut ledger, 1, 1, "a".to_string(), "i".to_string(), vec![])
        .unwrap();
    reg.add_update_dns_record(1, "a".to_string(), "A".to_string(), "v".to_string())
        .unwrap();
    reg.cancel_domain(1, "a".to_string()).unwrap();
    let events = reg.events();
    assert_eq!(events.len(), 3);
    assert_eq!(events[0], Event::Registered { name: "a".to_string(), owner: 1, expire: 11 });
    assert_eq!(
        events[1],
        Event::DnsRecordSet {
            name: "a".to_string(),
            record_type: "A".to_string(),
            value: "v".to_string(),
        }
    );
    assert_eq!(events[2], Event::Cancelled { name: "a".to_string(), owner: 1 });
}
