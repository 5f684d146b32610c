use staff_lib::errors::Error;
use staff_lib::{Company, StaffEntity};
use uuid::Uuid;

#[derive(Debug)]
struct Manager {
    id: Uuid,
}

impl Manager {
    fn new() -> Self {
        Self { id: Uuid::new_v4() }
    }
}

impl StaffEntity for Manager {
    type ID = u128;

    fn get_id(&self) -> Self::ID {
        self.id.as_u128()
    }
}

#[test]
fn company_resource_transferring_test_resource_transferring() {
    let ceo = Manager::new();
    let ceo_id = ceo.get_id();

    let mut company: Company<Manager> = Company::new(ceo);
    let mint_amount: u64 = 1000;
    company.mint(mint_amount);

    let target_manager = Manager::new();
    let target_id = company.hire(target_manager, &ceo_id).unwrap();

    let mut ceo_resource = (mint_amount / 10) * 9;
    for _ in 0..10 {
        let id = company.hire(Manager::new(), &ceo_id).unwrap();

        let manager_resource = ceo_resource / 10;
        ceo_resource = ceo_resource - manager_resource;

        assert_eq!(*company.resource(&id).unwrap(), manager_resource);
        assert_eq!(*company.resource(&ceo_id).unwrap(), ceo_resource);
    }

    assert_eq!(company.get_all_staff().len(), 12); // 11 managers and ceo
    assert_eq!(company.subordinates(&ceo_id).unwrap().len(), 11);

    let ceo_subordinates = company.subordinates(&ceo_id).unwrap().clone();
    for id in ceo_subordinates.clone() {
        let amount = *company.resource(&id).unwrap();
        company.transfer(&id, &target_id, amount).unwrap();
    }

    for id in ceo_subordinates.clone() {
        if id != target_id {
            assert_eq!(*company.resource(&id).unwrap(), 0);
            company.fire(&id).unwrap();
        }
    }

    assert_eq!(
        *company.resource(&target_id).unwrap(),
        mint_amount - ceo_resource
    );

    company.fire(&target_id).unwrap();
    assert_eq!(*company.resource(&ceo_id).unwrap(), mint_amount);
}

#[test]
fn hiring_seed_is_a_tenth_of_the_supervisor() {
    let ceo = Manager::new();
    let ceo_id = ceo.get_id();
    let mut company: Company<Manager> = Company::new(ceo);
    company.mint(1000);

    let hired = company.hire(Manager::new(), &ceo_id).unwrap();

    assert_eq!(*company.resource(&hired).unwrap(), 100);
    assert_eq!(*company.resource(&ceo_id).unwrap(), 900);
}

#[test]
fn hiring_seed_is_rounded_down() {
    let ceo = Manager::new();
    let ceo_id = ceo.get_id();
    let mut company: Company<Manager> = Company::new(ceo);
    company.mint(19);

    let first = company.hire(Manager::new(), &ceo_id).unwrap();
    assert_eq!(*company.resource(&first).unwrap(), 1);
    assert_eq!(*company.resource(&ceo_id).unwrap(), 18);

    let second = company.hire(Manager::new(), &first).unwrap();
    assert_eq!(*company.resource(&second).unwrap(), 0);
    assert_eq!(*company.resource(&first).unwrap(), 1);
}

#[test]
fn hiring_under_an_empty_balance_seeds_nothing() {
    let ceo = Manager::new();
    let ceo_id = ceo.get_id();
    let mut company: Company<Manager> = Company::new(ceo);

    let hired = company.hire(Manager::new(), &ceo_id).unwrap();

    assert_eq!(*company.resource(&hired).unwrap(), 0);
    assert_eq!(*company.resource(&ceo_id).unwrap(), 0);
}

#[test]
fn hiring_seed_of_the_largest_balance() {
    let ceo = Manager::new();
    let ceo_id = ceo.get_id();
    let mut company: Company<Manager> = Company::new(ceo);
    company.mint(u64::MAX);

    let hired = company.hire(Manager::new(), &ceo_id).unwrap();

    assert_eq!(*company.resource(&hired).unwrap(), 1844674407370955161);
    assert_eq!(*company.resource(&ceo_id).unwrap(), 16602069666338596454);
    company.fire(&hired).unwrap();
    assert_eq!(*company.resource(&ceo_id).unwrap(), u64::MAX);
}

#[test]
fn hire_with_id_uses_the_id_it_is_given() {
    let ceo = Manager::new();
    let ceo_id = ceo.get_id();
    let mut company: Company<Manager> = Company::new(ceo);
    company.mint(50);
    let chosen = ceo_id.wrapping_add(1);

    let hired = company.hire_with_id(chosen, Manager::new(), &ceo_id).unwrap();

    assert_eq!(hired, chosen);
    assert_eq!(company.supervisor(&chosen), Some(&ceo_id));
    assert_eq!(*company.resource(&chosen).unwrap(), 5);
    assert_eq!(*company.resource(&ceo_id).unwrap(), 45);
    assert!(company.get(&chosen).is_some());
}

#[test]
fn conservation_over_ten_hires_and_fires() {
    let ceo = Manager::new();
    let ceo_id = ceo.get_id();
    let mut company: Company<Manager> = Company::new(ceo);
    company.mint(1000);

    let mut hired = Vec::new();
    for _ in 0..10 {
        hired.push(company.hire(Manager::new(), &ceo_id).unwrap());
        let sum: u64 = company
            .get_all_staff()
            .iter()
            .map(|id| *company.resource(id).unwrap())
            .sum();
        assert_eq!(sum, 1000);
    }
    for id in hired {
        company.fire(&id).unwrap();
        let sum: u64 = company
            .get_all_staff()
            .iter()
            .map(|id| *company.resource(id).unwrap())
            .sum();
        assert_eq!(sum, 1000);
    }

    assert_eq!(*company.resource(&ceo_id).unwrap(), 1000);
}

#[test]
fn conservation_over_a_deep_hierarchy() {
    let ceo = Manager::new();
    let ceo_id = ceo.get_id();
    let mut company: Company<Manager> = Company::new(ceo);
    company.mint(100000);

    let mut managers = Vec::new();
    for _ in 0..5 {
        let manager = company.hire(Manager::new(), &ceo_id).unwrap();
        for _ in 0..5 {
            company.hire(Manager::new(), &manager).unwrap();
        }
        managers.push(manager);
    }
    company.transfer(&managers[0], &managers[1], 7).unwrap();
    company.change_supervisor(&managers[2], &managers[3]).unwrap();

    for id in company.get_all_staff() {
        if id != ceo_id {
            company.fire(&id).unwrap();
        }
    }

    assert_eq!(company.get_all_staff(), vec![ceo_id]);
    assert_eq!(*company.resource(&ceo_id).unwrap(), 100000);
}

#[test]
fn fire_returns_the_balance_to_the_supervisor() {
    let ceo = Manager::new();
    let ceo_id = ceo.get_id();
    let mut company: Company<Manager> = Company::new(ceo);
    company.mint(10000);

    let mut workers = Vec::new();
    for _ in 0..5 {
        let worker = company.hire(Manager::new(), &ceo_id).unwrap();
        company.transfer(&ceo_id, &worker, 100).unwrap();
        workers.push(worker);
    }
    // 10000 -> 9000 -> 8900 -> 8010 -> 7910 -> 7119 -> 7019 -> 6318 -> 6218 -> 5597 -> 5497
    assert_eq!(*company.resource(&ceo_id).unwrap(), 5497);
    assert_eq!(*company.resource(&workers[0]).unwrap(), 1100);
    assert_eq!(*company.resource(&workers[4]).unwrap(), 721);

    for id in workers {
        company.fire(&id).unwrap();
    }

    assert_eq!(*company.resource(&ceo_id).unwrap(), 10000);
}

#[test]
fn transfer_moves_exactly_the_amount() {
    let ceo = Manager::new();
    let ceo_id = ceo.get_id();
    let mut company: Company<Manager> = Company::new(ceo);
    company.mint(1000);
    let first = company.hire(Manager::new(), &ceo_id).unwrap();

    company.transfer(&ceo_id, &first, 250).unwrap();

    assert_eq!(*company.resource(&ceo_id).unwrap(), 650);
    assert_eq!(*company.resource(&first).unwrap(), 350);

    company.transfer(&first, &ceo_id, 350).unwrap();

    assert_eq!(*company.resource(&ceo_id).unwrap(), 1000);
    assert_eq!(*company.resource(&first).unwrap(), 0);
}

#[test]
fn transfer_to_oneself_changes_nothing() {
    let ceo = Manager::new();
    let ceo_id = ceo.get_id();
    let mut company: Company<Manager> = Company::new(ceo);
    company.mint(u64::MAX);

    company.transfer(&ceo_id, &ceo_id, u64::MAX).unwrap();

    assert_eq!(*company.resource(&ceo_id).unwrap(), u64::MAX);
}

#[test]
fn transfer_beyond_the_balance_changes_nothing() {
    let ceo = Manager::new();
    let ceo_id = ceo.get_id();
    let mut company: Company<Manager> = Company::new(ceo);
    company.mint(1000);
    let first = company.hire(Manager::new(), &ceo_id).unwrap();

    match company.transfer(&first, &ceo_id, 101) {
        Err(Error::InsufficientResourcesError {
            staff_id,
            required,
            available,
        }) => {
            assert_eq!(staff_id, first);
            assert_eq!(required, 101);
            assert_eq!(available, 100);
        }
        other => panic!("unexpected {:?}", other),
    }

    assert_eq!(*company.resource(&first).unwrap(), 100);
    assert_eq!(*company.resource(&ceo_id).unwrap(), 900);
}

#[test]
fn transfer_names_the_missing_id() {
    let ceo = Manager::new();
    let ceo_id = ceo.get_id();
    let mut company: Company<Manager> = Company::new(ceo);
    company.mint(1000);
    let stranger = Manager::new().get_id();
    let other = Manager::new().get_id();

    match company.transfer(&stranger, &other, 1) {
        Err(Error::StaffNotFound { staff_id }) => assert_eq!(staff_id, stranger),
        other => panic!("unexpected {:?}", other),
    }
    match company.transfer(&ceo_id, &other, 1) {
        Err(Error::StaffNotFound { staff_id }) => assert_eq!(staff_id, other),
        other => panic!("unexpected {:?}", other),
    }
    match company.transfer(&stranger, &ceo_id, 5000) {
        Err(Error::StaffNotFound { staff_id }) => assert_eq!(staff_id, stranger),
        other => panic!("unexpected {:?}", other),
    }
    assert_eq!(*company.resource(&ceo_id).unwrap(), 1000);
}

#[test]
fn withdraw_takes_the_amount_or_nothing() {
    let ceo = Manager::new();
    let ceo_id = ceo.get_id();
    let mut company: Company<Manager> = Company::new(ceo);
    company.mint(1000);

    company.withdraw(&ceo_id, 400).unwrap();
    assert_eq!(*company.resource(&ceo_id).unwrap(), 600);

    match company.withdraw(&ceo_id, 601) {
        Err(Error::InsufficientResourcesError {
            staff_id,
            required,
            available,
        }) => {
            assert_eq!(staff_id, ceo_id);
            assert_eq!(required, 601);
            assert_eq!(available, 600);
        }
        other => panic!("unexpected {:?}", other),
    }
    assert_eq!(*company.resource(&ceo_id).unwrap(), 600);

    company.withdraw(&ceo_id, 600).unwrap();
    assert_eq!(*company.resource(&ceo_id).unwrap(), 0);

    let stranger = Manager::new().get_id();
    match company.withdraw(&stranger, 0) {
        Err(Error::StaffNotFound { staff_id }) => assert_eq!(staff_id, stranger),
        other => panic!("unexpected {:?}", other),
    }
}

#[test]
fn total_resources_is_the_sum_of_all_balances() {
    let ceo = Manager::new();
    let ceo_id = ceo.get_id();
    let mut company: Company<Manager> = Company::new(ceo);
    assert_eq!(company.total_resources(), 0);

    company.mint(1000);
    assert_eq!(company.total_resources(), 1000);

    let first = company.hire(Manager::new(), &ceo_id).unwrap();
    let second = company.hire(Manager::new(), &first).unwrap();
    assert_eq!(company.total_resources(), 1000);

    company.transfer(&first, &second, 40).unwrap();
    assert_eq!(company.total_resources(), 1000);

    company.withdraw(&second, 50).unwrap();
    assert_eq!(company.total_resources(), 950);
    assert_eq!(*company.resource(&ceo_id).unwrap(), 900);
    assert_eq!(*company.resource(&first).unwrap(), 50);
    assert_eq!(*company.resource(&second).unwrap(), 0);

    company.fire(&first).unwrap();
    company.fire(&second).unwrap();
    assert_eq!(company.total_resources(), 950);
    assert_eq!(*company.resource(&ceo_id).unwrap(), 950);

    company.mint(u64::MAX - 950);
    assert_eq!(company.total_resources(), u64::MAX);
}

#[test]
fn firing_everybody_in_any_order_leaves_all_with_the_ceo() {
    let ceo = Manager::new();
    let ceo_id = ceo.get_id();
    let mut company: Company<Manager> = Company::new(ceo);
    let start_resource = 100000;
    company.mint(start_resource);

    for _ in 0..10 {
        let id = company.hire(Manager::new(), &ceo_id).unwrap();
        for _ in 0..50 {
            company.hire(Manager::new(), &id).unwrap();
        }
    }
    assert_eq!(company.get_all_staff().len(), 511);
    assert_eq!(company.total_resources(), start_resource);

    for id in company.get_all_staff() {
        if id == ceo_id {
            continue;
        }
        company.fire(&id).unwrap();
    }

    assert_eq!(company.get_all_staff(), vec![ceo_id]);
    assert_eq!(*company.resource(&ceo_id).unwrap(), start_resource);
}
