use eisenbahn::building::{tick_all, Building, ResourceData};

fn one_resource(stock: i64, rate: i64, max_stock: i64) -> Building {
    Building {
        name: String::from("Test Plant"),
        resources: vec![(String::from("X"), ResourceData { stock, rate, max_stock })],
    }
}

#[test]
fn overshoot_aborts_the_building_tick() {
    // stock=45, rate=10, max_stock=50: after one tick of a full second
    // the stock would reach 55, so the whole update is abandoned and the
    // stock stays at 45.
    let mut b = one_resource(45, 10, 50);
    b.tick(1000);
    assert_eq!(b.resources[0].1.stock, 45);
}

#[test]
fn normal_production_advances_stock() {
    let mut b = one_resource(45, 4, 50);
    b.tick(1000);
    assert_eq!(b.resources[0].1.stock, 49);
    b.tick(250);
    assert_eq!(b.resources[0].1.stock, 50);
}

#[test]
fn consumption_clamps_at_zero() {
    let mut b = one_resource(3, -10, 50);
    b.tick(1000);
    assert_eq!(b.resources[0].1.stock, 0);
}

#[test]
fn overshoot_freezes_sibling_resources_too() {
    let mut b = Building {
        name: String::from("Coupled"),
        resources: vec![
            (String::from("A"), ResourceData { stock: 49, rate: 5, max_stock: 50 }),
            (String::from("B"), ResourceData { stock: 10, rate: 1, max_stock: 50 }),
        ],
    };
    b.tick(1000);
    assert_eq!(b.resources[0].1.stock, 49);
    assert_eq!(b.resources[1].1.stock, 10);
}

#[test]
fn tick_all_isolates_buildings() {
    // One building's overshoot abandons only its own update.
    let mut buildings = vec![one_resource(49, 5, 50), one_resource(10, 1, 50)];
    tick_all(&mut buildings, 1000);
    assert_eq!(buildings[0].resources[0].1.stock, 49);
    assert_eq!(buildings[1].resources[0].1.stock, 11);
}

#[test]
fn factories_trade_opposite_resources() {
    let a = Building::a_factory();
    assert_eq!(a.name, "A Factory");
    assert_eq!(a.resources.len(), 2);
    assert_eq!(a.resources[0].0, "A");
    assert_eq!(a.resources[0].1, ResourceData { stock: 0, rate: 1, max_stock: 50 });
    assert_eq!(a.resources[1].0, "B");
    assert_eq!(a.resources[1].1, ResourceData { stock: 50, rate: -1, max_stock: 50 });

    let b = Building::b_factory();
    assert_eq!(b.name, "B Factory");
    assert_eq!(b.resources[0].1, ResourceData { stock: 50, rate: -1, max_stock: 50 });
    assert_eq!(b.resources[1].1, ResourceData { stock: 0, rate: 1, max_stock: 50 });
}

#[test]
fn factory_tick_produces_and_consumes() {
    let mut a = Building::a_factory();
    a.tick(1000);
    assert_eq!(a.resources[0].1.stock, 1);
    assert_eq!(a.resources[1].1.stock, 49);
}

#[test]
fn sub_second_tick_rounds_towards_zero() {
    let mut b = one_resource(10, 3, 50);
    b.tick(500);
    // 3 * 500 / 1000 = 1 after truncation.
    assert_eq!(b.resources[0].1.stock, 11);
}
