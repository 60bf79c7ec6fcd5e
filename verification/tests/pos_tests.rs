use minichain::pos::PoS;

fn registry_10_30_60() -> PoS {
    let mut pos = PoS::new();
    pos.add_validator("v1".to_string(), 10);
    pos.add_validator("v2".to_string(), 30);
    pos.add_validator("v3".to_string(), 60);
    pos
}

#[test]
fn empty_registry_selects_none() {
    let pos = PoS::new();
    assert!(pos.select_validator().is_none());
}

#[test]
fn rolls_split_exactly_by_stake() {
    let pos = registry_10_30_60();
    assert_eq!(pos.total_stake(), 100);
    let mut counts = [0u64; 3];
    for roll in 0..100u128 {
        let v = pos.select_with_roll(roll).unwrap();
        match v.address.as_str() {
            "v1" => counts[0] += 1,
            "v2" => counts[1] += 1,
            "v3" => counts[2] += 1,
            other => panic!("unknown validator {}", other),
        }
    }
    // Each validator owns exactly `stake` of the 100 equally likely rolls.
    assert_eq!(counts, [10, 30, 60]);
}

#[test]
fn boundary_rolls_pick_the_right_validator() {
    let pos = registry_10_30_60();
    assert_eq!(pos.select_with_roll(0).unwrap().address, "v1");
    assert_eq!(pos.select_with_roll(9).unwrap().address, "v1");
    assert_eq!(pos.select_with_roll(10).unwrap().address, "v2");
    assert_eq!(pos.select_with_roll(39).unwrap().address, "v2");
    assert_eq!(pos.select_with_roll(40).unwrap().address, "v3");
    assert_eq!(pos.select_with_roll(99).unwrap().address, "v3");
}

#[test]
fn selection_frequency_tracks_stake() {
    let pos = registry_10_30_60();
    let draws = 100_000u32;
    let mut third = 0u32;
    for _ in 0..draws {
        let v = pos.select_validator().unwrap();
        if v.address == "v3" {
            third += 1;
        }
    }
    let freq = third as f64 / draws as f64;
    assert!(
        (freq - 0.6).abs() <= 0.03,
        "third validator frequency {} not within 0.03 of 0.6",
        freq
    );
}

#[test]
fn add_validator_is_idempotent_by_address() {
    let mut pos = PoS::new();
    pos.add_validator("v1".to_string(), 10);
    pos.add_validator("v1".to_string(), 25);
    assert_eq!(pos.len(), 1);
    assert_eq!(pos.validator_at(0).stake, 25);
    assert_eq!(pos.total_stake(), 25);
}

#[test]
fn remove_validator_reports_presence() {
    let mut pos = registry_10_30_60();
    assert!(pos.remove_validator("v2"));
    assert!(!pos.remove_validator("v2"));
    assert_eq!(pos.len(), 2);
    assert_eq!(pos.total_stake(), 70);
}
