use yy1::{resolve_nozzle, step_for, Head, Nozzle, NozzleConfig, NozzleStation};

#[test]
fn lookups_on_a_configuration() {
    let c = NozzleConfig::new(
        Some(Nozzle::CN040),
        Some(Nozzle::CN065),
        Some(Nozzle::CN100),
        Some(Nozzle::CN140),
    )
    .unwrap();
    assert!(c.contains(Nozzle::CN140));
    assert!(!c.contains(Nozzle::CN220));
    assert!(c.is_active(Nozzle::CN065));
    assert!(!c.is_active(Nozzle::CN100));
    assert_eq!(c.find_nozzle_head(Nozzle::CN065), Some(Head::Head2));
    assert_eq!(c.find_nozzle_head(Nozzle::CN100), None);
    assert_eq!(c.find_nozzle_station(Nozzle::CN140), Some(NozzleStation::Station2));
    assert_eq!(c.find_nozzle_station(Nozzle::CN040), None);
    assert_eq!(c.get_head_nozzle(Head::Head1), Some(Nozzle::CN040));
    assert_eq!(c.station3, None);
}

#[test]
fn drop_uses_lowest_free_station() {
    let mut c = NozzleConfig::new(None, None, Some(Nozzle::CN100), None).unwrap();
    assert_eq!(c.drop_nozzle(Some(Nozzle::CN040)), NozzleStation::Station2);
    assert_eq!(c.station2, Some(Nozzle::CN040));
    assert_eq!(c.drop_nozzle(Some(Nozzle::CN065)), NozzleStation::Station3);
    assert_eq!(c.station3, Some(Nozzle::CN065));
}

#[test]
fn pickup_swaps_head_and_station() {
    let mut c = NozzleConfig::new(Some(Nozzle::CN040), None, Some(Nozzle::CN100), None).unwrap();
    let ch = c.pickup_nozzle(Head::Head1, Nozzle::CN100, 7);
    assert!(ch.enabled);
    assert_eq!(ch.before_component, 7);
    assert_eq!(ch.head, Head::Head1);
    assert_eq!(ch.pickup_station, NozzleStation::Station1);
    assert_eq!(ch.drop_station, NozzleStation::Station2);
    assert_eq!(c.head1, Some(Nozzle::CN100));
    assert_eq!(c.station1, None);
    assert_eq!(c.station2, Some(Nozzle::CN040));
}

#[test]
fn nozzle_resolution_across_steps() {
    let a = NozzleConfig::new(Some(Nozzle::CN040), None, None, None).unwrap();
    let b = NozzleConfig::new(Some(Nozzle::CN100), None, Some(Nozzle::CN140), None).unwrap();
    let configs = vec![Some(a), Some(b)];
    assert_eq!(resolve_nozzle(&configs, Nozzle::CN140), (Some(Nozzle::CN140), false));
    assert_eq!(resolve_nozzle(&configs, Nozzle::YX01), (None, true));
    assert_eq!(resolve_nozzle(&vec![None], Nozzle::YX01), (None, false));
    assert_eq!(step_for(&configs, Some(Nozzle::CN040)), Some(0));
    assert_eq!(step_for(&configs, Some(Nozzle::CN140)), Some(1));
    assert_eq!(step_for(&configs, Some(Nozzle::YX01)), None);
    assert_eq!(step_for(&configs, None), Some(0));
    assert_eq!(step_for(&vec![], None), None);
}
