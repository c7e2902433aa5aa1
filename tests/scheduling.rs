use yy1::{
    assign_nozzles, header_lines, schedule_step, Head, Nozzle, NozzleChange, NozzleConfig,
    NozzleStation, PlanError, Planner, PlannerAction, SortKey, SpanTable,
};

fn config(
    head1: Option<Nozzle>,
    head2: Option<Nozzle>,
    station1: Option<Nozzle>,
    station2: Option<Nozzle>,
) -> NozzleConfig {
    NozzleConfig::new(head1, head2, station1, station2).unwrap()
}

fn change(
    before_component: usize,
    head: Head,
    drop_station: NozzleStation,
    pickup_station: NozzleStation,
) -> NozzleChange {
    NozzleChange { enabled: true, before_component, head, drop_station, pickup_station }
}

fn perform(c: &mut NozzleConfig, op: &NozzleChange) {
    let parked = c.get_head_nozzle(op.head);
    match op.drop_station {
        NozzleStation::Station1 => c.station1 = parked,
        NozzleStation::Station2 => c.station2 = parked,
        NozzleStation::Station3 => c.station3 = parked,
    }
    let taken = match op.pickup_station {
        NozzleStation::Station1 => c.station1.take(),
        NozzleStation::Station2 => c.station2.take(),
        NozzleStation::Station3 => c.station3.take(),
    };
    match op.head {
        Head::Head1 => c.head1 = taken,
        Head::Head2 => c.head2 = taken,
    }
}

#[test]
fn single_mounted_nozzle_needs_no_change() {
    let cfg = config(Some(Nozzle::CN040), None, None, None);
    let nozzles = vec![Some(Nozzle::CN040); 4];
    let s = schedule_step(cfg, &nozzles).unwrap();
    assert!(s.changes.is_empty());
    assert!(!s.placeholder);
    assert_eq!(s.heads, vec![1, 1, 1, 1]);
}

#[test]
fn one_nozzle_on_each_head_alternates() {
    let cfg = config(Some(Nozzle::CN040), Some(Nozzle::CN065), None, None);
    let nozzles = vec![
        Some(Nozzle::CN040),
        Some(Nozzle::CN065),
        Some(Nozzle::CN040),
        Some(Nozzle::CN065),
    ];
    let s = schedule_step(cfg, &nozzles).unwrap();
    assert!(s.changes.is_empty());
    assert_eq!(s.heads, vec![1, 2, 1, 2]);
}

#[test]
fn two_racked_nozzles_give_two_changes_and_two_swaps_back() {
    let cfg = config(None, None, Some(Nozzle::CN100), Some(Nozzle::CN140));
    let nozzles = vec![Some(Nozzle::CN100), Some(Nozzle::CN140)];
    let s = schedule_step(cfg, &nozzles).unwrap();
    assert_eq!(s.heads, vec![1, 2]);
    assert_eq!(
        s.changes,
        vec![
            change(1, Head::Head1, NozzleStation::Station3, NozzleStation::Station1),
            change(2, Head::Head2, NozzleStation::Station1, NozzleStation::Station2),
            change(3, Head::Head2, NozzleStation::Station2, NozzleStation::Station1),
            change(3, Head::Head1, NozzleStation::Station1, NozzleStation::Station3),
        ]
    );
    assert!(s.placeholder);
}

#[test]
fn performing_all_changes_restores_the_configuration() {
    let cfg = config(Some(Nozzle::CN220), None, Some(Nozzle::CN100), Some(Nozzle::CN140));
    let nozzles = vec![Some(Nozzle::CN220), Some(Nozzle::CN100), Some(Nozzle::CN140)];
    let s = schedule_step(cfg, &nozzles).unwrap();
    assert_eq!(s.changes.len(), 4);
    let mut state = cfg;
    for op in &s.changes {
        perform(&mut state, op);
    }
    assert_eq!(state, cfg);
    assert_eq!(state.station3, None);
}

#[test]
fn every_state_keeps_each_nozzle_in_one_place() {
    let cfg = config(Some(Nozzle::CN220), None, Some(Nozzle::CN100), Some(Nozzle::CN140));
    let nozzles = vec![Some(Nozzle::CN220), Some(Nozzle::CN100), Some(Nozzle::CN140)];
    let s = schedule_step(cfg, &nozzles).unwrap();
    let mut state = cfg;
    for op in &s.changes {
        perform(&mut state, op);
        assert!(state.is_consistent());
    }
}

#[test]
fn third_nozzle_that_cannot_be_reached_fails_the_step() {
    let cfg = config(Some(Nozzle::CN220), None, Some(Nozzle::CN100), Some(Nozzle::CN140));
    let nozzles = vec![
        Some(Nozzle::CN220),
        Some(Nozzle::CN100),
        Some(Nozzle::CN140),
        Some(Nozzle::CN220),
    ];
    assert_eq!(
        schedule_step(cfg, &nozzles).unwrap_err(),
        PlanError::NozzleUnavailable(Nozzle::CN140)
    );
}

#[test]
fn too_many_changes_fail_at_finalize() {
    let cfg = config(Some(Nozzle::CN220), None, Some(Nozzle::CN100), Some(Nozzle::CN140));
    let mut planner = Planner::new(cfg, &vec![]);
    for n in [Nozzle::CN100, Nozzle::CN140, Nozzle::CN220] {
        loop {
            match planner.plan(n).unwrap() {
                PlannerAction::Head(_) => break,
                PlannerAction::NozzleChange(_) => {}
            }
        }
    }
    assert_eq!(planner.finalize().unwrap_err(), PlanError::TooManyNozzleChanges(3));
}

#[test]
fn components_without_nozzle_do_not_move_the_head_pointer() {
    let cfg = config(Some(Nozzle::CN040), Some(Nozzle::CN065), None, None);
    let plain = vec![Some(Nozzle::CN040), Some(Nozzle::CN065), Some(Nozzle::CN040)];
    let mixed = vec![
        Some(Nozzle::CN040),
        None,
        Some(Nozzle::CN065),
        None,
        Some(Nozzle::CN040),
    ];
    let a = schedule_step(cfg, &plain).unwrap();
    let b = schedule_step(cfg, &mixed).unwrap();
    assert_eq!(a.heads, vec![1, 2, 1]);
    assert_eq!(b.heads, vec![1, 0, 2, 0, 1]);
    assert_eq!(a.changes, b.changes);
}

#[test]
fn missing_nozzle_is_reported() {
    let cfg = config(Some(Nozzle::CN040), None, None, None);
    let nozzles = vec![Some(Nozzle::CN040), Some(Nozzle::YX01)];
    assert_eq!(
        schedule_step(cfg, &nozzles).unwrap_err(),
        PlanError::NozzleUnavailable(Nozzle::YX01)
    );
}

#[test]
fn duplicate_nozzle_is_refused() {
    assert_eq!(
        NozzleConfig::new(Some(Nozzle::CN040), None, Some(Nozzle::CN040), None).unwrap_err(),
        PlanError::DuplicateNozzle
    );
    let bad = NozzleConfig {
        head1: Some(Nozzle::CN040),
        head2: Some(Nozzle::CN040),
        station1: None,
        station2: None,
        station3: None,
    };
    assert_eq!(
        schedule_step(bad, &vec![Some(Nozzle::CN040)]).unwrap_err(),
        PlanError::DuplicateNozzle
    );
}

#[test]
fn index_advances_once_per_assignment() {
    let cfg = config(None, None, Some(Nozzle::CN100), None);
    let nozzles = vec![Some(Nozzle::CN100), Some(Nozzle::CN100)];
    let mut planner = Planner::new(cfg, &nozzles);
    let first = planner.plan(Nozzle::CN100).unwrap();
    assert_eq!(
        first,
        PlannerAction::NozzleChange(change(
            1,
            Head::Head1,
            NozzleStation::Station2,
            NozzleStation::Station1
        ))
    );
    assert_eq!(planner.plan(Nozzle::CN100).unwrap(), PlannerAction::Head(Head::Head1));
    assert_eq!(planner.plan(Nozzle::CN100).unwrap(), PlannerAction::Head(Head::Head1));
    let back = planner.finalize().unwrap();
    assert_eq!(
        back,
        vec![change(3, Head::Head1, NozzleStation::Station1, NozzleStation::Station2)]
    );
}

#[test]
fn unneeded_mounted_nozzle_is_swapped_out() {
    let cfg = config(Some(Nozzle::YX06), None, Some(Nozzle::CN100), None);
    let s = schedule_step(cfg, &vec![Some(Nozzle::CN100)]).unwrap();
    assert_eq!(s.heads, vec![1]);
    assert_eq!(
        s.changes,
        vec![
            change(1, Head::Head1, NozzleStation::Station2, NozzleStation::Station1),
            change(2, Head::Head1, NozzleStation::Station1, NozzleStation::Station2),
        ]
    );
}

#[test]
fn span_table_records_last_position() {
    let nozzles = vec![Some(Nozzle::CN040), None, Some(Nozzle::CN100), Some(Nozzle::CN040)];
    let t = SpanTable::compute(&nozzles);
    assert_eq!(t.get(Nozzle::CN040), Some(3));
    assert_eq!(t.get(Nozzle::CN100), Some(2));
    assert_eq!(t.get(Nozzle::YX01), None);
    let again = SpanTable::compute(&nozzles);
    for n in [Nozzle::CN040, Nozzle::CN100, Nozzle::YX01] {
        assert_eq!(t.get(n), again.get(n));
    }
    assert_eq!(SpanTable::compute(&vec![None, None]).get(Nozzle::CN040), None);
}

#[test]
fn step_orders_mounted_first_then_by_height() {
    let cfg = config(Some(Nozzle::CN040), None, Some(Nozzle::CN100), None);
    let keys = vec![
        SortKey { nozzle: Some(Nozzle::CN100), height: 10, feeder: 1 },
        SortKey { nozzle: Some(Nozzle::CN040), height: 20, feeder: 2 },
        SortKey { nozzle: Some(Nozzle::CN040), height: 5, feeder: 3 },
        SortKey { nozzle: None, height: 1, feeder: 4 },
    ];
    let p = assign_nozzles(cfg, &keys).unwrap();
    assert_eq!(p.order, vec![3, 2, 1, 0]);
    assert_eq!(p.schedule.heads, vec![0, 1, 1, 2]);
    assert_eq!(
        p.schedule.changes,
        vec![
            change(3, Head::Head2, NozzleStation::Station2, NozzleStation::Station1),
            change(4, Head::Head2, NozzleStation::Station1, NozzleStation::Station2),
        ]
    );
    assert!(p.schedule.placeholder);
}

#[test]
fn order_breaks_ties_by_nozzle_then_feeder_then_input() {
    let cfg = config(None, None, None, None);
    let keys = vec![
        SortKey { nozzle: Some(Nozzle::CN100), height: 0, feeder: 2 },
        SortKey { nozzle: Some(Nozzle::CN100), height: 0, feeder: 1 },
        SortKey { nozzle: Some(Nozzle::CN065), height: 0, feeder: 9 },
        SortKey { nozzle: Some(Nozzle::CN100), height: 0, feeder: 1 },
    ];
    assert_eq!(yy1::processing_order(&cfg, &keys), vec![2, 1, 3, 0]);
    assert!(yy1::processing_order(&cfg, &vec![]).is_empty());
}

#[test]
fn change_line_text() {
    let c = change(3, Head::Head2, NozzleStation::Station2, NozzleStation::Station1);
    assert_eq!(
        c.as_string(),
        "NozzleChange,ON,BeforeComponent,3,Head2,Drop,Station2,PickUp,Station1,"
    );
    let d = change(1205, Head::Head1, NozzleStation::Station3, NozzleStation::Station1);
    assert_eq!(
        d.as_string(),
        "NozzleChange,ON,BeforeComponent,1205,Head1,Drop,Station3,PickUp,Station1,"
    );
}

#[test]
fn header_always_has_four_lines() {
    let c = change(3, Head::Head2, NozzleStation::Station2, NozzleStation::Station1);
    let lines = header_lines(&vec![c]);
    assert_eq!(lines.len(), 4);
    assert_eq!(lines[0], c.as_string());
    for line in &lines[1..] {
        assert_eq!(line, "NozzleChange,OFF,BeforeComponent,1,Head1,Drop,Station3,PickUp,Station3,");
    }
    assert_eq!(header_lines(&vec![]).len(), 4);
    assert_eq!(NozzleChange::default().as_string(), lines[3]);
}

#[test]
fn head_numbers_and_other_head() {
    assert_eq!(Head::Head1.number(), 1);
    assert_eq!(Head::Head2.number(), 2);
    assert_eq!(!Head::Head1, Head::Head2);
    assert_eq!(Head::Head2.other(), Head::Head1);
    assert_eq!(Nozzle::CN030.ordinal(), 0);
    assert_eq!(Nozzle::YX06.ordinal(), 13);
}
