use tsresolver::srv::{
    group_by_priority, order_by_draws, order_group, order_groups, order_srv_by_priority_weight,
    srv_weights_fit, take_weighted, Draw, SrvRecord,
};

fn srv(priority: u16, weight: u16, port: u16, target: &str) -> SrvRecord {
    SrvRecord { priority, weight, port, target: target.to_string() }
}

fn ports(records: &[SrvRecord]) -> Vec<u16> {
    records.iter().map(|r| r.port).collect()
}

#[test]
fn order_srv_keeps_weight_zero() {
    let only_zero = vec![srv(10, 0, 9987, "ts.greenteaspeak.de.")];
    let ordered = order_srv_by_priority_weight(&only_zero);
    assert_eq!(ordered.len(), 1);
    assert_eq!(ordered[0].port, 9987);
    assert_eq!(ordered[0].weight, 0);

    let mixed = vec![
        srv(10, 0, 9987, "ts.greenteaspeak.de."),
        srv(10, 50, 9988, "other.example."),
        srv(5, 0, 9990, "first.example."),
    ];
    let ordered = order_srv_by_priority_weight(&mixed);
    assert_eq!(ordered.len(), 3);
    // Priority 5 first
    assert_eq!(ordered[0].port, 9990);
    // Then positive weight before weight 0 within priority 10
    assert_eq!(ordered[1].port, 9988);
    assert_eq!(ordered[2].port, 9987);
}

#[test]
fn records_of_a_priority_belong_together_wherever_they_stand() {
    let scattered = vec![
        srv(10, 0, 1, "a."),
        srv(5, 0, 2, "b."),
        srv(10, 7, 3, "c."),
        srv(7, 1, 4, "d."),
        srv(10, 0, 5, "e."),
        srv(5, 0, 6, "f."),
    ];
    let ordered = order_srv_by_priority_weight(&scattered);
    assert_eq!(ports(&ordered), vec![2, 6, 4, 3, 1, 5]);
    assert_eq!(ordered[3], srv(10, 7, 3, "c."));
}

#[test]
fn weighted_records_come_in_any_order_but_all_of_them() {
    let records = vec![srv(1, 1, 1, "a."), srv(1, 1, 2, "b."), srv(1, 0, 3, "c."), srv(1, 9, 4, "d.")];
    let mut firsts = Vec::new();
    for _ in 0..2000 {
        let ordered = ports(&order_srv_by_priority_weight(&records));
        assert_eq!(ordered.len(), 4);
        assert_eq!(ordered[3], 3);
        let mut all = ordered.clone();
        all.sort();
        assert_eq!(all, vec![1, 2, 3, 4]);
        firsts.push(ordered[0]);
    }
    // Each of them comes first at times, the heavy one most often.
    let count = |port: u16| firsts.iter().filter(|p| **p == port).count();
    assert!(count(1) > 0);
    assert!(count(2) > 0);
    assert!(count(4) > count(1) + count(2));
}

#[test]
fn no_records_give_no_order() {
    assert!(order_srv_by_priority_weight(&[]).is_empty());
}

#[test]
fn a_draw_picks_by_weight() {
    let records = vec![srv(1, 2, 10, "a."), srv(1, 3, 20, "b."), srv(1, 1, 30, "c.")];
    let picked = |value: u32| {
        let mut rest = records.clone();
        let taken = take_weighted(&mut rest, Draw { max: 6, value });
        assert_eq!(rest.len(), 2);
        assert!(!rest.contains(&taken));
        taken.port
    };
    let all: Vec<u16> = (0..=6).map(|value| picked(value)).collect();
    assert_eq!(all, vec![10, 10, 10, 20, 20, 20, 30]);
}

#[test]
fn the_record_that_is_picked_first_comes_first() {
    let srvs = vec![srv(10, 10, 1, "a.example."), srv(10, 50, 2, "b.example.")];
    let groups = group_by_priority(&srvs);
    assert_eq!(groups.len(), 1);
    for w in 0..=60 {
        let left = if w <= 10 { 50 } else { 10 };
        for last in [0, left] {
            let draws = vec![vec![Draw { max: 60, value: w }, Draw { max: left, value: last }]];
            let ordered = order_groups(&groups, &draws);
            assert_eq!(ports(&ordered), if w <= 10 { vec![1, 2] } else { vec![2, 1] });
        }
    }
}

#[test]
fn draws_pick_from_what_is_left() {
    let records = vec![srv(1, 2, 10, "a."), srv(1, 3, 20, "b."), srv(1, 1, 30, "c.")];
    let draws = vec![
        Draw { max: 6, value: 3 },
        Draw { max: 3, value: 3 },
        Draw { max: 2, value: 2 },
    ];
    assert_eq!(ports(&order_by_draws(records, &draws)), vec![20, 30, 10]);
    let group = vec![srv(1, 0, 1, "z."), srv(1, 2, 10, "a."), srv(1, 0, 2, "y."), srv(1, 1, 30, "c.")];
    let draws = vec![Draw { max: 3, value: 3 }, Draw { max: 2, value: 0 }];
    assert_eq!(ports(&order_group(&group, &draws)), vec![30, 10, 1, 2]);
    assert!(order_by_draws(Vec::new(), &Vec::new()).is_empty());
}

#[test]
fn groups_hold_all_records_of_a_priority() {
    let scattered =
        vec![srv(9, 1, 1, "a."), srv(5, 0, 2, "b."), srv(9, 2, 3, "c."), srv(7, 1, 4, "d.")];
    let groups = group_by_priority(&scattered);
    let all: Vec<Vec<u16>> = groups.iter().map(|group| ports(group)).collect();
    assert_eq!(all, vec![vec![2], vec![4], vec![1, 3]]);
    let draws = vec![
        vec![],
        vec![Draw { max: 1, value: 1 }],
        vec![Draw { max: 3, value: 2 }, Draw { max: 1, value: 1 }],
    ];
    assert_eq!(ports(&order_groups(&groups, &draws)), vec![2, 4, 3, 1]);
    assert!(group_by_priority(&[]).is_empty());
}

#[test]
fn weights_must_fit() {
    assert!(srv_weights_fit(&[]));
    assert!(srv_weights_fit(&[srv(1, 65535, 1, "a."), srv(1, 65535, 1, "b.")]));
    let mut many = Vec::new();
    for _ in 0..65538 {
        many.push(srv(1, 65535, 1, ""));
    }
    assert!(!srv_weights_fit(&many));
}
