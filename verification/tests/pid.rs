use mqttrust::types::{Error, Pid};

#[test]
fn pid_add_sub() {
    let t: Vec<(u16, u16, u16, u16)> = vec![
        (2, 1, 1, 3),
        (100, 1, 99, 101),
        (1, 1, u16::MAX, 2),
        (1, 2, u16::MAX - 1, 3),
        (1, 3, u16::MAX - 2, 4),
        (u16::MAX, 1, u16::MAX - 1, 1),
        (u16::MAX, 2, u16::MAX - 2, 2),
        (10, u16::MAX, 10, 10),
        (10, 0, 10, 10),
        (1, 0, 1, 1),
        (u16::MAX, 0, u16::MAX, u16::MAX),
    ];
    for (cur, d, prev, next) in t {
        let sub = Pid::try_from(cur).unwrap().sub(d);
        let add = Pid::try_from(cur).unwrap().add(d);
        assert_eq!(prev, sub.get(), "{} - {} should be {}", cur, d, prev);
        assert_eq!(next, add.get(), "{} + {} should be {}", cur, d, next);
    }
}

#[test]
fn pid_boundary_table() {
    // (cur, delta, cur - delta, cur + delta)
    let t: Vec<(u16, u16, u16, u16)> = vec![(1, 1, 65535, 2), (65535, 1, 65534, 1), (10, 65535, 10, 10)];
    for (cur, d, prev, next) in t {
        assert_eq!(Pid::try_from(cur).unwrap().sub(d).get(), prev);
        assert_eq!(Pid::try_from(cur).unwrap().add(d).get(), next);
    }
}

#[test]
fn pid_zero_rejected() {
    assert_eq!(Pid::try_from(0), Err(Error::InvalidPid(0)));
    assert_eq!(Pid::try_from(1).unwrap().get(), 1);
    assert_eq!(Pid::new().get(), 1);
    assert_eq!(Pid::default().get(), 1);
}
