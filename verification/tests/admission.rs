use secretd::admission::Admission;

#[test]
fn connections_are_admitted_up_to_the_limit() {
    let mut admission = Admission::new(2);
    assert_eq!(admission.in_flight(), 0);
    assert!(admission.try_admit());
    assert!(admission.try_admit());
    assert_eq!(admission.in_flight(), 2);
    assert!(!admission.try_admit());
    assert_eq!(admission.in_flight(), 2);
}

#[test]
fn release_makes_room_again() {
    let mut admission = Admission::new(1);
    assert!(admission.try_admit());
    assert!(!admission.try_admit());
    admission.release();
    assert_eq!(admission.in_flight(), 0);
    assert!(admission.try_admit());
}

#[test]
fn release_of_nothing_changes_nothing() {
    let mut admission = Admission::new(3);
    admission.release();
    assert_eq!(admission.in_flight(), 0);
    assert!(admission.try_admit());
    assert_eq!(admission.in_flight(), 1);
}

#[test]
fn limit_of_zero_admits_nobody() {
    let mut admission = Admission::new(0);
    assert!(!admission.try_admit());
    assert_eq!(admission.in_flight(), 0);
}
