use ecmd::polarity::{PolarVal, Polarity};

#[test]
fn default_is_unset() {
    assert_eq!(Polarity::default(), Polarity::Unset);
}

#[test]
fn on_reports_correctly() {
    let p = Polarity::On;
    assert!(p.is_on());
    assert!(!p.is_off());
    assert!(p.is_set());
}

#[test]
fn off_reports_correctly() {
    let p = Polarity::Off;
    assert!(!p.is_on());
    assert!(p.is_off());
    assert!(p.is_set());
}

#[test]
fn unset_is_not_set() {
    let p = Polarity::Unset;
    assert!(!p.is_on());
    assert!(!p.is_off());
    assert!(!p.is_set());
}

#[test]
fn polar_val_stores_on_with_value() {
    let pv = PolarVal::new(Polarity::On, "errexit");
    assert_eq!(pv.polarity, Polarity::On);
    assert_eq!(pv.value, "errexit");
}

#[test]
fn polar_val_stores_off_with_value() {
    let pv = PolarVal::new(Polarity::Off, "verbose");
    assert!(pv.polarity.is_off());
    assert_eq!(pv.value, "verbose");
}

#[test]
fn polarity_is_copy() {
    let p = Polarity::On;
    let p2 = p;
    assert_eq!(p, p2);
}

#[test]
fn polar_val_equality() {
    let a = PolarVal::new(Polarity::On, "x");
    let b = PolarVal::new(Polarity::On, "x");
    let c = PolarVal::new(Polarity::Off, "x");
    assert_eq!(a, b);
    assert_ne!(a, c);
}

#[test]
fn every_polarity_is_exactly_one_state() {
    for p in [Polarity::Unset, Polarity::On, Polarity::Off] {
        let states = [p.is_on(), p.is_off(), !p.is_set()];
        assert_eq!(states.iter().filter(|s| **s).count(), 1);
        assert_eq!(p.is_set(), p.is_on() || p.is_off());
    }
}
