use deepcopy::progress::{commas, BarUpdate, Progress, Tier};

#[test]
fn tiers_follow_width() {
    assert_eq!(Tier::for_width(Some(120)), Tier::Full);
    assert_eq!(Tier::for_width(Some(100)), Tier::Full);
    assert_eq!(Tier::for_width(Some(99)), Tier::Medium);
    assert_eq!(Tier::for_width(Some(60)), Tier::Medium);
    assert_eq!(Tier::for_width(Some(59)), Tier::Narrow);
    assert_eq!(Tier::for_width(Some(50)), Tier::Narrow);
    assert_eq!(Tier::for_width(Some(30)), Tier::Plain);
}

#[test]
fn every_template_parses() {
    for tier in [Tier::Full, Tier::Medium, Tier::Narrow, Tier::Plain] {
        indicatif::ProgressStyle::default_bar()
            .template(tier.template(true))
            .unwrap_or_else(|e| panic!("{tier:?} template invalid: {e}"));
    }
}

#[test]
fn every_final_template_parses() {
    for tier in [Tier::Full, Tier::Medium, Tier::Narrow, Tier::Plain] {
        assert!(indicatif::ProgressStyle::default_bar().template(tier.template(false)).is_ok());
    }
}

#[test]
fn no_terminal_is_plain() {
    assert_eq!(Tier::for_width(None), Tier::Plain);
    assert_eq!(Tier::for_width(Some(49)), Tier::Plain);
    assert!(!Progress::new(false, None).is_drawing());
    assert!(!Progress::new(true, Some(120)).is_drawing());
    assert!(Progress::new(false, Some(10)).is_drawing());
    assert_eq!(Progress::new(true, None).plain_interval(), 5);
}

#[test]
fn digits_come_in_threes() {
    assert_eq!(commas(0), "0");
    assert_eq!(commas(999), "999");
    assert_eq!(commas(1000), "1,000");
    assert_eq!(commas(123_456), "123,456");
    assert_eq!(commas(1_234_567), "1,234,567");
    assert_eq!(commas(u64::MAX), "18,446,744,073,709,551,615");
}

#[test]
fn grouping_keeps_the_digits() {
    for n in [0, 7, 10, 1234, 1_000_000, u64::MAX] {
        assert_eq!(commas(n).replace(',', ""), n.to_string());
    }
}

#[test]
fn messages_count_files() {
    let mut p = Progress::new(false, Some(120));
    for _ in 0..1500 {
        p.found(10, false);
    }
    p.found(10, true);
    p.finished(10);
    assert_eq!(
        p.message_with("10 B"),
        "1,501 found · 1 copied · 10 B · 1 online-only"
    );
    p.scan_complete();
    assert_eq!(p.message_with("10 B"), "1/1,501 files · 1 online-only");
    p.tier = Tier::Medium;
    assert_eq!(p.message_with("10 B"), "1/1,501 files");
}

#[test]
fn sizes_are_for_people() {
    let mut p = Progress::new(true, None);
    p.found(0, false);
    assert_eq!(p.message(1500), "1 found · 0 copied · 1.46 KiB");
    assert_eq!(
        p.plain_line(1024 * 1024 * 1024, Some(3 * 1024 * 1024 * 1024)),
        "0/1 files · 1.00 GiB / 3.00 GiB (scanning)"
    );
    p.scan_complete();
    assert_eq!(p.plain_line(0, None), "0/1 files · 0 B / 0 B");
    assert_eq!(p.plain_line_with("a", "b"), "0/1 files · a / b");
}

#[test]
fn messages_are_rebuilt_now_and_then() {
    let mut p = Progress::new(false, Some(70));
    assert_eq!(p.found(5, false), BarUpdate { longer: 5, further: 0, message: true });
    for _ in 0..63 {
        assert_eq!(p.finished(7), BarUpdate { longer: 0, further: 7, message: false });
    }
    assert_eq!(p.finished(7), BarUpdate { longer: 0, further: 7, message: true });
}

#[test]
fn a_narrow_bar_drops_its_message_after_the_scan() {
    let mut p = Progress::new(false, Some(55));
    assert!(p.found(1, false).message);
    let (template, message) = p.scan_complete();
    assert_eq!(template, Some("{spinner:.green} {wide_bar:.cyan/blue} {percent}%"));
    assert!(!message);
    let updates = p.updates;
    assert!(!p.finished(1).message);
    assert_eq!(p.updates, updates);
    assert_eq!(Progress::new(true, Some(120)).scan_complete().0, None);
}
