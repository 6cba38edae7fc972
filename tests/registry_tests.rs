use printer_core::registry::CommandRegistry;

#[test]
fn registry_maps_both_ways() {
    let mut r = CommandRegistry::new();
    assert_eq!(r.get_id("get_config"), None);
    assert_eq!(r.get_name(5), None);
    r.add("get_config", 5);
    r.add("queue_step", 9);
    assert_eq!(r.get_id("get_config"), Some(5));
    assert_eq!(r.get_id("queue_step"), Some(9));
    assert_eq!(r.get_name(5), Some("get_config"));
    assert_eq!(r.get_name(9), Some("queue_step"));
    assert_eq!(r.get_id("identify"), None);
}

#[test]
fn registry_later_add_takes_over() {
    let mut r = CommandRegistry::new();
    r.add("a", 1);
    r.add("b", 1);
    r.add("a", 2);
    assert_eq!(r.get_id("a"), Some(2));
    assert_eq!(r.get_id("b"), Some(1));
    assert_eq!(r.get_name(1), Some("b"));
    assert_eq!(r.get_name(2), Some("a"));
}
