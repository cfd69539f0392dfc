use downloader::rendering::RenderingManager;

#[test]
fn new_manager_checks_size_and_interval() {
    let mut r = RenderingManager::new(80, 24, 60);
    assert!(r.is_enabled());
    assert_eq!(r.get_fps_interval(), 16);
    assert_eq!(r.w, 80);
    assert_eq!(r.h, 24);
    assert_eq!(r.w(), 80);
    assert_eq!(r.h(), 24);
    let mut small = RenderingManager::new(10, 30, 1);
    assert!(!small.is_enabled());
    assert_eq!(small.get_fps_interval(), 1000);
}

#[test]
fn interval_is_integer_division() {
    assert_eq!(RenderingManager::calculate_interval(3), 333);
    assert_eq!(RenderingManager::calculate_interval(1000), 1);
    assert_eq!(RenderingManager::calculate_interval(2000), 0);
}

#[test]
fn negative_fps_wraps_interval() {
    assert_eq!(RenderingManager::calculate_interval(-3), (-333i64) as u64);
    assert_eq!(RenderingManager::calculate_interval(-2000), 0);
    assert_eq!(RenderingManager::calculate_interval(i16::MIN), 0);
}

#[test]
fn new_fps_updates_interval() {
    let mut r = RenderingManager::new(80, 24, 60);
    assert_eq!(r.new_fps(20), 50);
    assert_eq!(r.get_fps_interval(), 50);
}

#[test]
fn resize_then_check() {
    let mut r = RenderingManager::new(10, 10, 60);
    assert!(!r.is_enabled());
    assert_eq!(r.resize(30, 30), (30, 30));
    assert!(!r.is_enabled());
    assert!(r.check());
    assert!(r.is_enabled());
    r.resize(21, 20);
    assert!(!r.check());
}

#[test]
fn check_from_needs_more_than_twenty() {
    assert!(RenderingManager::check_from(21, 21));
    assert!(!RenderingManager::check_from(20, 21));
    assert!(!RenderingManager::check_from(21, 20));
}

#[test]
fn set_turns_drawing_on_and_off() {
    let mut r = RenderingManager::default();
    assert!(!r.is_enabled());
    assert!(r.set(true));
    assert!(r.is_enabled());
    assert!(!r.set(false));
    assert!(!r.is_enabled());
}
