use ai_common::logger::Logger;

#[test]
fn logger_file_name_is_stem_dot_log() {
    let l = Logger::new("ai_survival", 3000);
    assert_eq!(l.file_name(), "ai_survival.log");
    assert_eq!(l.cap(), 3000);
    assert_eq!(l.count(), 0);
}

#[test]
fn capped_lines_stop_at_the_cap() {
    let mut l = Logger::new("m", 2);
    assert!(l.request_line());
    assert!(l.request_line());
    assert!(!l.request_line());
    assert!(!l.request_line());
    assert_eq!(l.count(), 4);
}

#[test]
fn zero_cap_refuses_every_line() {
    let mut l = Logger::new("m", 0);
    assert!(!l.request_line());
    assert_eq!(l.count(), 1);
}

#[test]
fn fresh_logger_grants_min_of_requests_and_cap() {
    for cap in 0..6usize {
        for k in 0..10usize {
            let mut l = Logger::new("m", cap);
            let mut granted = 0usize;
            for _ in 0..k {
                if l.request_line() {
                    granted += 1;
                }
            }
            assert_eq!(granted, k.min(cap));
        }
    }
}
