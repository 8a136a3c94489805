use std::time::Duration;

use santorini_engines::flop::time_management::get_time;

#[test]
fn test_1min(){
    let dur = Duration::from_secs(60);
    assert_eq!(get_time(dur.as_nanos() as u64), Duration::from_secs(4).as_nanos() as u64);
}

#[test]
fn test_3min(){
    let dur = Duration::from_secs(180);
    assert_eq!(get_time(dur.as_nanos() as u64), Duration::from_secs(12).as_nanos() as u64);
}

#[test]
fn test_15min(){
    let dur = Duration::from_secs(900);
    assert_eq!(get_time(dur.as_nanos() as u64), Duration::from_secs(60).as_nanos() as u64);
}

