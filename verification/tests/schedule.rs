use petit::base::schedule::{Schedule, ScheduleError};

#[test]
fn schedule_accepts_shortcuts_intervals_and_cron_lines() {
    for e in ["@yearly", "@annually", "@monthly", "@weekly", "@daily", "@midnight", "@hourly"] {
        assert_eq!(Schedule::new(e.to_string()).unwrap().expression(), e);
    }
    assert!(Schedule::new("@every 1h30m".to_string()).is_ok());
    assert!(Schedule::new("0 9 * * 1-5".to_string()).is_ok());
    assert!(Schedule::new("0 0 9 * * Mon-Fri".to_string()).is_ok());
    assert!(Schedule::new("0 0 9 * * Mon-Fri 2030".to_string()).is_ok());
    assert!(Schedule::new("  @daily  ".to_string()).is_ok());
}

#[test]
fn schedule_rejects_other_expressions() {
    for e in ["", "@every 0s", "@every", "@every x", "@sometimes", "* * * *", "1 2 3 4 5 6 7 8", "@ * * * *"] {
        match Schedule::new(e.to_string()) {
            Err(ScheduleError::InvalidExpression(x)) => assert_eq!(x, e),
            _ => panic!("expected an invalid expression for {:?}", e),
        }
    }
}

#[test]
fn schedule_checks_the_timezone() {
    let s = Schedule::with_timezone("@daily".to_string(), "Europe/London".to_string()).unwrap();
    assert_eq!(s.timezone(), "Europe/London");
    assert!(matches!(
        Schedule::with_timezone("@daily".to_string(), "Mars/Olympus".to_string()),
        Err(ScheduleError::InvalidTimezone(t)) if t == "Mars/Olympus"
    ));
    assert!(matches!(
        Schedule::with_checked_timezone("@daily".to_string(), "X".to_string(), false),
        Err(ScheduleError::InvalidTimezone(_))
    ));
    assert_eq!(
        Schedule::with_checked_timezone("@daily".to_string(), "X".to_string(), true).unwrap().timezone(),
        "X"
    );
    assert!(matches!(
        Schedule::with_checked_timezone("bad".to_string(), "UTC".to_string(), true),
        Err(ScheduleError::InvalidExpression(_))
    ));
}

#[test]
fn schedule_error_messages() {
    assert_eq!(
        ScheduleError::InvalidExpression("x".to_string()).message(),
        "invalid schedule expression: x"
    );
    assert_eq!(ScheduleError::InvalidTimezone("y".to_string()).message(), "invalid timezone: y");
}
