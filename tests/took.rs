use std::time::Duration;

use project_below::took::Took;

fn check_took(expected: &str, duration: Duration) {
    let actual = Took::new(duration.as_secs(), duration.subsec_millis()).to_string();
    assert_eq!(actual, expected);
    assert_eq!(actual.len(), 15);
}

#[test]
fn took_few_nanos() {
    check_took("            0ms", Duration::from_nanos(42));
}

#[test]
fn took_few_ms() {
    check_took("           42ms", Duration::from_millis(42));
}

#[test]
fn took_leet() {
    check_took("        1s337ms", Duration::from_millis(1337));
}

#[test]
fn took_few_minutes() {
    check_took("     3m12s     ", Duration::from_millis(192_042));
}

#[test]
fn took_many_minutes() {
    check_took("    14m52s     ", Duration::from_millis(892_042));
}

#[test]
fn took_some_hours() {
    check_took("  2h46m40s     ", Duration::from_millis(10_000_042));
}

#[test]
fn took_some_days() {
    check_took("138h53m20s     ", Duration::from_millis(500_000_042));
}

#[test]
fn took_exact_hours_and_seconds() {
    check_took("  5h   12s     ", Duration::from_secs(5 * 60 * 60 + 12));
}

#[test]
fn display_few_nanos() {
    check_took("            0ms", Duration::from_nanos(42));
}

#[test]
fn display_few_ms() {
    check_took("           42ms", Duration::from_millis(42));
}

#[test]
fn display_leet() {
    check_took("        1s337ms", Duration::from_millis(1337));
}

#[test]
fn display_few_minutes() {
    check_took("     3m12s     ", Duration::from_millis(192_042));
}

#[test]
fn display_many_minutes() {
    check_took("    14m52s     ", Duration::from_millis(892_042));
}

#[test]
fn display_some_hours() {
    check_took("  2h46m40s     ", Duration::from_millis(10_000_042));
}

#[test]
fn display_some_days() {
    check_took("138h53m20s     ", Duration::from_millis(500_000_042));
}

#[test]
fn display_exact_hours_and_seconds() {
    check_took("  5h   12s     ", Duration::from_secs(5 * 60 * 60 + 12));
}

#[test]
fn took_under_a_minute_shows_millis_only_then() {
    assert_eq!(Took::new(59, 999).to_string(), "       59s999ms");
    assert_eq!(Took::new(60, 999).to_string(), "     1m        ");
}
