use wallpaper_core::compositor::rules::{parse, parse_one, rule_in_force, written_form, Rule, Trigger};

fn rule(trigger: Trigger, path: &str) -> Rule {
    Rule {
        trigger,
        items: vec![path.to_string()],
    }
}

fn day_and_night() -> Vec<Rule> {
    vec![
        rule(Trigger::Time(7 * 60), "day.mp4"),
        rule(Trigger::Time(20 * 60), "night.mp4"),
    ]
}

#[test]
fn the_most_recent_start_is_the_one_in_force() {
    let rules = day_and_night();
    assert_eq!(rule_in_force(&rules, 12 * 60, None).unwrap().items[0], "day.mp4");
    assert_eq!(rule_in_force(&rules, 22 * 60, None).unwrap().items[0], "night.mp4");
}

#[test]
fn a_rule_takes_effect_on_the_minute_it_names() {
    let rules = day_and_night();
    assert_eq!(rule_in_force(&rules, 7 * 60, None).unwrap().items[0], "day.mp4");
    assert_eq!(rule_in_force(&rules, 7 * 60 - 1, None).unwrap().items[0], "night.mp4");
}

#[test]
fn before_the_first_rule_the_night_before_still_stands() {
    let rules = day_and_night();
    assert_eq!(rule_in_force(&rules, 3 * 60, None).unwrap().items[0], "night.mp4");
}

#[test]
fn the_theme_wins_over_the_clock() {
    let mut rules = day_and_night();
    rules.push(rule(Trigger::Theme(true), "dark.mp4"));
    assert_eq!(rule_in_force(&rules, 12 * 60, Some(true)).unwrap().items[0], "dark.mp4");
    // ...but only the one that matches. A dark rule on a light desktop
    // must not shadow the time rules.
    assert_eq!(rule_in_force(&rules, 12 * 60, Some(false)).unwrap().items[0], "day.mp4");
}

#[test]
fn no_rules_means_the_users_own_choice_stands() {
    assert!(rule_in_force(&[], 12 * 60, Some(true)).is_none());
}

#[test]
fn rules_round_trip_through_their_written_form() {
    let rules = vec![
        Rule {
            trigger: Trigger::Time(420),
            items: vec![r"C:\a b\day.mp4".to_string(), "x.mp4".to_string()],
        },
        rule(Trigger::Theme(true), "dark.mp4"),
    ];
    assert_eq!(parse(&written_form(&rules)), rules);
}

#[test]
fn a_rule_with_no_wallpaper_is_dropped() {
    assert!(parse("t420").is_empty());
    assert!(parse("t420|").is_empty());
}

#[test]
fn a_time_outside_the_day_is_not_a_rule() {
    assert!(parse("t1500|x.mp4").is_empty());
}

#[test]
fn nonsense_is_skipped_rather_than_fatal() {
    let rules = parse("wat|x.mp4;t60|good.mp4;;");
    assert_eq!(rules.len(), 1);
    assert_eq!(rules[0].trigger, Trigger::Time(60));
}

// ---------------------------------------------------------------------------
// The written form, exactly.
// ---------------------------------------------------------------------------

#[test]
fn rules_are_written_one_entry_each() {
    let rules = vec![
        rule(Trigger::Time(90), "a.mp4"),
        rule(Trigger::Theme(false), "light.mp4"),
        rule(Trigger::Theme(true), "dark.mp4"),
    ];
    assert_eq!(written_form(&rules), "t90|a.mp4;d0|light.mp4;d1|dark.mp4");
    assert_eq!(written_form(&[]), "");
}

#[test]
fn one_entry_reads_as_one_rule() {
    let read = parse_one("d1|dark.mp4|other.mp4").unwrap();
    assert_eq!(read.trigger, Trigger::Theme(true));
    assert_eq!(read.items, vec!["dark.mp4".to_string(), "other.mp4".to_string()]);
    // Anything but `1` after a `d` is the light theme.
    assert_eq!(parse_one("d2|x.mp4").unwrap().trigger, Trigger::Theme(false));
    assert!(parse_one("x1|x.mp4").is_none());
    assert!(parse_one("|x.mp4").is_none());
    assert!(parse_one("t1440|x.mp4").is_none());
    assert_eq!(parse_one("t1439|x.mp4").unwrap().trigger, Trigger::Time(1439));
}

#[test]
fn of_two_rules_at_one_minute_the_later_one_stands() {
    let rules = vec![
        rule(Trigger::Time(60), "first.mp4"),
        rule(Trigger::Time(60), "second.mp4"),
    ];
    assert_eq!(rule_in_force(&rules, 61, None).unwrap().items[0], "second.mp4");
}
