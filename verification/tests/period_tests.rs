use punch_clock::Period;

#[test]
fn tokens_parse_to_their_periods() {
    assert_eq!(Period::from_token("all"), Ok(Period::All));
    assert_eq!(Period::from_token("a"), Ok(Period::All));
    assert_eq!(Period::from_token("today"), Ok(Period::Today));
    assert_eq!(Period::from_token("t"), Ok(Period::Today));
    assert_eq!(Period::from_token("yesterday"), Ok(Period::Yesterday));
    assert_eq!(Period::from_token("y"), Ok(Period::Yesterday));
    assert_eq!(Period::from_token("week"), Ok(Period::Week));
    assert_eq!(Period::from_token("this week"), Ok(Period::Week));
    assert_eq!(Period::from_token("w"), Ok(Period::Week));
    assert_eq!(Period::from_token("tw"), Ok(Period::Week));
    assert_eq!(Period::from_token("last week"), Ok(Period::LastWeek));
    assert_eq!(Period::from_token("lastweek"), Ok(Period::LastWeek));
    assert_eq!(Period::from_token("lw"), Ok(Period::LastWeek));
    assert_eq!(Period::from_token("month"), Ok(Period::Month));
    assert_eq!(Period::from_token("this month"), Ok(Period::Month));
    assert_eq!(Period::from_token("m"), Ok(Period::Month));
    assert_eq!(Period::from_token("tm"), Ok(Period::Month));
    assert_eq!(Period::from_token("last month"), Ok(Period::LastMonth));
    assert_eq!(Period::from_token("lastmonth"), Ok(Period::LastMonth));
    assert_eq!(Period::from_token("lm"), Ok(Period::LastMonth));
}

#[test]
fn unknown_tokens_are_rejected() {
    assert_eq!(
        Period::from_token("fortnight"),
        Err("Time period not recognised.".to_string())
    );
    assert_eq!(Period::from_token(""), Err("Time period not recognised.".to_string()));
    assert_eq!(Period::from_token("ALL"), Err("Time period not recognised.".to_string()));
}

#[test]
fn display_names() {
    assert_eq!(Period::All.display_name(), "All-Time");
    assert_eq!(Period::Today.display_name(), "Today");
    assert_eq!(Period::Yesterday.display_name(), "Yesterday");
    assert_eq!(Period::Week.display_name(), "This Week");
    assert_eq!(Period::LastWeek.display_name(), "Last Week");
    assert_eq!(Period::Month.display_name(), "This Month");
    assert_eq!(Period::LastMonth.display_name(), "Last Month");
}
