use mncs_model::provider::{
    assess_observation, cgroup_path, cgroup_readings, counter, counters, parse_u64, properties, property,
    read_number, split_lines, unit_loaded, CgroupReadings,
};

#[test]
fn lines_split_like_str_lines() {
    assert_eq!(split_lines("a\r\nb\n\nc"), vec!["a".to_owned(), "b".to_owned(), "".to_owned(), "c".to_owned()]);
    assert_eq!(split_lines("a\n"), vec!["a".to_owned()]);
    assert_eq!(split_lines("\n"), vec!["".to_owned()]);
    assert!(split_lines("").is_empty());
    assert_eq!(split_lines("tail\r"), vec!["tail\r".to_owned()]);
}

#[test]
fn numbers_parse_like_u64_from_str() {
    assert_eq!(parse_u64("42"), Some(42));
    assert_eq!(parse_u64("+7"), Some(7));
    assert_eq!(parse_u64("18446744073709551615"), Some(u64::MAX));
    assert_eq!(parse_u64("18446744073709551616"), None);
    assert_eq!(parse_u64(""), None);
    assert_eq!(parse_u64("+"), None);
    assert_eq!(parse_u64("-1"), None);
    assert_eq!(parse_u64("12a"), None);
    assert_eq!(read_number(Some("  1024\n")), Some(1024));
    assert_eq!(read_number(Some(" \n")), None);
    assert_eq!(read_number(None), None);
}

#[test]
fn counters_and_properties_let_later_lines_override() {
    let events = counters("low 0\nhigh 3\nmax x\noom_kill 2\nhigh 5\nbroken\n");
    assert_eq!(counter(&events, "high"), Some(5));
    assert_eq!(counter(&events, "max"), None);
    assert_eq!(counter(&events, "oom_kill"), Some(2));
    let listed = properties("Id=a.service\nLoadState=loaded\nResult=exit=1\nnoise\nId=b.service\n");
    assert_eq!(property(&listed, "Id"), Some(&"b.service".to_owned()));
    assert_eq!(property(&listed, "Result"), Some(&"exit=1".to_owned()));
    assert!(unit_loaded(&listed, "b.service"));
    assert!(!unit_loaded(&listed, "a.service"));
}

#[test]
fn control_groups_stay_below_the_cgroup_root() {
    assert_eq!(cgroup_path("/user.slice/unit.service"), Some("/sys/fs/cgroup/user.slice/unit.service".to_owned()));
    assert_eq!(cgroup_path("//a/./b"), Some("/sys/fs/cgroup/a/./b".to_owned()));
    assert_eq!(cgroup_path("/"), Some("/sys/fs/cgroup/".to_owned()));
    assert_eq!(cgroup_path("/a/../etc"), None);
    assert_eq!(cgroup_path("/.."), None);
    assert_eq!(cgroup_path("relative"), None);
    assert_eq!(cgroup_path(""), None);
    assert_eq!(cgroup_path("/a..b/..c"), Some("/sys/fs/cgroup/a..b/..c".to_owned()));
}

#[test]
fn readings_are_complete_only_when_every_file_was_read() {
    let full = cgroup_readings(
        "low 0\nhigh 1\nmax 0\noom 0\noom_kill 0\n",
        "max 0\n",
        "populated 0\nfrozen 0\n",
        Some("4096\n"),
        Some("0\n"),
        Some("3\n"),
    );
    assert!(full.complete);
    assert_eq!(full.memory_high_events, Some(1));
    assert_eq!(full.tree_empty, Some(true));
    assert_eq!(full.memory_peak_bytes, Some(4096));
    let partial = cgroup_readings("", "max 0\n", "populated 1\n", None, Some("0"), Some("1"));
    assert!(!partial.complete);
    assert_eq!(partial.tree_empty, Some(false));
}

#[test]
fn an_oom_result_turns_conflicting_zero_counters_unknown() {
    let listed = properties("Result=oom-kill\nActiveState=inactive\nControlGroup=\nMemoryPeak=777\n");
    let raw = CgroupReadings {
        complete: true,
        memory_high_events: Some(0),
        memory_max_events: Some(0),
        oom_events: Some(1),
        oom_kill_events: Some(0),
        process_limit_events: Some(0),
        memory_peak_bytes: None,
        swap_peak_bytes: Some(0),
        process_peak: Some(1),
        tree_empty: None,
    };
    let assessment = assess_observation(&listed, true, Some(raw), true, true, false, false, false);
    let reported = assessment.readings.expect("readings");
    assert!(!reported.complete);
    assert_eq!(reported.memory_max_events, None);
    assert_eq!(reported.oom_events, Some(1));
    assert_eq!(reported.oom_kill_events, None);
    assert_eq!(reported.memory_peak_bytes, Some(777));
    assert!(assessment.facts.resource_exhausted);
    assert!(assessment.facts.unit_inactive);
    assert_eq!(assessment.facts.tree_empty, Some(true));
    assert!(!assessment.facts.timed_out);
    let timed = assess_observation(&properties("Result=timeout\nSubState=running\n"), true, None, false, true, false, false, false);
    assert!(timed.facts.timed_out);
    assert!(!timed.facts.unit_inactive);
    assert_eq!(timed.facts.tree_empty, None);
    assert!(!timed.facts.resource_exhausted);
}

#[test]
fn trimming_uses_exactly_the_unicode_white_space_set() {
    for code in 0u32..0x11_0000 {
        let Some(c) = char::from_u32(code) else { continue };
        if c == '+' || c.is_ascii_digit() {
            continue;
        }
        let text = format!("{c}1");
        assert_eq!(read_number(Some(&text)) == Some(1), c.is_whitespace(), "code point {code:#x}");
    }
}
