use mmtk::args::{parse_usize, Environment, InvalidArg, RuntimeArgs, BUFFER_SIZE, LOG_BYTES_PER_RC_LOCK_BIT};
use mmtk::plan::concurrent::bactrian::settings::{
    compact_util_threshold_pct, conc_mark_min_mature_pages, marks_in_slices, medium_to_freelist,
    nursery_age, slice_max_nursery_pages, up_oldify_enabled,
};
use mmtk::plan::lxr::global::{
    backup_hi_pct, backup_lo_pct, backup_min_reclaim_pct, backup_trace_disabled,
};

fn env(vars: &[(&str, &str)]) -> Environment {
    Environment {
        vars: vars
            .iter()
            .map(|(name, value)| (name.to_string(), Some(value.to_string())))
            .collect(),
    }
}

#[test]
fn numbers_are_parsed() {
    assert_eq!(parse_usize("0"), Some(0));
    assert_eq!(parse_usize("1024"), Some(1024));
    assert_eq!(parse_usize("+7"), Some(7));
    assert_eq!(parse_usize("18446744073709551615"), Some(usize::MAX));
    assert_eq!(parse_usize("18446744073709551616"), None);
    assert_eq!(parse_usize(""), None);
    assert_eq!(parse_usize("+"), None);
    assert_eq!(parse_usize("-1"), None);
    assert_eq!(parse_usize(" 1"), None);
    assert_eq!(parse_usize("1k"), None);
}

#[test]
fn parsing_agrees_with_the_standard_library() {
    for text in ["", "0", "00012", "+5", "++5", "12a", "99999999999999999999", "4096", "٣"] {
        assert_eq!(parse_usize(text), text.parse::<usize>().ok(), "{}", text);
    }
}

#[test]
fn the_first_entry_of_a_name_counts() {
    let e = env(&[("A", "1"), ("B", "2"), ("A", "3")]);
    assert_eq!(e.usize_or("A", 9), 1);
    assert_eq!(e.usize_or("B", 9), 2);
    assert_eq!(e.usize_or("C", 9), 9);
    assert!(e.is_set("B"));
    assert!(!e.is_set("C"));
}

#[test]
fn a_value_that_is_not_text_is_set_but_has_no_text() {
    let e = Environment { vars: vec![("A".to_string(), None)] };
    assert!(e.is_set("A"));
    assert_eq!(e.get("A"), None);
    assert_eq!(e.bool_of("A"), None);
}

#[test]
fn defaults_without_an_environment() {
    let args = RuntimeArgs::from_env(&env(&[])).unwrap();
    assert_eq!(args.incs_limit, None);
    assert!(!args.no_mutator_line_recycling);
    assert!(!args.no_line_recycling);
    assert_eq!(args.nursery_blocks, None);
    assert_eq!(args.young_limit_mb, None);
    assert_eq!(args.nursery_ratio, None);
    assert_eq!(args.max_pause_millis, None);
    assert_eq!(args.max_young_evac_size, usize::MAX);
    assert_eq!(args.rc_stop_percent, 15);
    assert_eq!(args.max_survival_mb, 128);
    assert!(!args.survival_predictor_harmonic_mean);
    assert!(!args.survival_predictor_weighted);
    assert_eq!(args.trace_threshold, 20);
    assert_eq!(args.chunk_defarg_percent, 32);
    assert!(args.transparent_hugepage);
}

#[test]
fn settings_are_read_from_the_environment() {
    let args = RuntimeArgs::from_env(&env(&[
        ("INCS_LIMIT", "5"),
        ("NO_LINE_RECYCLING", "1"),
        ("NO_MUTATOR_LINE_RECYCLING", "yes"),
        ("YOUNG_LIMIT_MB", "64"),
        ("CM_THRESHOLD", "33"),
        ("HUGEPAGE", "0"),
        ("SURVIVAL_PREDICTOR_WEIGHTED", "TRUE"),
        ("RC_STOP_PERCENT", "1"),
    ]))
    .unwrap();
    assert_eq!(args.incs_limit, Some(5));
    assert!(args.no_line_recycling);
    assert!(!args.no_mutator_line_recycling);
    assert_eq!(args.young_limit_mb, Some(64));
    assert_eq!(args.trace_threshold, 33);
    assert!(!args.transparent_hugepage);
    assert!(args.survival_predictor_weighted);
    assert_eq!(args.rc_stop_percent, 1);
}

#[test]
fn the_first_of_several_names_wins() {
    let args = RuntimeArgs::from_env(&env(&[
        ("YOUNG_LIMIT", "1"),
        ("YOUNG_LIMIT_MB", "2"),
        ("TRACE_THRESHOLD2", "3"),
        ("TRACE_THRESHOLD", "4"),
        ("CM_THRESHOLD", "5"),
        ("TRANSPARENT_HUGEPAGE", "true"),
        ("HUGEPAGE", "0"),
    ]))
    .unwrap();
    assert_eq!(args.young_limit_mb, Some(1));
    assert_eq!(args.trace_threshold, 3);
    assert!(args.transparent_hugepage);
}

#[test]
fn a_setting_that_is_no_number_is_refused() {
    assert_eq!(
        RuntimeArgs::from_env(&env(&[("NURSERY_RATIO", "half")])),
        Err(InvalidArg { name: "NURSERY_RATIO" })
    );
    assert_eq!(
        RuntimeArgs::from_env(&env(&[("CM_THRESHOLD", "")])),
        Err(InvalidArg { name: "CM_THRESHOLD" })
    );
}

#[test]
fn fixed_settings() {
    assert_eq!(BUFFER_SIZE, 1024);
    assert_eq!(LOG_BYTES_PER_RC_LOCK_BIT, 9);
}

#[test]
fn settings_of_the_trace_fallback() {
    let none = env(&[]);
    assert!(!backup_trace_disabled(&none));
    assert_eq!(backup_lo_pct(&none), 80);
    assert_eq!(backup_min_reclaim_pct(&none), 5);
    assert_eq!(backup_hi_pct(&none), 98);
    assert!(backup_trace_disabled(&env(&[("MMTK_RC_NO_CM", "")])));
    assert!(backup_trace_disabled(&env(&[("MMTK_RC_NO_BACKUP_TRACE", "0")])));
    assert_eq!(backup_lo_pct(&env(&[("MMTK_RC_BACKUP_LO_PCT", "50")])), 50);
    assert_eq!(backup_hi_pct(&env(&[("MMTK_RC_BACKUP_HI_PCT", "x")])), 98);
}

#[test]
fn settings_of_the_generational_plan() {
    let none = env(&[]);
    assert_eq!(compact_util_threshold_pct(&none), 0);
    assert_eq!(nursery_age(&none), 0);
    assert_eq!(slice_max_nursery_pages(&none), 1024);
    assert_eq!(conc_mark_min_mature_pages(&none), 65536);
    assert!(marks_in_slices(&none));
    assert!(!up_oldify_enabled(&none));
    assert!(!medium_to_freelist(&none, true));

    assert_eq!(compact_util_threshold_pct(&env(&[("MMTK_COMPACT_UTIL_PCT", "100")])), 100);
    assert_eq!(compact_util_threshold_pct(&env(&[("MMTK_COMPACT_UTIL_PCT", "101")])), 0);
    assert_eq!(nursery_age(&env(&[("MMTK_NURSERY_AGE", "2")])), 2);
    assert_eq!(slice_max_nursery_pages(&env(&[("MMTK_SLICE_MAX_NURSERY_MB", "1")])), 256);
    assert_eq!(slice_max_nursery_pages(&env(&[("MMTK_SLICE_MAX_NURSERY_MB", "0")])), 1024);
    assert_eq!(conc_mark_min_mature_pages(&env(&[("MMTK_CONC_MARK_MIN_MATURE_MB", "0")])), 0);
    assert!(!marks_in_slices(&env(&[("MMTK_MARK_SLICED", "0")])));
    assert!(marks_in_slices(&env(&[("MMTK_MARK_SLICED", "00")])));
    assert!(up_oldify_enabled(&env(&[("MMTK_UP_OLDIFY", "1")])));
    assert!(!up_oldify_enabled(&env(&[("MMTK_UP_OLDIFY", "true")])));
    let freelist = env(&[("MMTK_MEDIUM_TO", "FreeList")]);
    assert!(medium_to_freelist(&freelist, true));
    assert!(!medium_to_freelist(&freelist, false));
    assert!(!medium_to_freelist(&env(&[("MMTK_MEDIUM_TO", "immix")]), true));
}
