use hx::{flag_enabled, ARG_ARR, ARG_CLR, ARG_COL, ARG_FMT, ARG_FNC, ARG_INP, ARG_LEN, ARG_PFX, ARG_PLC};

/// Test ARG constants are correct
#[test]
fn test_arg_constants() {
    assert_eq!(ARG_COL, "cols");
    assert_eq!(ARG_LEN, "len");
    assert_eq!(ARG_FMT, "format");
    assert_eq!(ARG_INP, "INPUTFILE");
    assert_eq!(ARG_CLR, "color");
    assert_eq!(ARG_ARR, "array");
    assert_eq!(ARG_FNC, "func");
    assert_eq!(ARG_PLC, "places");
    assert_eq!(ARG_PFX, "prefix");
}

#[test]
fn explicit_flag_overrides_the_default() {
    assert!(flag_enabled(Some(1), false));
    assert!(!flag_enabled(Some(0), true));
    assert!(!flag_enabled(Some(2), true));
    assert!(flag_enabled(None, true));
    assert!(!flag_enabled(None, false));
}
