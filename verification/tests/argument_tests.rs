use sam_rewritten::arguments::{classify_argument, parse_u32_str, CliArg};

#[test]
fn arguments_classify_by_flag() {
    assert!(matches!(classify_argument("--orchestrator"), CliArg::Orchestrator));
    assert!(matches!(classify_argument("--app=480"), CliArg::AppId(480)));
    assert!(matches!(classify_argument("--app=0"), CliArg::AppId(0)));
    assert!(matches!(classify_argument("--app=no"), CliArg::InvalidApp));
    assert!(matches!(classify_argument("--app="), CliArg::InvalidApp));
    assert!(matches!(classify_argument("--app=4294967296"), CliArg::InvalidApp));
    match classify_argument("--tx=17") {
        CliArg::TxHandle(raw) => assert_eq!(raw, "17"),
        other => panic!("wrong class: {other:?}"),
    }
    match classify_argument("--rx=3") {
        CliArg::RxHandle(raw) => assert_eq!(raw, "3"),
        other => panic!("wrong class: {other:?}"),
    }
    assert!(matches!(classify_argument("--verbose"), CliArg::Other));
    assert!(matches!(classify_argument(""), CliArg::Other));
    // The role flag must match exactly.
    assert!(matches!(classify_argument("--orchestrator2"), CliArg::Other));
}

#[test]
fn u32_parsing_matches_the_standard_parser() {
    for text in [
        "0", "1", "480", "4294967295", "4294967296", "+7", "-1", "", "+", "007", "1x", "99999999999",
    ] {
        assert_eq!(parse_u32_str(text), text.parse::<u32>().ok(), "input {text:?}");
    }
}
