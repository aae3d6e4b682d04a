use shesh::commands::CommandSeparator;
use shesh::shell::{plan_segment, SegmentDecision};

#[test]
fn failed_andand_skips_next_segment() {
    // `false && echo no`: after the failed `false`, the `echo no` segment
    // is skipped, whatever its own separator is.
    let d = plan_segment(&CommandSeparator::AndAnd, false, &CommandSeparator::Nothing);
    assert!(matches!(d, SegmentDecision::Skip));
    let d2 = plan_segment(&CommandSeparator::AndAnd, false, &CommandSeparator::SemiColon);
    assert!(matches!(d2, SegmentDecision::Skip));
}

#[test]
fn successful_andand_runs_next_segment() {
    let d = plan_segment(&CommandSeparator::AndAnd, true, &CommandSeparator::Nothing);
    assert!(matches!(d, SegmentDecision::RunForeground));
}

#[test]
fn semicolon_runs_regardless_of_failure() {
    let d = plan_segment(&CommandSeparator::SemiColon, false, &CommandSeparator::Nothing);
    assert!(matches!(d, SegmentDecision::RunForeground));
}

#[test]
fn ampersand_segment_runs_in_background() {
    let d = plan_segment(&CommandSeparator::SemiColon, true, &CommandSeparator::Background);
    assert!(matches!(d, SegmentDecision::RunBackground));
}
