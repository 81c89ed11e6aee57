use frame_pipeline::frame::FrameData;
use frame_pipeline::stats::StatsLogger;
use frame_pipeline::types::Stat;

#[test]
fn averages_accumulate_across_contexts() {
    let mut logger = StatsLogger::new(vec![Stat::FrameDelay, Stat::EncodeTime]);
    assert_eq!(logger.average(Stat::FrameDelay), None);

    let mut a = FrameData::new();
    a.set(Stat::FrameDelay, 100);
    a.set(Stat::EncodeTime, 7);
    logger.consume(&a);

    let mut b = FrameData::new();
    b.set(Stat::FrameDelay, 200);
    logger.consume(&b);

    assert_eq!(logger.average(Stat::FrameDelay), Some(150));
    assert_eq!(logger.average(Stat::EncodeTime), Some(7));
}

#[test]
fn missing_keys_are_skipped_not_errors() {
    let mut logger = StatsLogger::new(vec![Stat::FrameDelay]);
    let empty = FrameData::new();
    logger.consume(&empty);
    assert_eq!(logger.average(Stat::FrameDelay), None);

    let mut a = FrameData::new();
    a.set(Stat::FrameDelay, 40);
    logger.consume(&a);
    logger.consume(&empty);
    // the empty context did not drag the average down
    assert_eq!(logger.average(Stat::FrameDelay), Some(40));
}

#[test]
fn untracked_keys_are_ignored() {
    let mut logger = StatsLogger::new(vec![Stat::FrameDelay]);
    let mut a = FrameData::new();
    a.set(Stat::EncodeTime, 9);
    logger.consume(&a);
    assert_eq!(logger.average(Stat::EncodeTime), None);
}

#[test]
fn integer_average_truncates() {
    let mut logger = StatsLogger::new(vec![Stat::DecodeTime]);
    for v in [1u128, 2] {
        let mut a = FrameData::new();
        a.set(Stat::DecodeTime, v);
        logger.consume(&a);
    }
    assert_eq!(logger.average(Stat::DecodeTime), Some(1));
}
