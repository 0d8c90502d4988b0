use splits_parser::model::{ParseError, Run, Time, TimeSpan};
use splits_parser::reader::parse;

fn secs(s: i64) -> Option<TimeSpan> {
    Some(TimeSpan { nanos: s * 1_000_000_000 })
}

fn read(doc: &str) -> Result<Run, ParseError> {
    parse(doc.as_bytes(), None)
}

fn history_of(run: &Run, seg: usize, id: i32) -> Option<Time> {
    run.segments[seg].segment_history.iter().find(|(k, _)| *k == id).map(|(_, t)| *t)
}

#[test]
fn minimal_document_round_trip() {
    let doc = r#"<?xml version="1.0" encoding="UTF-8"?>
<Run version="1.6.0">
  <GameName>Game</GameName>
  <CategoryName>Any%</CategoryName>
  <AttemptCount>3</AttemptCount>
  <Segments>
    <Segment>
      <Name>A</Name>
      <BestSegmentTime><RealTime>00:00:10</RealTime></BestSegmentTime>
    </Segment>
  </Segments>
</Run>"#;
    let run = parse(doc.as_bytes(), Some("splits.lss".to_string())).unwrap();
    assert_eq!(run.segments.len(), 1);
    assert_eq!(run.segments[0].name, "A");
    assert_eq!(run.segments[0].best_segment_time.real_time, secs(10));
    assert_eq!(run.segments[0].best_segment_time.game_time, None);
    assert_eq!(run.attempt_count, 3);
    assert_eq!(run.game_name, "Game");
    assert_eq!(run.category_name, "Any%");
    assert_eq!(run.path, Some("splits.lss".to_string()));
}

#[test]
fn empty_time_text_is_absent_not_zero() {
    let doc = r#"<Run version="1.6.0"><Segments><Segment><Name>A</Name>
<BestSegmentTime><RealTime></RealTime><GameTime/></BestSegmentTime></Segment></Segments></Run>"#;
    let run = read(doc).unwrap();
    assert_eq!(run.segments[0].best_segment_time, Time { real_time: None, game_time: None });
}

#[test]
fn duplicate_segment_history_id_keeps_last() {
    let doc = r#"<Run version="1.6.0"><Segments><Segment><Name>A</Name><SegmentHistory>
<Time id="1"><RealTime>00:00:05</RealTime></Time>
<Time id="2"><RealTime>00:00:06</RealTime></Time>
<Time id="1"><RealTime>00:00:07</RealTime></Time>
</SegmentHistory></Segment></Segments></Run>"#;
    let run = read(doc).unwrap();
    assert_eq!(run.segments[0].segment_history.len(), 2);
    assert_eq!(history_of(&run, 0, 1).unwrap().real_time, secs(7));
    assert_eq!(history_of(&run, 0, 2).unwrap().real_time, secs(6));
}

#[test]
fn old_documents_use_personal_best_split_time() {
    let doc = r#"<Run version="1.2"><Segments><Segment><Name>A</Name>
<SplitTimes><SplitTime name="PB">12</SplitTime></SplitTimes>
<PersonalBestSplitTime>00:01:00</PersonalBestSplitTime>
<BestSegmentTime>00:00:50</BestSegmentTime>
</Segment></Segments></Run>"#;
    let run = read(doc).unwrap();
    let seg = &run.segments[0];
    assert_eq!(seg.personal_best_split_time, Some(Time { real_time: secs(60), game_time: None }));
    assert!(seg.comparisons.is_empty());
    assert!(run.custom_comparisons.is_empty());
    assert_eq!(seg.best_segment_time.real_time, secs(50));
}

#[test]
fn split_times_register_custom_comparisons() {
    let doc = r#"<Run version="1.4.0"><Segments><Segment><Name>A</Name>
<SplitTimes><SplitTime name="PB">00:01:00</SplitTime><SplitTime name="Goal">55.5</SplitTime></SplitTimes>
<PersonalBestSplitTime>00:01:00</PersonalBestSplitTime>
</Segment><Segment><Name>B</Name><SplitTimes><SplitTime name="PB">00:02:00</SplitTime></SplitTimes></Segment></Segments></Run>"#;
    let run = read(doc).unwrap();
    assert_eq!(run.custom_comparisons, vec!["PB".to_string(), "Goal".to_string()]);
    let seg = &run.segments[0];
    assert_eq!(seg.personal_best_split_time, None);
    assert_eq!(seg.comparisons.len(), 2);
    assert_eq!(seg.comparisons[1].name, "Goal");
    assert_eq!(seg.comparisons[1].time.real_time, Some(TimeSpan { nanos: 55_500_000_000 }));
    assert_eq!(run.segments[1].comparisons[0].time.real_time, secs(120));
}

#[test]
fn modern_documents_ignore_run_history() {
    let doc = r#"<Run version="1.5.0"><RunHistory><Time id="9"><RealTime>1</RealTime></Time></RunHistory>
<AttemptHistory><Attempt id="1" started="01/02/2020 03:04:05" isStartedSynced="True" ended="01/02/2020 03:05:05">
<RealTime>00:01:00</RealTime><PauseTime>00:00:02</PauseTime></Attempt></AttemptHistory></Run>"#;
    let run = read(doc).unwrap();
    assert_eq!(run.attempt_history.len(), 1);
    let a = run.attempt_history[0];
    assert_eq!(a.index, 1);
    assert_eq!(a.time.real_time, secs(60));
    assert_eq!(a.pause_time, secs(2));
    let started = a.started.unwrap();
    assert!(started.synced_with_atomic_clock);
    assert_eq!(started.time.nanos, 1_577_934_245 * 1_000_000_000);
    let ended = a.ended.unwrap();
    assert!(!ended.synced_with_atomic_clock);
}

#[test]
fn legacy_run_history_gives_time_only_attempts() {
    let doc = r#"<Run version="1.4.1"><RunHistory><Time id="3"><RealTime>00:00:09</RealTime></Time></RunHistory>
<AttemptHistory><Attempt id="1"/></AttemptHistory></Run>"#;
    let run = read(doc).unwrap();
    assert_eq!(run.attempt_history.len(), 1);
    assert_eq!(run.attempt_history[0].index, 3);
    assert_eq!(run.attempt_history[0].time.real_time, secs(9));
    assert_eq!(run.attempt_history[0].pause_time, None);
    let old = read(r#"<Run><RunHistory><Time id="-2">8</Time></RunHistory></Run>"#).unwrap();
    assert_eq!(old.attempt_history[0].index, -2);
    assert_eq!(old.attempt_history[0].time.real_time, secs(8));
}

#[test]
fn metadata_is_read_from_1_6() {
    let doc = r#"<Run version="1.6.0"><Metadata><Run id="abc"/><Platform usesEmulator="True">PC</Platform>
<Region>EU</Region><Variables><Variable name="x">1</Variable><Variable name="y">2</Variable></Variables>
</Metadata></Run>"#;
    let run = read(doc).unwrap();
    assert_eq!(run.metadata.run_id, "abc");
    assert!(run.metadata.uses_emulator);
    assert_eq!(run.metadata.platform_name, "PC");
    assert_eq!(run.metadata.region_name, "EU");
    assert_eq!(run.metadata.variables.len(), 2);
    assert_eq!(run.metadata.variables[1].name, "y");
    assert_eq!(run.metadata.variables[1].value, "2");
    let old = read(r#"<Run version="1.5"><Metadata><Region>EU</Region></Metadata></Run>"#).unwrap();
    assert_eq!(old.metadata.region_name, "");
}

#[test]
fn malformed_boolean_is_rejected() {
    let doc = r#"<Run version="1.6.0"><Metadata><Platform usesEmulator="Maybe">PC</Platform></Metadata></Run>"#;
    assert_eq!(read(doc).unwrap_err(), ParseError::InvalidBoolean);
}

#[test]
fn missing_id_is_rejected() {
    let doc = r#"<Run version="1.6.0"><Segments><Segment><SegmentHistory><Time><RealTime>1</RealTime></Time></SegmentHistory></Segment></Segments></Run>"#;
    assert_eq!(read(doc).unwrap_err(), ParseError::AttributeNotFound);
    let doc = r#"<Run version="1.6.0"><AttemptHistory><Attempt started="01/02/2020 03:04:05"/></AttemptHistory></Run>"#;
    assert_eq!(read(doc).unwrap_err(), ParseError::AttributeNotFound);
    let doc = r#"<Run version="1.6.0"><Segments><Segment><SplitTimes><SplitTime>1</SplitTime></SplitTimes></Segment></Segments></Run>"#;
    assert_eq!(read(doc).unwrap_err(), ParseError::AttributeNotFound);
}

#[test]
fn short_and_undecodable_icons_are_empty() {
    let bad = "!".repeat(250);
    let doc = format!(
        r#"<Run version="1.6.0"><GameIcon>abc</GameIcon><Segments><Segment><Name>A</Name><Icon>{}</Icon></Segment></Segments></Run>"#,
        bad
    );
    let run = read(&doc).unwrap();
    assert!(run.game_icon.is_empty());
    assert!(run.segments[0].icon.is_empty());
}

#[test]
fn each_error_kind_has_a_cause() {
    assert_eq!(read("<Run><GameName>x</Other></Run>").unwrap_err(), ParseError::Xml);
    assert_eq!(read("<Run><GameName>x").unwrap_err(), ParseError::UnexpectedEndOfInput);
    assert_eq!(read("<Run><GameName><b/></GameName></Run>").unwrap_err(), ParseError::UnexpectedNestedElement);
    assert_eq!(read("<Run><AttemptCount>many</AttemptCount></Run>").unwrap_err(), ParseError::IntegerFormat);
    assert_eq!(read("<Run><Offset>soon</Offset></Run>").unwrap_err(), ParseError::TimeSpanFormat);
    assert_eq!(read(r#"<Run version="1.a"></Run>"#).unwrap_err(), ParseError::IntegerFormat);
    assert_eq!(
        read(r#"<Run version="1.5"><AttemptHistory><Attempt id="1" started="yesterday"/></AttemptHistory></Run>"#).unwrap_err(),
        ParseError::DateFormat
    );
    let mut bytes = b"<Run><GameName>".to_vec();
    bytes.extend_from_slice(&[0xff, 0xfe]);
    bytes.extend_from_slice(b"</GameName></Run>");
    assert_eq!(parse(&bytes, None).unwrap_err(), ParseError::TextEncoding);
}

#[test]
fn offset_is_encoding_aware_and_unknown_tags_are_skipped() {
    let doc = r#"<Run><Offset>-1.5</Offset><AutoSplitterSettings><A><B>x</B></A></AutoSplitterSettings><Unknown/></Run>"#;
    let run = read(doc).unwrap();
    assert_eq!(run.offset, TimeSpan { nanos: -1_500_000_000 });
    let run = read("<Run><Offset></Offset></Run>").unwrap();
    assert_eq!(run.offset, TimeSpan { nanos: 0 });
}

#[test]
fn other_root_element_gives_empty_run() {
    let run = read("<Layout><GameName>x</GameName></Layout>").unwrap();
    assert!(run.segments.is_empty());
    assert_eq!(run.game_name, "");
}

#[test]
fn escapes_are_resolved_when_text_is_read() {
    let run = read(r#"<Run><GameName>a &amp; b</GameName><Metadata/></Run>"#).unwrap();
    assert_eq!(run.game_name, "a & b");
    assert_eq!(read("<Run><GameName>&bogus;</GameName></Run>").unwrap_err(), ParseError::Xml);
    // An unreadable escape in a skipped subtree is never looked at.
    assert!(read("<Run><Unknown>&bogus;</Unknown></Run>").is_ok());
}

#[test]
fn custom_comparisons_match_segment_keys() {
    let doc = r#"<Run version="1.6.0"><Segments>
<Segment><Name>A</Name><SplitTimes><SplitTime name="X"/><SplitTime name="Y"/></SplitTimes></Segment>
<Segment><Name>B</Name><SplitTimes><SplitTime name="Y"/></SplitTimes></Segment>
</Segments></Run>"#;
    let run = read(doc).unwrap();
    assert_eq!(run.custom_comparisons, vec!["X".to_string(), "Y".to_string()]);
    assert_eq!(run.segments[0].comparisons.len(), 2);
    assert_eq!(run.segments[1].comparisons.len(), 1);
}
