use profiler::clock::{mul_div_i64, StopWatch, TimePoint, MAX_FREQUENCY};
use profiler::json::{clean_json_str, push_decimal, push_signed_decimal};
use profiler::lock::{Acquire, ReentrantMutex};
use profiler::scope::ProfileScope;
use profiler::serialize::TraceWriter;
use profiler::session::{ProfileData, ProfileError, ProfileRecord, TagType, Trace};

fn micro_clock() -> StopWatch {
    StopWatch::new(1_000_000).unwrap()
}

fn render(trace: Trace) -> String {
    let mut writer = TraceWriter::new(trace);
    let mut out: Vec<u8> = Vec::new();
    while let Some(chunk) = writer.next_chunk() {
        out.extend_from_slice(&chunk);
    }
    String::from_utf8(out).unwrap()
}

fn event_lines(doc: &str) -> Vec<String> {
    let body = doc
        .strip_prefix("{\"traceEvents\":[\n")
        .unwrap()
        .strip_suffix("\n]\n}\n")
        .unwrap();
    if body.is_empty() {
        return Vec::new();
    }
    body.split(",\n").map(|s| s.to_string()).collect()
}

fn field<'a>(line: &'a str, key: &str) -> &'a str {
    let pat = format!("\"{}\":", key);
    let start = line.find(&pat).unwrap() + pat.len();
    let rest = &line[start..];
    let end = rest.find(|c| c == ',' || c == '}').unwrap();
    &rest[..end]
}

fn name_of(line: &str) -> String {
    let rest = line.strip_prefix("{\"name\":\"").unwrap();
    let mut out = String::new();
    let mut chars = rest.chars();
    while let Some(c) = chars.next() {
        match c {
            '\\' => out.push(chars.next().unwrap()),
            '"' => return out,
            _ => out.push(c),
        }
    }
    panic!("unterminated name");
}

fn rec(time: i64, thread_id: u32, tag: TagType) -> ProfileRecord {
    ProfileRecord { time: TimePoint(time), thread_id, tag }
}

#[test]
fn mul_div_exact_values() {
    assert_eq!(mul_div_i64(7, 1_000_000, 3), 2_333_333);
    assert_eq!(mul_div_i64(-7, 1_000_000, 3), -2_333_333);
    assert_eq!(mul_div_i64(0, 5, 9), 0);
    assert_eq!(mul_div_i64(i64::MAX, 1, 1), i64::MAX);
    assert_eq!(mul_div_i64(9_000_000_000_000_000, 1_000_000, 10_000_000), 900_000_000_000_000);
}

#[test]
fn stopwatch_rejects_bad_frequencies() {
    assert!(StopWatch::new(0).is_none());
    assert!(StopWatch::new(-5).is_none());
    assert!(StopWatch::new(MAX_FREQUENCY + 1).is_none());
    assert_eq!(StopWatch::new(MAX_FREQUENCY).unwrap().frequency(), MAX_FREQUENCY);
}

#[test]
fn stopwatch_converts_ticks_to_micros() {
    let w = StopWatch::new(3).unwrap();
    assert_eq!(w.get_milliseconds(&TimePoint(0), &TimePoint(1)), 333_333);
    assert_eq!(w.get_milliseconds(&TimePoint(10), &TimePoint(4)), 0);
    let ns = StopWatch::new(1_000_000_000).unwrap();
    assert_eq!(ns.get_milliseconds(&TimePoint(1_000), &TimePoint(5_999)), 4);
    let slow = StopWatch::new(1).unwrap();
    assert_eq!(slow.get_milliseconds(&TimePoint(i64::MIN), &TimePoint(i64::MAX)), i64::MAX);
}

#[test]
fn decimal_digits() {
    let mut out = Vec::new();
    push_decimal(&mut out, 0);
    push_decimal(&mut out, 1207);
    push_signed_decimal(&mut out, -45);
    push_signed_decimal(&mut out, i64::MIN);
    assert_eq!(String::from_utf8(out).unwrap(), "01207-45-9223372036854775808");
}

#[test]
fn escape_quotes_and_backslashes() {
    let mut out = Vec::new();
    clean_json_str(b"plain tag", &mut out);
    assert_eq!(out, b"plain tag".to_vec());
    let mut out = Vec::new();
    clean_json_str(br#"a"b\c"#, &mut out);
    assert_eq!(String::from_utf8(out).unwrap(), r#"a\"b\\c"#);
}

#[test]
fn capacity_bounds_retained_records() {
    let mut p = ProfileData::new(micro_clock(), TimePoint(0));
    p.begin(3, TimePoint(10));
    let mut slots = Vec::new();
    for i in 0..5 {
        slots.push(p.add_record(rec(10 + i, 1, TagType::Begin("s"))));
    }
    assert_eq!(slots, vec![Some(0), Some(1), Some(2), None, None]);
    assert_eq!(p.records().len(), 3);
    assert_eq!(p.capacity(), 3);
    let times: Vec<i64> = p.records().iter().map(|r| r.time.0).collect();
    assert_eq!(times, vec![10, 11, 12]);
}

#[test]
fn records_dropped_while_stopped() {
    let mut p = ProfileData::new(micro_clock(), TimePoint(0));
    assert_eq!(p.add_record(rec(1, 1, TagType::End)), None);
    p.profile_begin("x", 1, TimePoint(2));
    assert_eq!(p.records().len(), 0);
}

#[test]
fn start_is_idempotent() {
    let mut p = ProfileData::new(micro_clock(), TimePoint(0));
    p.begin(4, TimePoint(5));
    p.profile_begin("a", 1, TimePoint(6));
    p.begin(100, TimePoint(50));
    assert!(p.is_enabled());
    assert_eq!(p.capacity(), 4);
    assert_eq!(p.start_time(), TimePoint(5));
    assert_eq!(p.records().len(), 1);
}

#[test]
fn stop_never_started_fails() {
    let mut p = ProfileData::new(micro_clock(), TimePoint(0));
    assert!(matches!(p.end(), Err(ProfileError::InvalidState)));
}

#[test]
fn stop_succeeds_once() {
    let mut p = ProfileData::new(micro_clock(), TimePoint(0));
    p.begin(8, TimePoint(0));
    p.profile_begin("a", 1, TimePoint(1));
    let trace = p.end().unwrap();
    assert_eq!(trace.records.len(), 1);
    assert!(!p.is_enabled());
    assert_eq!(p.records().len(), 0);
    assert!(matches!(p.end(), Err(ProfileError::InvalidState)));
    p.begin(2, TimePoint(9));
    assert!(p.is_enabled());
    assert_eq!(p.records().len(), 0);
    assert_eq!(p.start_time(), TimePoint(9));
}

#[test]
fn empty_session_document() {
    let mut p = ProfileData::new(micro_clock(), TimePoint(0));
    p.begin(8, TimePoint(0));
    let doc = render(p.end().unwrap());
    assert_eq!(doc, "{\"traceEvents\":[\n\n]\n}\n");
}

#[test]
fn event_formats() {
    let mut p = ProfileData::new(micro_clock(), TimePoint(100));
    p.begin(8, TimePoint(100));
    p.profile_begin("outer", 7, TimePoint(110));
    p.add_record(rec(120, 7, TagType::Complete("inner", 5)));
    p.add_record(rec(130, 7, TagType::Allocate(64)));
    p.add_record(rec(140, 7, TagType::Deallocate(32)));
    p.profile_end(7, TimePoint(150));
    let doc = render(p.end().unwrap());
    let expected = [
        "{\"traceEvents\":[\n",
        "{\"name\":\"outer\",\"ph\":\"B\",\"ts\":10,\"tid\":0,\"pid\":0},\n",
        "{\"name\":\"inner\",\"ph\":\"X\",\"ts\":20,\"tid\":0,\"pid\":0,\"dur\":5},\n",
        "{\"name\":\"Allocate\",\"ph\":\"O\",\"ts\":30,\"tid\":0,\"pid\":0,\"id\":0,\"args\":{\"snapshot\":{\"amount\":64}}},\n",
        "{\"name\":\"Deallocate\",\"ph\":\"O\",\"ts\":40,\"tid\":0,\"pid\":0,\"id\":1,\"args\":{\"snapshot\":{\"amount\":32}}},\n",
        "{\"name\":\"outer\",\"ph\":\"E\",\"ts\":50,\"tid\":0,\"pid\":0}",
        "\n]\n}\n",
    ]
    .concat();
    assert_eq!(doc, expected);
}

#[test]
fn timestamps_before_start_report_zero() {
    let mut p = ProfileData::new(micro_clock(), TimePoint(0));
    p.begin(2, TimePoint(100));
    p.profile_begin("early", 1, TimePoint(40));
    let doc = render(p.end().unwrap());
    assert_eq!(field(&event_lines(&doc)[0], "ts"), "0");
}

#[test]
fn nested_scopes_pair_on_one_thread() {
    let mut p = ProfileData::new(micro_clock(), TimePoint(0));
    p.begin(16, TimePoint(0));
    let tags = ["a", "b", "c"];
    for (i, t) in tags.iter().enumerate() {
        p.profile_begin(t, 3, TimePoint(i as i64));
    }
    for i in 0..3 {
        p.profile_end(3, TimePoint(10 + i));
    }
    p.profile_begin("d", 3, TimePoint(20));
    p.profile_end(3, TimePoint(21));
    let lines = event_lines(&render(p.end().unwrap()));
    let names: Vec<String> = lines.iter().map(|l| name_of(l)).collect();
    let phases: Vec<&str> = lines.iter().map(|l| field(l, "ph")).collect();
    assert_eq!(names, vec!["a", "b", "c", "c", "b", "a", "d", "d"]);
    assert_eq!(phases, vec!["\"B\"", "\"B\"", "\"B\"", "\"E\"", "\"E\"", "\"E\"", "\"B\"", "\"E\""]);
}

#[test]
fn unmatched_end_is_unknown() {
    let mut p = ProfileData::new(micro_clock(), TimePoint(0));
    p.begin(16, TimePoint(0));
    p.profile_end(1, TimePoint(1));
    p.profile_begin("x", 1, TimePoint(2));
    p.profile_end(1, TimePoint(3));
    p.profile_end(1, TimePoint(4));
    p.profile_begin("y", 2, TimePoint(5));
    let lines = event_lines(&render(p.end().unwrap()));
    assert_eq!(lines.len(), 5);
    let names: Vec<String> = lines.iter().map(|l| name_of(l)).collect();
    assert_eq!(names, vec!["Unknown", "x", "x", "Unknown", "y"]);
    assert_eq!(field(&lines[4], "tid"), "1");
}

#[test]
fn scope_reports_duration() {
    let mut p = ProfileData::new(micro_clock(), TimePoint(0));
    p.begin(4, TimePoint(100));
    let scope = ProfileScope::new(&mut p, "work", 1, TimePoint(150));
    assert_eq!(scope.index, Some(0));
    scope.close(&mut p, TimePoint(400));
    match p.records()[0].tag {
        TagType::Complete(name, d) => {
            assert_eq!(name, "work");
            assert_eq!(d, 250);
        }
        _ => panic!("expected a complete record"),
    }
    let lines = event_lines(&render(p.end().unwrap()));
    assert_eq!(lines[0], "{\"name\":\"work\",\"ph\":\"X\",\"ts\":50,\"tid\":0,\"pid\":0,\"dur\":250}");
}

#[test]
fn scope_duration_rounds_to_clock_resolution() {
    let mut p = ProfileData::new(StopWatch::new(3).unwrap(), TimePoint(0));
    p.begin(4, TimePoint(0));
    let scope = ProfileScope::new(&mut p, "tick", 1, TimePoint(2));
    scope.close(&mut p, TimePoint(4));
    assert!(matches!(p.records()[0].tag, TagType::Complete("tick", 666_666)));
}

#[test]
fn scope_before_start_is_clamped() {
    let mut p = ProfileData::new(micro_clock(), TimePoint(0));
    p.begin(4, TimePoint(100));
    p.add_record(rec(40, 1, TagType::Begin("early")));
    let scope = ProfileScope { index: Some(0), time: TimePoint(40) };
    scope.close(&mut p, TimePoint(130));
    assert!(matches!(p.records()[0].tag, TagType::Complete("early", 30)));
    p.add_record(rec(40, 1, TagType::Begin("late")));
    let scope = ProfileScope { index: Some(1), time: TimePoint(40) };
    scope.close(&mut p, TimePoint(90));
    assert!(matches!(p.records()[1].tag, TagType::Complete("late", 0)));
}

#[test]
fn scope_from_another_session_is_left_alone() {
    let mut p = ProfileData::new(micro_clock(), TimePoint(0));
    p.begin(4, TimePoint(0));
    let scope = ProfileScope::new(&mut p, "old", 1, TimePoint(5));
    let _ = p.end();
    p.begin(4, TimePoint(10));
    p.profile_begin("new", 1, TimePoint(11));
    scope.close(&mut p, TimePoint(20));
    assert!(matches!(p.records()[0].tag, TagType::Begin("new")));
    let dropped = ProfileScope { index: None, time: TimePoint(11) };
    dropped.close(&mut p, TimePoint(30));
    assert!(matches!(p.records()[0].tag, TagType::Begin("new")));
}

#[test]
fn escaped_tag_round_trips() {
    let tag: &'static str = r#"say "hi" \ bye\"#;
    let mut p = ProfileData::new(micro_clock(), TimePoint(0));
    p.begin(4, TimePoint(0));
    p.profile_begin(tag, 1, TimePoint(1));
    let lines = event_lines(&render(p.end().unwrap()));
    assert!(lines[0].starts_with(r#"{"name":"say \"hi\" \\ bye\\","ph":"B""#));
    assert_eq!(name_of(&lines[0]), tag);
}

#[test]
fn two_threads_interleaved() {
    let mut p = ProfileData::new(micro_clock(), TimePoint(0));
    p.begin(32, TimePoint(0));
    let a = ["a1", "a2", "a3"];
    let b = ["b1", "b2", "b3"];
    let mut t: i64 = 0;
    for i in 0..3 {
        t += 1;
        p.profile_begin(b[i], 900, TimePoint(t));
        t += 1;
        p.profile_begin(a[i], 40, TimePoint(t));
    }
    for _ in 0..3 {
        t += 1;
        p.profile_end(40, TimePoint(t));
        t += 1;
        p.profile_end(900, TimePoint(t));
    }
    let lines = event_lines(&render(p.end().unwrap()));
    assert_eq!(lines.len(), 12);
    let mut per_thread: Vec<(String, String, String)> = Vec::new();
    for l in &lines {
        per_thread.push((field(l, "tid").to_string(), field(l, "ph").to_string(), name_of(l)));
    }
    for (tid, _, name) in &per_thread {
        let expect = if name.starts_with('b') { "0" } else { "1" };
        assert_eq!(tid, expect);
    }
    let ends_a: Vec<&str> = per_thread
        .iter()
        .filter(|(tid, ph, _)| tid == "1" && ph == "\"E\"")
        .map(|(_, _, n)| n.as_str())
        .collect();
    let ends_b: Vec<&str> = per_thread
        .iter()
        .filter(|(tid, ph, _)| tid == "0" && ph == "\"E\"")
        .map(|(_, _, n)| n.as_str())
        .collect();
    assert_eq!(ends_a, vec!["a3", "a2", "a1"]);
    assert_eq!(ends_b, vec!["b3", "b2", "b1"]);
}

#[test]
fn reentrant_lock_nests_and_releases() {
    let mut m = ReentrantMutex::new();
    assert_eq!(m.lock(1), Acquire::Granted);
    assert_eq!(m.lock(1), Acquire::Granted);
    assert_eq!(m.lock(2), Acquire::Busy);
    assert_eq!(m.lock_no_recurse(1), Acquire::Recursive);
    assert_eq!(m.lock_no_recurse(2), Acquire::Busy);
    m.unlock(1);
    assert_eq!(m.owner(), Some(1));
    m.unlock(1);
    assert_eq!(m.owner(), None);
    assert_eq!(m.lock_no_recurse(2), Acquire::Granted);
    assert_eq!(m.owner(), Some(2));
}

/// What the allocation interceptor does: a non-reentrant acquisition, then
/// the record, then the release.
fn intercept(lock: &mut ReentrantMutex, p: &mut ProfileData, thread: u32, now: i64, tag: TagType) -> Acquire {
    let got = lock.lock_no_recurse(thread);
    if got == Acquire::Granted {
        p.add_record(rec(now, thread, tag));
        lock.unlock(thread);
    }
    got
}

#[test]
fn allocation_inside_bookkeeping_is_skipped() {
    let mut lock = ReentrantMutex::new();
    let mut p = ProfileData::new(micro_clock(), TimePoint(0));
    p.begin(8, TimePoint(0));
    // Thread 5 is inside the session's own bookkeeping, which allocates.
    assert_eq!(lock.lock(5), Acquire::Granted);
    assert_eq!(intercept(&mut lock, &mut p, 5, 1, TagType::Allocate(128)), Acquire::Recursive);
    assert_eq!(p.records().len(), 0);
    assert_eq!(lock.owner(), Some(5));
    // Another thread has to wait.
    assert_eq!(intercept(&mut lock, &mut p, 6, 1, TagType::Allocate(16)), Acquire::Busy);
    assert_eq!(p.records().len(), 0);
    lock.unlock(5);
    // The original allocation, outside the bookkeeping, is recorded once.
    assert_eq!(intercept(&mut lock, &mut p, 5, 2, TagType::Allocate(128)), Acquire::Granted);
    assert_eq!(p.records().len(), 1);
    assert!(matches!(p.records()[0].tag, TagType::Allocate(128)));
    assert_eq!(lock.owner(), None);
    assert_eq!(intercept(&mut lock, &mut p, 5, 3, TagType::Deallocate(128)), Acquire::Granted);
    assert!(matches!(p.records()[1].tag, TagType::Deallocate(128)));
    assert_eq!(p.records().len(), 2);
}
