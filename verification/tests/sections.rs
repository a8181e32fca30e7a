use std::num::NonZeroU32;

use puffin::{GlobalFrameView, GlobalProfiler, ScopeCollection, ScopeDetails, ScopeId, Stream};
use resident_engine::sections::{add_section, collect_sections, reads_safely, sum_sections};

fn stream_of(scopes: &[(ScopeId, i64, i64)]) -> Stream {
    let mut s = Stream::default();
    for &(id, start, stop) in scopes {
        let (offset, _) = s.begin_scope(|| start, id, "");
        s.end_scope(offset, stop);
    }
    s
}

fn id(n: u32) -> ScopeId {
    ScopeId(NonZeroU32::new(n).unwrap())
}

#[test]
fn add_section_sums_same_name() {
    let mut s: Vec<(String, i64)> = Vec::new();
    add_section(&mut s, "acquire".to_string(), 5);
    add_section(&mut s, "ui".to_string(), 7);
    add_section(&mut s, "acquire".to_string(), 10);
    assert_eq!(s, vec![("acquire".to_string(), 15), ("ui".to_string(), 7)]);
}

#[test]
fn add_section_saturates() {
    let mut s: Vec<(String, i64)> = vec![("a".to_string(), i64::MAX - 1)];
    add_section(&mut s, "a".to_string(), 5);
    assert_eq!(s, vec![("a".to_string(), i64::MAX)]);
}

#[test]
fn unknown_ids_are_named_unknown() {
    let collection = ScopeCollection::default();
    let stream = stream_of(&[(id(1), 100, 350), (id(2), 400, 500)]);
    let sections = collect_sections(&collection, &vec![stream.bytes().to_vec()]);
    assert_eq!(sections, vec![("unknown".to_string(), 350)]);
}

#[test]
fn unparsable_streams_add_nothing() {
    let collection = ScopeCollection::default();
    let good = stream_of(&[(id(3), 0, 40)]).bytes().to_vec();
    let bad = vec![b'(', 1, 0];
    let sections = collect_sections(&collection, &vec![bad, good, Vec::new()]);
    assert_eq!(sections, vec![("unknown".to_string(), 40)]);
}

#[test]
fn named_scopes_are_summed_per_name() {
    let view = GlobalFrameView::default();
    let ids = GlobalProfiler::lock().register_user_scopes(&[
        ScopeDetails::from_scope_name("acquire"),
        ScopeDetails::from_scope_name("present"),
    ]);
    let (a, p) = (ids[0], ids[1]);
    let main = stream_of(&[(a, 0, 10), (p, 10, 30), (a, 30, 35)]);
    let worker = stream_of(&[(p, 5, 9)]);
    let info = puffin::StreamInfo::parse(main.clone()).unwrap();
    GlobalProfiler::lock().report_user_scopes(
        puffin::ThreadInfo { start_time_ns: None, name: "main".to_string() },
        &info.as_stream_into_ref(),
    );
    GlobalProfiler::lock().new_frame();
    let frames = view.lock();
    let sections = collect_sections(
        frames.scope_collection(),
        &vec![main.bytes().to_vec(), worker.bytes().to_vec()],
    );
    assert_eq!(
        sections,
        vec![("acquire".to_string(), 15), ("present".to_string(), 24)]
    );
}

#[test]
fn every_scope_is_counted_once() {
    let collection = ScopeCollection::default();
    let a = stream_of(&[(id(1), 0, 10), (id(2), 10, 25)]).bytes().to_vec();
    let b = stream_of(&[(id(4), 3, 9)]).bytes().to_vec();
    let sections = collect_sections(&collection, &vec![a, b]);
    let total: i64 = sections.iter().map(|s| s.1).sum();
    assert_eq!(total, 10 + 15 + 6);
    let mut names: Vec<&str> = sections.iter().map(|s| s.0.as_str()).collect();
    names.dedup();
    assert_eq!(names.len(), sections.len());
}

#[test]
fn sum_sections_keeps_first_occurrence_order() {
    let scopes = vec![
        ("ui".to_string(), 4),
        ("acquire".to_string(), 1),
        ("ui".to_string(), 6),
        ("present".to_string(), 2),
        ("acquire".to_string(), 3),
    ];
    assert_eq!(
        sum_sections(&scopes),
        vec![
            ("ui".to_string(), 10),
            ("acquire".to_string(), 4),
            ("present".to_string(), 2)
        ]
    );
    assert_eq!(sum_sections(&Vec::new()), Vec::<(String, i64)>::new());
}

fn raw_scope(id: u32, start: i64, size: u64, stop: i64) -> Vec<u8> {
    let mut b = vec![b'('];
    b.extend(id.to_le_bytes());
    b.extend(start.to_le_bytes());
    b.push(0);
    b.extend(size.to_le_bytes());
    b.push(b')');
    b.extend(stop.to_le_bytes());
    b
}

#[test]
fn recorded_streams_read_safely() {
    let s = stream_of(&[(id(1), 100, 350), (id(2), 400, 500)]);
    assert!(reads_safely(s.bytes()));
    assert!(reads_safely(&[]));
    assert!(reads_safely(&[b'(', 1, 0]));
}

#[test]
fn overflowing_duration_is_not_safe() {
    let b = raw_scope(1, i64::MIN, 0, i64::MAX);
    assert_eq!(b.len(), 31);
    assert!(!reads_safely(&b));
    assert!(reads_safely(&raw_scope(1, -5, 0, 5)));
}

#[test]
fn overflowing_children_end_is_not_safe() {
    assert!(!reads_safely(&raw_scope(1, 0, u64::MAX - 1, 5)));
    // The unfinished marker is an error for the reader, not an overflow.
    assert!(reads_safely(&raw_scope(1, 0, u64::MAX, 5)));
}

#[test]
fn only_the_scopes_read_before_an_error_count() {
    // A zero scope id ends the read with an error before the overflowing scope.
    let mut b = raw_scope(0, 0, 0, 1);
    b.extend(raw_scope(1, i64::MIN, 0, i64::MAX));
    assert!(reads_safely(&b));
    let mut c = raw_scope(1, 0, 0, 1);
    c.extend(raw_scope(1, i64::MIN, 0, i64::MAX));
    assert!(!reads_safely(&c));
}
