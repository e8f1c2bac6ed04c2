use m3u8dl::M3U8;
use m3u8dl::extract::extract;
use m3u8dl::pipeline::{plan_download, Progress, RunPlan};
use m3u8dl::resume::resume_filter;
use m3u8dl::schedule::partition;
use m3u8dl::worker::{segment_urls, worker_deliveries};

fn names(list: &[&str]) -> Vec<String> {
    list.iter().map(|s| s.to_string()).collect()
}

#[test]
fn partition_splits_evenly() {
    let list = names(&["a.ts", "b.ts", "c.ts", "d.ts"]);
    let chunks = partition(&list, 2);
    assert_eq!(chunks, vec![names(&["a.ts", "b.ts"]), names(&["c.ts", "d.ts"])]);
}

#[test]
fn partition_spreads_remainder_from_front() {
    let list = names(&["a.ts", "b.ts", "c.ts", "d.ts", "e.ts"]);
    let chunks = partition(&list, 2);
    assert_eq!(chunks, vec![names(&["a.ts", "b.ts", "c.ts"]), names(&["d.ts", "e.ts"])]);
}

#[test]
fn partition_concatenates_back_to_list() {
    let list = names(&["a.ts", "b.ts", "c.ts", "d.ts", "e.ts", "f.ts", "g.ts"]);
    let chunks = partition(&list, 3);
    let joined: Vec<String> = chunks.into_iter().flatten().collect();
    assert_eq!(joined, list);
}

#[test]
fn partition_clamps_workers_to_list_length() {
    let list = names(&["a.ts", "b.ts", "c.ts"]);
    let chunks = partition(&list, 8);
    assert_eq!(chunks.len(), 3);
    for chunk in &chunks {
        assert_eq!(chunk.len(), 1);
    }
}

#[test]
fn partition_single_worker_takes_all() {
    let list = names(&["a.ts", "b.ts", "c.ts"]);
    let chunks = partition(&list, 1);
    assert_eq!(chunks, vec![list.clone()]);
}

#[test]
fn resume_filter_keeps_absent_in_order() {
    let list = names(&["seg1.ts", "seg2.ts", "seg3.ts"]);
    let kept = resume_filter(&list, &vec![false, true, false]);
    assert_eq!(kept, names(&["seg1.ts", "seg3.ts"]));
}

#[test]
fn resume_filter_is_idempotent() {
    let list = names(&["seg1.ts", "seg2.ts", "seg3.ts"]);
    let once = resume_filter(&list, &vec![false, true, false]);
    let twice = resume_filter(&once, &vec![false, false]);
    assert_eq!(twice, once);
}

#[test]
fn resume_filter_all_present_leaves_nothing() {
    let list = names(&["seg1.ts", "seg2.ts"]);
    let kept = resume_filter(&list, &vec![true, true]);
    assert!(kept.is_empty());
}

#[test]
fn plan_rejects_empty_list() {
    let plan = plan_download(Vec::new(), &Vec::new(), false, 8);
    assert!(matches!(plan, RunPlan::InvalidPlaylist));
}

#[test]
fn plan_reports_done_when_all_segments_present() {
    let list = names(&["seg1.ts", "seg2.ts"]);
    let plan = plan_download(list, &vec![true, true], true, 8);
    assert!(matches!(plan, RunPlan::AlreadyDone));
}

#[test]
fn plan_schedules_only_missing_segments_on_resume() {
    let list = names(&["seg1.ts", "seg2.ts", "seg3.ts"]);
    let plan = plan_download(list, &vec![false, true, false], true, 1);
    match plan {
        RunPlan::Work(chunks) => {
            assert_eq!(chunks, vec![names(&["seg1.ts", "seg3.ts"])]);
        },
        _ => panic!("expected scheduled work"),
    }
}

#[test]
fn plan_ignores_presence_without_resume() {
    let list = names(&["seg1.ts", "seg2.ts"]);
    let plan = plan_download(list, &vec![true, true], false, 1);
    match plan {
        RunPlan::Work(chunks) => {
            assert_eq!(chunks, vec![names(&["seg1.ts", "seg2.ts"])]);
        },
        _ => panic!("expected scheduled work"),
    }
}

#[test]
fn whole_playlist_on_one_worker_delivers_everything() {
    let playlist = "#EXTM3U\nseg1.ts\nseg2.ts\nseg3.ts\n";
    let list = extract(playlist).unwrap();
    let plan = plan_download(list, &vec![false, false, false], false, 1);
    let chunks = match plan {
        RunPlan::Work(chunks) => chunks,
        _ => panic!("expected scheduled work"),
    };
    assert_eq!(chunks.len(), 1);
    let bodies = vec![
        Some(vec![1u8, 2u8]),
        Some(vec![3u8]),
        Some(vec![4u8, 5u8, 6u8]),
    ];
    let (delivered, failed) = worker_deliveries(&chunks[0], &bodies);
    assert_eq!(
        delivered,
        vec![
            ("seg1.ts".to_string(), vec![1u8, 2u8]),
            ("seg2.ts".to_string(), vec![3u8]),
            ("seg3.ts".to_string(), vec![4u8, 5u8, 6u8]),
        ]
    );
    assert!(failed.is_empty());
}

#[test]
fn one_failed_fetch_skips_only_that_segment() {
    let chunk = names(&["seg1.ts", "seg2.ts", "seg3.ts"]);
    let outcomes = vec![Some(vec![1u8]), None, Some(vec![3u8])];
    let (delivered, failed) = worker_deliveries(&chunk, &outcomes);
    assert_eq!(
        delivered,
        vec![("seg1.ts".to_string(), vec![1u8]), ("seg3.ts".to_string(), vec![3u8])]
    );
    assert_eq!(failed, vec!["seg2.ts".to_string()]);
}

#[test]
fn segment_urls_resolve_against_base() {
    let chunk = names(&["seg1.ts", "seg2.ts"]);
    let targets = segment_urls("http://host/", &chunk);
    assert_eq!(
        targets,
        vec![
            ("seg1.ts".to_string(), Some("http://host/seg1.ts".to_string())),
            ("seg2.ts".to_string(), Some("http://host/seg2.ts".to_string())),
        ]
    );
}

#[test]
fn segment_urls_report_unresolvable_base() {
    let chunk = names(&["seg1.ts"]);
    let targets = segment_urls("not a base url", &chunk);
    assert_eq!(targets, vec![("seg1.ts".to_string(), None)]);
}

#[test]
fn check_exist_is_false_without_output_dir() {
    let job = M3U8::new("list.m3u8", "http://host/", "no_such_output_dir", "", true);
    assert!(!job.check_exist("seg1.ts"));
}

#[test]
fn filter_existing_keeps_all_without_output_dir() {
    let job = M3U8::new("list.m3u8", "http://host/", "no_such_output_dir", "", true);
    let list = names(&["seg1.ts", "seg2.ts"]);
    let kept = job.filter_existing(&list);
    assert_eq!(kept, list);
}

#[test]
fn progress_counts_to_total() {
    let mut p = Progress::new(2);
    assert!(!p.is_done());
    p.advance();
    assert!(!p.is_done());
    p.advance();
    assert!(p.is_done());
}

#[test]
fn header_doc_is_optional() {
    let without = M3U8::new("list.m3u8", "http://host/", "out", "", false);
    assert!(!without.has_header_doc());
    let with = M3U8::new("list.m3u8", "http://host/", "out", "h.json", false);
    assert!(with.has_header_doc());
}

#[test]
fn new_job_keeps_its_configuration() {
    let job = M3U8::new("list.m3u8", "http://host/", "out", "h.json", true);
    assert_eq!(job.path, "list.m3u8");
    assert_eq!(job.base_url, "http://host/");
    assert_eq!(job.output, "out");
    assert_eq!(job.header, "h.json");
    assert!(job.resume);
}
