use nginx_prometheus_exporter::ingest::{LineContent, LogEntry};
use nginx_prometheus_exporter::lines::split_lines;
use nginx_prometheus_exporter::metrics::MetricLabels;
use nginx_prometheus_exporter::registry::{
    handle_file_rotation, FileStat, LogFileMeta, MatchedFile,
};
use nginx_prometheus_exporter::render::{metrics_handler, render_metrics, Bound, BucketSet};
use nginx_prometheus_exporter::scrape::{Action, FileEvent};
use nginx_prometheus_exporter::state::MetricsState;

fn exponential_buckets(start: f64, factor: f64, count: usize) -> Vec<f64> {
    let mut buckets = Vec::with_capacity(count);
    let mut current = start;
    for _ in 0..count {
        buckets.push(current);
        current *= factor;
    }
    buckets
}

fn default_buckets() -> BucketSet {
    let bounds = exponential_buckets(0.005, 2.0, 10)
        .iter()
        .map(|b| Bound { bits: b.to_bits(), text: format!("{}", b) })
        .collect();
    BucketSet::new(bounds).unwrap()
}

fn sums(state: &MetricsState) -> Vec<String> {
    let mut texts = Vec::new();
    for i in 0..state.series_count() {
        let sum: f64 = state.series_samples(i).iter().map(|b| f64::from_bits(*b)).sum();
        texts.push(format!("{}", sum));
    }
    texts
}

fn entry(method: &str, url: &str, host: &str, status: &str, duration: &str) -> LineContent {
    LineContent::Entry(LogEntry {
        method: method.to_string(),
        url: url.to_string(),
        host: host.to_string(),
        status_code: status.to_string(),
        duration: duration.parse::<f64>().ok().map(|d| d.to_bits()),
    })
}

fn matched(path: &str, inode: u64) -> MatchedFile {
    MatchedFile { path: path.as_bytes().to_vec(), name: path.to_string(), inode: Some(inode) }
}

fn matched_without_inode(path: &str) -> MatchedFile {
    MatchedFile { path: path.as_bytes().to_vec(), name: path.to_string(), inode: None }
}

fn watching(path: &str, inode: u64) -> MetricsState {
    let mut state = MetricsState::new("/var/log/nginx/*.log".to_string());
    state.update_files_map(&vec![matched(path, inode)]);
    state
}

const LINE: &[u8] = b"{\"http\":{\"response\":{\"status_code\":\"200\"}},\"nginx\":{\"access\":{\"method\":\"GET\",\"url\":\"/x\",\"host\":\"h\"},\"time\":{\"request\":\"0.02\"}}}\n";

#[test]
fn new_state_is_empty() {
    let state = MetricsState::new("/tmp/*.log".to_string());
    assert_eq!(state.pattern(), "/tmp/*.log");
    assert_eq!(state.file_count(), 0);
    assert_eq!(state.series_count(), 0);
    assert!(!state.is_watched(&b"/tmp/a.log".to_vec()));
}

#[test]
fn refresh_adds_new_paths_at_offset_zero() {
    let mut state = MetricsState::new("p".to_string());
    state.update_files_map(&vec![matched("/a.log", 11), matched("/b.log", 12)]);
    assert_eq!(state.file_count(), 2);
    assert_eq!(state.file_path(0), b"/a.log");
    assert_eq!(state.file_name(0), "/a.log");
    assert_eq!(state.file_meta(0), LogFileMeta { file_position: 0, inode: 11 });
    assert_eq!(state.file_path(1), b"/b.log");
    assert_eq!(state.file_name(1), "/b.log");
    assert_eq!(state.file_meta(1), LogFileMeta { file_position: 0, inode: 12 });
    assert!(state.is_watched(&b"/a.log".to_vec()));
    assert!(!state.is_watched(&b"/c.log".to_vec()));
}

#[test]
fn refresh_keeps_watched_files_as_they_are() {
    let mut state = watching("/a.log", 11);
    state.read_new_entries(0, b"\n\n", &vec![LineContent::Malformed, LineContent::Malformed]).unwrap();
    assert_eq!(state.file_meta(0).file_position, 2);
    state.update_files_map(&vec![matched("/0.log", 5), matched("/a.log", 99)]);
    assert_eq!(state.file_count(), 2);
    assert_eq!(state.file_path(0), b"/a.log");
    assert_eq!(state.file_name(0), "/a.log");
    assert_eq!(state.file_meta(0), LogFileMeta { file_position: 2, inode: 11 });
    assert_eq!(state.file_path(1), b"/0.log");
    assert_eq!(state.file_name(1), "/0.log");
    assert_eq!(state.file_meta(1), LogFileMeta { file_position: 0, inode: 5 });
}

#[test]
fn refresh_forgets_unmatched_paths_and_their_offsets() {
    let mut state = watching("/a.log", 11);
    state.read_new_entries(0, b"\n", &vec![LineContent::Malformed]).unwrap();
    assert_eq!(state.file_meta(0).file_position, 1);
    state.update_files_map(&vec![]);
    assert_eq!(state.file_count(), 0);
    state.update_files_map(&vec![matched("/a.log", 11)]);
    assert_eq!(state.file_meta(0), LogFileMeta { file_position: 0, inode: 11 });
}

#[test]
fn refresh_watches_a_path_matched_twice_once() {
    let mut state = MetricsState::new("p".to_string());
    state.update_files_map(&vec![matched("/a.log", 1), matched("/a.log", 2)]);
    assert_eq!(state.file_count(), 1);
    assert_eq!(state.file_meta(0).inode, 1);
}

#[test]
fn replaced_file_is_read_from_the_start() {
    let mut meta = LogFileMeta { file_position: 120, inode: 7 };
    let result = handle_file_rotation(&Ok(FileStat { inode: 8, len: 500 }), &mut meta);
    assert_eq!(result, Ok(()));
    assert_eq!(meta, LogFileMeta { file_position: 0, inode: 8 });
}

#[test]
fn truncated_file_is_read_from_the_start() {
    let mut meta = LogFileMeta { file_position: 120, inode: 7 };
    let result = handle_file_rotation(&Ok(FileStat { inode: 7, len: 119 }), &mut meta);
    assert_eq!(result, Ok(()));
    assert_eq!(meta, LogFileMeta { file_position: 0, inode: 7 });
}

#[test]
fn grown_or_unchanged_file_keeps_its_offset() {
    let mut meta = LogFileMeta { file_position: 120, inode: 7 };
    assert_eq!(handle_file_rotation(&Ok(FileStat { inode: 7, len: 120 }), &mut meta), Ok(()));
    assert_eq!(meta, LogFileMeta { file_position: 120, inode: 7 });
    assert_eq!(handle_file_rotation(&Ok(FileStat { inode: 7, len: 4000 }), &mut meta), Ok(()));
    assert_eq!(meta, LogFileMeta { file_position: 120, inode: 7 });
}

#[test]
fn failed_stat_is_no_rotation() {
    let mut meta = LogFileMeta { file_position: 120, inode: 7 };
    let result = handle_file_rotation(&Err("No such file or directory (os error 2)".to_string()), &mut meta);
    assert_eq!(
        result,
        Err("Failed to get file metadata: No such file or directory (os error 2)".to_string())
    );
    assert_eq!(meta, LogFileMeta { file_position: 120, inode: 7 });
}

#[test]
fn check_rotation_resets_only_the_file_checked() {
    let mut state = MetricsState::new("p".to_string());
    state.update_files_map(&vec![matched("/a.log", 1), matched("/b.log", 2)]);
    state.read_new_entries(0, b"\n", &vec![LineContent::Malformed]).unwrap();
    state.read_new_entries(1, b"\n\n", &vec![LineContent::Malformed, LineContent::Malformed]).unwrap();
    assert_eq!(state.check_rotation(1, &Ok(FileStat { inode: 3, len: 10 })), Ok(()));
    assert_eq!(state.file_meta(0), LogFileMeta { file_position: 1, inode: 1 });
    assert_eq!(state.file_meta(1), LogFileMeta { file_position: 0, inode: 3 });
    assert!(state.check_rotation(0, &Err("gone".to_string())).is_err());
    assert_eq!(state.file_meta(0), LogFileMeta { file_position: 1, inode: 1 });
}

#[test]
fn one_line_gives_one_sample() {
    let mut state = watching("/a.log", 1);
    let contents = vec![entry("GET", "/x", "h", "200", "0.02")];
    assert_eq!(split_lines(LINE).len(), 1);
    assert_eq!(state.read_new_entries(0, LINE, &contents), Ok(()));
    assert_eq!(state.file_meta(0).file_position, LINE.len() as u64);
    assert_eq!(state.series_count(), 1);
    let labels = state.series_labels(0);
    assert_eq!(labels.method, "GET");
    assert_eq!(labels.path, "/x");
    assert_eq!(labels.status_code, "2xx");
    assert_eq!(labels.host, "h");
    assert_eq!(state.series_samples(0), &vec![0.02f64.to_bits()]);
    let text = render_metrics(&state, &default_buckets(), &sums(&state));
    let expected = "# HELP nginx_http_request_duration_seconds Request duration in seconds\n\
# TYPE nginx_http_request_duration_seconds histogram\n\
nginx_http_request_duration_seconds_bucket{method=\"GET\",path=\"/x\",status_code=\"2xx\",host=\"h\",le=\"0.005\"} 0\n\
nginx_http_request_duration_seconds_bucket{method=\"GET\",path=\"/x\",status_code=\"2xx\",host=\"h\",le=\"0.01\"} 0\n\
nginx_http_request_duration_seconds_bucket{method=\"GET\",path=\"/x\",status_code=\"2xx\",host=\"h\",le=\"0.02\"} 1\n\
nginx_http_request_duration_seconds_bucket{method=\"GET\",path=\"/x\",status_code=\"2xx\",host=\"h\",le=\"0.04\"} 1\n\
nginx_http_request_duration_seconds_bucket{method=\"GET\",path=\"/x\",status_code=\"2xx\",host=\"h\",le=\"0.08\"} 1\n\
nginx_http_request_duration_seconds_bucket{method=\"GET\",path=\"/x\",status_code=\"2xx\",host=\"h\",le=\"0.16\"} 1\n\
nginx_http_request_duration_seconds_bucket{method=\"GET\",path=\"/x\",status_code=\"2xx\",host=\"h\",le=\"0.32\"} 1\n\
nginx_http_request_duration_seconds_bucket{method=\"GET\",path=\"/x\",status_code=\"2xx\",host=\"h\",le=\"0.64\"} 1\n\
nginx_http_request_duration_seconds_bucket{method=\"GET\",path=\"/x\",status_code=\"2xx\",host=\"h\",le=\"1.28\"} 1\n\
nginx_http_request_duration_seconds_bucket{method=\"GET\",path=\"/x\",status_code=\"2xx\",host=\"h\",le=\"2.56\"} 1\n\
nginx_http_request_duration_seconds_bucket{method=\"GET\",path=\"/x\",status_code=\"2xx\",host=\"h\",le=\"+Inf\"} 1\n\
nginx_http_request_duration_seconds_sum{method=\"GET\",path=\"/x\",status_code=\"2xx\",host=\"h\"} 0.02\n\
nginx_http_request_duration_seconds_count{method=\"GET\",path=\"/x\",status_code=\"2xx\",host=\"h\"} 1";
    assert_eq!(text, expected);
}

#[test]
fn invalid_status_code_fails_the_scrape_and_adds_nothing() {
    let mut state = watching("/a.log", 1);
    let chunk = b"first\nsecond\nthird\n";
    let contents = vec![
        entry("GET", "/x", "h", "200", "0.5"),
        entry("GET", "/x", "h", "abc", "0.02"),
        entry("GET", "/y", "h", "200", "0.02"),
    ];
    let result = state.read_new_entries(0, chunk, &contents);
    assert_eq!(
        result,
        Err("Failed to parse status_code. Error: invalid digit found in string".to_string())
    );
    assert_eq!(state.series_count(), 1);
    assert_eq!(state.series_samples(0), &vec![0.5f64.to_bits()]);
    assert_eq!(state.file_meta(0).file_position, 13);
    let response = metrics_handler(&state, &result, &default_buckets(), &sums(&state));
    assert_eq!(response.0, 500);
    assert_eq!(
        response.1,
        "# Error: Failed to parse status_code. Error: invalid digit found in string\n"
    );
}

#[test]
fn invalid_status_code_alone_adds_no_sample_for_any_key() {
    let mut state = watching("/a.log", 1);
    let result = state.read_new_entries(0, b"line\n", &vec![entry("GET", "/x", "h", "abc", "0.02")]);
    assert!(result.is_err());
    assert_eq!(state.series_count(), 0);
    assert_eq!(state.file_meta(0).file_position, 5);
    assert_eq!(state.read_new_entries(0, b"", &vec![]), Ok(()));
    assert_eq!(state.series_count(), 0);
    assert_eq!(state.file_meta(0).file_position, 5);
}

#[test]
fn status_code_out_of_range_fails_the_scrape() {
    let mut state = watching("/a.log", 1);
    let result = state.read_new_entries(0, b"line\n", &vec![entry("GET", "/x", "h", "600", "0.02")]);
    assert_eq!(result, Err("Unknown status code".to_string()));
    assert_eq!(state.series_count(), 0);
}

#[test]
fn duration_that_is_no_number_drops_the_line_silently() {
    let mut state = watching("/a.log", 1);
    let chunk = b"first\nsecond\n";
    let contents = vec![
        entry("GET", "/x", "h", "200", "not-a-number"),
        entry("GET", "/x", "h", "abc", "not-a-number"),
    ];
    assert_eq!(state.read_new_entries(0, chunk, &contents), Ok(()));
    assert_eq!(state.series_count(), 0);
    assert_eq!(state.file_meta(0).file_position, chunk.len() as u64);
    let response = metrics_handler(&state, &Ok(()), &default_buckets(), &sums(&state));
    assert_eq!(response.0, 200);
    assert_eq!(
        response.1,
        "# HELP nginx_http_request_duration_seconds Request duration in seconds\n# TYPE nginx_http_request_duration_seconds histogram"
    );
}

#[test]
fn malformed_and_blank_lines_are_passed_over() {
    let mut state = watching("/a.log", 1);
    let chunk = b"{broken\n   \r\n\nline\n";
    let contents = vec![
        LineContent::Malformed,
        LineContent::Unreadable,
        entry("GET", "/x", "h", "abc", "1"),
        entry("POST", "/y", "h2", "503", "1.5"),
    ];
    assert_eq!(state.read_new_entries(0, chunk, &contents), Ok(()));
    assert_eq!(state.file_meta(0).file_position, chunk.len() as u64);
    assert_eq!(state.series_count(), 1);
    assert_eq!(state.series_labels(0).status_code, "5xx");
    assert_eq!(state.series_samples(0), &vec![1.5f64.to_bits()]);
}

#[test]
fn unreadable_line_fails_the_scrape() {
    let mut state = watching("/a.log", 1);
    let chunk = b"ok\n\xff\xfe\n";
    let contents = vec![entry("GET", "/x", "h", "200", "1"), LineContent::Unreadable];
    assert_eq!(
        state.read_new_entries(0, chunk, &contents),
        Err("Failed to read line: stream did not contain valid UTF-8".to_string())
    );
    assert_eq!(state.file_meta(0).file_position, 6);
    assert_eq!(state.series_count(), 1);
}

#[test]
fn partial_last_line_is_left_for_later() {
    let mut state = watching("/a.log", 1);
    let chunk = b"first\nsec";
    assert_eq!(state.read_new_entries(0, chunk, &vec![entry("GET", "/x", "h", "200", "1")]), Ok(()));
    assert_eq!(state.file_meta(0).file_position, 6);
    let rest = b"second\n";
    assert_eq!(state.read_new_entries(0, rest, &vec![entry("GET", "/x", "h", "200", "2")]), Ok(()));
    assert_eq!(state.file_meta(0).file_position, 13);
    assert_eq!(state.series_samples(0), &vec![1f64.to_bits(), 2f64.to_bits()]);
}

#[test]
fn offset_reaches_the_end_of_a_file_of_whole_lines() {
    let mut state = watching("/a.log", 1);
    let chunk = b"a\nbb\n\nccc\n";
    let contents = vec![
        entry("GET", "/x", "h", "200", "1"),
        LineContent::Malformed,
        LineContent::Malformed,
        entry("GET", "/x", "h", "404", "1"),
    ];
    assert_eq!(state.read_new_entries(0, chunk, &contents), Ok(()));
    assert_eq!(state.file_meta(0).file_position, chunk.len() as u64);
    assert_eq!(state.read_new_entries(0, b"", &vec![]), Ok(()));
    assert_eq!(state.file_meta(0).file_position, chunk.len() as u64);
}

#[test]
fn scraping_again_without_new_bytes_gives_the_same_text() {
    let mut state = watching("/a.log", 1);
    let file = b"a\nb\nc\npartial";
    let contents = vec![
        entry("GET", "/x", "h", "200", "0.1"),
        entry("GET", "/x", "h", "200", "0.2"),
        entry("PUT", "/z", "h", "301", "7"),
    ];
    let first = state.read_new_entries(0, file, &contents);
    let text = metrics_handler(&state, &first, &default_buckets(), &sums(&state));
    let offset = state.file_meta(0).file_position as usize;
    let rest = &file[offset..];
    assert_eq!(split_lines(rest).len(), 0);
    let second = state.read_new_entries(0, rest, &vec![]);
    let again = metrics_handler(&state, &second, &default_buckets(), &sums(&state));
    assert_eq!(text, again);
    assert_eq!(state.file_meta(0).file_position as usize, offset);
}

#[test]
fn scraping_after_a_failure_reads_on_behind_the_bad_line() {
    let mut state = watching("/a.log", 1);
    let file = b"a\nb\nc\n";
    let contents = vec![
        entry("GET", "/x", "h", "200", "0.1"),
        entry("GET", "/x", "h", "", "0.2"),
        entry("PUT", "/z", "h", "301", "7"),
    ];
    let first = state.read_new_entries(0, file, &contents);
    let text = metrics_handler(&state, &first, &default_buckets(), &sums(&state));
    assert_eq!(text.0, 500);
    assert_eq!(
        text.1,
        "# Error: Failed to parse status_code. Error: cannot parse integer from empty string\n"
    );
    let offset = state.file_meta(0).file_position as usize;
    assert_eq!(offset, 4);
    assert_eq!(state.series_count(), 1);
    assert_eq!(state.series_samples(0).len(), 1);
    let second = state.read_new_entries(0, &file[offset..], &contents[2..].to_vec_entries());
    assert_eq!(second, Ok(()));
    assert_eq!(state.file_meta(0).file_position as usize, file.len());
    assert_eq!(state.series_count(), 2);
    assert_eq!(state.series_samples(0), &vec![0.1f64.to_bits()]);
    assert_eq!(state.series_samples(1), &vec![7f64.to_bits()]);
    let again = metrics_handler(&state, &second, &default_buckets(), &sums(&state));
    assert_eq!(again.0, 200);
}

#[test]
fn scraping_after_a_failure_in_the_last_line_is_not_affected() {
    let mut state = watching("/a.log", 1);
    let file = b"a\nb\n";
    let contents = vec![
        entry("GET", "/x", "h", "200", "0.1"),
        entry("GET", "/x", "h", "abc", "0.2"),
    ];
    assert!(state.read_new_entries(0, file, &contents).is_err());
    let offset = state.file_meta(0).file_position as usize;
    assert_eq!(offset, file.len());
    let second = state.read_new_entries(0, &file[offset..], &vec![]);
    assert_eq!(second, Ok(()));
    assert_eq!(state.series_count(), 1);
    assert_eq!(state.series_samples(0), &vec![0.1f64.to_bits()]);
    let answer = metrics_handler(&state, &second, &default_buckets(), &sums(&state));
    assert_eq!(answer.0, 200);
    let third = state.read_new_entries(0, b"", &vec![]);
    assert_eq!(metrics_handler(&state, &third, &default_buckets(), &sums(&state)), answer);
}

trait ToVecEntries {
    fn to_vec_entries(&self) -> Vec<LineContent>;
}

impl ToVecEntries for [LineContent] {
    fn to_vec_entries(&self) -> Vec<LineContent> {
        self.iter()
            .map(|c| match c {
                LineContent::Unreadable => LineContent::Unreadable,
                LineContent::Malformed => LineContent::Malformed,
                LineContent::Entry(e) => LineContent::Entry(LogEntry {
                    method: e.method.clone(),
                    url: e.url.clone(),
                    host: e.host.clone(),
                    status_code: e.status_code.clone(),
                    duration: e.duration,
                }),
            })
            .collect()
    }
}

#[test]
fn record_groups_samples_by_key_in_order_of_first_sight() {
    let mut state = MetricsState::new("p".to_string());
    let key = |m: &str, s: &str| MetricLabels {
        method: m.to_string(),
        path: "/".to_string(),
        status_code: s.to_string(),
        host: "h".to_string(),
    };
    state.record(key("GET", "2xx"), 1);
    state.record(key("GET", "5xx"), 2);
    state.record(key("GET", "2xx"), 3);
    state.record(key("POST", "2xx"), 4);
    state.record(key("GET", "5xx"), 5);
    assert_eq!(state.series_count(), 3);
    assert_eq!(state.series_samples(0), &vec![1, 3]);
    assert_eq!(state.series_samples(1), &vec![2, 5]);
    assert_eq!(state.series_samples(2), &vec![4]);
    assert!(state.series_labels(1).same(&key("GET", "5xx")));
    assert!(!state.series_labels(1).same(&key("GET", "2xx")));
    assert!(state.series_labels(2).duplicate().same(&key("POST", "2xx")));
}

#[test]
fn bucket_set_wants_ascending_numbers() {
    let bound = |b: f64| Bound { bits: b.to_bits(), text: format!("{}", b) };
    assert!(BucketSet::new(vec![]).is_some());
    assert!(BucketSet::new(vec![bound(0.1), bound(0.1), bound(0.2)]).is_some());
    assert!(BucketSet::new(vec![bound(-1.0), bound(-0.0), bound(0.0), bound(f64::INFINITY)]).is_some());
    assert!(BucketSet::new(vec![bound(0.2), bound(0.1)]).is_none());
    assert!(BucketSet::new(vec![bound(f64::NAN)]).is_none());
    assert!(BucketSet::new(vec![bound(0.1), bound(f64::NAN)]).is_none());
    let set = BucketSet::new(vec![bound(0.5), bound(1.0)]).unwrap();
    assert_eq!(set.len(), 2);
    assert_eq!(set.bits(), &vec![0.5f64.to_bits(), 1.0f64.to_bits()]);
}

#[test]
fn counts_are_written_in_decimal() {
    let mut state = MetricsState::new("p".to_string());
    for i in 0..1205u64 {
        state.record(
            MetricLabels {
                method: "GET".to_string(),
                path: "/\"q\"".to_string(),
                status_code: "2xx".to_string(),
                host: "".to_string(),
            },
            if i < 10 { 0.25f64.to_bits() } else { 3f64.to_bits() },
        );
    }
    let buckets = BucketSet::new(vec![Bound { bits: 0.5f64.to_bits(), text: "0.5".to_string() }]).unwrap();
    let text = render_metrics(&state, &buckets, &vec!["3587.5".to_string()]);
    let labels = "method=\"GET\",path=\"/\"q\"\",status_code=\"2xx\",host=\"\"";
    let expected = format!(
        "# HELP nginx_http_request_duration_seconds Request duration in seconds\n# TYPE nginx_http_request_duration_seconds histogram\nnginx_http_request_duration_seconds_bucket{{{},le=\"0.5\"}} 10\nnginx_http_request_duration_seconds_bucket{{{},le=\"+Inf\"}} 1205\nnginx_http_request_duration_seconds_sum{{{}}} 3587.5\nnginx_http_request_duration_seconds_count{{{}}} 1205",
        labels, labels, labels, labels
    );
    assert_eq!(text, expected);
}

fn skip_message(action: Action) -> String {
    match action {
        Action::Skip(message) => message,
        other => panic!("not skipped: {:?}", other),
    }
}

fn abort_message(action: Action) -> String {
    match action {
        Action::Abort(message) => message,
        other => panic!("not aborted: {:?}", other),
    }
}

#[test]
fn missing_file_is_skipped_and_keeps_its_state() {
    let mut state = watching("/var/log/a.log", 4);
    state.read_new_entries(0, b"\n", &vec![LineContent::Malformed]).unwrap();
    let action = state.on_file_event(0, &FileEvent::Missing);
    assert_eq!(skip_message(action), "Failed to find file /var/log/a.log. Skipped");
    assert_eq!(state.file_meta(0), LogFileMeta { file_position: 1, inode: 4 });
}

#[test]
fn failed_stat_skips_the_file_and_keeps_its_state() {
    let mut state = watching("/var/log/a.log", 4);
    state.read_new_entries(0, b"\n", &vec![LineContent::Malformed]).unwrap();
    let action = state.on_file_event(0, &FileEvent::Stat(Err("gone".to_string())));
    assert_eq!(skip_message(action), "Failed to get file metadata: gone");
    assert_eq!(state.file_meta(0), LogFileMeta { file_position: 1, inode: 4 });
}

#[test]
fn stat_says_where_to_read_from() {
    let mut state = watching("/var/log/a.log", 4);
    state.read_new_entries(0, b"\n\n\n", &vec![LineContent::Malformed, LineContent::Malformed, LineContent::Malformed]).unwrap();
    match state.on_file_event(0, &FileEvent::Stat(Ok(FileStat { inode: 4, len: 9 }))) {
        Action::ReadFrom(position) => assert_eq!(position, 3),
        other => panic!("{:?}", other),
    }
    match state.on_file_event(0, &FileEvent::Stat(Ok(FileStat { inode: 4, len: 2 }))) {
        Action::ReadFrom(position) => assert_eq!(position, 0),
        other => panic!("{:?}", other),
    }
    assert_eq!(state.file_meta(0), LogFileMeta { file_position: 0, inode: 4 });
    state.read_new_entries(0, b"\n", &vec![LineContent::Malformed]).unwrap();
    match state.on_file_event(0, &FileEvent::Stat(Ok(FileStat { inode: 5, len: 100 }))) {
        Action::ReadFrom(position) => assert_eq!(position, 0),
        other => panic!("{:?}", other),
    }
    assert_eq!(state.file_meta(0), LogFileMeta { file_position: 0, inode: 5 });
}

#[test]
fn file_that_cannot_be_opened_is_skipped() {
    let mut state = watching("/var/log/a.log", 4);
    let action = state.on_file_event(0, &FileEvent::OpenFailed("Permission denied (os error 13)".to_string()));
    assert_eq!(
        skip_message(action),
        "Failed to open log file /var/log/a.log: Permission denied (os error 13)"
    );
    assert_eq!(state.file_meta(0), LogFileMeta { file_position: 0, inode: 4 });
}

#[test]
fn failed_seek_ends_the_scrape() {
    let mut state = watching("/var/log/a.log", 4);
    let action = state.on_file_event(0, &FileEvent::SeekFailed("Illegal seek (os error 29)".to_string()));
    assert_eq!(
        abort_message(action),
        "Failed to seek to position in file /var/log/a.log: Illegal seek (os error 29)"
    );
}

#[test]
fn reading_takes_the_lines_and_goes_on() {
    let mut state = watching("/var/log/a.log", 4);
    let event = FileEvent::Read {
        chunk: b"x\ny".to_vec(),
        contents: vec![entry("GET", "/", "h", "204", "0.25")],
        error: None,
    };
    assert!(matches!(state.on_file_event(0, &event), Action::Next));
    assert_eq!(state.file_meta(0).file_position, 2);
    assert_eq!(state.series_samples(0), &vec![0.25f64.to_bits()]);
}

#[test]
fn read_error_ends_the_scrape_after_the_lines_read() {
    let mut state = watching("/var/log/a.log", 4);
    let event = FileEvent::Read {
        chunk: b"x\n".to_vec(),
        contents: vec![entry("GET", "/", "h", "204", "0.25")],
        error: Some("Input/output error (os error 5)".to_string()),
    };
    let action = state.on_file_event(0, &event);
    assert_eq!(abort_message(action), "Failed to read line: Input/output error (os error 5)");
    assert_eq!(state.file_meta(0).file_position, 2);
    assert_eq!(state.series_count(), 1);
    let bad = FileEvent::Read {
        chunk: b"x\n".to_vec(),
        contents: vec![entry("GET", "/", "h", "700", "0.25")],
        error: Some("Input/output error (os error 5)".to_string()),
    };
    assert_eq!(abort_message(state.on_file_event(0, &bad)), "Unknown status code");
    assert_eq!(state.file_meta(0).file_position, 4);
    assert_eq!(state.series_count(), 1);
}

#[test]
fn new_path_without_inode_is_left_out_until_it_has_one() {
    let mut state = watching("/a.log", 1);
    state.read_new_entries(0, b"\n", &vec![LineContent::Malformed]).unwrap();
    state.update_files_map(&vec![
        matched_without_inode("/gone.log"),
        matched_without_inode("/a.log"),
        matched("/b.log", 2),
    ]);
    assert_eq!(state.file_count(), 2);
    assert_eq!(state.file_path(0), b"/a.log");
    assert_eq!(state.file_meta(0), LogFileMeta { file_position: 1, inode: 1 });
    assert_eq!(state.file_path(1), b"/b.log");
    assert!(!state.is_watched(&b"/gone.log".to_vec()));
    state.update_files_map(&vec![matched("/gone.log", 9), matched("/a.log", 1), matched("/b.log", 2)]);
    assert_eq!(state.file_count(), 3);
    assert_eq!(state.file_path(2), b"/gone.log");
    assert_eq!(state.file_meta(2), LogFileMeta { file_position: 0, inode: 9 });
}

#[test]
fn path_matched_twice_takes_the_first_inode_found() {
    let mut state = MetricsState::new("p".to_string());
    state.update_files_map(&vec![matched_without_inode("/a.log"), matched("/a.log", 7), matched("/a.log", 8)]);
    assert_eq!(state.file_count(), 1);
    assert_eq!(state.file_meta(0).inode, 7);
}

#[test]
fn refreshing_twice_with_the_same_matches_changes_nothing() {
    let mut state = watching("/a.log", 1);
    state.read_new_entries(0, b"\n\n", &vec![LineContent::Malformed, LineContent::Malformed]).unwrap();
    let matches = vec![matched("/b.log", 2), matched_without_inode("/c.log"), matched("/a.log", 5)];
    state.update_files_map(&matches);
    let once: Vec<(Vec<u8>, LogFileMeta)> =
        (0..state.file_count()).map(|i| (state.file_path(i).clone(), state.file_meta(i))).collect();
    state.update_files_map(&matches);
    let twice: Vec<(Vec<u8>, LogFileMeta)> =
        (0..state.file_count()).map(|i| (state.file_path(i).clone(), state.file_meta(i))).collect();
    assert_eq!(once, twice);
    assert_eq!(once.len(), 2);
    assert_eq!(once[0], (b"/a.log".to_vec(), LogFileMeta { file_position: 2, inode: 1 }));
}

#[test]
fn paths_are_told_apart_by_their_bytes() {
    let mut state = MetricsState::new("p".to_string());
    let first = MatchedFile { path: vec![b'/', 0xff, b'a'], name: "/\u{fffd}a".to_string(), inode: Some(1) };
    let second = MatchedFile { path: vec![b'/', 0xfe, b'a'], name: "/\u{fffd}a".to_string(), inode: Some(2) };
    state.update_files_map(&vec![first, second]);
    assert_eq!(state.file_count(), 2);
    assert_eq!(state.file_path(0), &vec![b'/', 0xff, b'a']);
    assert_eq!(state.file_path(1), &vec![b'/', 0xfe, b'a']);
    assert_eq!(state.file_name(1), "/\u{fffd}a");
    assert!(state.is_watched(&vec![b'/', 0xfe, b'a']));
    assert!(!state.is_watched(&vec![b'/', 0xfd, b'a']));
}
