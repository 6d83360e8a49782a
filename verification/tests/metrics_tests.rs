use airscreen::perf::clock::MAX_DURATION_NANOS;
use airscreen::perf::frame_latency_metrics::FrameLatencyMetrics as TextureLatencyMetrics;
use airscreen::perf::latency::{checked_total_nanos, latency_stats};
use airscreen::perf::tcp_client_metrics::TcpClientMetrics;
use airscreen::perf::tcp_server_metrics::TcpServerMetrics;
use airscreen::perf::FrameLatencyMetrics;

#[test]
fn latency_stats_of_nothing_is_none() {
    assert!(latency_stats(&vec![]).is_none());
}

#[test]
fn latency_stats_count_total_mean_min_max() {
    let st = latency_stats(&vec![30, 10, 20]).unwrap();
    assert_eq!(st.count, 3);
    assert_eq!(st.total_nanos, 60);
    assert_eq!(st.avg_nanos, 20);
    assert_eq!(st.min_nanos, 10);
    assert_eq!(st.max_nanos, 30);
}

#[test]
fn latency_stats_mean_rounds_down() {
    let st = latency_stats(&vec![1, 2]).unwrap();
    assert_eq!(st.avg_nanos, 1);
    assert!(st.min_nanos <= st.avg_nanos && st.avg_nanos <= st.max_nanos);
}

#[test]
fn latency_stats_single_interval() {
    let st = latency_stats(&vec![7]).unwrap();
    assert_eq!((st.count, st.total_nanos, st.avg_nanos, st.min_nanos, st.max_nanos), (1, 7, 7, 7, 7));
}

#[test]
fn checked_total_detects_overflow() {
    assert_eq!(checked_total_nanos(&vec![1, 2, 3]), Some(6));
    assert_eq!(checked_total_nanos(&vec![MAX_DURATION_NANOS]), Some(MAX_DURATION_NANOS));
    assert_eq!(checked_total_nanos(&vec![MAX_DURATION_NANOS, 1]), None);
    assert_eq!(checked_total_nanos(&vec![]), Some(0));
}

#[test]
fn period_latency_first_mark_records_nothing() {
    let mut m = FrameLatencyMetrics::default();
    assert!(m.stats().is_none());
    m.record_period_latency();
    assert!(m.latencies_nanos().is_empty());
    m.record_period_latency();
    assert_eq!(m.latencies_nanos().len(), 1);
    m.record_period_latency();
    assert_eq!(m.latencies_nanos().len(), 2);
}

#[test]
fn period_latency_is_the_time_between_marks() {
    let mut m = FrameLatencyMetrics::default();
    m.record_period_latency_at(1_000);
    m.record_period_latency_at(5_001_000);
    m.record_period_latency_at(2_005_001_003);
    assert_eq!(m.latencies_nanos(), &vec![5_000_000, 2_000_000_003]);
    let st = m.stats().unwrap();
    assert_eq!(st.count, 2);
    assert_eq!(st.total_nanos, 2_005_000_003);
    assert_eq!(st.avg_nanos, 1_002_500_001);
    assert_eq!(st.min_nanos, 5_000_000);
    assert_eq!(st.max_nanos, 2_000_000_003);
}

#[test]
fn period_latency_earlier_mark_counts_as_zero() {
    let mut m = FrameLatencyMetrics::default();
    m.record_period_latency_at(10);
    m.record_period_latency_at(4);
    assert_eq!(m.latencies_nanos(), &vec![0]);
}

#[test]
fn clock_intervals_are_small_and_ordered() {
    let mut m = FrameLatencyMetrics::default();
    m.record_period_latency();
    let start = std::time::Instant::now();
    while start.elapsed() < std::time::Duration::from_millis(2) {}
    m.record_period_latency();
    let d = m.latencies_nanos()[0];
    assert!(d >= 2_000_000);
    assert!(d < 60_000_000_000);
}

#[test]
fn texture_latency_is_the_time_between_marks() {
    let mut m = TextureLatencyMetrics::default();
    assert!(m.stats().is_none());
    m.record_texture_latency_at(100);
    assert!(m.texture_latencies_nanos().is_empty());
    m.record_texture_latency_at(250_100);
    assert_eq!(m.texture_latencies_nanos(), &vec![250_000]);
    m.record_texture_latency();
    assert_eq!(m.texture_latencies_nanos().len(), 2);
}

#[test]
fn tcp_client_metrics_totals() {
    let mut m = TcpClientMetrics::default();
    assert!(m.stats().is_none());
    m.record_full_frame_at(1000, 7);
    assert!(m.send_durations_nanos().is_empty());
    m.record_full_frame_at(500, 40_000_007);
    m.record_full_frame_at(12, 60_000_007);
    assert_eq!(m.total_frames_sent(), 3);
    assert_eq!(m.total_bytes_sent(), 1512);
    assert_eq!(m.send_durations_nanos(), &vec![40_000_000, 20_000_000]);
    let st = m.stats().unwrap();
    assert_eq!(st.total_frames, 3);
    assert_eq!(st.total_bytes, 1512);
    let d = st.durations.unwrap();
    assert_eq!((d.count, d.avg_nanos, d.min_nanos, d.max_nanos), (2, 30_000_000, 20_000_000, 40_000_000));
}

#[test]
fn tcp_client_metrics_one_frame_has_no_intervals() {
    let mut m = TcpClientMetrics::default();
    m.record_full_frame(64);
    let st = m.stats().unwrap();
    assert_eq!(st.total_frames, 1);
    assert_eq!(st.total_bytes, 64);
    assert!(st.durations.is_none());
}

#[test]
fn tcp_client_metrics_without_bytes_report_nothing() {
    let mut m = TcpClientMetrics::default();
    m.record_full_frame(0);
    m.record_full_frame(0);
    assert_eq!(m.total_frames_sent(), 2);
    assert_eq!(m.send_durations_nanos().len(), 1);
    assert!(m.stats().is_none());
}

#[test]
fn tcp_metrics_n_frames_give_n_minus_one_intervals() {
    let mut m = TcpServerMetrics::default();
    for k in 0..5u128 {
        m.record_full_frame_at(1, k * 10);
    }
    assert_eq!(m.total_frames_received(), 5);
    assert_eq!(m.receive_durations_nanos(), &vec![10, 10, 10, 10]);
}

#[test]
fn tcp_server_metrics_totals() {
    let mut m = TcpServerMetrics::default();
    assert!(m.stats().is_none());
    m.record_full_frame_at(2048, 0);
    m.record_full_frame_at(4096, 16_000_000);
    m.record_full_frame(1);
    assert_eq!(m.total_frames_received(), 3);
    assert_eq!(m.total_bytes_received(), 6145);
    assert_eq!(m.receive_durations_nanos().len(), 2);
    assert_eq!(m.receive_durations_nanos()[0], 16_000_000);
    let st = m.stats().unwrap();
    assert_eq!(st.total_frames, 3);
    assert_eq!(st.total_bytes, 6145);
    assert_eq!(st.durations.unwrap().count, 2);
}

#[test]
fn every_gap_between_consecutive_marks_is_recorded() {
    let marks: [u128; 5] = [7, 19, 19, 1_000, 1_234];
    let mut m = FrameLatencyMetrics::default();
    for t in marks {
        m.record_period_latency_at(t);
    }
    assert_eq!(m.latencies_nanos(), &vec![12, 0, 981, 234]);
    let total: u128 = m.latencies_nanos().iter().sum();
    assert_eq!(total, 1_234 - 7);

    let mut tm = TextureLatencyMetrics::default();
    for t in marks {
        tm.record_texture_latency_at(t);
    }
    assert_eq!(tm.texture_latencies_nanos(), &vec![12, 0, 981, 234]);
}
