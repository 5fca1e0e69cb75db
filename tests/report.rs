use webp_batch::format::{format_count, format_millis, format_size};
use webp_batch::logging::{table_row, Logging};

#[test]
fn sizes_in_bytes() {
    assert_eq!(format_size(0), "0 B");
    assert_eq!(format_size(512), "512 B");
    assert_eq!(format_size(1024), "1024 B");
}

#[test]
fn sizes_in_larger_units() {
    assert_eq!(format_size(1536), "1.50 KB");
    assert_eq!(format_size(1025), "1.00 KB");
    assert_eq!(format_size(50_000), "48.83 KB");
    assert_eq!(format_size(1_048_576), "1024.00 KB");
    assert_eq!(format_size(1_572_864), "1.50 MB");
    assert_eq!(format_size(3 * 1_073_741_824), "3.00 GB");
    assert_eq!(format_size(u64::MAX), "17179869184.00 GB");
}

#[test]
fn size_ties_round_to_even() {
    // 1.125 KB and 1.375 KB sit exactly between two hundredths.
    assert_eq!(format_size(1152), "1.12 KB");
    assert_eq!(format_size(1408), "1.38 KB");
}

#[test]
fn durations() {
    assert_eq!(format_millis(0), "0 ms");
    assert_eq!(format_millis(999), "999 ms");
    assert_eq!(format_millis(1000), "1.0 s");
    assert_eq!(format_millis(1500), "1.5 s");
    assert_eq!(format_millis(59_999), "60.0 s");
    assert_eq!(format_millis(60_000), "1 min 0.0 s");
    assert_eq!(format_millis(125_000), "2 min 5.0 s");
    assert_eq!(format_millis(119_960), "1 min 60.0 s");
    assert_eq!(format_millis(3_600_250), "60 min 0.2 s");
    assert_eq!(format_millis(86_399_950), "1439 min 59.9 s");
    assert_eq!(format_millis(9_007_199_254_740_991), "150119987579 min 1.0 s");
}

#[test]
fn duration_ties_follow_the_binary_value() {
    // 1.05 and 1.35 are stored slightly above, 1.15 slightly below; 1.25 is exact.
    assert_eq!(format_millis(1050), "1.1 s");
    assert_eq!(format_millis(1150), "1.1 s");
    assert_eq!(format_millis(1250), "1.2 s");
    assert_eq!(format_millis(1350), "1.4 s");
    assert_eq!(format_millis(61_050), "1 min 1.0 s");
}

#[test]
fn rows_are_padded_and_joined() {
    let row = table_row(&vec!["ab".to_string(), "longer than four".to_string()], &vec![4, 4]);
    assert_eq!(row, "ab   | longer than four");
    assert_eq!(table_row(&Vec::new(), &Vec::new()), "");
}

#[test]
fn header_and_file_row() {
    assert_eq!(
        Logging::header(),
        format!("{0:<30} | {1:<10} | {2:<10} | {3:<10}", "Name", "Input", "Output", "Duration")
    );
    assert_eq!(
        Logging::file_row(&"img.png".to_string(), 50_000, 512, 1500),
        format!("{0:<30} | {1:<10} | {2:<10} | {3:<10}", "img.png", "48.83 KB", "512 B", "1.5 s")
    );
}

#[test]
fn row_timer_starts_now() {
    let row = Logging::start_row();
    assert!(row.now.elapsed().as_secs() < 20);
}

#[test]
fn counts() {
    assert_eq!(format_count(0), "0");
    assert_eq!(format_count(1_234_567), "1234567");
    assert_eq!(format_count(u64::MAX), "18446744073709551615");
}

#[test]
fn totals_rows() {
    assert_eq!(
        Logging::total_header(),
        format!(
            "{0:<12} | {1:<12} | {2:<12} | {3:<12} | {4:<12}",
            "Input Size", "Output Size", "Reduction", "Duration", "Images Count"
        )
    );
    assert_eq!(
        Logging::total_row(80_000, 50_000, &"37.5 %".to_string(), 250, 3),
        format!(
            "{0:<12} | {1:<12} | {2:<12} | {3:<12} | {4:<12}",
            "78.12 KB", "48.83 KB", "37.5 %", "250 ms", "3"
        )
    );
}
