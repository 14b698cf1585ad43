use babyreport::aggregate::DayEntry;
use babyreport::fmt::format_duration;
use babyreport::fmt::format_oz;
use babyreport::fmt::format_u64;
use babyreport::fmt::render_sum;
use babyreport::sum::Sum;
use babyreport::window::window_means;

fn zero_sum() -> Sum {
    Sum {
        total_diapers: 0,
        poo_diapers: 0,
        bottle_oz: 0,
        bottle_sessions: 0,
        breast_duration: 0,
        pumping_oz: 0,
        tummy_time_duration: 0,
        max_sleep_duration: 0,
        total_sleep_duration: 0,
    }
}

fn diaper_day(day: i64, total_diapers: u64) -> DayEntry {
    let mut s = zero_sum();
    s.total_diapers = total_diapers;
    DayEntry { day, sum: s }
}

#[test]
fn window_mean_is_integer_division() {
    // Seven entries with diaper totals [2, 3, 1, 4, 2, 0, 5]: the sum is
    // 17 and the count field divides by 7 as integers, so the mean is 2.
    let counts: [u64; 7] = [2, 3, 1, 4, 2, 0, 5];
    let mut entries = Vec::new();
    for (d, &c) in counts.iter().enumerate() {
        entries.push(diaper_day(d as i64, c));
    }
    let windows = window_means(&entries);
    assert_eq!(windows.len(), 1);
    assert_eq!(windows[0].mean.total_diapers, 2);
    assert_eq!(windows[0].day, 6);
}

#[test]
fn window_needs_seven_entries() {
    let mut entries = Vec::new();
    for d in 0..6 {
        entries.push(diaper_day(d, 3));
    }
    let windows = window_means(&entries);
    assert_eq!(windows.len(), 0);
    let empty: Vec<DayEntry> = Vec::new();
    assert_eq!(window_means(&empty).len(), 0);
}

#[test]
fn window_averages_every_field() {
    let mut entries = Vec::new();
    for d in 0..7 {
        let mut s = zero_sum();
        s.total_diapers = 7;
        s.poo_diapers = 14;
        s.bottle_oz = 700;
        s.bottle_sessions = 21;
        s.breast_duration = 70;
        s.pumping_oz = 7;
        s.tummy_time_duration = 140;
        s.max_sleep_duration = 7000;
        s.total_sleep_duration = 7007;
        entries.push(DayEntry { day: d, sum: s });
    }
    let windows = window_means(&entries);
    assert_eq!(windows.len(), 1);
    let m = windows[0].mean;
    assert_eq!(m.total_diapers, 7);
    assert_eq!(m.poo_diapers, 14);
    assert_eq!(m.bottle_oz, 700);
    assert_eq!(m.bottle_sessions, 21);
    assert_eq!(m.breast_duration, 70);
    assert_eq!(m.pumping_oz, 7);
    assert_eq!(m.tummy_time_duration, 140);
    assert_eq!(m.max_sleep_duration, 7000);
    assert_eq!(m.total_sleep_duration, 7007);
}

#[test]
fn duration_tokens() {
    assert_eq!(format_duration(0), "0s");
    assert_eq!(format_duration(59), "59s");
    assert_eq!(format_duration(60), "1m0s");
    assert_eq!(format_duration(61), "1m1s");
    assert_eq!(format_duration(3600), "1h0m0s");
    assert_eq!(format_duration(3661), "1h1m1s");
    assert_eq!(format_duration(86400), "24h0m0s");
}

#[test]
fn decimal_digits() {
    assert_eq!(format_u64(0), "0");
    assert_eq!(format_u64(7), "7");
    assert_eq!(format_u64(17), "17");
    assert_eq!(format_u64(1234567890), "1234567890");
}

#[test]
fn ounce_rendering() {
    assert_eq!(format_oz(0), "0.0");
    assert_eq!(format_oz(350), "3.5");
    assert_eq!(format_oz(157), "1.6");
    assert_eq!(format_oz(154), "1.5");
    assert_eq!(format_oz(1005), "10.1");
}

#[test]
fn report_block_layout() {
    let s = Sum {
        total_diapers: 4,
        poo_diapers: 1,
        bottle_oz: 700,
        bottle_sessions: 2,
        breast_duration: 900,
        pumping_oz: 425,
        tummy_time_duration: 120,
        max_sleep_duration: 7200,
        total_sleep_duration: 12600,
    };
    let expected = "Total Diapers: 4\n\
                    Poo Diapers: 1\n\
                    Bottle: 7.0 oz (3.5 oz per session)\n\
                    Bottle Sessions: 2\n\
                    Breast Feeding: 15m0s\n\
                    Pumping: 4.3 oz\n\
                    Tummy Time: 2m0s\n\
                    Max Sleep: 2h0m0s\n\
                    Total Sleep: 3h30m0s\n";
    assert_eq!(render_sum(&s), expected);
}

#[test]
fn report_block_without_sessions() {
    let mut s = zero_sum();
    s.bottle_oz = 300;
    let text = render_sum(&s);
    assert!(text.contains("Bottle: 3.0 oz (n/a oz per session)\n"));
    assert!(text.contains("Total Sleep: 0s\n"));
}
