use gaia::fixed::{Fixed, Wide, ONE};
use gaia::metrics::{
    disk_sums, gigabytes_of, mean_of, network_sums, percent_of, DiskReading, HostReadings,
    NetworkReading, SystemMetrics, BYTES_PER_GB, BYTES_PER_MB, HUNDRED_PERCENT,
};

fn wide_units(raw: i128) -> Wide {
    Wide { negative: raw < 0, high: 0, low: raw.unsigned_abs() }
}

fn quiet_host() -> HostReadings {
    HostReadings {
        cpu_usage: vec![],
        total_memory: 0,
        used_memory: 0,
        disks: vec![],
        networks: vec![],
        load_avg_1: Fixed { raw: 0 },
        load_avg_5: Fixed { raw: 0 },
        load_avg_15: Fixed { raw: 0 },
        uptime_secs: 0,
    }
}

#[test]
fn system_metrics_collect() {
    let mut readings = quiet_host();
    readings.cpu_usage = vec![Fixed { raw: 25 * ONE }];
    readings.total_memory = 1_048_576;
    readings.used_memory = 524_288;
    let m = SystemMetrics::from_readings(&readings);
    assert!(m.cpu_count > 0);
    assert!(m.memory_total_mb > 0);
}

#[test]
fn snapshot_of_typical_readings() {
    let readings = HostReadings {
        cpu_usage: vec![
            Fixed { raw: 12_500_000_000_000 },
            Fixed { raw: 37_250_000_000_000 },
            Fixed { raw: 0 },
            Fixed { raw: 100 * ONE },
        ],
        total_memory: 16_793_600_000,
        used_memory: 5_580_000_000,
        disks: vec![
            DiskReading { total_space: 400_000_000_000, available_space: 100_000_000_000 },
            DiskReading { total_space: 100_107_862_016, available_space: 23_456_789_012 },
        ],
        networks: vec![
            NetworkReading { total_received: 1_000, total_transmitted: 20 },
            NetworkReading { total_received: 2_345, total_transmitted: 0 },
            NetworkReading { total_received: 0, total_transmitted: 7 },
        ],
        load_avg_1: Fixed { raw: 1_230_000_000_000 },
        load_avg_5: Fixed { raw: 800_000_000_000 },
        load_avg_15: Fixed { raw: 450_000_000_000 },
        uptime_secs: 86_400,
    };
    let metrics = SystemMetrics::from_readings(&readings);
    assert_eq!(
        metrics,
        SystemMetrics {
            cpu_usage_percent: Fixed { raw: 37_437_500_000_000 },
            cpu_count: 4,
            memory_total_mb: 16_015,
            memory_used_mb: 5_321,
            memory_percent: wide_units(33_225_101_467_374),
            disk_total_gb: wide_units(465_761_741_638_183),
            disk_used_gb: wide_units(350_783_647_041_767),
            disk_percent: wide_units(75_313_967_568_050),
            net_rx_bytes: 3_345,
            net_tx_bytes: 27,
            load_avg_1: Fixed { raw: 1_230_000_000_000 },
            load_avg_5: Fixed { raw: 800_000_000_000 },
            load_avg_15: Fixed { raw: 450_000_000_000 },
            uptime_secs: 86_400,
        }
    );
}

#[test]
fn nothing_reported_reads_zero() {
    let metrics = SystemMetrics::from_readings(&quiet_host());
    assert_eq!(metrics.cpu_usage_percent, Fixed { raw: 0 });
    assert_eq!(metrics.cpu_count, 0);
    assert_eq!(metrics.memory_total_mb, 0);
    assert_eq!(metrics.memory_used_mb, 0);
    assert_eq!(metrics.memory_percent, wide_units(0 as i128));
    assert_eq!(metrics.disk_total_gb, wide_units(0 as i128));
    assert_eq!(metrics.disk_used_gb, wide_units(0 as i128));
    assert_eq!(metrics.disk_percent, wide_units(0 as i128));
    assert_eq!(metrics.net_rx_bytes, 0);
    assert_eq!(metrics.net_tx_bytes, 0);
    assert_eq!(metrics.uptime_secs, 0);
}

#[test]
fn one_missing_category_leaves_the_others() {
    let mut readings = quiet_host();
    readings.total_memory = 8 * BYTES_PER_GB;
    readings.used_memory = 2 * BYTES_PER_GB;
    readings.networks = vec![NetworkReading { total_received: 5, total_transmitted: 6 }];
    readings.uptime_secs = 12;
    readings.load_avg_15 = Fixed { raw: -3 };
    let metrics = SystemMetrics::from_readings(&readings);
    assert_eq!(metrics.memory_total_mb, 8_192);
    assert_eq!(metrics.memory_used_mb, 2_048);
    assert_eq!(metrics.memory_percent, wide_units(25 * ONE as i128));
    assert_eq!(metrics.disk_percent, wide_units(0 as i128));
    assert_eq!(metrics.cpu_usage_percent, Fixed { raw: 0 });
    assert_eq!(metrics.net_rx_bytes, 5);
    assert_eq!(metrics.net_tx_bytes, 6);
    assert_eq!(metrics.uptime_secs, 12);
    assert_eq!(metrics.load_avg_15, Fixed { raw: -3 });
}

#[test]
fn memory_is_counted_in_whole_megabytes() {
    let mut readings = quiet_host();
    readings.total_memory = 3 * BYTES_PER_MB - 1;
    readings.used_memory = BYTES_PER_MB;
    let metrics = SystemMetrics::from_readings(&readings);
    assert_eq!(metrics.memory_total_mb, 2);
    assert_eq!(metrics.memory_used_mb, 1);
    assert_eq!(metrics.memory_percent, wide_units(50 * ONE as i128));
}

#[test]
fn memory_below_one_megabyte_reads_zero_percent() {
    let mut readings = quiet_host();
    readings.total_memory = BYTES_PER_MB - 1;
    readings.used_memory = BYTES_PER_MB - 1;
    let metrics = SystemMetrics::from_readings(&readings);
    assert_eq!(metrics.memory_total_mb, 0);
    assert_eq!(metrics.memory_percent, wide_units(0 as i128));
}

#[test]
fn memory_percent_follows_the_readings_past_a_hundred() {
    let mut readings = quiet_host();
    readings.total_memory = BYTES_PER_MB;
    readings.used_memory = 3 * BYTES_PER_MB;
    let metrics = SystemMetrics::from_readings(&readings);
    assert_eq!(metrics.memory_percent, wide_units(300 * ONE as i128));
    readings.used_memory = u64::MAX;
    let most = SystemMetrics::from_readings(&readings);
    assert_eq!(most.memory_used_mb, 17_592_186_044_415);
    assert_eq!(most.memory_percent, wide_units(1_759_218_604_441_500_000_000_000_000));
}

#[test]
fn disk_used_is_total_less_available_over_all_devices() {
    let mut readings = quiet_host();
    readings.disks = vec![
        DiskReading { total_space: 4 * BYTES_PER_GB, available_space: BYTES_PER_GB },
        DiskReading { total_space: 4 * BYTES_PER_GB, available_space: 4 * BYTES_PER_GB },
        DiskReading { total_space: 0, available_space: 0 },
    ];
    let metrics = SystemMetrics::from_readings(&readings);
    assert_eq!(metrics.disk_total_gb, wide_units(8 * ONE as i128));
    assert_eq!(metrics.disk_used_gb, wide_units(3 * ONE as i128));
    assert_eq!(metrics.disk_percent, wide_units(37_500_000_000_000 as i128));
}

#[test]
fn device_with_more_free_than_total_space_counts_below_zero() {
    let mut readings = quiet_host();
    readings.disks = vec![
        DiskReading { total_space: BYTES_PER_GB, available_space: 3 * BYTES_PER_GB },
    ];
    let metrics = SystemMetrics::from_readings(&readings);
    assert_eq!(metrics.disk_total_gb, wide_units(ONE as i128));
    assert_eq!(metrics.disk_used_gb, wide_units(-2 * ONE as i128));
    assert_eq!(metrics.disk_percent, wide_units(-200 * ONE as i128));
}

#[test]
fn disk_sizes_beyond_the_range_of_a_reading_are_held() {
    let mut readings = quiet_host();
    readings.disks = vec![
        DiskReading { total_space: 10_000_000_000_000_000, available_space: 0 },
    ];
    let large = SystemMetrics::from_readings(&readings);
    assert_eq!(large.disk_total_gb, wide_units(9_313_225_746_154_785_156));
    assert_eq!(large.disk_used_gb, wide_units(9_313_225_746_154_785_156));
    assert_eq!(large.disk_percent, wide_units(100 * ONE as i128));
    let full = DiskReading { total_space: u64::MAX, available_space: 0 };
    readings.disks = vec![full, full, full];
    let most = SystemMetrics::from_readings(&readings);
    assert_eq!(most.disk_total_gb, wide_units(51_539_607_551_999_999_997_206));
    assert_eq!(most.disk_used_gb, wide_units(51_539_607_551_999_999_997_206));
    assert_eq!(most.disk_percent, wide_units(100 * ONE as i128));
}

#[test]
fn counters_are_summed_past_the_largest_reading() {
    let mut readings = quiet_host();
    readings.networks = vec![
        NetworkReading { total_received: u64::MAX - 5, total_transmitted: 1 },
        NetworkReading { total_received: 5, total_transmitted: 2 },
    ];
    let exact = SystemMetrics::from_readings(&readings);
    assert_eq!(exact.net_rx_bytes, 18_446_744_073_709_551_615);
    assert_eq!(exact.net_tx_bytes, 3);
    readings.networks.push(NetworkReading { total_received: 1, total_transmitted: u64::MAX });
    let over = SystemMetrics::from_readings(&readings);
    assert_eq!(over.net_rx_bytes, 18_446_744_073_709_551_616);
    assert_eq!(over.net_tx_bytes, 18_446_744_073_709_551_618);
}

#[test]
fn percentages_of_plausible_readings_are_within_range() {
    let mut readings = quiet_host();
    readings.cpu_usage = (0..16).map(|i| Fixed { raw: i * 6_250_000_000_000 }).collect();
    readings.total_memory = 33_554_432_000;
    readings.used_memory = 33_554_431_999;
    readings.disks = (1..9)
        .map(|i| DiskReading { total_space: i * 999_999_937, available_space: i * 123_456_789 })
        .collect();
    let metrics = SystemMetrics::from_readings(&readings);
    for percent in [metrics.memory_percent, metrics.disk_percent] {
        assert!(!percent.negative && percent.high == 0);
        assert!(percent.low <= HUNDRED_PERCENT as u128);
    }
    assert_eq!(metrics.cpu_usage_percent, Fixed { raw: 46_875_000_000_000 });
    assert!(!metrics.disk_used_gb.negative && !metrics.disk_total_gb.negative);
    assert!(metrics.disk_used_gb.high == 0 && metrics.disk_total_gb.high == 0);
    assert!(metrics.disk_used_gb.low <= metrics.disk_total_gb.low);
    assert!(metrics.memory_used_mb <= metrics.memory_total_mb);
}

#[test]
fn assembling_twice_gives_the_same_snapshot() {
    let mut readings = quiet_host();
    readings.cpu_usage = vec![Fixed { raw: 3 }, Fixed { raw: 4 }];
    readings.disks = vec![DiskReading { total_space: 10, available_space: 3 }];
    assert_eq!(SystemMetrics::from_readings(&readings), SystemMetrics::from_readings(&readings));
}

#[test]
fn mean_rounds_towards_zero() {
    assert_eq!(mean_of(&vec![]), Fixed { raw: 0 });
    assert_eq!(mean_of(&vec![Fixed { raw: 9 }]), Fixed { raw: 9 });
    assert_eq!(mean_of(&vec![Fixed { raw: 3 }, Fixed { raw: 4 }]), Fixed { raw: 3 });
    assert_eq!(mean_of(&vec![Fixed { raw: -3 }, Fixed { raw: -4 }]), Fixed { raw: -3 });
    assert_eq!(mean_of(&vec![Fixed { raw: -9 }, Fixed { raw: 4 }, Fixed { raw: 3 }]), Fixed { raw: 0 });
    assert_eq!(mean_of(&vec![Fixed { raw: i64::MAX }; 3]), Fixed { raw: i64::MAX });
    assert_eq!(mean_of(&vec![Fixed { raw: i64::MIN }; 3]), Fixed { raw: i64::MIN });
    assert_eq!(
        mean_of(&vec![Fixed { raw: i64::MIN }, Fixed { raw: i64::MAX }]),
        Fixed { raw: 0 }
    );
}

#[test]
fn percent_of_part_and_whole() {
    assert_eq!(HUNDRED_PERCENT, 100 * ONE);
    assert_eq!(percent_of(false, 1, 3), wide_units(33_333_333_333_333));
    assert_eq!(percent_of(true, 1, 3), wide_units(-33_333_333_333_333));
    assert_eq!(percent_of(false, 3, 3), wide_units(100 * ONE as i128));
    assert_eq!(percent_of(false, 0, 3), wide_units(0));
    assert_eq!(percent_of(true, 0, 3), wide_units(0));
    assert_eq!(percent_of(false, 7, 0), wide_units(0));
    assert_eq!(percent_of(true, 7, 0), wide_units(0));
    assert_eq!(
        percent_of(false, 1 << 64, 1),
        wide_units(1_844_674_407_370_955_161_600_000_000_000_000)
    );
    assert_eq!(
        percent_of(true, 1 << 64, 1),
        wide_units(-1_844_674_407_370_955_161_600_000_000_000_000)
    );
    assert_eq!(percent_of(false, u128::MAX, u128::MAX), wide_units(100 * ONE as i128));
    assert_eq!(percent_of(false, u128::MAX - 1, u128::MAX), wide_units(99_999_999_999_999));
    assert_eq!(
        percent_of(true, u128::MAX, 1),
        Wide {
            negative: true,
            high: 99_999_999_999_999,
            low: 340_282_366_920_938_463_463_374_507_431_768_211_456,
        }
    );
}

#[test]
fn gigabytes_of_bytes() {
    assert_eq!(BYTES_PER_GB, 1_073_741_824);
    assert_eq!(BYTES_PER_MB, 1_048_576);
    assert_eq!(gigabytes_of(false, 0), wide_units(0));
    assert_eq!(gigabytes_of(true, 0), wide_units(0));
    assert_eq!(gigabytes_of(false, 1), wide_units(931));
    assert_eq!(gigabytes_of(true, 1), wide_units(-931));
    assert_eq!(gigabytes_of(false, 1 << 30), wide_units(ONE as i128));
    assert_eq!(gigabytes_of(true, 1 << 31), wide_units(-2 * ONE as i128));
    assert_eq!(gigabytes_of(false, 500_107_862_016), wide_units(465_761_741_638_183));
    assert_eq!(
        gigabytes_of(false, 10_000_000_000_000_000),
        wide_units(9_313_225_746_154_785_156)
    );
    assert_eq!(
        gigabytes_of(true, u128::MAX),
        Wide {
            negative: true,
            high: 931,
            low: 109_766_453_663_640_889_774_041_825_023_795_133_532,
        }
    );
}

#[test]
fn sums_over_devices_and_interfaces() {
    assert_eq!(disk_sums(&vec![]), (0, 0));
    let full = DiskReading { total_space: u64::MAX, available_space: u64::MAX - 1 };
    assert_eq!(
        disk_sums(&vec![full, full]),
        (2 * (u64::MAX as u128), 2 * (u64::MAX as u128) - 2)
    );
    assert_eq!(network_sums(&vec![]), (0, 0));
    let busy = NetworkReading { total_received: u64::MAX, total_transmitted: 9 };
    assert_eq!(network_sums(&vec![busy, busy, busy]), (3 * (u64::MAX as u128), 27));
}
