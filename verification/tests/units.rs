use agent_manip::units::{format_bytes, format_duration, format_kb, format_memory};

#[test]
fn byte_sizes_in_each_unit() {
    assert_eq!(format_bytes(0), "0 B");
    assert_eq!(format_bytes(1023), "1023 B");
    assert_eq!(format_bytes(1024), "1.0 KB");
    assert_eq!(format_bytes(1536), "1.5 KB");
    assert_eq!(format_bytes(5 * 1024 * 1024), "5.0 MB");
    assert_eq!(format_bytes(3 * 1024 * 1024 * 1024), "3.0 GB");
    assert_eq!(format_kb(2048), "2.0 MB");
    assert_eq!(format_memory(512), "512 KB");
    assert_eq!(format_memory(1536), "1.5 MB");
    assert_eq!(format_memory(3 * 1024 * 1024), "3.0 GB");
}

fn float_bytes(bytes: u64) -> String {
    if bytes < 1024 {
        format!("{} B", bytes)
    } else if bytes < 1024 * 1024 {
        format!("{:.1} KB", bytes as f64 / 1024.0)
    } else if bytes < 1024 * 1024 * 1024 {
        format!("{:.1} MB", bytes as f64 / (1024.0 * 1024.0))
    } else {
        format!("{:.1} GB", bytes as f64 / (1024.0 * 1024.0 * 1024.0))
    }
}

fn float_memory(kb: u64) -> String {
    if kb < 1024 {
        format!("{} KB", kb)
    } else if kb < 1024 * 1024 {
        format!("{:.1} MB", kb as f64 / 1024.0)
    } else {
        format!("{:.1} GB", kb as f64 / (1024.0 * 1024.0))
    }
}

#[test]
fn sizes_match_float_formatting() {
    // ties (x.x5 exactly) and their neighbours, in every unit
    let mut samples: Vec<u64> = (0..5000u64).collect();
    for unit in [1024u64, 1024 * 1024, 1024 * 1024 * 1024] {
        for k in 1..2000u64 {
            let base = k * unit / 20;
            for d in [0u64, 1, 2] {
                samples.push(base + d);
                samples.push(base.saturating_sub(d));
            }
        }
    }
    for big in [u64::MAX, u64::MAX - 1, 1u64 << 53, (1u64 << 53) + 1, (1u64 << 60) + 12345] {
        samples.push(big);
    }
    for s in samples {
        assert_eq!(format_bytes(s), float_bytes(s), "bytes {}", s);
        assert_eq!(format_memory(s), float_memory(s), "kb {}", s);
    }
}

#[test]
fn durations_show_two_units() {
    assert_eq!(format_duration(0), "0s");
    assert_eq!(format_duration(59), "59s");
    assert_eq!(format_duration(61), "1m 1s");
    assert_eq!(format_duration(3599), "59m 59s");
    assert_eq!(format_duration(3600 + 120), "1h 2m");
    assert_eq!(format_duration(86400 * 3 + 3600 * 7 + 5), "3d 7h");
}
