use specs_ultra::order::descending_order;
use specs_ultra::environ::{env_display, env_keys};
use specs_ultra::history::push_history;
use specs_ultra::sensors::{first_with_role, label_has_role_of, sensors_with_role, SensorRole};
use specs_ultra::storage::{health_or_full, health_status, smart_toggle_label, total_bytes, used_bytes};
use specs_ultra::text::{chars_of, parse_u64_chars, position_of, trim_str};

#[test]
fn history_keeps_length_and_newest_last() {
    let mut h = vec![1.0f32, 2.0, 3.0];
    push_history(&mut h, 4.0);
    assert_eq!(h, vec![2.0, 3.0, 4.0]);
    let mut r = vec![0u32; 5];
    let mut reference = r.clone();
    for v in 1..=7u32 {
        push_history(&mut r, v);
        reference.rotate_left(1);
        *reference.last_mut().unwrap() = v;
        assert_eq!(r, reference);
    }
    assert_eq!(r, vec![3, 4, 5, 6, 7]);
}

#[test]
fn sensor_roles() {
    let labels: Vec<String> = ["acpitz temp1", "Core 0", "amdgpu edge", "nvme Composite", "Tctl", "GPU Memory Junction", "k10temp Tdie"]
        .iter()
        .map(|s| s.to_string())
        .collect();
    assert_eq!(first_with_role(&labels, SensorRole::GpuTemp), Some(2));
    assert_eq!(first_with_role(&labels, SensorRole::DiskTemp), Some(3));
    assert_eq!(sensors_with_role(&labels, SensorRole::CpuSensor), vec![1, 4, 6]);
    assert_eq!(sensors_with_role(&labels, SensorRole::GpuSensor), vec![2, 5]);
    assert!(label_has_role_of(SensorRole::GpuSensor, "mem junction"));
    assert!(!label_has_role_of(SensorRole::GpuSensor, "mem"));
    assert_eq!(first_with_role(&vec![], SensorRole::GpuTemp), None);
}

#[test]
fn storage_rules() {
    assert_eq!(used_bytes(100, 40), 60);
    assert_eq!(used_bytes(40, 100), 0);
    assert_eq!(health_status(81), "GOOD");
    assert_eq!(health_status(80), "FAIR");
    assert_eq!(health_status(51), "FAIR");
    assert_eq!(health_status(50), "POOR");
    assert_eq!(health_or_full(None), 100);
    assert_eq!(health_or_full(Some(7)), 7);
    assert_eq!(smart_toggle_label(true), "[ Hide SMART ]");
    assert_eq!(smart_toggle_label(false), "[ Show SMART ]");
    assert_eq!(total_bytes(&vec![1, 2, 3]), 6);
    assert_eq!(total_bytes(&vec![u64::MAX, 2]), 1);
}

#[test]
fn env_values() {
    let keys = env_keys();
    assert_eq!(keys.len(), 22);
    assert_eq!(keys[0], "PATH");
    assert_eq!(keys[21], "PATHEXT");
    assert_eq!(env_display("short"), "short");
    let long = "x".repeat(100);
    assert_eq!(env_display(&long), format!("{}...", "x".repeat(90)));
    let exact = "y".repeat(90);
    assert_eq!(env_display(&exact), exact);
}

#[test]
fn lookup_by_name() {
    let names: Vec<String> = ["sda", "nvme0n1", "sda"].iter().map(|s| s.to_string()).collect();
    assert_eq!(position_of(&names, &"sda".to_string()), Some(0));
    assert_eq!(position_of(&names, &"nvme0n1".to_string()), Some(1));
    assert_eq!(position_of(&names, &"sdb".to_string()), None);
}

#[test]
fn decimal_reads_back() {
    for n in [0u64, 7, 10, 99, 12345, u64::MAX] {
        assert_eq!(parse_u64_chars(&chars_of(&n.to_string())), Some(n));
    }
}

#[test]
fn trim_is_idempotent() {
    for s in ["  a b  ", "\t\n", "x", "\u{3000}y\u{a0}"] {
        let once = trim_str(s);
        assert_eq!(trim_str(&once), once);
        assert!(!once.starts_with(char::is_whitespace));
    }
}

#[test]
fn memory_order_is_the_stable_descending_sort() {
    let mems = vec![5u64, 9, 5, 0, 9, 7, u64::MAX, 5];
    let mut want: Vec<usize> = (0..mems.len()).collect();
    want.sort_by_key(|&i| std::cmp::Reverse(mems[i]));
    assert_eq!(descending_order(&mems), want);
    assert_eq!(descending_order(&mems), vec![6, 1, 4, 5, 0, 2, 7, 3]);
    assert_eq!(descending_order(&vec![]), Vec::<usize>::new());
    let mut state = 3u64;
    for n in 0..60usize {
        let v: Vec<u64> = (0..n)
            .map(|_| {
                state = state.wrapping_mul(6364136223846793005).wrapping_add(1);
                (state >> 60) % 4
            })
            .collect();
        let mut want: Vec<usize> = (0..n).collect();
        want.sort_by_key(|&i| std::cmp::Reverse(v[i]));
        assert_eq!(descending_order(&v), want);
    }
}

#[test]
fn env_value_cut_between_characters() {
    let v = format!("{}{}", "a".repeat(88), "é".repeat(5));
    assert!(v.is_char_boundary(90));
    assert_eq!(env_display(&v), format!("{}é...", "a".repeat(88)));
}
