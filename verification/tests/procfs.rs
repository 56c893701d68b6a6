use animaksm::procfs::{
    collect_pfns, entry_pfn, is_blocklisted, list_pids, pagemap_len, pagemap_offset,
    parse_ksm_stat, parse_kb_value, parse_maps_line, proc_path, read_cgroup_procs, read_ksm_stat,
    read_pagemap_pfn, read_pagemap_range, read_process_comm, read_process_maps,
    read_process_status, MapsEntry, MergeCandidate, PagemapEntry, PagemapRange,
};

#[test]
fn test_parse_maps_line() {
    let line = "7f8c40000000-7f8c40021000 rw-p 00000000 00:00 0";
    let entry = parse_maps_line(line).unwrap();
    assert_eq!(entry.start, 0x7f8c40000000);
    assert_eq!(entry.end, 0x7f8c40021000);
    assert!(entry.is_anon_rw());
    assert!(!entry.has_exec());
}

#[test]
fn test_parse_maps_line_file_backed() {
    let line = "7f8c3fe00000-7f8c3fe01000 r--p 00000000 08:01 12345 /usr/lib/libc.so";
    let entry = parse_maps_line(line).unwrap();
    assert!(!entry.is_anon_rw());
}

#[test]
fn test_is_blocklisted() {
    let blocklist = vec!["zramdedup".to_string(), "ksmd".to_string()];
    assert!(is_blocklisted("zramdedup-daemon", &blocklist));
    assert!(is_blocklisted("ksmd", &blocklist));
    assert!(!is_blocklisted("firefox", &blocklist));
}

#[test]
fn test_parse_kb_value() {
    assert_eq!(parse_kb_value("  12345 kB"), 12345);
    assert_eq!(parse_kb_value("0 kB"), 0);
}

#[test]
fn test_parse_kb_value_invalid() {
    // Invalid number → unwrap_or(0)
    assert_eq!(parse_kb_value("not_a_number"), 0);
    assert_eq!(parse_kb_value(""), 0);
}

#[test]
fn test_maps_entry_size() {
    let entry = MapsEntry {
        start: 0x1000,
        end: 0x5000,
        perms: "rw-p".into(),
        offset: 0,
        dev: "00:00".into(),
        inode: 0,
        pathname: String::new(),
    };
    assert_eq!(entry.size(), 0x4000);
}

#[test]
fn test_maps_entry_page_count() {
    let entry = MapsEntry {
        start: 0x1000,
        end: 0x5000,
        perms: "rw-p".into(),
        offset: 0,
        dev: "00:00".into(),
        inode: 0,
        pathname: String::new(),
    };
    assert_eq!(entry.page_count(), 4);
}

#[test]
fn test_maps_entry_page_count_partial() {
    // A 1-byte range still counts as 1 page (floor division)
    let entry = MapsEntry {
        start: 0x1000,
        end: 0x1001,
        perms: "rw-p".into(),
        offset: 0,
        dev: "00:00".into(),
        inode: 0,
        pathname: String::new(),
    };
    assert_eq!(entry.page_count(), 0); // 1/4096 = 0
}

#[test]
fn test_is_anon_rw_true() {
    let entry = MapsEntry {
        start: 0x1000,
        end: 0x2000,
        perms: "rw-p".into(),
        offset: 0,
        dev: "00:00".into(),
        inode: 0,
        pathname: String::new(),
    };
    assert!(entry.is_anon_rw());
}

#[test]
fn test_is_anon_rw_false_shared() {
    let entry = MapsEntry {
        start: 0x1000,
        end: 0x2000,
        perms: "rws-".into(),
        offset: 0,
        dev: "00:00".into(),
        inode: 0,
        pathname: String::new(),
    };
    assert!(!entry.is_anon_rw());
}

#[test]
fn test_is_anon_rw_false_file_backed() {
    let entry = MapsEntry {
        start: 0x1000,
        end: 0x2000,
        perms: "rw-p".into(),
        offset: 0,
        dev: "00:00".into(),
        inode: 12345,
        pathname: "/usr/lib/libc.so".into(),
    };
    assert!(!entry.is_anon_rw());
}

#[test]
fn test_has_exec() {
    let exec_entry = MapsEntry {
        start: 0x1000,
        end: 0x2000,
        perms: "r-xp".into(),
        offset: 0,
        dev: "00:00".into(),
        inode: 0,
        pathname: String::new(),
    };
    assert!(exec_entry.has_exec());

    let no_exec_entry = MapsEntry {
        start: 0x1000,
        end: 0x2000,
        perms: "rw-p".into(),
        offset: 0,
        dev: "00:00".into(),
        inode: 0,
        pathname: String::new(),
    };
    assert!(!no_exec_entry.has_exec());
}

#[test]
fn test_is_special() {
    let vdso = MapsEntry {
        start: 0x1000,
        end: 0x2000,
        perms: "r-xp".into(),
        offset: 0,
        dev: "00:00".into(),
        inode: 0,
        pathname: "[vdso]".into(),
    };
    assert!(vdso.is_special());

    let heap = MapsEntry {
        start: 0x1000,
        end: 0x2000,
        perms: "rw-p".into(),
        offset: 0,
        dev: "00:00".into(),
        inode: 0,
        pathname: "[heap]".into(),
    };
    assert!(heap.is_special());

    let normal = MapsEntry {
        start: 0x1000,
        end: 0x2000,
        perms: "rw-p".into(),
        offset: 0,
        dev: "00:00".into(),
        inode: 0,
        pathname: String::new(),
    };
    assert!(!normal.is_special());
}

#[test]
fn test_parse_maps_line_too_few_parts() {
    assert!(parse_maps_line("").is_none());
    assert!(parse_maps_line("7f8c40000000-7f8c40021000 rw-p 00000000 00:00").is_none());
}

#[test]
fn test_parse_maps_line_bad_range() {
    // range without '-' separator
    assert!(parse_maps_line("invalid rw-p 00000000 00:00 0").is_none());
}

#[test]
fn test_parse_maps_line_file_backed_path() {
    let line = "7f8c3fe00000-7f8c3fe01000 r--p 00000000 08:01 12345 /usr/lib/libc.so";
    let entry = parse_maps_line(line).unwrap();
    assert_eq!(entry.pathname, "/usr/lib/libc.so");
    assert_eq!(entry.inode, 12345);
}

#[test]
fn test_parse_maps_line_path_with_spaces() {
    let line = "7f8c3fe00000-7f8c3fe01000 rw-p 00000000 00:00 0 /path/with spaces (deleted)";
    let entry = parse_maps_line(line).unwrap();
    assert!(entry.pathname.contains("spaces"));
    assert!(entry.pathname.contains("deleted"));
}

#[test]
fn test_parse_maps_line_non_zero_offset() {
    let line = "7f8c40000000-7f8c40001000 rw-p 00001000 00:00 0";
    let entry = parse_maps_line(line).unwrap();
    assert_eq!(entry.offset, 0x1000);
}

#[test]
fn test_parse_maps_line_vvar() {
    let line = "7fff3fe00000-7fff3fe01000 r--p 00000000 00:00 0 [vvar]";
    let entry = parse_maps_line(line).unwrap();
    assert!(entry.is_special());
}

#[test]
fn test_parse_kb_value_large_number() {
    assert_eq!(parse_kb_value("  1048576 kB"), 1048576);
}

#[test]
fn test_parse_ksm_stat_content() {
    let content = "ksm_rmap_items 42\nksm_merging_pages 7\nksm_process_profit 12345\nksm_merge_any 1\nksm_mergeable yes\n";
    let stat = read_ksm_stat(1, Ok(content.to_string())).unwrap();
    assert_eq!(stat.rmap_items, 42);
    assert_eq!(stat.merging_pages, 7);
    assert_eq!(stat.process_profit, 12345);
    assert!(stat.merge_any);
    assert!(stat.mergeable);
}

#[test]
fn test_parse_ksm_stat_unknown_field_skipped() {
    let content = "ksm_unknown_field 99\nksm_rmap_items 5\n";
    let stat = parse_ksm_stat(content);
    assert_eq!(stat.rmap_items, 5);
}

#[test]
fn test_merge_candidate_construction() {
    let mc = MergeCandidate {
        pid: 100,
        process_name: "test_proc".into(),
        start: 0x10000,
        end: 0x20000,
        size_bytes: 0x10000,
        anon_rss_kb: 64,
    };
    assert_eq!(mc.pid, 100);
    assert_eq!(mc.size_bytes, 65536);
    assert_eq!(mc.anon_rss_kb, 64);
}

#[test]
fn pids_are_the_numeric_names() {
    let names = ["1", "self", "42", "4294967295", "4294967296", "-3", "07", ""]
        .iter()
        .map(|s| s.to_string())
        .collect();
    assert_eq!(list_pids(Ok(names)).unwrap(), vec![1, 42, 4294967295, 7]);
    let err = list_pids(Err("denied".into())).unwrap_err();
    assert_eq!(
        err.message(),
        "procfs parse error for PID 0: cannot read /proc: denied"
    );
}

#[test]
fn status_lines_fill_the_status() {
    let content = "Name:\tbrowser \nUmask:\t0022\nVmRSS:\t  2048 kB\nVmAnon:\t 1024 kB\nVmSwap:\t12 kB\n";
    let status = read_process_status(9, Ok(content.to_string())).unwrap();
    assert_eq!(status.pid, 9);
    assert_eq!(status.name, "browser");
    assert_eq!(status.vm_rss_kb, 2048);
    assert_eq!(status.vm_anon_kb, 1024);
    assert_eq!(status.vm_swap_kb, 12);
    let err = read_process_status(9, Err("gone".into())).unwrap_err();
    assert_eq!(
        err.message(),
        "procfs parse error for PID 9: cannot read /proc/9/status: gone"
    );
}

#[test]
fn maps_keep_the_lines_that_can_be_parsed() {
    let content = "1000-2000 rw-p 00000000 00:00 0\nbroken\n3000-4000 r-xp 00000000 08:01 7 /bin/x\r\n";
    let maps = read_process_maps(3, Ok(content.to_string())).unwrap();
    assert_eq!(maps.len(), 2);
    assert_eq!(maps[0].start, 0x1000);
    assert_eq!(maps[1].pathname, "/bin/x");
    assert_eq!(maps[1].dev, "08:01");
    let err = read_process_maps(3, Err("gone".into())).unwrap_err();
    assert_eq!(
        err.message(),
        "procfs parse error for PID 3: cannot read /proc/3/maps: gone"
    );
}

#[test]
fn range_needs_two_hexadecimal_numbers() {
    assert!(parse_maps_line("1000-2000-3000 rw-p 0 00:00 0").is_none());
    assert!(parse_maps_line("1000-zz rw-p 0 00:00 0").is_none());
    let entry = parse_maps_line("a-B rw-p zz 00:00 zz").unwrap();
    assert_eq!((entry.start, entry.end), (10, 11));
    assert_eq!((entry.offset, entry.inode), (0, 0));
}

#[test]
fn ksm_stat_errors_name_the_file() {
    let err = read_ksm_stat(5, Err("gone".into())).unwrap_err();
    assert_eq!(
        err.message(),
        "procfs parse error for PID 5: cannot read /proc/5/ksm_stat: gone"
    );
    let stat = parse_ksm_stat("ksm_process_profit -7\nksm_merge_any no\nksm_rmap_items x\nshort\n");
    assert_eq!(stat.process_profit, -7);
    assert!(!stat.merge_any);
    assert_eq!(stat.rmap_items, 0);
}

#[test]
fn cgroup_processes_are_the_numeric_lines() {
    let pids = read_cgroup_procs("/sys/fs/cgroup/a", Ok(" 7 \nx\n9\n".into())).unwrap();
    assert_eq!(pids, vec![7, 9]);
    let err = read_cgroup_procs("/sys/fs/cgroup/a", Err("gone".into())).unwrap_err();
    assert_eq!(
        err.message(),
        "procfs parse error for PID 0: cannot read /sys/fs/cgroup/a/cgroup.procs: gone"
    );
}

#[test]
fn comm_is_trimmed() {
    assert_eq!(read_process_comm(2, Ok("kthreadd\n".into())).unwrap(), "kthreadd");
    let err = read_process_comm(2, Err("gone".into())).unwrap_err();
    assert_eq!(
        err.message(),
        "procfs parse error for PID 2: cannot read /proc/2/comm: gone"
    );
    assert_eq!(proc_path(77, "mem"), "/proc/77/mem");
}

#[test]
fn page_map_entries_hold_a_frame_number() {
    assert_eq!(entry_pfn(0x8000_0000_0000_1234), Some(0x1234));
    assert_eq!(entry_pfn(0x4000_0000_0000_1234), None);
    assert_eq!(entry_pfn(u64::MAX), Some(0x7F_FFFF_FFFF_FFFF));
    assert_eq!(pagemap_offset(0x5fff), 40);
    assert_eq!(pagemap_len(0x1000, 0x5800), 32);
}

#[test]
fn one_page_map_entry_is_read_in_native_order() {
    let bytes = 0x8000_0000_0000_0042u64.to_ne_bytes();
    assert_eq!(
        read_pagemap_pfn(1, PagemapEntry::Bytes(bytes)).unwrap(),
        Some(0x42)
    );
    let absent = 0x42u64.to_ne_bytes();
    assert_eq!(read_pagemap_pfn(1, PagemapEntry::Bytes(absent)).unwrap(), None);
    assert_eq!(
        read_pagemap_pfn(1, PagemapEntry::OpenFailed("e".into()))
            .unwrap_err()
            .message(),
        "procfs parse error for PID 1: cannot open /proc/1/pagemap: e"
    );
    assert_eq!(
        read_pagemap_pfn(1, PagemapEntry::SeekFailed("e".into()))
            .unwrap_err()
            .message(),
        "procfs parse error for PID 1: cannot seek pagemap: e"
    );
    assert_eq!(
        read_pagemap_pfn(1, PagemapEntry::ReadFailed("e".into()))
            .unwrap_err()
            .message(),
        "procfs parse error for PID 1: cannot read pagemap entry: e"
    );
}

#[test]
fn page_map_ranges_give_the_visible_frames() {
    let mut bytes = Vec::new();
    for entry in [
        0x8000_0000_0000_0011u64,
        0x0000_0000_0000_0022,
        0x8000_0000_0000_0000,
        0x8000_0000_0000_0033,
    ] {
        bytes.extend_from_slice(&entry.to_ne_bytes());
    }
    bytes.extend_from_slice(&[1, 2, 3]);
    assert_eq!(
        read_pagemap_range(1, PagemapRange::Bytes(bytes)).unwrap(),
        vec![0x11, 0x33]
    );
    assert!(read_pagemap_range(1, PagemapRange::SeekFailed).unwrap().is_empty());
    assert_eq!(
        read_pagemap_range(1, PagemapRange::OpenFailed("e".into()))
            .unwrap_err()
            .message(),
        "procfs parse error for PID 1: cannot open /proc/1/pagemap: e"
    );
    assert_eq!(collect_pfns(&vec![u64::MAX, 5]), vec![0x7F_FFFF_FFFF_FFFF]);
}
