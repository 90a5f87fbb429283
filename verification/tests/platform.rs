use zcode_speed_panel::liveio::platform::{mac, stub, win};

fn put(buf: &mut [u8], at: usize, value: u64) {
    buf[at..at + 8].copy_from_slice(&value.to_le_bytes());
}

#[test]
fn mac_records_are_read() {
    let mut buf = [0u8; 512];
    put(&mut buf, 80, 0x1122_3344_5566_7788);
    put(&mut buf, 152, u64::MAX);
    let ru = mac::read_rusage(&buf).unwrap();
    assert_eq!((ru.start_abstime, ru.disk_bytes_written), (0x1122_3344_5566_7788, u64::MAX));
    assert!(mac::read_rusage(&buf[..296]).is_some());
    assert!(mac::read_rusage(&buf[..295]).is_none());
}

#[test]
fn mac_handles_know_their_process() {
    let ru = mac::Rusage { start_abstime: 5, disk_bytes_written: 900 };
    let h = mac::open_proc(42, Some(ru)).unwrap();
    assert_eq!(h, mac::ProcHandle { pid: 42, start_abstime: 5 });
    assert_eq!(mac::io_write_bytes(&h, Some(ru)), Some(900));
    // The number belongs to another process by now.
    assert_eq!(mac::io_write_bytes(&h, Some(mac::Rusage { start_abstime: 6, ..ru })), None);
    assert_eq!(mac::io_write_bytes(&h, None), None);
    assert!(mac::open_proc(42, None).is_none());
    assert_eq!(mac::tracked_files_total(), 0);
}

#[test]
fn mac_marker_is_a_whole_argument() {
    let args = |s: &str| {
        let mut v = vec![3, 0, 0, 0];
        v.extend_from_slice(s.as_bytes());
        v
    };
    assert!(mac::argv_has_cli_marker(&args("/bin/helper\0\0\0\0zcode-cli\0--x\0")));
    assert!(mac::argv_has_cli_marker(&args("zcode-cli")));
    assert!(mac::argv_has_cli_marker(&args("a\0zcode-cli")));
    assert!(!mac::argv_has_cli_marker(&args("a\0zcode-clip\0")));
    assert!(!mac::argv_has_cli_marker(&args("a\0xzcode-cli\0")));
    assert!(!mac::argv_has_cli_marker(&args("a\0zcode-cl\0")));
    assert!(!mac::argv_has_cli_marker(&args("")));
    assert!(!mac::argv_has_cli_marker(b"zco"));
    // The count of arguments before them is no part of them.
    assert!(!mac::argv_has_cli_marker(b"zcode-cli"));
    assert_eq!(mac::discover_cli_pids(&[(9, true), (8, false), (0, true), (-7, true), (6, true)]), vec![9, 6]);
    assert!(mac::discover_cli_pids(&[]).is_empty());
}

#[test]
fn mac_list_has_room_to_grow() {
    assert_eq!(mac::pid_capacity(100), Some(116));
    assert_eq!(mac::pid_capacity(0), None);
    assert_eq!(mac::pid_capacity(-1), None);
}

#[test]
fn windows_processes_are_told_apart() {
    assert!(win::is_zcode("ZCode.exe"));
    assert!(win::is_zcode("zcode.EXE"));
    assert!(!win::is_zcode("zcode.ex"));
    assert!(!win::is_zcode("zcode-exe"));
    let listed = |pid: u32, exe: &str, command: Option<&str>| win::Listed {
        pid,
        exe: exe.to_string(),
        command: command.map(|c| c.to_string()),
    };
    let all = [
        listed(1, "ZCode.exe", Some("\"C:\\ZCode.exe\" resources\\zcode.cjs --x")),
        listed(2, "ZCode.exe", Some("C:\\ZCode.exe --type=renderer")),
        listed(3, "ZCode.exe", None),
        listed(4, "node.exe", Some("zcode.cjs")),
        listed(5, "zcode.exe", Some("zcode.cjs")),
    ];
    assert_eq!(win::discover_cli_pids(&all), vec![1, 5]);
    assert!(win::eq_ignore_ascii_case("Zz[@", "zZ[@"));
    assert!(!win::eq_ignore_ascii_case("[", "{"));
}

#[test]
fn windows_names_end_at_zero() {
    assert_eq!(win::name_len(&[65, 66, 0, 67]), 2);
    assert_eq!(win::name_len(&[65, 66]), 2);
    assert_eq!(win::name_len(&[]), 0);
}

#[test]
fn windows_command_line_is_walked_to() {
    let mut info = [0u8; 48];
    put(&mut info, 8, 0x7000);
    let step = win::Walk::Info;
    assert_eq!(step.wants(), 48);
    let step = step.next(&info).unwrap();
    assert_eq!(step, win::Walk::Pointer { at: 0x7020 });
    assert_eq!(step.wants(), 8);
    let step = step.next(&0x9000u64.to_le_bytes()).unwrap();
    assert_eq!(step, win::Walk::Description { at: 0x9070 });
    assert_eq!(step.wants(), 16);
    let mut description = [0u8; 16];
    description[0] = 0x34;
    description[1] = 0x12;
    put(&mut description, 8, 0xab00);
    let step = step.next(&description).unwrap();
    assert_eq!(step, win::Walk::Line { at: 0xab00, len: 0x1234 });
    assert_eq!(step.wants(), 0x1234);
    assert_eq!(step.next(b"line"), None);
}

#[test]
fn windows_walk_stops_where_it_leads_nowhere() {
    assert_eq!(win::Walk::Info.next(&[0u8; 48]), None);
    assert_eq!(win::Walk::Info.next(&[1u8; 47]), None);
    let mut info = [0u8; 48];
    put(&mut info, 8, u64::MAX);
    assert_eq!(win::Walk::Info.next(&info), None);
    let pointer = win::Walk::Pointer { at: 1 };
    assert_eq!(pointer.next(&[0u8; 8]), None);
    assert_eq!(pointer.next(&[1u8; 7]), None);
    let description = win::Walk::Description { at: 1 };
    let mut empty = [1u8; 16];
    empty[0] = 0;
    empty[1] = 0;
    assert_eq!(description.next(&empty), None);
    let mut nowhere = [0u8; 16];
    nowhere[0] = 2;
    assert_eq!(description.next(&nowhere), None);
    assert_eq!(description.next(&[1u8; 15]), None);
}

#[test]
fn windows_text_is_two_bytes_a_unit() {
    assert_eq!(win::code_units(&[0x41, 0, 0x2d, 0x4e, 9]), vec![0x41, 0x4e2d]);
    assert!(win::code_units(&[1]).is_empty());
}

#[test]
fn windows_handles_and_files() {
    assert_eq!(win::open_proc(5), Some(win::ProcHandle { handle: 5 }));
    assert_eq!(win::open_proc(0), None);
    assert_eq!(win::io_write_bytes(true, 9), Some(9));
    assert_eq!(win::io_write_bytes(false, 9), None);
    assert_eq!(win::tracked_files_total(&[1, 2, 3], Some(10)), Some(16));
    assert_eq!(win::tracked_files_total(&[], None), Some(0));
    assert_eq!(win::tracked_files_total(&[u64::MAX], None), Some(u64::MAX));
    assert_eq!(win::tracked_files_total(&[u64::MAX], Some(1)), None);
}

#[test]
fn other_systems_measure_nothing() {
    assert!(stub::discover_cli_pids().is_empty());
    assert!(stub::open_proc(1).is_none());
    assert_eq!(stub::io_write_bytes(&stub::ProcHandle {}), None);
    assert_eq!(stub::tracked_files_total(), 0);
}
