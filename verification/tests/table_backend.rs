use std::collections::HashSet;

use listeners::error::BackendError;
use listeners::process_list::{ProcessEntry, ProcessSnapshot};
use listeners::table::{TableKind, TcpListener};
use listeners::table_backend::{fetched, resolve, TableSnapshot};
use listeners::{
    get_all, get_ports_by_pid, get_ports_by_process_name, get_processes_by_port, Backend,
    IpAddress, Listener, Process, Protocol, SocketAddress,
};

fn le(value: u32) -> [u8; 4] {
    value.to_le_bytes()
}

fn port_field(port: u16) -> [u8; 4] {
    let b = port.to_be_bytes();
    [b[0], b[1], 0, 0]
}

fn tcp4_row(state: u32, addr: [u8; 4], port: u16, pid: u32) -> Vec<u8> {
    let mut row = Vec::new();
    row.extend_from_slice(&le(state));
    row.extend_from_slice(&addr);
    row.extend_from_slice(&port_field(port));
    row.extend_from_slice(&[0; 8]);
    row.extend_from_slice(&le(pid));
    row
}

fn tcp6_row(state: u32, addr: [u8; 16], port: u16, pid: u32) -> Vec<u8> {
    let mut row = Vec::new();
    row.extend_from_slice(&addr);
    row.extend_from_slice(&le(0));
    row.extend_from_slice(&port_field(port));
    row.extend_from_slice(&[0; 24]);
    row.extend_from_slice(&le(state));
    row.extend_from_slice(&le(pid));
    row
}

fn udp4_row(addr: [u8; 4], port: u16, pid: u32) -> Vec<u8> {
    let mut row = Vec::new();
    row.extend_from_slice(&addr);
    row.extend_from_slice(&port_field(port));
    row.extend_from_slice(&le(pid));
    row
}

fn udp6_row(addr: [u8; 16], port: u16, pid: u32) -> Vec<u8> {
    let mut row = Vec::new();
    row.extend_from_slice(&addr);
    row.extend_from_slice(&le(0));
    row.extend_from_slice(&port_field(port));
    row.extend_from_slice(&le(pid));
    row
}

fn table(rows: &[Vec<u8>]) -> Vec<u8> {
    let mut bytes = Vec::new();
    bytes.extend_from_slice(&le(rows.len() as u32));
    for row in rows {
        bytes.extend_from_slice(row);
    }
    bytes
}

fn entry(pid: u32, name: &str) -> ProcessEntry {
    let mut exe_file = name.as_bytes().to_vec();
    exe_file.resize(260, 0);
    ProcessEntry { pid, exe_file }
}

fn walked(entries: Vec<ProcessEntry>) -> ProcessSnapshot {
    ProcessSnapshot { entries, released: true }
}

fn processes() -> Vec<ProcessEntry> {
    vec![
        entry(0, "[System Process]"),
        entry(4, "System"),
        entry(160, "mysqld.exe"),
        entry(460, "dns.exe"),
        entry(1088, "rustrover64.exe"),
    ]
}

fn listener(pid: u32, name: &str, ip: IpAddress, port: u16, protocol: Protocol) -> Listener {
    Listener::new(pid, name.to_string(), SocketAddress { ip, port }, protocol)
}

fn snapshot() -> TableSnapshot {
    TableSnapshot {
        tcp4: Ok(table(&[
            tcp4_row(2, [0, 0, 0, 0], 3306, 160),
            tcp4_row(5, [192, 168, 1, 7], 49152, 1088),
            tcp4_row(2, [127, 0, 0, 1], 63342, 1088),
            tcp4_row(2, [0, 0, 0, 0], 8080, 999),
        ])),
        tcp6: Ok(table(&[tcp6_row(2, [0; 16], 3306, 160), tcp6_row(2, [0; 16], 33060, 160)])),
        udp4: Ok(table(&[udp4_row([0, 0, 0, 0], 53, 460), udp4_row([0, 0, 0, 0], 5353, 777)])),
        udp6: Ok(table(&[udp6_row([0; 16], 53, 460)])),
        processes: Ok(walked(processes())),
    }
}

fn expected() -> Vec<Listener> {
    vec![
        listener(160, "mysqld.exe", IpAddress::V4(0), 3306, Protocol::TCP),
        listener(1088, "rustrover64.exe", IpAddress::V4(0x7f00_0001), 63342, Protocol::TCP),
        listener(160, "mysqld.exe", IpAddress::V6(0), 3306, Protocol::TCP),
        listener(160, "mysqld.exe", IpAddress::V6(0), 33060, Protocol::TCP),
        listener(460, "dns.exe", IpAddress::V4(0), 53, Protocol::UDP),
        listener(460, "dns.exe", IpAddress::V6(0), 53, Protocol::UDP),
    ]
}

#[test]
fn endpoint_becomes_a_listener_with_the_name_of_its_process() {
    let endpoint = TcpListener::new(IpAddress::V4(0x7f00_0001), 63342, 1088, Protocol::TCP);
    assert_eq!(
        endpoint.to_listener(&processes()),
        Ok(Some(listener(
            1088,
            "rustrover64.exe",
            IpAddress::V4(0x7f00_0001),
            63342,
            Protocol::TCP
        )))
    );
}

#[test]
fn endpoint_of_a_process_that_has_exited_gives_no_listener() {
    let endpoint = TcpListener::new(IpAddress::V4(0), 8080, 999, Protocol::TCP);
    assert_eq!(endpoint.to_listener(&processes()), Ok(None));
    assert_eq!(endpoint.to_listener(&vec![]), Ok(None));
}

#[test]
fn endpoint_of_a_process_with_an_unreadable_name_fails() {
    let endpoint = TcpListener::new(IpAddress::V4(0), 8080, 5, Protocol::UDP);
    let entries = vec![ProcessEntry { pid: 5, exe_file: vec![0xff, 0] }];
    assert_eq!(endpoint.to_listener(&entries), Err(BackendError::DecodeFailed));
}

#[test]
fn fetched_table_is_decoded_and_its_error_is_kept() {
    let bytes = table(&[udp4_row([1, 2, 3, 4], 53, 460)]);
    assert_eq!(
        fetched(TableKind::Udp4, &Ok(bytes)),
        Ok(vec![TcpListener::new(IpAddress::V4(0x0102_0304), 53, 460, Protocol::UDP)])
    );
    assert_eq!(
        fetched(TableKind::Udp4, &Err(BackendError::AllocationExhausted)),
        Err(BackendError::AllocationExhausted)
    );
    assert_eq!(fetched(TableKind::Udp4, &Ok(vec![1, 0, 0, 0])), Err(BackendError::DecodeFailed));
}

#[test]
fn entries_of_the_four_tables_come_one_table_after_the_other() {
    let entries = snapshot().entries().unwrap();
    let ports: Vec<(u16, Protocol)> = entries.iter().map(|e| (e.local_port, e.protocol)).collect();
    assert_eq!(
        ports,
        vec![
            (3306, Protocol::TCP),
            (63342, Protocol::TCP),
            (8080, Protocol::TCP),
            (3306, Protocol::TCP),
            (33060, Protocol::TCP),
            (53, Protocol::UDP),
            (5353, Protocol::UDP),
            (53, Protocol::UDP),
        ]
    );
    assert_eq!(entries[3].local_addr, IpAddress::V6(0));
    assert_eq!(entries[7].local_addr, IpAddress::V6(0));
}

#[test]
fn resolve_drops_what_has_no_process() {
    let entries = snapshot().entries().unwrap();
    assert_eq!(resolve(&entries, &processes()), Ok(expected()));
    assert_eq!(resolve(&entries, &vec![]), Ok(vec![]));
    assert_eq!(resolve(&vec![], &processes()), Ok(vec![]));
}

#[test]
fn enumerate_gives_the_listeners_of_all_tables() {
    assert_eq!(snapshot().enumerate(), Ok(expected()));
    assert_eq!(get_all(&snapshot()), Ok(expected()));
}

#[test]
fn every_tcp_listener_was_in_the_listen_state() {
    let all = get_all(&snapshot()).unwrap();
    assert!(all.iter().all(|l| l.socket.port > 0));
    assert!(all.iter().all(|l| l.socket.port != 49152));
    assert_eq!(all.iter().filter(|l| l.protocol == Protocol::TCP).count(), 4);
    assert_eq!(all.iter().filter(|l| l.protocol == Protocol::UDP).count(), 2);
}

#[test]
fn process_that_exited_is_absent_and_the_call_succeeds() {
    let all = get_all(&snapshot()).unwrap();
    assert!(all.iter().all(|l| l.process.pid != 999 && l.process.pid != 777));
    let mut without = snapshot();
    without.tcp4 = Ok(table(&[
        tcp4_row(2, [0, 0, 0, 0], 3306, 160),
        tcp4_row(5, [192, 168, 1, 7], 49152, 1088),
        tcp4_row(2, [127, 0, 0, 1], 63342, 1088),
    ]));
    without.udp4 = Ok(table(&[udp4_row([0, 0, 0, 0], 53, 460)]));
    assert_eq!(get_all(&without), Ok(all));
}

#[test]
fn no_listener_comes_out_with_an_empty_name_for_a_missing_process() {
    let mut s = snapshot();
    s.processes = Ok(walked(vec![]));
    assert_eq!(get_all(&s), Ok(vec![]));
}

#[test]
fn snapshot_whose_handle_was_not_released_finds_no_name() {
    let mut s = snapshot();
    s.processes = Ok(ProcessSnapshot { entries: processes(), released: false });
    assert_eq!(s.enumerate(), Ok(vec![]));
    assert_eq!(get_all(&s), Ok(vec![]));
    assert_eq!(get_ports_by_pid(&s, 160), Ok(HashSet::new()));
    let mut s = snapshot();
    s.processes = Ok(ProcessSnapshot {
        entries: vec![ProcessEntry { pid: 160, exe_file: vec![0xff; 4] }],
        released: false,
    });
    assert_eq!(get_all(&s), Ok(vec![]));
}

#[test]
fn bound_socket_is_found_exactly_once() {
    let mut s = snapshot();
    s.tcp4 = Ok(table(&[
        tcp4_row(2, [0, 0, 0, 0], 3306, 160),
        tcp4_row(2, [127, 0, 0, 1], 41001, 1088),
        tcp4_row(1, [127, 0, 0, 1], 41002, 1088),
    ]));
    s.udp4 = Ok(table(&[udp4_row([127, 0, 0, 1], 41003, 1088), udp4_row([0, 0, 0, 0], 53, 460)]));
    let all = get_all(&s).unwrap();
    let tcp: Vec<&Listener> = all
        .iter()
        .filter(|l| l.process.pid == 1088 && l.socket.port == 41001 && l.protocol == Protocol::TCP)
        .collect();
    assert_eq!(tcp.len(), 1);
    assert_eq!(
        *tcp[0],
        listener(1088, "rustrover64.exe", IpAddress::V4(0x7f00_0001), 41001, Protocol::TCP)
    );
    let udp: Vec<&Listener> = all
        .iter()
        .filter(|l| l.process.pid == 1088 && l.socket.port == 41003 && l.protocol == Protocol::UDP)
        .collect();
    assert_eq!(udp.len(), 1);
    assert_eq!(
        *udp[0],
        listener(1088, "rustrover64.exe", IpAddress::V4(0x7f00_0001), 41003, Protocol::UDP)
    );
    assert!(all.iter().all(|l| l.socket.port != 41002));
    assert_eq!(get_ports_by_pid(&s, 1088), Ok(HashSet::from([41001, 41003])));
}

#[test]
fn rows_that_are_the_same_give_one_listener() {
    let mut s = snapshot();
    s.udp4 = Ok(table(&[
        udp4_row([0, 0, 0, 0], 53, 460),
        udp4_row([0, 0, 0, 0], 53, 460),
        udp4_row([0, 0, 0, 0], 54, 460),
        udp4_row([0, 0, 0, 0], 53, 460),
    ]));
    assert_eq!(s.enumerate().unwrap().len(), 9);
    let all = get_all(&s).unwrap();
    assert_eq!(all.len(), 7);
    for i in 0..all.len() {
        for j in 0..i {
            assert_ne!(all[i], all[j]);
        }
    }
    assert_eq!(all[4], listener(460, "dns.exe", IpAddress::V4(0), 53, Protocol::UDP));
    assert_eq!(all[5], listener(460, "dns.exe", IpAddress::V4(0), 54, Protocol::UDP));
    assert_eq!(all[6], listener(460, "dns.exe", IpAddress::V6(0), 53, Protocol::UDP));
}

#[test]
fn two_calls_on_one_snapshot_return_the_same() {
    let s = snapshot();
    assert_eq!(get_all(&s), get_all(&s));
    assert_eq!(get_all(&s), get_all(&snapshot()));
}

#[test]
fn failed_table_fails_the_whole_call() {
    let mut s = snapshot();
    s.udp6 = Err(BackendError::AllocationExhausted);
    assert_eq!(s.entries(), Err(BackendError::AllocationExhausted));
    assert_eq!(get_all(&s), Err(BackendError::AllocationExhausted));
    assert_eq!(get_processes_by_port(&s, 53), Err(BackendError::AllocationExhausted));
    assert_eq!(get_ports_by_pid(&s, 160), Err(BackendError::AllocationExhausted));
    assert_eq!(get_ports_by_process_name(&s, "dns.exe"), Err(BackendError::AllocationExhausted));
}

#[test]
fn first_failed_table_decides_the_error() {
    let mut s = snapshot();
    s.tcp6 = Err(BackendError::QueryFailed);
    s.udp4 = Err(BackendError::AllocationExhausted);
    s.processes = Err(BackendError::HandleAcquisitionFailed);
    assert_eq!(get_all(&s), Err(BackendError::QueryFailed));
    s.tcp4 = Ok(vec![0, 0]);
    assert_eq!(get_all(&s), Err(BackendError::DecodeFailed));
}

#[test]
fn failed_process_snapshot_fails_the_whole_call() {
    let mut s = snapshot();
    s.processes = Err(BackendError::HandleAcquisitionFailed);
    assert_eq!(get_all(&s), Err(BackendError::HandleAcquisitionFailed));
}

#[test]
fn truncated_table_fails_the_whole_call() {
    let mut s = snapshot();
    let mut bytes = table(&[tcp6_row(2, [0; 16], 3306, 160)]);
    bytes.truncate(40);
    s.tcp6 = Ok(bytes);
    assert_eq!(get_all(&s), Err(BackendError::DecodeFailed));
}

#[test]
fn unreadable_name_of_an_owning_process_fails_the_whole_call() {
    let mut s = snapshot();
    let mut entries = processes();
    entries[2] = ProcessEntry { pid: 160, exe_file: vec![b'm'; 260] };
    s.processes = Ok(walked(entries));
    assert_eq!(get_all(&s), Err(BackendError::DecodeFailed));
}

#[test]
fn unreadable_name_of_a_process_without_sockets_does_not_matter() {
    let mut s = snapshot();
    let mut entries = processes();
    entries.push(ProcessEntry { pid: 31337, exe_file: vec![0xff; 260] });
    s.processes = Ok(walked(entries));
    assert_eq!(get_all(&s), Ok(expected()));
}

#[test]
fn processes_by_port_are_those_of_the_listeners_on_that_port() {
    let s = snapshot();
    assert_eq!(
        get_processes_by_port(&s, 3306),
        Ok(vec![Process::new(160, "mysqld.exe".to_string())])
    );
    assert_eq!(get_processes_by_port(&s, 53), Ok(vec![Process::new(460, "dns.exe".to_string())]));
    assert_eq!(get_processes_by_port(&s, 8080), Ok(vec![]));
    assert_eq!(get_processes_by_port(&s, 49152), Ok(vec![]));
}

#[test]
fn ports_by_pid_are_those_of_the_listeners_of_that_process() {
    let s = snapshot();
    assert_eq!(get_ports_by_pid(&s, 160), Ok(HashSet::from([3306, 33060])));
    assert_eq!(get_ports_by_pid(&s, 1088), Ok(HashSet::from([63342])));
    assert_eq!(get_ports_by_pid(&s, 460), Ok(HashSet::from([53])));
}

#[test]
fn ports_of_a_pid_without_sockets_are_the_empty_set() {
    let s = snapshot();
    assert_eq!(get_ports_by_pid(&s, 4), Ok(HashSet::new()));
    assert_eq!(get_ports_by_pid(&s, 4_000_000), Ok(HashSet::new()));
}

#[test]
fn ports_by_process_name_are_those_of_the_listeners_of_that_name() {
    let s = snapshot();
    assert_eq!(get_ports_by_process_name(&s, "mysqld.exe"), Ok(HashSet::from([3306, 33060])));
    assert_eq!(get_ports_by_process_name(&s, "mysqld"), Ok(HashSet::new()));
    assert_eq!(get_ports_by_process_name(&s, ""), Ok(HashSet::new()));
}

#[test]
fn filters_agree_with_a_filter_over_get_all() {
    let s = snapshot();
    let all = get_all(&s).unwrap();
    for port in [53u16, 3306, 33060, 63342, 8080, 0] {
        let got = get_processes_by_port(&s, port).unwrap();
        for l in all.iter() {
            if l.socket.port == port {
                assert!(got.contains(&l.process));
            }
        }
        for p in got.iter() {
            assert!(all.iter().any(|l| l.socket.port == port && &l.process == p));
        }
    }
    for pid in [0u32, 4, 160, 460, 1088, 999] {
        let got = get_ports_by_pid(&s, pid).unwrap();
        for l in all.iter() {
            if l.process.pid == pid {
                assert!(got.contains(&l.socket.port));
            }
        }
        for port in got.iter() {
            assert!(all.iter().any(|l| l.process.pid == pid && l.socket.port == *port));
        }
    }
    for name in ["mysqld.exe", "dns.exe", "System", "nobody"] {
        let got = get_ports_by_process_name(&s, name).unwrap();
        for l in all.iter() {
            if l.process.name == name {
                assert!(got.contains(&l.socket.port));
            }
        }
        for port in got.iter() {
            assert!(all.iter().any(|l| l.process.name == name && l.socket.port == *port));
        }
    }
}
