use std::collections::HashSet;

use listeners::bytes::{be_u128, be_u16, be_u32, le_u32};
use listeners::unique::{dedup, holds, push_unique};
use listeners::{
    ports_by_pid, ports_by_process_name, processes_by_port, IpAddress, Listener, Process,
    Protocol, SocketAddress,
};

fn listener(pid: u32, name: &str, port: u16, protocol: Protocol) -> Listener {
    Listener::new(
        pid,
        name.to_string(),
        SocketAddress { ip: IpAddress::V4(0x7f00_0001), port },
        protocol,
    )
}

fn sample() -> Vec<Listener> {
    vec![
        listener(10, "web", 80, Protocol::TCP),
        listener(10, "web", 443, Protocol::TCP),
        listener(11, "web", 80, Protocol::UDP),
        listener(12, "db", 5432, Protocol::TCP),
        listener(10, "web", 80, Protocol::UDP),
        listener(13, "proxy", 80, Protocol::TCP),
    ]
}

#[test]
fn integers_are_read_in_their_byte_order() {
    let bytes = [0x01, 0x02, 0x03, 0x04, 0x05, 0x06, 0x07, 0x08, 0x09, 0x0a, 0x0b, 0x0c, 0x0d, 0x0e, 0x0f, 0x10, 0x11];
    assert_eq!(le_u32(&bytes, 0), 0x0403_0201);
    assert_eq!(le_u32(&bytes, 13), 0x1110_0f0e);
    assert_eq!(be_u16(&bytes, 0), 0x0102);
    assert_eq!(be_u16(&bytes, 15), 0x1011);
    assert_eq!(be_u32(&bytes, 1), 0x0203_0405);
    assert_eq!(be_u128(&bytes, 0), 0x0102_0304_0506_0708_090a_0b0c_0d0e_0f10);
    assert_eq!(be_u128(&bytes, 1), 0x0203_0405_0607_0809_0a0b_0c0d_0e0f_1011);
    assert_eq!(le_u32(&[0xff; 4], 0), u32::MAX);
    assert_eq!(be_u32(&[0xff; 4], 0), u32::MAX);
    assert_eq!(be_u16(&[0xff; 2], 0), u16::MAX);
    assert_eq!(be_u128(&[0xff; 16], 0), u128::MAX);
}

fn process(pid: u32, name: &str) -> Process {
    Process::new(pid, name.to_string())
}

#[test]
fn holds_finds_an_item_by_its_value() {
    let items = sample();
    assert!(holds(&items, &listener(12, "db", 5432, Protocol::TCP)));
    assert!(!holds(&items, &listener(12, "db", 5432, Protocol::UDP)));
    assert!(!holds(&items, &listener(12, "d", 5432, Protocol::TCP)));
    assert!(!holds(&Vec::<Process>::new(), &process(1, "a")));
    assert!(holds(&vec![process(3, "c"), process(4, "d")], &process(4, "d")));
    assert!(!holds(&vec![process(3, "c"), process(4, "d")], &process(4, "c")));
}

#[test]
fn push_unique_adds_only_what_is_new() {
    let mut processes = vec![process(1, "a")];
    push_unique(&mut processes, process(1, "a"));
    assert_eq!(processes, vec![process(1, "a")]);
    push_unique(&mut processes, process(1, "b"));
    push_unique(&mut processes, process(2, "a"));
    push_unique(&mut processes, process(1, "b"));
    assert_eq!(processes, vec![process(1, "a"), process(1, "b"), process(2, "a")]);
}

#[test]
fn dedup_keeps_the_first_occurrences_in_order() {
    let items = vec![
        process(5, "e"),
        process(3, "c"),
        process(5, "e"),
        process(5, "e"),
        process(1, "a"),
        process(3, "c"),
        process(9, "i"),
    ];
    assert_eq!(
        dedup(&items),
        vec![process(5, "e"), process(3, "c"), process(1, "a"), process(9, "i")]
    );
    assert_eq!(dedup(&Vec::<Process>::new()), Vec::<Process>::new());
    assert_eq!(dedup(&vec![process(7, "g"), process(7, "g"), process(7, "g")]), vec![process(7, "g")]);
    let mut twice = sample();
    twice.extend(sample());
    assert_eq!(dedup(&twice), sample());
    assert_eq!(dedup(&sample()), sample());
}

#[test]
fn processes_by_port_projects_onto_the_processes() {
    let all = sample();
    assert_eq!(
        processes_by_port(&all, 80),
        vec![
            Process::new(10, "web".to_string()),
            Process::new(11, "web".to_string()),
            Process::new(13, "proxy".to_string())
        ]
    );
    assert_eq!(processes_by_port(&all, 5432), vec![Process::new(12, "db".to_string())]);
    assert_eq!(processes_by_port(&all, 81), vec![]);
    assert_eq!(processes_by_port(&vec![], 80), vec![]);
}

#[test]
fn ports_by_pid_projects_onto_the_ports() {
    let all = sample();
    assert_eq!(ports_by_pid(&all, 10), HashSet::from([80, 443]));
    assert_eq!(ports_by_pid(&all, 11), HashSet::from([80]));
    assert_eq!(ports_by_pid(&all, 14), HashSet::new());
    assert_eq!(ports_by_pid(&vec![], 10), HashSet::new());
}

#[test]
fn ports_by_process_name_projects_onto_the_ports() {
    let all = sample();
    assert_eq!(ports_by_process_name(&all, "web"), HashSet::from([80, 443]));
    assert_eq!(ports_by_process_name(&all, "db"), HashSet::from([5432]));
    assert_eq!(ports_by_process_name(&all, "Web"), HashSet::new());
    assert_eq!(ports_by_process_name(&all, "we"), HashSet::new());
}
