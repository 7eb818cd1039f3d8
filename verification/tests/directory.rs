use netio::common::get_default_participants;
use netio::common::CommandLineOpt;
use netio::common::OneData;
use netio::common::Participant;
use netio::common::DEFAULT_BASE_PORT;
use netio::decimal::decimal_string;
use netio::decimal::push_decimal;

fn entry(partyid: u32, nodeid: &str, addr: &str) -> Participant {
    Participant { partyid, nodeid: nodeid.to_string(), addr: addr.to_string() }
}

#[test]
fn default_directory_of_three() {
    let list = Participant::from_default(3);
    assert_eq!(
        list,
        vec![
            entry(0, "node0", "127.0.0.1:13500"),
            entry(1, "node1", "127.0.0.1:13501"),
            entry(2, "node2", "127.0.0.1:13502"),
        ]
    );
}

#[test]
fn default_base_port_is_13500() {
    assert_eq!(DEFAULT_BASE_PORT, 13500);
}

#[test]
fn default_directory_of_none_is_empty() {
    assert!(Participant::from_default(0).is_empty());
    assert!(Participant::from_default_baseport(0, 9000).is_empty());
}

#[test]
fn directory_with_base_port() {
    let list = Participant::from_default_baseport(2, 9000);
    assert_eq!(list, vec![entry(0, "node0", "127.0.0.1:9000"), entry(1, "node1", "127.0.0.1:9001")]);
}

#[test]
fn directory_with_more_than_ten_parties() {
    let list = Participant::from_default_baseport(12, 65530);
    assert_eq!(list.len(), 12);
    assert_eq!(list[9], entry(9, "node9", "127.0.0.1:65539"));
    assert_eq!(list[10], entry(10, "node10", "127.0.0.1:65540"));
    assert_eq!(list[11], entry(11, "node11", "127.0.0.1:65541"));
}

#[test]
fn directory_with_chosen_party_ids() {
    let ids = vec![2, 0, 7];
    let list = Participant::from_default_partyids_baseport(3, &ids, 100);
    assert_eq!(
        list,
        vec![
            entry(2, "node2", "127.0.0.1:102"),
            entry(0, "node0", "127.0.0.1:100"),
            entry(7, "node7", "127.0.0.1:107"),
        ]
    );
}

#[test]
fn port_is_the_exact_sum_even_beyond_32_bits() {
    let ids = vec![u32::MAX];
    let list = Participant::from_default_partyids_baseport(1, &ids, u32::MAX);
    assert_eq!(list, vec![entry(u32::MAX, "node4294967295", "127.0.0.1:8589934590")]);
}

#[test]
fn get_default_participants_is_from_default() {
    assert_eq!(get_default_participants(4), Participant::from_default(4));
    assert_eq!(get_default_participants(1), vec![entry(0, "node0", "127.0.0.1:13500")]);
}

#[test]
fn default_directories_are_directories() {
    assert!(Participant::check_directory(&Participant::from_default(0)));
    assert!(Participant::check_directory(&Participant::from_default(1)));
    assert!(Participant::check_directory(&Participant::from_default(5)));
    assert!(Participant::check_directory(&Participant::from_default_baseport(5, 1)));
}

#[test]
fn directory_in_any_order_is_a_directory() {
    let ids = vec![2, 0, 1];
    assert!(Participant::check_directory(&Participant::from_default_partyids_baseport(3, &ids, 1)));
}

#[test]
fn duplicate_id_is_no_directory() {
    let ids = vec![0, 1, 1];
    assert!(!Participant::check_directory(&Participant::from_default_partyids_baseport(3, &ids, 1)));
}

#[test]
fn missing_id_is_no_directory() {
    let ids = vec![0, 1, 3];
    assert!(!Participant::check_directory(&Participant::from_default_partyids_baseport(3, &ids, 1)));
    let ids = vec![1];
    assert!(!Participant::check_directory(&Participant::from_default_partyids_baseport(1, &ids, 1)));
}

#[test]
fn find_gives_the_position_of_a_party() {
    let ids = vec![2, 0, 1];
    let list = Participant::from_default_partyids_baseport(3, &ids, 1);
    assert_eq!(Participant::find(&list, 0), Some(1));
    assert_eq!(Participant::find(&list, 1), Some(2));
    assert_eq!(Participant::find(&list, 2), Some(0));
    assert_eq!(Participant::find(&list, 3), None);
    assert_eq!(list[Participant::find(&list, 1).unwrap()].addr, "127.0.0.1:2");
}

#[test]
fn find_gives_the_first_of_two() {
    let ids = vec![5, 5];
    let list = Participant::from_default_partyids_baseport(2, &ids, 1);
    assert_eq!(Participant::find(&list, 5), Some(0));
}

#[test]
fn participants_compare_by_all_fields() {
    let a = entry(1, "node1", "127.0.0.1:1");
    assert!(a == a.clone());
    assert!(a != entry(2, "node1", "127.0.0.1:1"));
    assert!(a != entry(1, "node2", "127.0.0.1:1"));
    assert!(a != entry(1, "node1", "127.0.0.1:2"));
}

#[test]
fn decimal_text_of_numbers() {
    assert_eq!(decimal_string(0), "0");
    assert_eq!(decimal_string(9), "9");
    assert_eq!(decimal_string(10), "10");
    assert_eq!(decimal_string(13500), "13500");
    assert_eq!(decimal_string(1234567890), "1234567890");
    assert_eq!(decimal_string(u64::MAX), "18446744073709551615");
}

#[test]
fn push_decimal_appends() {
    let mut text = "port ".to_string();
    push_decimal(&mut text, 8080);
    push_decimal(&mut text, 0);
    assert_eq!(text, "port 80800");
}

#[test]
fn one_data_clone_keeps_the_bytes() {
    let one = OneData { data: vec![1, 2, 3] };
    assert_eq!(one.clone().data, vec![1, 2, 3]);
}

#[test]
fn command_line_opt_holds_the_party_id() {
    let opt = CommandLineOpt { party_id: 2 };
    assert_eq!(opt.party_id, 2);
}
