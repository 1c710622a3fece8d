use sysprobe::collectors::disk::DiskCollector;
use sysprobe::collectors::network::{sum_counters, NetworkCollector};
use sysprobe::collectors::network_proc::{parse_active_connection_count, NetworkProcCollector};
use sysprobe::float::Float32;
use sysprobe::text::{chars_of, split_lines, split_words};

#[test]
fn counts_only_established_tcp_connections() {
    let proc_net_tcp = r#"
  sl  local_address rem_address   st tx_queue rx_queue tr tm->when retrnsmt   uid  timeout inode
   0: 0100007F:1F90 0100007F:CAFE 01 00000000:00000000 00:00000000 00000000  501        0 12345 1 0000000000000000 20 4 30 10 -1
   1: 0100007F:1F91 00000000:0000 0A 00000000:00000000 00:00000000 00000000  501        0 12346 1 0000000000000000 20 4 30 10 -1
   2: 0100007F:1F92 0100007F:BEEF 01 00000000:00000000 00:00000000 00000000  501        0 12347 1 0000000000000000 20 4 30 10 -1
"#;

    assert_eq!(parse_active_connection_count(proc_net_tcp), 2);
}

#[test]
fn ignores_malformed_rows() {
    let proc_net_tcp = r#"
  sl  local_address rem_address   st tx_queue rx_queue tr tm->when retrnsmt   uid  timeout inode
malformed
   0: 0100007F:1F90 0100007F:CAFE 01 00000000:00000000 00:00000000
"#;

    assert_eq!(parse_active_connection_count(proc_net_tcp), 1);
}

#[test]
fn first_line_is_the_header_even_when_established() {
    assert_eq!(parse_active_connection_count("a b c 01\na b c 01\n"), 1);
    assert_eq!(parse_active_connection_count(""), 0);
    assert_eq!(parse_active_connection_count("a b c 01"), 0);
}

#[test]
fn crlf_endings_and_other_whitespace_separate_fields() {
    let text = "header\r\n0:\tx\u{a0}y 01\r\n1: x y 010\r\n2: x y 1\r\n";
    assert_eq!(parse_active_connection_count(text), 1);
    assert_eq!(NetworkProcCollector::active_connection_count(text), 1);
}

#[test]
fn network_totals_and_connections() {
    let table = "sl st\n 0: a b 01\n";
    let info = NetworkCollector::network_info(&vec![1, 2, 3], &vec![10, 20], Some(table)).unwrap();
    assert_eq!(info.rx_bytes_per_sec, 6);
    assert_eq!(info.tx_bytes_per_sec, 30);
    assert_eq!(info.active_connections, 1);
    let info = NetworkCollector::network_info(&vec![], &vec![], None).unwrap();
    assert_eq!(info.active_connections, 0);
    assert!(NetworkCollector::network_info(&vec![u64::MAX, 1], &vec![], None).is_none());
    assert_eq!(sum_counters(&vec![u64::MAX]), Some(u64::MAX));
    assert_eq!(sum_counters(&vec![u64::MAX, 1]), None);
}

#[test]
fn disk_used_space_saturates_at_zero() {
    assert_eq!(DiskCollector::used_bytes(100, 30), 70);
    assert_eq!(DiskCollector::used_bytes(100, 300), 0);
    let disk = DiskCollector::disk_info("/".to_owned(), 100, 25, Float32::from_bits(75.0f32.to_bits()));
    assert_eq!(disk.used_bytes, 75);
    assert_eq!(disk.mount_point, "/");
}

#[test]
fn lines_and_words_match_std() {
    let samples = [
        "",
        "\n",
        "a",
        "a\n",
        "a\r",
        "a\r\n",
        "a\r\nb\rc\n\n",
        "\r\n\r\n",
        " x  y\t z \u{2003}w\u{85}v ",
        "one\ntwo \nthree",
        "h\u{e9}llo w\u{f6}rld\r",
    ];
    for text in samples {
        let chars = chars_of(text);
        let lines: Vec<String> = split_lines(&chars).into_iter().map(|l| l.into_iter().collect()).collect();
        let expected: Vec<String> = text.lines().map(str::to_owned).collect();
        assert_eq!(lines, expected, "lines of {text:?}");
        let words: Vec<String> = split_words(&chars).into_iter().map(|w| w.into_iter().collect()).collect();
        let expected: Vec<String> = text.split_whitespace().map(str::to_owned).collect();
        assert_eq!(words, expected, "words of {text:?}");
    }
}
