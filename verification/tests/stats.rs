use audit_stats::{
    bucket, increment_stat, new_table, parse_line, record, record_line, subject_key, summarize,
    Fields, Stats,
};

fn keys<V>(map: &indexmap::IndexMap<String, V>) -> Vec<&str> {
    map.keys().map(|k| k.as_str()).collect()
}

#[test]
fn subject_is_the_file_before_the_executable() {
    assert_eq!(subject_key(&parse_line("exe=/bin/cat file=/etc/passwd comm=cat hash=h")), "/etc/passwd");
}

#[test]
fn subject_is_the_executable_before_the_command() {
    assert_eq!(subject_key(&parse_line("comm=cat exe=/bin/cat hash=h")), "/bin/cat");
}

#[test]
fn subject_is_the_command_where_nothing_else_is_set() {
    assert_eq!(subject_key(&parse_line("comm=cat pid=1")), "cat");
    assert_eq!(subject_key(&parse_line("comm=cat hash=h")), "cat");
}

#[test]
fn subject_is_the_hash_as_a_last_resort() {
    assert_eq!(subject_key(&parse_line("hash=abc pid=1")), "abc");
}

#[test]
fn subject_is_unknown_without_file_exe_comm_and_hash() {
    assert_eq!(subject_key(&parse_line("type=SYSCALL pid=100 uid=0")), "UNKNOWN");
    assert_eq!(subject_key(&parse_line("")), "UNKNOWN");
}

#[test]
fn increment_stat_starts_at_one_and_counts_up() {
    let mut fields = Fields::new();
    increment_stat(&mut fields, "pid", "100");
    assert_eq!(fields["pid"]["100"], 1);
    increment_stat(&mut fields, "pid", "100");
    increment_stat(&mut fields, "pid", "100");
    assert_eq!(fields["pid"]["100"], 3);
    assert_eq!(fields.len(), 1);
    assert_eq!(fields["pid"].len(), 1);
}

#[test]
fn increment_stat_keeps_the_order_of_first_sight() {
    let mut fields = Fields::new();
    increment_stat(&mut fields, "uid", "9");
    increment_stat(&mut fields, "pid", "2");
    increment_stat(&mut fields, "uid", "1");
    increment_stat(&mut fields, "pid", "2");
    increment_stat(&mut fields, "uid", "9");
    assert_eq!(keys(&fields), vec!["uid", "pid"]);
    assert_eq!(keys(&fields["uid"]), vec!["9", "1"]);
    assert_eq!(fields["uid"]["9"], 2);
    assert_eq!(fields["uid"]["1"], 1);
    assert_eq!(fields["pid"]["2"], 2);
}

#[test]
fn record_counts_the_listed_fields_in_their_fixed_order() {
    let mut stats = Stats::new();
    let line = "comm=\"cat\" ses=13 tty=pts0 fsgid=11 sgid=10 egid=9 fsuid=8 suid=7 euid=6 gid=5 \
                uid=4 auid=3 pid=2 ppid=1 sig=12 file=/f msg=m exe=\"/bin/cat\" type=SYSCALL hash=abc";
    record(&mut stats, &parse_line(line));
    assert_eq!(keys(&stats), vec!["/f"]);
    assert_eq!(
        keys(&stats["/f"]),
        vec![
            "type", "exe", "msg", "file", "sig", "ppid", "pid", "auid", "uid", "gid", "euid", "suid",
            "fsuid", "egid", "sgid", "fsgid", "tty", "ses", "comm",
        ]
    );
    assert_eq!(stats["/f"]["type"]["SYSCALL"], 1);
    assert_eq!(stats["/f"]["exe"]["/bin/cat"], 1);
    assert_eq!(stats["/f"]["fsgid"]["11"], 1);
    assert_eq!(stats["/f"]["comm"]["cat"], 1);
}

#[test]
fn the_hash_names_the_subject_and_is_not_counted() {
    let mut stats = Stats::new();
    record_line(&mut stats, "hash=abc pid=1");
    assert_eq!(keys(&stats), vec!["abc"]);
    assert_eq!(keys(&stats["abc"]), vec!["pid"]);
}

#[test]
fn a_record_without_counted_fields_still_gets_a_bucket() {
    let mut stats = Stats::new();
    record_line(&mut stats, "");
    assert_eq!(keys(&stats), vec!["UNKNOWN"]);
    assert!(stats["UNKNOWN"].is_empty());
    record_line(&mut stats, "hash=h");
    assert_eq!(keys(&stats), vec!["UNKNOWN", "h"]);
    assert!(stats["h"].is_empty());
}

#[test]
fn numbers_are_counted_under_their_decimal_text() {
    let mut stats = Stats::new();
    record_line(&mut stats, "pid=007 uid=+5 gid=x");
    assert_eq!(keys(&stats["UNKNOWN"]["pid"]), vec!["7"]);
    assert_eq!(keys(&stats["UNKNOWN"]["uid"]), vec!["5"]);
    assert_eq!(keys(&stats["UNKNOWN"]["gid"]), vec!["0"]);
}

#[test]
fn subjects_fields_and_values_keep_the_order_of_first_sight() {
    let stats = summarize("exe=/b pid=2\nexe=/a uid=1 pid=9\nexe=/b uid=3 pid=1\nexe=/b pid=2\n");
    assert_eq!(keys(&stats), vec!["/b", "/a"]);
    assert_eq!(keys(&stats["/b"]), vec!["exe", "pid", "uid"]);
    assert_eq!(keys(&stats["/b"]["pid"]), vec!["2", "1"]);
    assert_eq!(stats["/b"]["exe"]["/b"], 3);
    assert_eq!(stats["/b"]["pid"]["2"], 2);
    assert_eq!(stats["/b"]["pid"]["1"], 1);
    assert_eq!(stats["/b"]["uid"]["3"], 1);
    assert_eq!(keys(&stats["/a"]), vec!["exe", "pid", "uid"]);
}

#[test]
fn the_same_lines_give_the_same_table() {
    let first_line = "type=SYSCALL exe=/bin/cat pid=1 uid=0";
    let second_line = "type=PATH file=/etc/passwd pid=1";
    let mut first = Stats::new();
    record_line(&mut first, first_line);
    record_line(&mut first, second_line);
    let mut second = Stats::new();
    record_line(&mut second, first_line);
    record_line(&mut second, second_line);
    assert_eq!(first, second);
    assert_eq!(keys(&first), keys(&second));
    assert_eq!(keys(&first), vec!["/bin/cat", "/etc/passwd"]);
    for subject in keys(&first) {
        assert_eq!(keys(&first[subject]), keys(&second[subject]));
        for field in keys(&first[subject]) {
            assert_eq!(keys(&first[subject][field]), keys(&second[subject][field]));
        }
    }
}

#[test]
fn two_equal_lines_count_twice_under_unknown() {
    let stats = summarize("type=SYSCALL pid=100 uid=0\ntype=SYSCALL pid=100 uid=0\n");
    assert_eq!(keys(&stats), vec!["UNKNOWN"]);
    assert_eq!(keys(&stats["UNKNOWN"]), vec!["type", "pid", "uid"]);
    assert_eq!(stats["UNKNOWN"]["type"]["SYSCALL"], 2);
    assert_eq!(stats["UNKNOWN"]["pid"]["100"], 2);
    assert_eq!(stats["UNKNOWN"]["uid"]["0"], 2);
    assert_eq!(stats["UNKNOWN"]["type"].len(), 1);
    assert_eq!(stats["UNKNOWN"]["pid"].len(), 1);
    assert_eq!(stats["UNKNOWN"]["uid"].len(), 1);
}

#[test]
fn summarize_reads_lines_as_std_does() {
    for text in ["", "\n", "pid=1", "pid=1\n", "pid=1\r\npid=2\r\n", "pid=1\n\npid=2", "\n\n", "a=1 \r"] {
        let mut expected = Stats::new();
        for line in text.lines() {
            record_line(&mut expected, line);
        }
        assert_eq!(summarize(text), expected, "{:?}", text);
        assert_eq!(keys(&summarize(text)), keys(&expected));
    }
}

#[test]
fn an_empty_input_gives_an_empty_table() {
    assert!(summarize("").is_empty());
}

#[test]
fn a_blank_line_gives_an_empty_unknown_bucket() {
    let stats = summarize("\n");
    assert_eq!(keys(&stats), vec!["UNKNOWN"]);
    assert!(stats["UNKNOWN"].is_empty());
}

#[test]
fn bucket_hands_out_the_fields_of_a_subject() {
    let mut stats = new_table();
    assert!(stats.is_empty());
    increment_stat(bucket(&mut stats, "/bin/cat"), "pid", "1");
    assert!(bucket(&mut stats, "/bin/ls").is_empty());
    increment_stat(bucket(&mut stats, "/bin/cat"), "pid", "1");
    increment_stat(bucket(&mut stats, "/bin/cat"), "uid", "0");
    assert_eq!(keys(&stats), vec!["/bin/cat", "/bin/ls"]);
    assert_eq!(keys(&stats["/bin/cat"]), vec!["pid", "uid"]);
    assert_eq!(stats["/bin/cat"]["pid"]["1"], 2);
    assert_eq!(stats["/bin/cat"]["uid"]["0"], 1);
}

#[test]
fn counting_by_hand_gives_what_recording_gives() {
    let first_line = "exe=/bin/cat pid=1 uid=0";
    let second_line = "exe=/bin/cat pid=2 uid=0";
    let mut by_hand = new_table();
    for line in [first_line, second_line] {
        let entry = parse_line(line);
        let subject = subject_key(&entry);
        let fields = bucket(&mut by_hand, &subject);
        increment_stat(fields, "exe", entry.exe.as_deref().unwrap());
        increment_stat(fields, "pid", &entry.pid.unwrap().to_string());
        increment_stat(fields, "uid", &entry.uid.unwrap().to_string());
    }
    let mut recorded = new_table();
    record_line(&mut recorded, first_line);
    record_line(&mut recorded, second_line);
    assert_eq!(by_hand, recorded);
    assert_eq!(keys(&by_hand["/bin/cat"]), keys(&recorded["/bin/cat"]));
    assert_eq!(keys(&by_hand["/bin/cat"]["pid"]), vec!["1", "2"]);
    assert_eq!(by_hand["/bin/cat"]["uid"]["0"], 2);
}
