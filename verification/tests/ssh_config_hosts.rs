use ssh_panel::ssh_config::merge_hosts;
use ssh_panel::{parse_ssh_config_hosts, ConfigHostsWatch, ConfigSource};

fn strings(items: &[&str]) -> Vec<String> {
    items.iter().map(|s| s.to_string()).collect()
}

#[test]
fn parses_hosts_of_host_lines_in_order() {
    let content = "Host foo bar\n  host baz\nHost *.example !neg ok\nHostName x\n\tHost   tab\nHOST upper\n";
    assert_eq!(
        parse_ssh_config_hosts(content),
        strings(&["bar", "baz", "foo", "ok", "tab"])
    );
}

#[test]
fn each_host_is_listed_once() {
    assert_eq!(parse_ssh_config_hosts("Host a\nHost a b\nhost b"), strings(&["a", "b"]));
}

#[test]
fn crlf_line_endings() {
    assert_eq!(
        parse_ssh_config_hosts("Host one\r\nHost two\r\n"),
        strings(&["one", "two"])
    );
}

#[test]
fn empty_config_has_no_hosts() {
    assert!(parse_ssh_config_hosts("").is_empty());
    assert!(parse_ssh_config_hosts("\n\n").is_empty());
}

#[test]
fn bare_host_keyword_has_no_hosts() {
    assert!(parse_ssh_config_hosts("Host\nHost \n   Host   \n").is_empty());
}

#[test]
fn host_needs_a_space_after_the_keyword() {
    assert!(parse_ssh_config_hosts("Host\tfoo\nHostfoo\n").is_empty());
}

#[test]
fn unicode_whitespace_separates_hosts() {
    assert_eq!(
        parse_ssh_config_hosts("\u{3000}Host a\u{00A0}b\u{2003}c"),
        strings(&["a", "b", "c"])
    );
}

#[test]
fn wildcards_and_negations_are_left_out() {
    assert_eq!(
        parse_ssh_config_hosts("Host * web-* !bastion db?1 app"),
        strings(&["app", "db?1"])
    );
}

#[test]
fn hosts_come_in_code_point_order() {
    assert_eq!(
        parse_ssh_config_hosts("Host b B a ab aa é"),
        strings(&["B", "a", "aa", "ab", "b", "é"])
    );
}

#[test]
fn indented_and_commented_lines() {
    let content = "# Host commented\n    Host   spaced.example.com   other  \nMatch host x\n";
    assert_eq!(
        parse_ssh_config_hosts(content),
        strings(&["other", "spaced.example.com"])
    );
}

#[test]
fn merging_is_a_sorted_union() {
    let g = strings(&["b", "d"]);
    let u = strings(&["a", "b", "c"]);
    assert_eq!(merge_hosts(&g, &u), strings(&["a", "b", "c", "d"]));
}

#[test]
fn merging_does_not_depend_on_order() {
    let g = strings(&["zeta", "alpha", "mid"]);
    let u = strings(&["mid", "beta"]);
    assert_eq!(merge_hosts(&g, &u), merge_hosts(&u, &g));
}

#[test]
fn watch_reads_the_file_that_changed() {
    let mut watch = ConfigHostsWatch::new();
    assert!(watch.merged_hosts().is_empty());
    watch.handle_event(ConfigSource::User("Host u1 u2".to_string()));
    watch.handle_event(ConfigSource::Global("Host g1\nHost u1".to_string()));
    assert_eq!(watch.user_hosts(), &strings(&["u1", "u2"]));
    assert_eq!(watch.global_hosts(), &strings(&["g1", "u1"]));
    assert_eq!(watch.merged_hosts(), strings(&["g1", "u1", "u2"]));
    watch.handle_event(ConfigSource::User("Host other".to_string()));
    assert_eq!(watch.merged_hosts(), strings(&["g1", "other", "u1"]));
}

#[test]
fn watch_events_commute() {
    let mut a = ConfigHostsWatch::new();
    a.handle_event(ConfigSource::User("Host x y".to_string()));
    a.handle_event(ConfigSource::Global("Host z".to_string()));
    let mut b = ConfigHostsWatch::new();
    b.handle_event(ConfigSource::Global("Host z".to_string()));
    b.handle_event(ConfigSource::User("Host x y".to_string()));
    assert_eq!(a.global_hosts(), b.global_hosts());
    assert_eq!(a.user_hosts(), b.user_hosts());
    assert_eq!(a.merged_hosts(), b.merged_hosts());
}

#[test]
fn reading_the_same_text_again_changes_nothing() {
    let mut watch = ConfigHostsWatch::new();
    watch.handle_event(ConfigSource::Global("Host a b".to_string()));
    let first = watch.merged_hosts();
    watch.handle_event(ConfigSource::Global("Host a b".to_string()));
    assert_eq!(watch.merged_hosts(), first);
}

#[test]
fn joined_texts_list_the_union_of_their_hosts() {
    let a = "Host one two\n  host shared";
    let b = "Host shared three\nHost *.x";
    let joined = parse_ssh_config_hosts(&format!("{}\n{}", a, b));
    assert_eq!(joined, merge_hosts(&parse_ssh_config_hosts(a), &parse_ssh_config_hosts(b)));
    assert_eq!(joined, strings(&["one", "shared", "three", "two"]));
}
