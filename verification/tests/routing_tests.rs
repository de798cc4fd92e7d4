use mihttp::config::{parse_config, ServerEntry};
use mihttp::routing::RoutingTable;

fn entry(name: &str, port: u16, upstream: &str) -> ServerEntry {
    ServerEntry { name: name.to_string(), port, upstream: upstream.to_string() }
}

#[test]
fn lookup_finds_the_entry_of_the_name() {
    let table = RoutingTable::build(vec![
        entry("a.test", 1, "10.0.0.1:80"),
        entry("b.test", 2, "10.0.0.2:80"),
    ]);
    assert_eq!(table.lookup("a.test"), Some(&entry("a.test", 1, "10.0.0.1:80")));
    assert_eq!(table.lookup("b.test"), Some(&entry("b.test", 2, "10.0.0.2:80")));
}

#[test]
fn lookup_of_an_unknown_name_finds_nothing() {
    let table = RoutingTable::build(vec![entry("a.test", 1, "10.0.0.1:80")]);
    assert_eq!(table.lookup("c.test"), None);
    assert_eq!(table.lookup(""), None);
    assert_eq!(table.lookup("a.test "), None);
    assert_eq!(table.lookup("a.tes"), None);
    assert_eq!(table.lookup("10.0.0.1:80"), None);
}

#[test]
fn lookup_tells_upper_from_lower_case() {
    let table = RoutingTable::build(vec![entry("Example.com", 1, "u1"), entry("example.com", 2, "u2")]);
    assert_eq!(table.lookup("Example.com"), Some(&entry("Example.com", 1, "u1")));
    assert_eq!(table.lookup("example.com"), Some(&entry("example.com", 2, "u2")));
    assert_eq!(table.lookup("EXAMPLE.COM"), None);
}

#[test]
fn of_two_entries_with_one_name_the_later_wins() {
    let a = entry("x", 1, "u1");
    let b = entry("x", 2, "u2");
    let table = RoutingTable::build(vec![a, b.clone()]);
    assert_eq!(table.lookup("x"), Some(&b));
}

#[test]
fn the_last_of_many_entries_with_one_name_wins() {
    let table = RoutingTable::build(vec![
        entry("x", 1, "u1"),
        entry("y", 2, "u2"),
        entry("x", 3, "u3"),
        entry("z", 4, "u4"),
        entry("x", 5, "u5"),
        entry("y", 6, "u6"),
    ]);
    assert_eq!(table.lookup("x"), Some(&entry("x", 5, "u5")));
    assert_eq!(table.lookup("y"), Some(&entry("y", 6, "u6")));
    assert_eq!(table.lookup("z"), Some(&entry("z", 4, "u4")));
}

#[test]
fn the_empty_table_knows_no_name() {
    let table = RoutingTable::build(vec![]);
    assert_eq!(table.lookup("x"), None);
    assert_eq!(table.lookup(""), None);
}

#[test]
fn a_table_takes_any_entries() {
    let table = RoutingTable::build(vec![entry("", 0, ""), entry("a b", 1, "c/d")]);
    assert_eq!(table.lookup(""), Some(&entry("", 0, "")));
    assert_eq!(table.lookup("a b"), Some(&entry("a b", 1, "c/d")));
}

#[test]
fn a_table_is_built_from_a_configuration() {
    let text = "server { servername a.test; port 80; proxy_pass 10.0.0.1:8080; }\n\
                server { servername b.test; port 81; proxy_pass 10.0.0.2:8080; }\n\
                server { servername a.test; port 82; proxy_pass 10.0.0.3:8080; }\n";
    let (entries, _) = parse_config(text).unwrap();
    let table = RoutingTable::build(entries);
    assert_eq!(table.lookup("a.test"), Some(&entry("a.test", 82, "10.0.0.3:8080")));
    assert_eq!(table.lookup("b.test"), Some(&entry("b.test", 81, "10.0.0.2:8080")));
}
