use clap::text::is_utf8;
use clap::{ArgMatches, MatchedArg, StringHashMap, SubCommand};
use vec_map::VecMap;

fn matched(occurs: u8, vals: &[(usize, &[u8])]) -> MatchedArg {
    let mut m = VecMap::new();
    for (k, v) in vals {
        m.insert(*k, v.to_vec());
    }
    MatchedArg { occurs, vals: m }
}

fn with_args(args: Vec<(&str, MatchedArg)>) -> ArgMatches {
    let mut m = ArgMatches::new();
    let mut map = StringHashMap::new();
    for (name, a) in args {
        map.insert(name.to_string(), a);
    }
    m.args = map;
    m
}

#[test]
fn new_matches_hold_nothing() {
    let m = ArgMatches::new();
    assert!(!m.is_present("flag"));
    assert_eq!(m.value_of("flag"), None);
    assert_eq!(m.os_value_of("flag"), None);
    assert_eq!(m.lossy_value_of("flag"), None);
    assert!(m.values_of("flag").is_none());
    assert!(m.os_values_of("flag").is_none());
    assert_eq!(m.lossy_values_of("flag"), None);
    assert_eq!(m.occurrences_of("flag"), 0);
    assert_eq!(m.subcommand_name(), None);
    assert!(m.subcommand_matches("test").is_none());
    let (name, sub) = m.subcommand();
    assert_eq!(name, "");
    assert!(sub.is_none());
    assert_eq!(m.usage(), "");
    let d = ArgMatches::default();
    assert!(!d.is_present(""));
}

#[test]
fn single_value_reads_back() {
    let m = with_args(vec![("grp", matched(1, &[(1, b"blue")]))]);
    assert!(m.is_present("grp"));
    assert_eq!(m.value_of("grp"), Some("blue"));
    assert_eq!(m.occurrences_of("grp"), 1);
}

#[test]
fn flag_without_value_is_present_without_value() {
    let m = with_args(vec![("grp", matched(1, &[]))]);
    assert!(m.is_present("grp"));
    assert!(m.value_of("grp").is_none());
    assert!(m.os_value_of("grp").is_none());
    assert!(m.lossy_value_of("grp").is_none());
    let mut vs = m.values_of("grp").unwrap();
    assert_eq!(vs.size_hint(), (0, Some(0)));
    assert_eq!(vs.next(), None);
    assert_eq!(m.lossy_values_of("grp"), Some(vec![]));
}

#[test]
fn absent_argument_is_not_present() {
    let m = with_args(vec![("flag", matched(1, &[]))]);
    assert!(!m.is_present("grp"));
    assert!(m.value_of("grp").is_none());
    assert_eq!(m.occurrences_of("grp"), 0);
}

#[test]
fn value_of_gives_the_value_with_the_lowest_key() {
    // inserted out of order: the order of the keys counts, not that of insertion
    let m = with_args(vec![("color", matched(3, &[(3, b"green"), (1, b"blue"), (2, b"red")]))]);
    assert_eq!(m.value_of("color"), Some("blue"));
    assert_eq!(m.os_value_of("color"), Some(&b"blue"[..]));
    assert_eq!(m.lossy_value_of("color"), Some("blue".to_string()));
    assert_eq!(m.occurrences_of("color"), 3);
}

#[test]
fn values_of_yields_all_values_in_key_order() {
    let m = with_args(vec![("color", matched(1, &[(3, b"green"), (1, b"blue"), (2, b"red")]))]);
    let mut vs = m.values_of("color").unwrap();
    assert_eq!(vs.size_hint(), (3, Some(3)));
    let mut seen = Vec::new();
    while let Some(v) = vs.next() {
        seen.push(v);
    }
    assert_eq!(seen, vec!["blue", "red", "green"]);
    assert_eq!(vs.size_hint(), (0, Some(0)));
    assert_eq!(vs.next(), None);
    assert_eq!(vs.next_back(), None);
}

#[test]
fn values_of_from_both_ends() {
    let m = with_args(vec![("color", matched(1, &[(1, b"blue"), (2, b"red"), (3, b"green")]))]);
    let mut vs = m.values_of("color").unwrap();
    let copy = vs.clone();
    assert_eq!(vs.next_back(), Some("green"));
    // the hint counts the values not yet taken from the front
    assert_eq!(vs.size_hint(), (3, Some(3)));
    assert_eq!(vs.next(), Some("blue"));
    assert_eq!(vs.size_hint(), (2, Some(2)));
    assert_eq!(vs.next_back(), Some("red"));
    assert_eq!(vs.next(), None);
    let mut copy = copy;
    assert_eq!(copy.next(), Some("blue"));
}

#[test]
fn raw_values_keep_invalid_utf8() {
    // "Hi {0xe9}!"
    let m = with_args(vec![("arg", matched(1, &[(1, &[b'H', b'i', b' ', 0xe9, b'!'])]))]);
    assert_eq!(m.os_value_of("arg"), Some(&[b'H', b'i', b' ', 0xe9, b'!'][..]));
    assert_eq!(m.lossy_value_of("arg").unwrap(), "Hi \u{FFFD}!");
}

#[test]
fn os_values_of_yields_raw_values() {
    let m = with_args(vec![("arg", matched(1, &[(1, b"Hi"), (2, &[0xe9, b'!'])]))]);
    let mut it = m.os_values_of("arg").unwrap();
    assert_eq!(it.size_hint(), (2, Some(2)));
    let copy = it.clone();
    assert_eq!(it.next(), Some(&b"Hi"[..]));
    assert_eq!(it.next(), Some(&[0xe9, b'!'][..]));
    assert_eq!(it.next(), None);
    assert_eq!(it.size_hint(), (0, Some(0)));
    let mut back = copy;
    assert_eq!(back.next_back(), Some(&[0xe9, b'!'][..]));
    assert_eq!(back.next_back(), Some(&b"Hi"[..]));
    assert_eq!(back.size_hint(), (2, Some(2)));
    assert_eq!(back.next_back(), None);
    assert_eq!(back.next(), None);
    assert_eq!(back.size_hint(), (2, Some(2)));
}

#[test]
fn lossy_values_replace_each_invalid_value() {
    let m = with_args(vec![("arg", matched(1, &[(1, b"Hi"), (2, &[0xe9, b'!'])]))]);
    let vs = m.lossy_values_of("arg").unwrap();
    assert_eq!(vs, vec!["Hi".to_string(), "\u{FFFD}!".to_string()]);
}

#[test]
fn subcommand_is_found_by_its_name() {
    let mut inner = with_args(vec![("list", matched(2, &[]))]);
    inner.usage = Some("myapp test [FLAGS]".to_string());
    let mut m = with_args(vec![("debug", matched(1, &[]))]);
    m.subcommand = Some(Box::new(SubCommand { name: "test".to_string(), matches: inner }));
    m.usage = Some("myapp [FLAGS] [SUBCOMMAND]".to_string());
    assert!(m.is_present("test"));
    assert!(m.is_present("debug"));
    assert!(!m.is_present("list"));
    assert_eq!(m.subcommand_name(), Some("test"));
    let sub = m.subcommand_matches("test").unwrap();
    assert!(sub.is_present("list"));
    assert_eq!(sub.occurrences_of("list"), 2);
    assert_eq!(sub.usage(), "myapp test [FLAGS]");
    assert!(m.subcommand_matches("config").is_none());
    let (name, sub2) = m.subcommand();
    assert_eq!(name, "test");
    assert!(sub2.unwrap().is_present("list"));
    assert_eq!(m.usage(), "myapp [FLAGS] [SUBCOMMAND]");
}

#[test]
fn subcommand_matches_without_subcommand_is_none() {
    let m = with_args(vec![("debug", matched(1, &[]))]);
    assert!(m.subcommand_matches("test").is_none());
}

#[test]
fn is_utf8_tells_text_from_other_bytes() {
    assert!(is_utf8(b"blue"));
    assert!(is_utf8("h\u{e9}".as_bytes()));
    assert!(!is_utf8(&[b'H', b'i', b' ', 0xe9, b'!']));
    assert!(!is_utf8(&[0xed, 0xa0, 0x80]));
    assert!(is_utf8(&[]));
}
