use redis_plot::argparse::{parse_args, ArgMap};
use std::collections::HashMap;

fn to_map(m: &ArgMap) -> HashMap<String, Vec<String>> {
    let mut out = HashMap::new();
    for k in m.keys().iter() {
        out.insert(k.clone(), m.get(k.as_str()).unwrap().clone());
    }
    out
}

fn strings(v: &[&str]) -> Vec<String> {
    v.iter().map(|s| s.to_string()).collect()
}

#[test]
fn test_parse_args() {
    let target = {
        let mut m = HashMap::new();
        m.insert("--foo".to_owned(), vec!["1".to_owned(), "11".to_owned()]);
        m.insert("--bar".to_owned(), vec![]);
        m.insert("--baz".to_owned(), vec!["2".to_owned()]);
        m
    };

    assert_eq!(
        to_map(&parse_args(
            vec!["--foo", "1", "11", "--bar", "--baz", "2"]
                .into_iter()
                .map(|s| s.to_owned())
                .collect()
        )),
        target
    );

    assert_eq!(
        to_map(&parse_args(
            vec!["--foo", "1", "--foo", "11", "--baz", "2", "--bar"]
                .into_iter()
                .map(|s| s.to_owned())
                .collect()
        )),
        target
    );

    assert_eq!(to_map(&parse_args(vec![])), HashMap::new());
}

#[test]
fn values_before_any_flag_go_to_the_empty_key() {
    let m = parse_args(strings(&["a", "b", "--x", "c"]));
    assert_eq!(m.get(""), Some(&strings(&["a", "b"])));
    assert_eq!(m.get("--x"), Some(&strings(&["c"])));
    assert_eq!(m.keys(), &strings(&["", "--x"]));
    assert_eq!(m.get("--y"), None);
}

#[test]
fn single_dash_is_a_value() {
    let m = parse_args(strings(&["--n", "-3", "-", "--"]));
    assert_eq!(m.get("--n"), Some(&strings(&["-3", "-"])));
    assert_eq!(m.get("--"), Some(&Vec::new()));
}
