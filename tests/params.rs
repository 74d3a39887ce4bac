use redis_plot::params::{draw_params_try_from, BindParams, IndexMode, RequestError};

fn strings(v: &[&str]) -> Vec<String> {
    v.iter().map(|s| s.to_string()).collect()
}

fn req(v: &[&str]) -> Result<BindParams, RequestError> {
    draw_params_try_from(strings(v))
}

#[test]
fn defaults_apply() {
    let p = req(&["--list", "la"]).unwrap();
    assert_eq!(
        p,
        BindParams {
            lists: strings(&["la"]),
            width: 400,
            height: 300,
            target: "out_win".to_string(),
            index: IndexMode::Natural,
            open: false,
        }
    );
}

#[test]
fn every_key_is_read() {
    let p = req(&[
        "--width", "640", "--list", "x", "y", "--height", "480", "--target", "key:out", "--index", "zip", "--open",
    ])
    .unwrap();
    assert_eq!(p.lists, strings(&["x", "y"]));
    assert_eq!((p.width, p.height), (640, 480));
    assert_eq!(p.target, "key:out");
    assert_eq!(p.index, IndexMode::Zip);
    assert!(p.open);
}

#[test]
fn index_names() {
    assert_eq!(req(&["--list", "a", "--index", "xy"]).unwrap().index, IndexMode::XY);
    assert_eq!(req(&["--list", "a", "--index", "natural"]).unwrap().index, IndexMode::Natural);
    assert_eq!(req(&["--list", "a", "--index", "other"]), Err(RequestError::BadIndex));
    assert_eq!(req(&["--list", "a", "--index", "zpi"]), Err(RequestError::BadIndex));
    assert_eq!(req(&["--list", "a", "--index", "Zip"]), Err(RequestError::BadIndex));
    assert_eq!(req(&["--list", "a", "--index", ""]), Err(RequestError::BadIndex));
}

#[test]
fn open_values() {
    assert!(!req(&["--list", "a", "--open", "false"]).unwrap().open);
    assert!(req(&["--list", "a", "--open", "true"]).unwrap().open);
    assert_eq!(req(&["--list", "a", "--open", "maybe"]), Err(RequestError::BadOpen));
    assert_eq!(req(&["--list", "a", "--open", "true", "false"]), Err(RequestError::WrongArity));
}

#[test]
fn list_is_required() {
    assert_eq!(req(&[]), Err(RequestError::MissingList));
    assert_eq!(req(&["--width", "3"]), Err(RequestError::MissingList));
    assert_eq!(req(&["--list"]), Err(RequestError::WrongArity));
}

#[test]
fn sizes_must_be_positive_integers() {
    assert_eq!(req(&["--list", "a", "--width", "x"]), Err(RequestError::BadWidth));
    assert_eq!(req(&["--list", "a", "--width", "0"]), Err(RequestError::BadWidth));
    assert_eq!(req(&["--list", "a", "--width", "-4"]), Err(RequestError::BadWidth));
    assert_eq!(req(&["--list", "a", "--height", "1.5"]), Err(RequestError::BadHeight));
    assert_eq!(req(&["--list", "a", "--height", "0"]), Err(RequestError::BadHeight));
    assert_eq!(req(&["--list", "a", "--width", "1", "2"]), Err(RequestError::WrongArity));
    assert_eq!(req(&["--list", "a", "--height"]), Err(RequestError::WrongArity));
    assert_eq!(req(&["--list", "a", "--width", "+12"]).unwrap().width, 12);
}

#[test]
fn single_valued_keys() {
    assert_eq!(req(&["--list", "a", "--target"]), Err(RequestError::WrongArity));
    assert_eq!(req(&["--list", "a", "--target", "t", "u"]), Err(RequestError::WrongArity));
    assert_eq!(req(&["--list", "a", "--index", "zip", "xy"]), Err(RequestError::WrongArity));
}

#[test]
fn zip_needs_two_lists() {
    assert_eq!(req(&["--list", "a", "--index", "zip"]), Err(RequestError::ZipNeedsTwoLists));
    assert_eq!(req(&["--list", "a", "b", "c", "--index", "zip"]), Err(RequestError::ZipNeedsTwoLists));
    assert!(req(&["--list", "a", "b", "--index", "zip"]).is_ok());
}

#[test]
fn errors_come_in_order() {
    assert_eq!(req(&["--list", "a", "--index", "bad", "--open", "maybe"]), Err(RequestError::BadIndex));
    assert_eq!(req(&["--list", "a", "--target", "t", "u", "--index", "bad"]), Err(RequestError::WrongArity));
    assert_eq!(req(&["--list", "a", "--width", "x", "--height", "y"]), Err(RequestError::BadWidth));
    assert_eq!(req(&["--list", "a", "--index", "zip", "--width", "0"]), Err(RequestError::BadWidth));
}
