use redis_plot::extract::{natural_points, plot_spec_try_from, zip_points, Num, Point, Rgb, Sample};
use redis_plot::params::{BindParams, IndexMode, RequestError};

fn text(s: &str) -> Sample {
    Sample::Text(s.to_string())
}

fn params(lists: &[&str], index: IndexMode) -> BindParams {
    BindParams {
        lists: lists.iter().map(|s| s.to_string()).collect(),
        width: 400,
        height: 300,
        target: "out_win".to_string(),
        index,
        open: false,
    }
}

fn pt(x: Num, y: Num) -> Point {
    Point { x, y }
}

#[test]
fn natural_keeps_source_positions() {
    let pts = natural_points(&vec![text("1"), text("x"), text("3")]);
    assert_eq!(
        pts,
        vec![pt(Num::Index(0), Num::Text("1".to_string())), pt(Num::Index(2), Num::Text("3".to_string()))]
    );
}

#[test]
fn natural_takes_integers_and_doubles() {
    let bits = 2.5f64.to_bits();
    let pts = natural_points(&vec![Sample::Integer(-4), Sample::Other, Sample::Real(bits)]);
    assert_eq!(pts, vec![pt(Num::Index(0), Num::Integer(-4)), pt(Num::Index(2), Num::Real(bits))]);
}

#[test]
fn zip_drops_pairs_with_a_bad_side() {
    let xs = vec![text("1"), text("a"), Sample::Integer(3), text("4"), text("5")];
    let ys = vec![Sample::Integer(10), Sample::Integer(20), text("b"), text("40")];
    let pts = zip_points(&xs, &ys);
    assert_eq!(pts, vec![pt(Num::Text("1".to_string()), Num::Integer(10)), pt(Num::Text("4".to_string()), Num::Text("40".to_string()))]);
}

#[test]
fn zip_of_unequal_numeric_lists_has_the_shorter_length() {
    let xs: Vec<Sample> = (0..7).map(Sample::Integer).collect();
    let ys: Vec<Sample> = (0..4).map(Sample::Integer).collect();
    assert_eq!(zip_points(&xs, &ys).len(), 4);
    assert_eq!(zip_points(&ys, &xs).len(), 4);
}

#[test]
fn colours_cycle_and_background_is_white() {
    let replies = vec![Some(vec![]), Some(vec![]), Some(vec![]), Some(vec![])];
    let s = plot_spec_try_from(&params(&["a", "b", "c", "d"], IndexMode::Natural), replies).unwrap();
    let red = Rgb { r: 0xff, g: 0, b: 0 };
    let green = Rgb { r: 0, g: 0xff, b: 0 };
    let blue = Rgb { r: 0, g: 0, b: 0xff };
    assert_eq!(s.color, vec![red, green, blue, red]);
    assert_eq!(s.bg_color, Rgb { r: 0xff, g: 0xff, b: 0xff });
    assert_eq!(s.data.len(), 4);
}

#[test]
fn source_that_is_not_a_list_is_named() {
    let r = plot_spec_try_from(&params(&["a", "nl", "c"], IndexMode::Natural), vec![Some(vec![]), None, None]);
    assert_eq!(r, Err(RequestError::NotAList(1)));
    let r = plot_spec_try_from(&params(&["a", "b"], IndexMode::Zip), vec![Some(vec![]), None]);
    assert_eq!(r, Err(RequestError::NotAList(1)));
    let r = plot_spec_try_from(&params(&["a", "b"], IndexMode::Zip), vec![None, None]);
    assert_eq!(r, Err(RequestError::NotAList(0)));
}

#[test]
fn xy_is_unimplemented() {
    let r = plot_spec_try_from(&params(&["a"], IndexMode::XY), vec![Some(vec![Sample::Integer(1)])]);
    assert_eq!(r, Err(RequestError::Unimplemented));
}

#[test]
fn zip_makes_one_series() {
    let r = plot_spec_try_from(
        &params(&["x", "y"], IndexMode::Zip),
        vec![Some(vec![Sample::Integer(1), Sample::Integer(2)]), Some(vec![text("0.5"), text("nope")])],
    )
    .unwrap();
    assert_eq!(r.data, vec![vec![pt(Num::Integer(1), Num::Text("0.5".to_string()))]]);
    assert_eq!(r.color.len(), 1);
}

#[test]
fn no_numeric_data_is_not_an_error() {
    let r = plot_spec_try_from(
        &params(&["a", "b"], IndexMode::Natural),
        vec![Some(vec![text("x"), Sample::Other]), Some(vec![])],
    )
    .unwrap();
    assert_eq!(r.data, vec![vec![], vec![]]);
}
