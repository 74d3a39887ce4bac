use redis_plot::dispatcher::{Dispatcher, RedrawAction};
use redis_plot::extract::{Num, Point, Sample};
use redis_plot::params::{draw_params_try_from, BindParams, RequestError};
use redis_plot::registry::{forward, Registry};
use std::cell::RefCell;

fn strings(v: &[&str]) -> Vec<String> {
    v.iter().map(|s| s.to_string()).collect()
}

fn request(v: &[&str]) -> BindParams {
    draw_params_try_from(strings(v)).unwrap()
}

fn ints(v: &[i64]) -> Vec<Sample> {
    v.iter().map(|x| Sample::Integer(*x)).collect()
}

#[test]
fn registry_keeps_order_and_repeats() {
    let mut r = Registry::new();
    assert_eq!(r.notify("k"), Vec::<usize>::new());
    r.subscribe("k", 3);
    r.subscribe("j", 1);
    r.subscribe("k", 0);
    r.subscribe("k", 3);
    assert_eq!(r.notify("k"), vec![3, 0, 3]);
    assert_eq!(r.notify("j"), vec![1]);
    assert_eq!(r.notify("x"), Vec::<usize>::new());
}

#[test]
fn bind_then_append_redraws_only_that_target() {
    let mut reg = Registry::new();
    let mut d = Dispatcher::new();
    let t = d.bind(&mut reg, request(&["--list", "la", "--target", "key:la_output"])).unwrap();
    assert_eq!(t, 0);
    assert!(d.plot(t).is_none());

    // An append to `la` is announced to exactly this target, once.
    let told = reg.notify("la");
    assert_eq!(told, vec![t]);
    let lists = d.request(t).unwrap().lists.clone();
    assert_eq!(lists, strings(&["la"]));
    let action = d.redraw(t, vec![Some(ints(&[1, 2, 4, 9, 15, 16, 42, 4, 8]))]);
    assert_eq!(action, RedrawAction::Draw { present: true });
    assert_eq!(d.plot(t).unwrap().data[0].len(), 9);

    // An append to an unrelated list tells no one.
    assert_eq!(reg.notify("lb"), Vec::<usize>::new());
}

#[test]
fn many_binds_on_one_source_are_all_told() {
    let mut reg = Registry::new();
    let mut d = Dispatcher::new();
    let n = 5;
    for i in 0..n {
        let t = d.bind(&mut reg, request(&["--list", "k", "--target", &format!("w{}", i)])).unwrap();
        assert_eq!(t, i);
    }
    assert_eq!(reg.notify("k"), (0..n).collect::<Vec<_>>());
}

#[test]
fn binds_are_independent() {
    let mut reg = Registry::new();
    let mut d = Dispatcher::new();
    let a = d.bind(&mut reg, request(&["--list", "x", "--open"])).unwrap();
    let b = d.bind(&mut reg, request(&["--list", "x", "y"])).unwrap();
    assert_eq!((a, b), (0, 1));
    assert_eq!(reg.notify("x"), vec![0, 1]);
    assert_eq!(reg.notify("y"), vec![1]);
    assert_eq!(d.redraw(a, vec![Some(ints(&[1]))]), RedrawAction::Draw { present: false });
    assert!(d.plot(b).is_none());
    assert_eq!(d.plot(a).unwrap().data, vec![vec![Point { x: Num::Index(0), y: Num::Integer(1) }]]);
}

#[test]
fn failed_redraw_keeps_the_old_plot() {
    let mut reg = Registry::new();
    let mut d = Dispatcher::new();
    let t = d.bind(&mut reg, request(&["--list", "a"])).unwrap();
    d.redraw(t, vec![Some(ints(&[7]))]);
    let before = d.plot(t).unwrap().clone();
    assert_eq!(d.redraw(t, vec![None]), RedrawAction::Skip(RequestError::NotAList(0)));
    assert_eq!(d.plot(t).unwrap(), &before);
}

#[test]
fn redraw_replaces_the_plot_whole() {
    let mut reg = Registry::new();
    let mut d = Dispatcher::new();
    let t = d.bind(&mut reg, request(&["--list", "a"])).unwrap();
    d.redraw(t, vec![Some(ints(&[1, 2, 3]))]);
    d.redraw(t, vec![Some(ints(&[5]))]);
    assert_eq!(d.plot(t).unwrap().data, vec![vec![Point { x: Num::Index(0), y: Num::Integer(5) }]]);
}

#[test]
fn unknown_target_and_stopped_loop_are_ignored() {
    let mut reg = Registry::new();
    let mut d = Dispatcher::new();
    assert_eq!(d.redraw(0, vec![]), RedrawAction::Ignored);
    let t = d.bind(&mut reg, request(&["--list", "a"])).unwrap();
    assert!(!d.is_stopped());
    d.quit();
    assert!(d.is_stopped());
    assert_eq!(d.redraw(t, vec![Some(ints(&[1]))]), RedrawAction::Ignored);
    assert!(d.plot(t).is_none());
    assert_eq!(d.bind(&mut reg, request(&["--list", "a"])), None);
    assert_eq!(reg.notify("a"), vec![0]);
}

#[test]
fn a_failed_delivery_does_not_stop_the_others() {
    let mut reg = Registry::new();
    let mut d = Dispatcher::new();
    for _ in 0..3 {
        d.bind(&mut reg, request(&["--list", "k"])).unwrap();
    }
    let tried = RefCell::new(vec![]);
    // The window of target 1 is gone.
    let delivered = forward(&reg.notify("k"), |t| {
        tried.borrow_mut().push(t);
        t != 1
    });
    assert_eq!(delivered, vec![true, false, true]);
    assert_eq!(tried.into_inner(), vec![0, 1, 2]);
}

#[test]
fn forward_to_no_one_sends_nothing() {
    let tried = RefCell::new(0);
    let delivered = forward(&vec![], |_| {
        *tried.borrow_mut() += 1;
        true
    });
    assert!(delivered.is_empty());
    assert_eq!(tried.into_inner(), 0);
}
