use redis_plot::bitmap::{frame_bitmap, pixel_len, read_header};
use redis_plot::echo::echo_reply;
use redis_plot::extract::{plot_spec_try_from, Sample};
use redis_plot::params::{draw_params_try_from, RequestError};

/// RLE encoding of a slice.
fn rle(v: &[u8]) -> Vec<(usize, u8)> {
    let mut out: Vec<(usize, u8)> = Vec::new();
    for b in v.iter() {
        match out.last_mut() {
            Some((c, last)) if last == b => *c += 1,
            _ => out.push((1, *b)),
        }
    }
    out
}

fn strings(v: &[&str]) -> Vec<String> {
    v.iter().map(|s| s.to_string()).collect()
}

fn ints(v: &[i64]) -> Vec<Sample> {
    v.iter().map(|x| Sample::Integer(*x)).collect()
}

/// The library's part of a draw: read the request, build the plot from the
/// store's answers, and frame a blank canvas of the requested size.
fn draw(args: &[&str], store: &dyn Fn(&str) -> Option<Vec<Sample>>) -> Result<Vec<u8>, RequestError> {
    let p = draw_params_try_from(strings(args))?;
    let replies = p.lists.iter().map(|l| store(l)).collect();
    plot_spec_try_from(&p, replies)?;
    let n = pixel_len(p.width, p.height).ok_or(RequestError::TooLarge)?;
    Ok(frame_bitmap(p.width, p.height, vec![0xff; n]))
}

fn store(key: &str) -> Option<Vec<Sample>> {
    match key {
        "la" => Some(ints(&[1, 2, 4, 9, 15, 16, 42])),
        "lb" => Some(ints(&[-1, 1, -2, 2, -3, 3, -4, 4])),
        "lc" => Some([0.0f32, 0.5, 1.75, -2.125].iter().map(|x| Sample::Real((*x as f64).to_bits())).collect()),
        "empty" => Some(vec![]),
        "words" => Some(vec![Sample::Text("a".to_string()), Sample::Text("b".to_string())]),
        _ => None,
    }
}

#[test]
fn test_rle() {
    assert_eq!(rle(&vec![]), vec![]);
    assert_eq!(rle(&vec![0x01]), vec![(1, 0x01)]);
    assert_eq!(rle(&vec![0xff]), vec![(1, 0xff)]);
    assert_eq!(rle(&vec![0xff, 0xff, 0xff]), vec![(3, 0xff)]);
    assert_eq!(
        rle(&vec![0xff, 0xff, 0x00, 0x00, 0xff]),
        vec![(2, 0xff), (2, 0x00), (1, 0xff)]
    );
    assert_eq!(
        rle(&vec![0x11, 0x22, 0x33, 0x44, 0x55]),
        vec![(1, 0x11), (1, 0x22), (1, 0x33), (1, 0x44), (1, 0x55)]
    );
}

#[test]
fn test_everything() {
    assert_eq!(echo_reply(strings(&["rsp.echo", "foo", "bar"])), Ok("rsp.echo, foo, bar".to_owned()));

    // The --list argument is required, with one value or more.
    assert!(draw(&[], &store).is_err());
    assert!(draw(&["--list"], &store).is_err());

    // Only lists can be drawn.
    assert_eq!(draw(&["--list", "nl"], &store), Err(RequestError::NotAList(0)));

    // One list, then several.
    let one = draw(&["--list", "la"], &store).unwrap();
    assert_eq!(read_header(&one), Some((400, 300)));
    let three = draw(&["--list", "la", "lb", "lc"], &store).unwrap();
    assert_eq!(three.len(), 16 + 400 * 300 * 3);
    assert_eq!(read_header(&three), Some((400, 300)));
    let p = draw_params_try_from(strings(&["--list", "la", "lb", "lc"])).unwrap();
    let spec = plot_spec_try_from(&p, vec![store("la"), store("lb"), store("lc")]).unwrap();
    assert_eq!(spec.data.iter().map(|s| s.len()).collect::<Vec<_>>(), vec![7, 8, 4]);
}

#[test]
fn default_draw_has_header_and_payload() {
    let out = draw(&["--list", "la"], &store).unwrap();
    assert_eq!(out.len(), 16 + 400 * 300 * 3);
    assert_eq!(read_header(&out), Some((400, 300)));
    assert_eq!(usize::from_be_bytes(out[..8].try_into().unwrap()), 400);
    assert_eq!(usize::from_be_bytes(out[8..16].try_into().unwrap()), 300);
}

#[test]
fn draw_without_numbers_still_draws() {
    let out = draw(&["--list", "words", "empty", "--width", "20", "--height", "10"], &store).unwrap();
    assert_eq!(read_header(&out), Some((20, 10)));
    assert_eq!(out.len() - 16, 20 * 10 * 3);
}

#[test]
fn draw_is_deterministic() {
    let a = draw(&["--list", "la", "lb"], &store).unwrap();
    let b = draw(&["--list", "la", "lb"], &store).unwrap();
    assert_eq!(a, b);
    let p = draw_params_try_from(strings(&["--list", "la", "lb"])).unwrap();
    let s1 = plot_spec_try_from(&p, vec![store("la"), store("lb")]).unwrap();
    let s2 = plot_spec_try_from(&p, vec![store("la"), store("lb")]).unwrap();
    assert_eq!(s1, s2);
}

#[test]
fn zip_arity_is_checked_before_drawing() {
    assert_eq!(draw(&["--list", "la", "--index", "zip"], &store), Err(RequestError::ZipNeedsTwoLists));
    assert!(draw(&["--list", "la", "lb", "--index", "zip"], &store).is_ok());
}

#[test]
fn huge_sizes_are_refused() {
    let w = format!("{}", usize::MAX);
    assert_eq!(draw(&["--list", "la", "--width", &w, "--height", "2"], &store), Err(RequestError::TooLarge));
}
