//! Turning the values stored under the sources into series of points.
use vstd::prelude::*;

use crate::numeric::{is_number, is_number_text};
use crate::params::{BindParams, IndexMode, ParamsModel, RequestError};

verus! {

/// One value as the store holds it.
#[derive(Clone, Debug, PartialEq, Eq)]
pub enum Sample {
    Text(String),
    Integer(i64),
    /// A double, by its IEEE 754 bit pattern.
    Real(u64),
    /// Anything else: a nested array, a null, an error reply.
    Other,
}

pub enum SampleModel {
    Text(Seq<char>),
    Integer(i64),
    Real(u64),
    Other,
}

impl View for Sample {
    type V = SampleModel;

    open spec fn view(&self) -> SampleModel {
        match self {
            Sample::Text(s) => SampleModel::Text(s@),
            Sample::Integer(v) => SampleModel::Integer(*v),
            Sample::Real(b) => SampleModel::Real(*b),
            Sample::Other => SampleModel::Other,
        }
    }
}

/// A coordinate of a point: a position in a source, or a numeric value of it.
#[derive(Clone, Debug, PartialEq, Eq)]
pub enum Num {
    Index(usize),
    Integer(i64),
    /// A double, by its IEEE 754 bit pattern.
    Real(u64),
    /// Text that `is_number_text` accepts.
    Text(String),
}

pub enum NumModel {
    Index(nat),
    Integer(i64),
    Real(u64),
    Text(Seq<char>),
}

impl View for Num {
    type V = NumModel;

    open spec fn view(&self) -> NumModel {
        match self {
            Num::Index(i) => NumModel::Index(*i as nat),
            Num::Integer(v) => NumModel::Integer(*v),
            Num::Real(b) => NumModel::Real(*b),
            Num::Text(s) => NumModel::Text(s@),
        }
    }
}

#[derive(Clone, Debug, PartialEq, Eq)]
pub struct Point {
    pub x: Num,
    pub y: Num,
}

impl View for Point {
    type V = (NumModel, NumModel);

    open spec fn view(&self) -> (NumModel, NumModel) {
        (self.x@, self.y@)
    }
}

/// A colour.
#[derive(Clone, Copy, Debug, PartialEq, Eq, Structural)]
pub struct Rgb {
    pub r: u8,
    pub g: u8,
    pub b: u8,
}

/// What to draw: one series of points per line, a colour for each, and the
/// background colour.
#[derive(Clone, Debug, PartialEq, Eq)]
pub struct PlotSpec {
    pub color: Vec<Rgb>,
    pub data: Vec<Vec<Point>>,
    pub bg_color: Rgb,
}

pub struct PlotModel {
    pub color: Seq<Rgb>,
    pub data: Seq<Seq<(NumModel, NumModel)>>,
    pub bg_color: Rgb,
}

pub open spec fn points_view(v: Seq<Point>) -> Seq<(NumModel, NumModel)> {
    v.map_values(|p: Point| p@)
}

pub open spec fn samples_view(v: Seq<Sample>) -> Seq<SampleModel> {
    v.map_values(|s: Sample| s@)
}

/// The store's answers for the sources, in order: the values of a list, or
/// `None` where the source is not a list.
pub open spec fn replies_view(r: Seq<Option<Vec<Sample>>>) -> Seq<Option<Seq<SampleModel>>> {
    r.map_values(
        |o: Option<Vec<Sample>>|
            match o {
                Some(v) => Some(samples_view(v@)),
                None => None,
            },
    )
}

impl View for PlotSpec {
    type V = PlotModel;

    open spec fn view(&self) -> PlotModel {
        PlotModel {
            color: self.color@,
            data: self.data@.map_values(|s: Vec<Point>| points_view(s@)),
            bg_color: self.bg_color,
        }
    }
}

/// The numeric value of a stored value, if it has one: integers and doubles
/// always, text when it is the text of a number.
pub open spec fn num_of(s: SampleModel) -> Option<NumModel> {
    match s {
        SampleModel::Text(t) => if is_number_text(t) {
            Some(NumModel::Text(t))
        } else {
            None
        },
        SampleModel::Integer(v) => Some(NumModel::Integer(v)),
        SampleModel::Real(b) => Some(NumModel::Real(b)),
        SampleModel::Other => None,
    }
}

/// The points of the first `n` values under the natural index: the numeric
/// values, each at the position it has in its source.
pub open spec fn natural_prefix(vals: Seq<SampleModel>, n: int) -> Seq<(NumModel, NumModel)>
    decreases n,
{
    if n <= 0 {
        Seq::empty()
    } else {
        let r = natural_prefix(vals, n - 1);
        match num_of(vals[n - 1]) {
            Some(y) => r.push((NumModel::Index((n - 1) as nat), y)),
            None => r,
        }
    }
}

pub open spec fn natural_series(vals: Seq<SampleModel>) -> Seq<(NumModel, NumModel)> {
    natural_prefix(vals, vals.len() as int)
}

/// The points of the first `n` pairs of values at equal positions, where both
/// are numeric.
pub open spec fn zip_prefix(xs: Seq<SampleModel>, ys: Seq<SampleModel>, n: int) -> Seq<(NumModel, NumModel)>
    decreases n,
{
    if n <= 0 {
        Seq::empty()
    } else {
        let r = zip_prefix(xs, ys, n - 1);
        match (num_of(xs[n - 1]), num_of(ys[n - 1])) {
            (Some(x), Some(y)) => r.push((x, y)),
            _ => r,
        }
    }
}

pub open spec fn min_len(a: int, b: int) -> int {
    if a < b {
        a
    } else {
        b
    }
}

pub open spec fn zip_series(xs: Seq<SampleModel>, ys: Seq<SampleModel>) -> Seq<(NumModel, NumModel)> {
    zip_prefix(xs, ys, min_len(xs.len() as int, ys.len() as int))
}

/// One natural series for each of the first `n` answers, or the position of
/// the first source that is not a list.
pub open spec fn natural_all(replies: Seq<Option<Seq<SampleModel>>>, n: int) -> Result<
    Seq<Seq<(NumModel, NumModel)>>,
    RequestError,
>
    decreases n,
{
    if n <= 0 {
        Ok(Seq::empty())
    } else {
        match natural_all(replies, n - 1) {
            Err(e) => Err(e),
            Ok(d) => match replies[n - 1] {
                Some(v) => Ok(d.push(natural_series(v))),
                None => Err(RequestError::NotAList((n - 1) as usize)),
            },
        }
    }
}

/// The background colour: white.
pub open spec fn white() -> Rgb {
    Rgb { r: 0xff, g: 0xff, b: 0xff }
}

/// The colour of series `i`: red, green and blue in turn.
pub open spec fn palette(i: int) -> Rgb {
    if i % 3 == 0 {
        Rgb { r: 0xff, g: 0x00, b: 0x00 }
    } else if i % 3 == 1 {
        Rgb { r: 0x00, g: 0xff, b: 0x00 }
    } else {
        Rgb { r: 0x00, g: 0x00, b: 0xff }
    }
}

/// The plot of given series: colours from the palette, white background.
pub open spec fn plot_of(data: Seq<Seq<(NumModel, NumModel)>>) -> PlotModel {
    PlotModel { color: Seq::new(data.len(), |i: int| palette(i)), data, bg_color: white() }
}

/// What a request draws from the store's answers for its sources.
pub open spec fn plot_model(p: ParamsModel, replies: Seq<Option<Seq<SampleModel>>>) -> Result<
    PlotModel,
    RequestError,
> {
    match p.index {
        IndexMode::XY => Err(RequestError::Unimplemented),
        IndexMode::Zip => match (replies[0], replies[1]) {
            (None, _) => Err(RequestError::NotAList(0)),
            (Some(_), None) => Err(RequestError::NotAList(1)),
            (Some(xs), Some(ys)) => Ok(plot_of(seq![zip_series(xs, ys)])),
        },
        IndexMode::Natural => match natural_all(replies, replies.len() as int) {
            Ok(d) => Ok(plot_of(d)),
            Err(e) => Err(e),
        },
    }
}

/// Once a source is not a list, the answers after it do not matter.
proof fn lemma_natural_error_stays(replies: Seq<Option<Seq<SampleModel>>>, m: int, n: int)
    requires
        0 <= m <= n,
        natural_all(replies, m) is Err,
    ensures
        natural_all(replies, n) == natural_all(replies, m),
    decreases n - m,
{
    if m < n {
        lemma_natural_error_stays(replies, m, n - 1);
    }
}

fn to_num(s: &Sample) -> (r: Option<Num>)
    ensures
        match r {
            Some(n) => num_of(s@) == Some(n@),
            None => num_of(s@) is None,
        },
{
    match s {
        Sample::Text(t) => if is_number(t.as_str()) {
            Some(Num::Text(t.clone()))
        } else {
            None
        },
        Sample::Integer(v) => Some(Num::Integer(*v)),
        Sample::Real(b) => Some(Num::Real(*b)),
        Sample::Other => None,
    }
}

/// The series of one source under the natural index.
pub fn natural_points(vals: &Vec<Sample>) -> (r: Vec<Point>)
    ensures
        points_view(r@) == natural_series(samples_view(vals@)),
{
    let ghost sv = samples_view(vals@);
    let mut r: Vec<Point> = Vec::new();
    let mut i: usize = 0;
    while i < vals.len()
        invariant
            i <= vals@.len(),
            sv == samples_view(vals@),
            points_view(r@) == natural_prefix(sv, i as int),
        decreases vals@.len() - i,
    {
        let ghost r0 = r@;
        assert(sv[i as int] == vals@[i as int]@);
        match to_num(&vals[i]) {
            Some(y) => {
                let p = Point { x: Num::Index(i), y };
                r.push(p);
                assert(points_view(r@) =~= points_view(r0).push(p@));
            },
            None => {},
        }
        i = i + 1;
    }
    r
}

/// The series of two sources under the zip index.
pub fn zip_points(xs: &Vec<Sample>, ys: &Vec<Sample>) -> (r: Vec<Point>)
    ensures
        points_view(r@) == zip_series(samples_view(xs@), samples_view(ys@)),
{
    let ghost xv = samples_view(xs@);
    let ghost yv = samples_view(ys@);
    let n = if xs.len() < ys.len() {
        xs.len()
    } else {
        ys.len()
    };
    let mut r: Vec<Point> = Vec::new();
    let mut i: usize = 0;
    while i < n
        invariant
            i <= n,
            n == min_len(xs@.len() as int, ys@.len() as int),
            xv == samples_view(xs@),
            yv == samples_view(ys@),
            points_view(r@) == zip_prefix(xv, yv, i as int),
        decreases n - i,
    {
        let ghost r0 = r@;
        assert(xv[i as int] == xs@[i as int]@);
        assert(yv[i as int] == ys@[i as int]@);
        match (to_num(&xs[i]), to_num(&ys[i])) {
            (Some(x), Some(y)) => {
                let p = Point { x, y };
                r.push(p);
                assert(points_view(r@) =~= points_view(r0).push(p@));
            },
            _ => {},
        }
        i = i + 1;
    }
    r
}

fn palette_color(i: usize) -> (c: Rgb)
    ensures
        c == palette(i as int),
{
    if i % 3 == 0 {
        Rgb { r: 0xff, g: 0x00, b: 0x00 }
    } else if i % 3 == 1 {
        Rgb { r: 0x00, g: 0xff, b: 0x00 }
    } else {
        Rgb { r: 0x00, g: 0x00, b: 0xff }
    }
}

fn plot_from(data: Vec<Vec<Point>>) -> (r: PlotSpec)
    ensures
        r@ == plot_of(data@.map_values(|s: Vec<Point>| points_view(s@))),
{
    let mut color: Vec<Rgb> = Vec::new();
    let mut i: usize = 0;
    while i < data.len()
        invariant
            i <= data@.len(),
            color@ == Seq::new(i as nat, |k: int| palette(k)),
        decreases data@.len() - i,
    {
        color.push(palette_color(i));
        assert(color@ =~= Seq::new((i + 1) as nat, |k: int| palette(k)));
        i = i + 1;
    }
    let r = PlotSpec { color, data, bg_color: Rgb { r: 0xff, g: 0xff, b: 0xff } };
    assert(r@.color =~= plot_of(data@.map_values(|s: Vec<Point>| points_view(s@))).color);
    r
}

/// Builds what to draw for a request from the store's answers for its sources,
/// one answer per source in order. The natural index draws one series per
/// source; the zip index one series from its two sources; the xy index is
/// refused as not implemented. A source that is not a list is an error that
/// names its position.
pub fn plot_spec_try_from(args: &BindParams, replies: Vec<Option<Vec<Sample>>>) -> (r: Result<PlotSpec, RequestError>)
    requires
        replies@.len() == args.lists@.len(),
        args.index == IndexMode::Zip ==> args.lists@.len() == 2,
    ensures
        match r {
            Ok(s) => plot_model(args@, replies_view(replies@)) == Ok::<PlotModel, RequestError>(s@),
            Err(e) => plot_model(args@, replies_view(replies@)) == Err::<PlotModel, RequestError>(e),
        },
{
    let ghost rv = replies_view(replies@);
    match args.index {
        IndexMode::XY => Err(RequestError::Unimplemented),
        IndexMode::Zip => {
            assert(rv[0] == (match replies@[0] { Some(v) => Some(samples_view(v@)), None => None::<Seq<SampleModel>> }));
            assert(rv[1] == (match replies@[1] { Some(v) => Some(samples_view(v@)), None => None::<Seq<SampleModel>> }));
            match (&replies[0], &replies[1]) {
                (None, _) => Err(RequestError::NotAList(0)),
                (Some(_), None) => Err(RequestError::NotAList(1)),
                (Some(xs), Some(ys)) => {
                    let s = zip_points(xs, ys);
                    let mut data: Vec<Vec<Point>> = Vec::new();
                    data.push(s);
                    let ghost d = data@.map_values(|s: Vec<Point>| points_view(s@));
                    assert(d =~= seq![zip_series(samples_view(xs@), samples_view(ys@))]);
                    Ok(plot_from(data))
                },
            }
        },
        IndexMode::Natural => {
            let mut data: Vec<Vec<Point>> = Vec::new();
            assert(data@.map_values(|s: Vec<Point>| points_view(s@)) =~= Seq::empty());
            let mut k: usize = 0;
            while k < replies.len()
                invariant
                    k <= replies@.len(),
                    args.index == IndexMode::Natural,
                    rv == replies_view(replies@),
                    natural_all(rv, k as int) == Ok::<Seq<Seq<(NumModel, NumModel)>>, RequestError>(
                        data@.map_values(|s: Vec<Point>| points_view(s@)),
                    ),
                decreases replies@.len() - k,
            {
                assert(rv[k as int] == (match replies@[k as int] { Some(v) => Some(samples_view(v@)), None => None::<Seq<SampleModel>> }));
                match &replies[k] {
                    None => {
                        proof {
                            assert(natural_all(rv, k + 1) == Err::<Seq<Seq<(NumModel, NumModel)>>, RequestError>(
                                RequestError::NotAList(k),
                            ));
                            lemma_natural_error_stays(rv, k + 1, rv.len() as int);
                        }
                        return Err(RequestError::NotAList(k));
                    },
                    Some(v) => {
                        let ghost d0 = data@;
                        let s = natural_points(v);
                        data.push(s);
                        assert(data@.map_values(|s: Vec<Point>| points_view(s@)) =~= d0.map_values(
                            |s: Vec<Point>| points_view(s@),
                        ).push(natural_series(samples_view(v@))));
                    },
                }
                k = k + 1;
            }
            Ok(plot_from(data))
        },
    }
}

} // verus!
