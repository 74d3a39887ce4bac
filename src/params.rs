//! What a plot request asks for, and how a request is read from its tokens.
use vstd::prelude::*;

use crate::argparse::{arg_model, clone_strings, parse_args, strings_view, ArgMap};
use crate::numeric::{parse_uint, uint_of};

verus! {

/// How the stored values of the sources become points.
#[derive(Clone, Copy, Debug, PartialEq, Eq, Structural)]
pub enum IndexMode {
    /// Each source is one series; a value's position is its x coordinate.
    Natural,
    /// Two sources: the first gives the x coordinates, the second the y ones.
    Zip,
    /// x and y interleaved in one source; not supported.
    XY,
}

/// Why a request could not be served.
#[derive(Clone, Copy, Debug, PartialEq, Eq, Structural)]
pub enum RequestError {
    /// No `--list` key was given.
    MissingList,
    /// A key was given with the wrong number of values.
    WrongArity,
    /// The width is not a positive integer.
    BadWidth,
    /// The height is not a positive integer.
    BadHeight,
    /// The `--index` value is none of `natural`, `zip` and `xy`.
    BadIndex,
    /// The `--open` value is neither `true` nor `false`.
    BadOpen,
    /// The zip index needs exactly two sources.
    ZipNeedsTwoLists,
    /// The source at this position of the request is not a list.
    NotAList(usize),
    /// The requested index mode is not implemented.
    Unimplemented,
    /// The image would not fit in memory.
    TooLarge,
}

/// A validated request: which sources to plot, on what surface, and how.
#[derive(Clone, Debug, PartialEq, Eq)]
pub struct BindParams {
    pub lists: Vec<String>,
    pub width: usize,
    pub height: usize,
    pub target: String,
    pub index: IndexMode,
    /// Whether the surface is shown at once, rather than on the first update.
    pub open: bool,
}

/// The mathematical content of a `BindParams`.
pub struct ParamsModel {
    pub lists: Seq<Seq<char>>,
    pub width: nat,
    pub height: nat,
    pub target: Seq<char>,
    pub index: IndexMode,
    pub open: bool,
}

impl View for BindParams {
    type V = ParamsModel;

    open spec fn view(&self) -> ParamsModel {
        ParamsModel {
            lists: strings_view(self.lists@),
            width: self.width as nat,
            height: self.height as nat,
            target: self.target@,
            index: self.index,
            open: self.open,
        }
    }
}

impl ParamsModel {
    /// What every request that passed validation satisfies.
    pub open spec fn valid(&self) -> bool {
        &&& self.lists.len() > 0
        &&& self.width > 0
        &&& self.height > 0
        &&& self.index == IndexMode::Zip ==> self.lists.len() == 2
    }
}

pub const DEFAULT_WIDTH: usize = 400;

pub const DEFAULT_HEIGHT: usize = 300;

/// A size given under `key`: the default when absent, else exactly one positive
/// integer that fits a `usize`.
pub open spec fn size_arg(m: Map<Seq<char>, Seq<Seq<char>>>, key: Seq<char>, dflt: nat, bad: RequestError) -> Result<nat, RequestError> {
    if !m.contains_key(key) {
        Ok(dflt)
    } else if m[key].len() != 1 {
        Err(RequestError::WrongArity)
    } else {
        match uint_of(m[key][0]) {
            Some(v) => if 0 < v <= usize::MAX {
                Ok(v)
            } else {
                Err(bad)
            },
            None => Err(bad),
        }
    }
}

/// A text given under `key`: none when absent, else exactly one value.
pub open spec fn text_arg(m: Map<Seq<char>, Seq<Seq<char>>>, key: Seq<char>) -> Result<Option<Seq<char>>, RequestError> {
    if !m.contains_key(key) {
        Ok(None)
    } else if m[key].len() != 1 {
        Err(RequestError::WrongArity)
    } else {
        Ok(Some(m[key][0]))
    }
}

/// The `--open` flag: false when absent, true when given alone, else one
/// value `true` or `false`.
pub open spec fn open_arg(m: Map<Seq<char>, Seq<Seq<char>>>) -> Result<bool, RequestError> {
    let key = "--open"@;
    if !m.contains_key(key) {
        Ok(false)
    } else if m[key].len() == 0 {
        Ok(true)
    } else if m[key].len() > 1 {
        Err(RequestError::WrongArity)
    } else if m[key][0] == seq!['t', 'r', 'u', 'e'] {
        Ok(true)
    } else if m[key][0] == seq!['f', 'a', 'l', 's', 'e'] {
        Ok(false)
    } else {
        Err(RequestError::BadOpen)
    }
}

/// The index mode that a `--index` value names: `natural`, `zip` or `xy`,
/// the natural index when the key is absent, and none for any other value.
pub open spec fn index_named(t: Option<Seq<char>>) -> Option<IndexMode> {
    match t {
        Some(s) => if s == seq!['n', 'a', 't', 'u', 'r', 'a', 'l'] {
            Some(IndexMode::Natural)
        } else if s == seq!['z', 'i', 'p'] {
            Some(IndexMode::Zip)
        } else if s == seq!['x', 'y'] {
            Some(IndexMode::XY)
        } else {
            None
        },
        None => Some(IndexMode::Natural),
    }
}

/// The request that a token sequence makes, or the first thing wrong with it,
/// checked in this order: `--list`, `--width`, `--height`, `--target`,
/// the number of `--index` values, the `--index` value, `--open`, and last
/// the number of sources for the zip index.
pub open spec fn request_model(args: Seq<Seq<char>>) -> Result<ParamsModel, RequestError> {
    let m = arg_model(args);
    if !m.contains_key("--list"@) {
        Err(RequestError::MissingList)
    } else if m["--list"@].len() == 0 {
        Err(RequestError::WrongArity)
    } else if size_arg(m, "--width"@, DEFAULT_WIDTH as nat, RequestError::BadWidth) is Err {
        Err(size_arg(m, "--width"@, DEFAULT_WIDTH as nat, RequestError::BadWidth)->Err_0)
    } else if size_arg(m, "--height"@, DEFAULT_HEIGHT as nat, RequestError::BadHeight) is Err {
        Err(size_arg(m, "--height"@, DEFAULT_HEIGHT as nat, RequestError::BadHeight)->Err_0)
    } else if text_arg(m, "--target"@) is Err {
        Err(RequestError::WrongArity)
    } else if text_arg(m, "--index"@) is Err {
        Err(RequestError::WrongArity)
    } else if index_named(text_arg(m, "--index"@)->Ok_0) is None {
        Err(RequestError::BadIndex)
    } else if open_arg(m) is Err {
        Err(open_arg(m)->Err_0)
    } else if index_named(text_arg(m, "--index"@)->Ok_0) == Some(IndexMode::Zip) && m["--list"@].len() != 2 {
        Err(RequestError::ZipNeedsTwoLists)
    } else {
        Ok(
            ParamsModel {
                lists: m["--list"@],
                width: size_arg(m, "--width"@, DEFAULT_WIDTH as nat, RequestError::BadWidth)->Ok_0,
                height: size_arg(m, "--height"@, DEFAULT_HEIGHT as nat, RequestError::BadHeight)->Ok_0,
                target: match text_arg(m, "--target"@)->Ok_0 {
                    Some(t) => t,
                    None => "out_win"@,
                },
                index: index_named(text_arg(m, "--index"@)->Ok_0)->Some_0,
                open: open_arg(m)->Ok_0,
            },
        )
    }
}

fn text_is(s: &String, w: &Vec<char>) -> (r: bool)
    ensures
        r == (s@ == w@),
{
    let n = s.as_str().unicode_len();
    if n != w.len() {
        return false;
    }
    let mut i: usize = 0;
    while i < n
        invariant
            n == s@.len(),
            n == w@.len(),
            i <= n,
            forall|j: int| 0 <= j < i ==> s@[j] == w@[j],
        decreases n - i,
    {
        if s.as_str().get_char(i) != w[i] {
            return false;
        }
        i = i + 1;
    }
    assert(s@ =~= w@);
    true
}

fn read_size(m: &ArgMap, key: &str, dflt: usize, bad: RequestError) -> (r: Result<usize, RequestError>)
    requires
        m.wf(),
    ensures
        match r {
            Ok(v) => size_arg(m@, key@, dflt as nat, bad) == Ok::<nat, RequestError>(v as nat),
            Err(e) => size_arg(m@, key@, dflt as nat, bad) == Err::<nat, RequestError>(e),
        },
{
    match m.get(key) {
        None => Ok(dflt),
        Some(a) => {
            if a.len() != 1 {
                return Err(RequestError::WrongArity);
            }
            assert(strings_view(a@)[0] == a@[0]@);
            match parse_uint(a[0].as_str()) {
                Some(v) => if v > 0 {
                    Ok(v)
                } else {
                    Err(bad)
                },
                None => Err(bad),
            }
        },
    }
}

fn read_text(m: &ArgMap, key: &str) -> (r: Result<Option<String>, RequestError>)
    requires
        m.wf(),
    ensures
        match r {
            Ok(Some(t)) => text_arg(m@, key@) == Ok::<Option<Seq<char>>, RequestError>(Some(t@)),
            Ok(None) => text_arg(m@, key@) == Ok::<Option<Seq<char>>, RequestError>(None),
            Err(e) => text_arg(m@, key@) == Err::<Option<Seq<char>>, RequestError>(e),
        },
{
    match m.get(key) {
        None => Ok(None),
        Some(a) => {
            if a.len() != 1 {
                return Err(RequestError::WrongArity);
            }
            assert(strings_view(a@)[0] == a@[0]@);
            Ok(Some(a[0].clone()))
        },
    }
}

fn read_open(m: &ArgMap) -> (r: Result<bool, RequestError>)
    requires
        m.wf(),
    ensures
        r == open_arg(m@),
{
    match m.get("--open") {
        None => Ok(false),
        Some(a) => {
            if a.len() == 0 {
                return Ok(true);
            }
            if a.len() > 1 {
                return Err(RequestError::WrongArity);
            }
            assert(strings_view(a@)[0] == a@[0]@);
            let yes = vec!['t', 'r', 'u', 'e'];
            let no = vec!['f', 'a', 'l', 's', 'e'];
            assert(yes@ =~= seq!['t', 'r', 'u', 'e']);
            assert(no@ =~= seq!['f', 'a', 'l', 's', 'e']);
            if text_is(&a[0], &yes) {
                Ok(true)
            } else if text_is(&a[0], &no) {
                Ok(false)
            } else {
                Err(RequestError::BadOpen)
            }
        },
    }
}

fn index_from(t: &Option<String>) -> (r: Option<IndexMode>)
    ensures
        r == index_named(match t {
            Some(s) => Some(s@),
            None => None::<Seq<char>>,
        }),
{
    match t {
        None => Some(IndexMode::Natural),
        Some(s) => {
            let natural = vec!['n', 'a', 't', 'u', 'r', 'a', 'l'];
            let zip = vec!['z', 'i', 'p'];
            let xy = vec!['x', 'y'];
            assert(natural@ =~= seq!['n', 'a', 't', 'u', 'r', 'a', 'l']);
            assert(zip@ =~= seq!['z', 'i', 'p']);
            assert(xy@ =~= seq!['x', 'y']);
            if text_is(s, &natural) {
                Some(IndexMode::Natural)
            } else if text_is(s, &zip) {
                Some(IndexMode::Zip)
            } else if text_is(s, &xy) {
                Some(IndexMode::XY)
            } else {
                None
            }
        },
    }
}

/// Reads a request from its tokens (see `request_model`): `--list` names one
/// or more sources; `--width` and `--height` default to 400 by 300;
/// `--target` defaults to `out_win`; `--index` is `natural` (the default),
/// `zip` or `xy`.
pub fn draw_params_try_from(args: Vec<String>) -> (r: Result<BindParams, RequestError>)
    ensures
        match r {
            Ok(p) => request_model(strings_view(args@)) == Ok::<ParamsModel, RequestError>(p@),
            Err(e) => request_model(strings_view(args@)) == Err::<ParamsModel, RequestError>(e),
        },
        r is Ok ==> r->Ok_0@.valid(),
{
    let ghost toks = strings_view(args@);
    let m = parse_args(args);
    let lists = match m.get("--list") {
        None => {
            return Err(RequestError::MissingList);
        },
        Some(l) => clone_strings(l),
    };
    if lists.len() == 0 {
        return Err(RequestError::WrongArity);
    }
    let width = match read_size(&m, "--width", DEFAULT_WIDTH, RequestError::BadWidth) {
        Ok(v) => v,
        Err(e) => {
            return Err(e);
        },
    };
    let height = match read_size(&m, "--height", DEFAULT_HEIGHT, RequestError::BadHeight) {
        Ok(v) => v,
        Err(e) => {
            return Err(e);
        },
    };
    let target = match read_text(&m, "--target") {
        Ok(Some(t)) => t,
        Ok(None) => "out_win".to_owned(),
        Err(e) => {
            return Err(e);
        },
    };
    let index_text = match read_text(&m, "--index") {
        Ok(t) => t,
        Err(e) => {
            return Err(e);
        },
    };
    let index = match index_from(&index_text) {
        Some(i) => i,
        None => {
            return Err(RequestError::BadIndex);
        },
    };
    let open = match read_open(&m) {
        Ok(b) => b,
        Err(e) => {
            return Err(e);
        },
    };
    if index == IndexMode::Zip && lists.len() != 2 {
        return Err(RequestError::ZipNeedsTwoLists);
    }
    let p = BindParams { lists, width, height, target, index, open };
    Ok(p)
}

} // verus!
