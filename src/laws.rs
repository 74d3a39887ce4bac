//! Properties that relate several operations of the library.
use vstd::prelude::*;

use crate::bitmap::{be_bytes, be_value, framed, lemma_be_bytes_len, lemma_be_round_trip, pow256, rgb_len};
use crate::dispatcher::{occurrences, subscriptions};
use crate::extract::{
    natural_all, natural_prefix, natural_series, num_of, plot_model, zip_prefix, zip_series, min_len, NumModel,
    PlotModel, SampleModel,
};
use crate::argparse::arg_model;
use crate::params::{
    open_arg, request_model, size_arg, text_arg, IndexMode, ParamsModel, RequestError, DEFAULT_HEIGHT, DEFAULT_WIDTH,
};

verus! {

/// How many of the first `n` values are numeric.
pub open spec fn numeric_count(vals: Seq<SampleModel>, n: int) -> nat
    decreases n,
{
    if n <= 0 {
        0
    } else {
        numeric_count(vals, n - 1) + if num_of(vals[n - 1]) is Some {
            1nat
        } else {
            0nat
        }
    }
}

/// How many of the first `n` positions hold a numeric value in both lists.
pub open spec fn paired_count(xs: Seq<SampleModel>, ys: Seq<SampleModel>, n: int) -> nat
    decreases n,
{
    if n <= 0 {
        0
    } else {
        paired_count(xs, ys, n - 1) + if num_of(xs[n - 1]) is Some && num_of(ys[n - 1]) is Some {
            1nat
        } else {
            0nat
        }
    }
}

proof fn lemma_natural_empty(vals: Seq<SampleModel>, n: int)
    requires
        0 <= n <= vals.len(),
        forall|i: int| 0 <= i < vals.len() ==> #[trigger] num_of(vals[i]) is None,
    ensures
        natural_prefix(vals, n).len() == 0,
    decreases n,
{
    if n > 0 {
        lemma_natural_empty(vals, n - 1);
    }
}

proof fn lemma_natural_all_ok(replies: Seq<Option<Seq<SampleModel>>>, n: int)
    requires
        0 <= n <= replies.len(),
        forall|i: int| 0 <= i < replies.len() ==> #[trigger] replies[i] is Some,
    ensures
        natural_all(replies, n) is Ok,
        natural_all(replies, n)->Ok_0.len() == n,
        forall|i: int| 0 <= i < n ==> #[trigger] natural_all(replies, n)->Ok_0[i] == natural_series(replies[i]->Some_0),
    decreases n,
{
    if n > 0 {
        lemma_natural_all_ok(replies, n - 1);
        assert(replies[n - 1] is Some);
    }
}

/// A request under the natural index whose sources are all lists is served,
/// whatever the lists hold: one series per source, empty where a source has no
/// numeric value. The bytes of the drawn image then start with the requested
/// width and height and hold three bytes for each pixel.
pub proof fn lemma_draw_without_numbers(
    p: ParamsModel,
    replies: Seq<Option<Seq<SampleModel>>>,
    pixels: Seq<u8>,
)
    requires
        p.valid(),
        p.width <= usize::MAX,
        p.height <= usize::MAX,
        p.index == IndexMode::Natural,
        replies.len() == p.lists.len(),
        forall|i: int| 0 <= i < replies.len() ==> #[trigger] replies[i] is Some,
        pixels.len() == rgb_len(p.width, p.height),
    ensures
        plot_model(p, replies) is Ok,
        plot_model(p, replies)->Ok_0.data.len() == p.lists.len(),
        plot_model(p, replies)->Ok_0.color.len() == p.lists.len(),
        forall|i: int|
            0 <= i < replies.len() && (forall|j: int|
                0 <= j < replies[i]->Some_0.len() ==> #[trigger] num_of(replies[i]->Some_0[j]) is None) ==> (
            #[trigger] plot_model(p, replies)->Ok_0.data[i]).len() == 0,
        framed(p.width, p.height, pixels).len() == 16 + p.width * p.height * 3,
        be_value(framed(p.width, p.height, pixels).subrange(0, 8)) == p.width,
        be_value(framed(p.width, p.height, pixels).subrange(8, 16)) == p.height,
{
    lemma_natural_all_ok(replies, replies.len() as int);
    assert forall|i: int|
        0 <= i < replies.len() && (forall|j: int|
            0 <= j < replies[i]->Some_0.len() ==> #[trigger] num_of(replies[i]->Some_0[j]) is None) implies (
    #[trigger] plot_model(p, replies)->Ok_0.data[i]).len() == 0 by {
        let vals = replies[i]->Some_0;
        lemma_natural_empty(vals, vals.len() as int);
    }
    header_of_frame(p.width, p.height, pixels);
}

proof fn header_of_frame(w: nat, h: nat, pixels: Seq<u8>)
    requires
        w <= usize::MAX,
        h <= usize::MAX,
    ensures
        framed(w, h, pixels).len() == 16 + pixels.len(),
        be_value(framed(w, h, pixels).subrange(0, 8)) == w,
        be_value(framed(w, h, pixels).subrange(8, 16)) == h,
{
    reveal_with_fuel(pow256, 9);
    assert(pow256(8) == 0x1_0000_0000_0000_0000);
    lemma_be_round_trip(w, 8);
    lemma_be_round_trip(h, 8);
    lemma_be_bytes_len(w, 8);
    lemma_be_bytes_len(h, 8);
    let f = framed(w, h, pixels);
    assert(f.subrange(0, 8) =~= be_bytes(w, 8));
    assert(f.subrange(8, 16) =~= be_bytes(h, 8));
}

/// The same request on the same stored values draws the same plot and frames
/// the same pixels into the same bytes.
pub proof fn lemma_draw_deterministic(
    pa: ParamsModel,
    pb: ParamsModel,
    ra: Seq<Option<Seq<SampleModel>>>,
    rb: Seq<Option<Seq<SampleModel>>>,
    pixels: Seq<u8>,
)
    requires
        pa == pb,
        ra == rb,
    ensures
        plot_model(pa, ra) == plot_model(pb, rb),
        framed(pa.width, pa.height, pixels) == framed(pb.width, pb.height, pixels),
{
}

/// Under the zip index, the series has one point for each position below the
/// shorter list's length where both values are numeric, and so no more points
/// than either list has numeric values; when both lists are wholly numeric it
/// has as many points as the shorter list has values.
pub proof fn lemma_zip_counts(xs: Seq<SampleModel>, ys: Seq<SampleModel>)
    ensures
        zip_series(xs, ys).len() == paired_count(xs, ys, min_len(xs.len() as int, ys.len() as int)),
        zip_series(xs, ys).len() <= numeric_count(xs, xs.len() as int),
        zip_series(xs, ys).len() <= numeric_count(ys, ys.len() as int),
        (forall|i: int| 0 <= i < xs.len() ==> #[trigger] num_of(xs[i]) is Some) && (forall|i: int|
            0 <= i < ys.len() ==> #[trigger] num_of(ys[i]) is Some) ==> zip_series(xs, ys).len() == min_len(
            xs.len() as int,
            ys.len() as int,
        ),
{
    let m = min_len(xs.len() as int, ys.len() as int);
    lemma_zip_len(xs, ys, m);
    lemma_count_grows(xs, m, xs.len() as int);
    lemma_count_grows(ys, m, ys.len() as int);
    if (forall|i: int| 0 <= i < xs.len() ==> #[trigger] num_of(xs[i]) is Some) && (forall|i: int|
        0 <= i < ys.len() ==> #[trigger] num_of(ys[i]) is Some) {
        lemma_all_paired(xs, ys, m);
    }
}

proof fn lemma_zip_len(xs: Seq<SampleModel>, ys: Seq<SampleModel>, n: int)
    requires
        0 <= n <= xs.len(),
        n <= ys.len(),
    ensures
        zip_prefix(xs, ys, n).len() == paired_count(xs, ys, n),
        paired_count(xs, ys, n) <= numeric_count(xs, n),
        paired_count(xs, ys, n) <= numeric_count(ys, n),
    decreases n,
{
    if n > 0 {
        lemma_zip_len(xs, ys, n - 1);
    }
}

proof fn lemma_count_grows(vals: Seq<SampleModel>, m: int, n: int)
    requires
        0 <= m <= n,
    ensures
        numeric_count(vals, m) <= numeric_count(vals, n),
    decreases n - m,
{
    if m < n {
        lemma_count_grows(vals, m, n - 1);
    }
}

proof fn lemma_all_paired(xs: Seq<SampleModel>, ys: Seq<SampleModel>, n: int)
    requires
        0 <= n <= xs.len(),
        n <= ys.len(),
        forall|i: int| 0 <= i < xs.len() ==> #[trigger] num_of(xs[i]) is Some,
        forall|i: int| 0 <= i < ys.len() ==> #[trigger] num_of(ys[i]) is Some,
    ensures
        paired_count(xs, ys, n) == n,
    decreases n,
{
    if n > 0 {
        lemma_all_paired(xs, ys, n - 1);
        assert(num_of(xs[n - 1]) is Some);
        assert(num_of(ys[n - 1]) is Some);
    }
}

/// The position that a point of a natural series stands at.
pub open spec fn position(c: NumModel) -> int {
    match c {
        NumModel::Index(i) => i as int,
        _ => -1,
    }
}

/// The natural index keeps positions: every point of a series is a numeric
/// value at the position it had in its source, in increasing position, and
/// every numeric value of the source is a point; values that are dropped leave
/// the positions of the others as they were.
pub proof fn lemma_natural_positions(vals: Seq<SampleModel>)
    ensures
        forall|j: int|
            #![trigger natural_series(vals)[j]]
            0 <= j < natural_series(vals).len() ==> {
                let i = position(natural_series(vals)[j].0);
                &&& natural_series(vals)[j].0 == NumModel::Index(i as nat)
                &&& 0 <= i < vals.len()
                &&& num_of(vals[i]) == Some(natural_series(vals)[j].1)
            },
        forall|j1: int, j2: int|
            0 <= j1 < j2 < natural_series(vals).len() ==> position(#[trigger] natural_series(vals)[j1].0) < position(
                #[trigger] natural_series(vals)[j2].0,
            ),
        forall|i: int|
            0 <= i < vals.len() && #[trigger] num_of(vals[i]) is Some ==> natural_series(vals).contains(
                (NumModel::Index(i as nat), num_of(vals[i])->Some_0),
            ),
{
    lemma_natural_prefix(vals, vals.len() as int);
}

proof fn lemma_natural_prefix(vals: Seq<SampleModel>, n: int)
    requires
        0 <= n <= vals.len(),
    ensures
        forall|j: int|
            #![trigger natural_prefix(vals, n)[j]]
            0 <= j < natural_prefix(vals, n).len() ==> {
                let i = position(natural_prefix(vals, n)[j].0);
                &&& natural_prefix(vals, n)[j].0 == NumModel::Index(i as nat)
                &&& 0 <= i < n
                &&& num_of(vals[i]) == Some(natural_prefix(vals, n)[j].1)
            },
        forall|j1: int, j2: int|
            0 <= j1 < j2 < natural_prefix(vals, n).len() ==> position(#[trigger] natural_prefix(vals, n)[j1].0)
                < position(#[trigger] natural_prefix(vals, n)[j2].0),
        forall|i: int|
            0 <= i < n && #[trigger] num_of(vals[i]) is Some ==> natural_prefix(vals, n).contains(
                (NumModel::Index(i as nat), num_of(vals[i])->Some_0),
            ),
    decreases n,
{
    if n > 0 {
        lemma_natural_prefix(vals, n - 1);
        let r = natural_prefix(vals, n - 1);
        let s = natural_prefix(vals, n);
        match num_of(vals[n - 1]) {
            Some(y) => {
                assert(s == r.push((NumModel::Index((n - 1) as nat), y)));
                assert forall|j: int| 0 <= j < r.len() implies #[trigger] s[j] == r[j] by {}
                assert forall|i: int|
                    0 <= i < n && #[trigger] num_of(vals[i]) is Some implies s.contains(
                    (NumModel::Index(i as nat), num_of(vals[i])->Some_0),
                ) by {
                    if i < n - 1 {
                        let j = choose|j: int|
                            0 <= j < r.len() && r[j] == (NumModel::Index(i as nat), num_of(vals[i])->Some_0);
                        assert(s[j] == r[j]);
                    } else {
                        assert(s[r.len() as int] == (NumModel::Index(i as nat), num_of(vals[i])->Some_0));
                    }
                }
                assert forall|j1: int, j2: int|
                    0 <= j1 < j2 < s.len() implies position(#[trigger] s[j1].0) < position(#[trigger] s[j2].0) by {
                    if j2 < r.len() {
                        assert(s[j1] == r[j1] && s[j2] == r[j2]);
                    } else {
                        assert(s[j1] == r[j1]);
                        assert(r[j1] == natural_prefix(vals, n - 1)[j1]);
                    }
                }
            },
            None => {
                assert(s == r);
            },
        }
    }
}

proof fn lemma_occurrences_contains(lists: Seq<Seq<char>>, k: Seq<char>)
    ensures
        (occurrences(lists, k) > 0) == lists.contains(k),
    decreases lists.len(),
{
    if lists.len() > 0 {
        lemma_occurrences_contains(lists.drop_last(), k);
        if lists.drop_last().contains(k) {
            let i = choose|i: int| 0 <= i < lists.drop_last().len() && lists.drop_last()[i] == k;
            assert(lists[i] == k);
        }
        if lists.contains(k) && lists.last() != k {
            let i = choose|i: int| 0 <= i < lists.len() && lists[i] == k;
            assert(lists.drop_last()[i] == k);
        }
        if lists.last() == k {
            assert(lists[lists.len() - 1] == k);
        }
    }
}

/// A target is told of a change of source `k` exactly when `k` is one of its
/// sources, and no number that is not a target is ever told.
pub proof fn lemma_subscribed_iff(targets: Seq<Seq<Seq<char>>>, k: Seq<char>, t: usize)
    requires
        targets.len() <= usize::MAX,
    ensures
        subscriptions(targets, k).contains(t) <==> (t < targets.len() && targets[t as int].contains(k)),
        forall|i: int|
            0 <= i < subscriptions(targets, k).len() ==> (#[trigger] subscriptions(targets, k)[i] as int)
                < targets.len(),
    decreases targets.len(),
{
    if targets.len() > 0 {
        let last = targets.len() - 1;
        let init = targets.drop_last();
        lemma_subscribed_iff(init, k, t);
        lemma_occurrences_contains(targets.last(), k);
        let a = subscriptions(init, k);
        let b = Seq::new(occurrences(targets.last(), k), |i: int| last as usize);
        assert(subscriptions(targets, k) == a + b);
        assert forall|i: int|
            0 <= i < subscriptions(targets, k).len() implies (#[trigger] subscriptions(targets, k)[i] as int)
            < targets.len() by {
            if i < a.len() {
                assert(subscriptions(targets, k)[i] == a[i]);
            } else {
                assert(subscriptions(targets, k)[i] == b[i - a.len()]);
            }
        }
        if subscriptions(targets, k).contains(t) {
            let i = choose|i: int| 0 <= i < (a + b).len() && (a + b)[i] == t;
            if i < a.len() {
                assert(a[i] == t);
                assert(a.contains(t));
                assert(init[t as int] == targets[t as int]);
            } else {
                assert(b[i - a.len()] == t);
                assert(occurrences(targets.last(), k) > 0);
            }
        }
        if t < targets.len() && targets[t as int].contains(k) {
            if t < last {
                assert(init[t as int] == targets[t as int]);
                let i = choose|i: int| 0 <= i < a.len() && a[i] == t;
                assert((a + b)[i] == t);
            } else {
                assert(b[0] == t);
                assert((a + b)[a.len() as int] == t);
            }
        }
    }
}

/// When every target follows source `k`, a change of `k` is sent to every one
/// of them.
pub proof fn lemma_every_follower_told(targets: Seq<Seq<Seq<char>>>, k: Seq<char>)
    requires
        targets.len() <= usize::MAX,
        forall|t: int| 0 <= t < targets.len() ==> #[trigger] targets[t].contains(k),
    ensures
        forall|t: int| 0 <= t < targets.len() ==> subscriptions(targets, k).contains(#[trigger] (t as usize)),
{
    assert forall|t: int| 0 <= t < targets.len() implies subscriptions(targets, k).contains(
        #[trigger] (t as usize),
    ) by {
        assert(targets[t].contains(k));
        lemma_subscribed_iff(targets, k, t as usize);
    }
}

/// How many times `t` occurs in `s`.
pub open spec fn times(s: Seq<usize>, t: usize) -> nat
    decreases s.len(),
{
    if s.len() == 0 {
        0
    } else {
        times(s.drop_last(), t) + if s.last() == t {
            1nat
        } else {
            0nat
        }
    }
}

proof fn lemma_times_concat(a: Seq<usize>, b: Seq<usize>, t: usize)
    ensures
        times(a + b, t) == times(a, t) + times(b, t),
    decreases b.len(),
{
    if b.len() == 0 {
        assert(a + b =~= a);
    } else {
        assert((a + b).drop_last() =~= a + b.drop_last());
        lemma_times_concat(a, b.drop_last(), t);
    }
}

proof fn lemma_times_repeat(n: nat, c: usize, t: usize)
    ensures
        times(Seq::new(n, |i: int| c), t) == if c == t {
            n
        } else {
            0
        },
    decreases n,
{
    if n > 0 {
        assert(Seq::new(n, |i: int| c).drop_last() =~= Seq::new((n - 1) as nat, |i: int| c));
        lemma_times_repeat((n - 1) as nat, c, t);
    }
}

/// A change of source `k` is sent to target `t` once for each time `k` is
/// among the target's sources: once for a target that lists it once, never
/// for a target that does not list it.
pub proof fn lemma_told_once_per_listing(targets: Seq<Seq<Seq<char>>>, k: Seq<char>, t: usize)
    requires
        targets.len() <= usize::MAX,
        t < targets.len(),
    ensures
        times(subscriptions(targets, k), t) == occurrences(targets[t as int], k),
    decreases targets.len(),
{
    let last = targets.len() - 1;
    let init = targets.drop_last();
    let b = Seq::new(occurrences(targets.last(), k), |i: int| last as usize);
    assert(subscriptions(targets, k) == subscriptions(init, k) + b);
    lemma_times_concat(subscriptions(init, k), b, t);
    lemma_times_repeat(occurrences(targets.last(), k), last as usize, t);
    if t < last {
        lemma_told_once_per_listing(init, k, t);
        assert(init[t as int] == targets[t as int]);
    } else {
        lemma_never_told_later(init, k, t);
    }
}

proof fn lemma_never_told_later(targets: Seq<Seq<Seq<char>>>, k: Seq<char>, t: usize)
    requires
        targets.len() <= t,
    ensures
        times(subscriptions(targets, k), t) == 0,
    decreases targets.len(),
{
    if targets.len() > 0 {
        let last = targets.len() - 1;
        let init = targets.drop_last();
        let b = Seq::new(occurrences(targets.last(), k), |i: int| last as usize);
        lemma_times_concat(subscriptions(init, k), b, t);
        lemma_times_repeat(occurrences(targets.last(), k), last as usize, t);
        lemma_never_told_later(init, k, t);
    }
}

/// A zip request whose other arguments are well formed is refused for its
/// number of sources exactly when it does not name two; when served, it keeps
/// the zip index and the sources as given. Any served zip request names two
/// sources.
pub proof fn lemma_zip_request(args: Seq<Seq<char>>)
    ensures
        ({
            let m = arg_model(args);
            (m.contains_key("--list"@) && m["--list"@].len() >= 1 && size_arg(
                m,
                "--width"@,
                DEFAULT_WIDTH as nat,
                RequestError::BadWidth,
            ) is Ok && size_arg(m, "--height"@, DEFAULT_HEIGHT as nat, RequestError::BadHeight) is Ok && text_arg(
                m,
                "--target"@,
            ) is Ok && text_arg(m, "--index"@) == Ok::<Option<Seq<char>>, RequestError>(Some(seq!['z', 'i', 'p'])) && open_arg(m) is Ok)
                ==> {
                &&& (request_model(args) is Err) == (m["--list"@].len() != 2)
                &&& request_model(args) is Err ==> request_model(args) == Err::<ParamsModel, RequestError>(
                    RequestError::ZipNeedsTwoLists,
                )
                &&& request_model(args) is Ok ==> request_model(args)->Ok_0.index == IndexMode::Zip
                    && request_model(args)->Ok_0.lists == m["--list"@]
            }
        }),
        request_model(args) is Ok && request_model(args)->Ok_0.index == IndexMode::Zip ==> request_model(
            args,
        )->Ok_0.lists.len() == 2,
{
}

} // verus!
