//! The render loop's decisions: which targets exist, what each one shows, and
//! what to do when a request or a change arrives.
use vstd::prelude::*;

use crate::argparse::strings_view;
use crate::extract::{plot_model, plot_spec_try_from, replies_view, PlotModel, PlotSpec, Sample};
use crate::params::{BindParams, ParamsModel, RequestError};
use crate::registry::Registry;

verus! {

/// Where the render loop stands.
#[derive(Clone, Copy, Debug, PartialEq, Eq, Structural)]
pub enum Phase {
    /// No request handled yet.
    Idle,
    /// Serving targets.
    Running,
    /// Told to stop; nothing more is handled.
    Stopped,
}

/// What the loop does after a change of one of a target's sources.
#[derive(Clone, Copy, Debug, PartialEq, Eq, Structural)]
pub enum RedrawAction {
    /// Redraw the target from its new plot, and show its surface when asked to.
    Draw { present: bool },
    /// The new data could not be read; the target keeps what it showed.
    Skip(RequestError),
    /// No such target, or the loop has stopped.
    Ignored,
}

/// One surface to draw on, with the request it serves and what it shows.
pub struct Target {
    params: BindParams,
    plot: Option<PlotSpec>,
}

/// The targets that the render loop owns.
pub struct Dispatcher {
    phase: Phase,
    targets: Vec<Target>,
}

/// How often `k` occurs in `lists`.
pub open spec fn occurrences(lists: Seq<Seq<char>>, k: Seq<char>) -> nat
    decreases lists.len(),
{
    if lists.len() == 0 {
        0
    } else {
        occurrences(lists.drop_last(), k) + if lists.last() == k {
            1nat
        } else {
            0nat
        }
    }
}

/// The subscriptions to `k` that targets with these sources make, in order:
/// target `t` once for each time `k` is among its sources.
pub open spec fn subscriptions(targets: Seq<Seq<Seq<char>>>, k: Seq<char>) -> Seq<usize>
    decreases targets.len(),
{
    if targets.len() == 0 {
        Seq::empty()
    } else {
        let t = (targets.len() - 1) as usize;
        subscriptions(targets.drop_last(), k) + Seq::new(occurrences(targets.last(), k), |i: int| t)
    }
}

impl Dispatcher {
    pub closed spec fn phase(&self) -> Phase {
        self.phase
    }

    /// The requests of the targets, by target number.
    pub closed spec fn requests(&self) -> Seq<ParamsModel> {
        self.targets@.map_values(|t: Target| t.params@)
    }

    /// What each target shows, if it has drawn yet.
    pub closed spec fn plots(&self) -> Seq<Option<PlotModel>> {
        self.targets@.map_values(
            |t: Target|
                match t.plot {
                    Some(p) => Some(p@),
                    None => None,
                },
        )
    }

    /// The sources of each target.
    pub open spec fn sources(&self) -> Seq<Seq<Seq<char>>> {
        self.requests().map_values(|p: ParamsModel| p.lists)
    }

    pub open spec fn wf(&self) -> bool {
        &&& self.plots().len() == self.requests().len()
        &&& forall|t: int| 0 <= t < self.requests().len() ==> (#[trigger] self.requests()[t]).valid()
    }

    /// The registry holds exactly the subscriptions of these targets.
    pub open spec fn serves(&self, reg: &Registry) -> bool {
        &&& self.wf()
        &&& reg.wf()
        &&& forall|k: Seq<char>| #[trigger] reg.subscribers(k) == subscriptions(self.sources(), k)
    }

    /// A loop with no targets yet, and the empty registry that goes with it.
    pub fn new() -> (r: Dispatcher)
        ensures
            r.phase() == Phase::Idle,
            r.requests().len() == 0,
            r.sources() == Seq::<Seq<Seq<char>>>::empty(),
            r.wf(),
    {
        let r = Dispatcher { phase: Phase::Idle, targets: Vec::new() };
        assert(r.requests() =~= Seq::empty());
        assert(r.sources() =~= Seq::empty());
        assert(r.plots() =~= Seq::empty());
        r
    }

    /// Handles a request to follow its sources: makes a new target, numbered
    /// after the ones before, with nothing drawn yet, and subscribes it to each
    /// of its sources. Targets made before are left as they are. Once stopped,
    /// the request is ignored.
    pub fn bind(&mut self, reg: &mut Registry, params: BindParams) -> (r: Option<usize>)
        requires
            old(self).serves(old(reg)),
            params@.valid(),
        ensures
            final(self).serves(final(reg)),
            old(self).phase() == Phase::Stopped ==> r is None && *final(self) == *old(self) && *final(reg)
                == *old(reg),
            old(self).phase() != Phase::Stopped ==> {
                &&& r == Some(old(self).requests().len() as usize)
                &&& final(self).phase() == Phase::Running
                &&& final(self).requests() == old(self).requests().push(params@)
                &&& final(self).plots() == old(self).plots().push(None)
            },
    {
        if self.phase == Phase::Stopped {
            return None;
        }
        let t = self.targets.len();
        let ghost old_src = self.sources();
        let mut j: usize = 0;
        while j < params.lists.len()
            invariant
                reg.wf(),
                t == old_src.len(),
                j <= params.lists@.len(),
                forall|k: Seq<char>|
                    #[trigger] reg.subscribers(k) == subscriptions(old_src, k) + Seq::new(
                        occurrences(strings_view(params.lists@).subrange(0, j as int), k),
                        |i: int| t,
                    ),
            decreases params.lists@.len() - j,
        {
            let ghost before = *reg;
            reg.subscribe(params.lists[j].as_str(), t);
            proof {
                let pre = strings_view(params.lists@).subrange(0, j as int);
                let post = strings_view(params.lists@).subrange(0, j + 1);
                assert(post.drop_last() =~= pre);
                assert(post.last() == params.lists@[j as int]@);
                assert forall|k: Seq<char>|
                    #[trigger] reg.subscribers(k) == subscriptions(old_src, k) + Seq::new(
                        occurrences(post, k),
                        |i: int| t,
                    ) by {
                    assert(reg.subscribers(k) =~= subscriptions(old_src, k) + Seq::new(
                        occurrences(post, k),
                        |i: int| t,
                    ));
                }
            }
            j = j + 1;
        }
        self.targets.push(Target { params, plot: None });
        self.phase = Phase::Running;
        proof {
            assert(self.requests() =~= old(self).requests().push(params@));
            assert(self.plots() =~= old(self).plots().push(None));
            assert(self.sources() =~= old_src.push(params@.lists));
            assert(strings_view(params.lists@).subrange(0, params.lists@.len() as int) =~= params@.lists);
            assert forall|k: Seq<char>| #[trigger] reg.subscribers(k) == subscriptions(self.sources(), k) by {
                assert(self.sources().drop_last() =~= old_src);
            }
        }
        Some(t)
    }

    /// Handles a change of a source of target `target`, given the store's
    /// answers for that target's sources. The target's plot is rebuilt from
    /// them and replaces the old one whole; the surface is shown now unless it
    /// was shown at binding. When the plot cannot be built, the target keeps
    /// the old one. Nothing happens for an unknown target or once stopped.
    pub fn redraw(&mut self, target: usize, replies: Vec<Option<Vec<Sample>>>) -> (r: RedrawAction)
        requires
            old(self).wf(),
            target < old(self).requests().len() ==> replies@.len() == old(self).requests()[target as int].lists.len(),
        ensures
            final(self).wf(),
            final(self).phase() == old(self).phase(),
            final(self).requests() == old(self).requests(),
            (old(self).phase() == Phase::Stopped || target >= old(self).requests().len()) ==> r
                == RedrawAction::Ignored && final(self).plots() == old(self).plots(),
            (old(self).phase() != Phase::Stopped && target < old(self).requests().len()) ==> match plot_model(
                old(self).requests()[target as int],
                replies_view(replies@),
            ) {
                Ok(p) => r == (RedrawAction::Draw { present: !old(self).requests()[target as int].open })
                    && final(self).plots() == old(self).plots().update(target as int, Some(p)),
                Err(e) => r == RedrawAction::Skip(e) && final(self).plots() == old(self).plots(),
            },
    {
        if self.phase == Phase::Stopped || target >= self.targets.len() {
            return RedrawAction::Ignored;
        }
        assert(self.requests()[target as int] == self.targets@[target as int].params@);
        assert(self.requests()[target as int].valid());
        match plot_spec_try_from(&self.targets[target].params, replies) {
            Ok(p) => {
                let present = !self.targets[target].params.open;
                let ghost pm = p@;
                self.set_plot(target, p);
                proof {
                    assert(self.requests() =~= old(self).requests());
                    assert(self.plots() =~= old(self).plots().update(target as int, Some(pm)));
                }
                RedrawAction::Draw { present }
            },
            Err(e) => RedrawAction::Skip(e),
        }
    }

    fn set_plot(&mut self, target: usize, p: PlotSpec)
        requires
            target < old(self).targets@.len(),
        ensures
            final(self).phase == old(self).phase,
            final(self).targets@.len() == old(self).targets@.len(),
            forall|i: int| 0 <= i < old(self).targets@.len() && i != target ==> #[trigger] final(self).targets@[i]
                == old(self).targets@[i],
            final(self).targets@[target as int].params == old(self).targets@[target as int].params,
            final(self).targets@[target as int].plot == Some(p),
    {
        self.targets[target].plot = Some(p);
    }

    /// Stops the loop: later requests and changes are ignored.
    pub fn quit(&mut self)
        ensures
            final(self).phase() == Phase::Stopped,
            final(self).requests() == old(self).requests(),
            final(self).plots() == old(self).plots(),
    {
        self.phase = Phase::Stopped;
    }

    /// Whether the loop has stopped.
    pub fn is_stopped(&self) -> (r: bool)
        ensures
            r == (self.phase() == Phase::Stopped),
    {
        self.phase == Phase::Stopped
    }

    /// The request that target `target` serves.
    pub fn request(&self, target: usize) -> (r: Option<&BindParams>)
        ensures
            match r {
                Some(p) => target < self.requests().len() && p@ == self.requests()[target as int],
                None => target >= self.requests().len(),
            },
    {
        if target < self.targets.len() {
            Some(&self.targets[target].params)
        } else {
            None
        }
    }

    /// What target `target` shows, if it has drawn.
    pub fn plot(&self, target: usize) -> (r: Option<&PlotSpec>)
        ensures
            match r {
                Some(p) => target < self.plots().len() && self.plots()[target as int] == Some(p@),
                None => target >= self.plots().len() || self.plots()[target as int] is None,
            },
    {
        if target < self.targets.len() {
            match &self.targets[target].plot {
                Some(p) => Some(p),
                None => None,
            }
        } else {
            None
        }
    }
}

} // verus!
