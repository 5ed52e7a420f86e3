//! The adaptive moment optimizer: per-parameter running estimates of the
//! gradient's mean and of its square scale each update.

use crate::error::Error;
use crate::fixed::{
    fx_diff, fx_pow, fx_prod, fx_quot, fx_sqrt, fx_sum, lemma_one_times, Fixed, ONE_RAW,
};
use crate::graph::{Graph, GraphView};
use crate::numeric;
use crate::numeric::{raws, seq_zeros};
use vstd::prelude::*;

verus! {

/// The next running mean of the gradient: `beta1 * m + (1 - beta1) * g`.
pub open spec fn next_first_moment(beta1: int, m: int, g: int) -> int {
    fx_sum(fx_prod(beta1, m), fx_prod(fx_diff(ONE_RAW as int, beta1), g))
}

/// The next running mean of the squared gradient:
/// `beta2 * v + (1 - beta2) * g * g`.
pub open spec fn next_second_moment(beta2: int, v: int, g: int) -> int {
    fx_sum(fx_prod(beta2, v), fx_prod(fx_diff(ONE_RAW as int, beta2), fx_prod(g, g)))
}

/// A running mean freed of its bias toward zero: `moment / (1 - power)`,
/// where `power` is the decay rate raised to the number of steps.
pub open spec fn bias_corrected(moment: int, power: int) -> int {
    fx_quot(moment, fx_diff(ONE_RAW as int, power))
}

/// The updated value of a parameter:
/// `value - rate * first / (sqrt(second) + epsilon)`, with both moments
/// bias-corrected.
pub open spec fn next_value(rate: int, epsilon: int, value: int, first: int, second: int) -> int {
    fx_diff(value, fx_quot(fx_prod(rate, first), fx_sum(fx_sqrt(second), epsilon)))
}

/// What the optimizer keeps for one parameter.
pub struct ParamStateView {
    pub id: usize,
    pub first_moment: Seq<int>,
    pub second_moment: Seq<int>,
    pub step_count: nat,
    pub beta1_power: int,
    pub beta2_power: int,
}

/// What the optimizer is: its four settings and the state of every
/// registered parameter, in the order of registration.
pub struct AdamView {
    pub learning_rate: int,
    pub beta1: int,
    pub beta2: int,
    pub epsilon: int,
    pub states: Seq<ParamStateView>,
}

/// The state of a parameter of `size` values that was just registered.
pub open spec fn initial_state(id: usize, size: nat) -> ParamStateView {
    ParamStateView {
        id,
        first_moment: seq_zeros(size),
        second_moment: seq_zeros(size),
        step_count: 0,
        beta1_power: ONE_RAW as int,
        beta2_power: ONE_RAW as int,
    }
}

impl AdamView {
    /// Whether a state is kept for parameter `id`.
    pub open spec fn registered(self, id: usize) -> bool {
        exists|i: int| 0 <= i < self.states.len() && (#[trigger] self.states[i]).id == id
    }

    /// Where the state of the registered parameter `id` is kept.
    pub open spec fn slot(self, id: usize) -> int {
        choose|i: int| 0 <= i < self.states.len() && (#[trigger] self.states[i]).id == id
    }

    /// No parameter has two states.
    pub open spec fn unique_ids(self) -> bool {
        forall|i: int, j: int|
            0 <= i < j < self.states.len() ==> (#[trigger] self.states[i]).id != (
            #[trigger] self.states[j]).id
    }

    /// No parameter has two states, both moments of a state have one size,
    /// and the decay rates' powers match the number of steps taken.
    pub open spec fn wf(self) -> bool {
        &&& self.unique_ids()
        &&& forall|i: int|
            0 <= i < self.states.len() ==> (#[trigger] self.states[i]).first_moment.len()
                == self.states[i].second_moment.len()
        &&& forall|i: int|
            0 <= i < self.states.len() && (#[trigger] self.states[i]).step_count < u64::MAX ==> {
                &&& self.states[i].beta1_power == fx_pow(self.beta1, self.states[i].step_count)
                &&& self.states[i].beta2_power == fx_pow(self.beta2, self.states[i].step_count)
            }
    }

    /// This optimizer after parameter `id` of `size` values was registered:
    /// a new state at the end, unless the parameter has one already.
    pub open spec fn register(self, id: usize, size: nat) -> AdamView {
        if self.registered(id) {
            self
        } else {
            AdamView { states: self.states.push(initial_state(id, size)), ..self }
        }
    }

    /// The state `s` after an update with the gradient `g`.
    pub open spec fn advance(self, s: ParamStateView, g: Seq<int>) -> ParamStateView {
        ParamStateView {
            id: s.id,
            first_moment: Seq::new(
                s.first_moment.len(),
                |i: int| next_first_moment(self.beta1, s.first_moment[i], g[i]),
            ),
            second_moment: Seq::new(
                s.second_moment.len(),
                |i: int| next_second_moment(self.beta2, s.second_moment[i], g[i]),
            ),
            step_count: if s.step_count < u64::MAX {
                s.step_count + 1
            } else {
                s.step_count
            },
            beta1_power: fx_prod(s.beta1_power, self.beta1),
            beta2_power: fx_prod(s.beta2_power, self.beta2),
        }
    }

    /// The values `data` of a parameter after an update that left its state
    /// as `s`.
    pub open spec fn descend(self, s: ParamStateView, data: Seq<int>) -> Seq<int> {
        Seq::new(
            data.len(),
            |i: int|
                next_value(
                    self.learning_rate,
                    self.epsilon,
                    data[i],
                    bias_corrected(s.first_moment[i], s.beta1_power),
                    bias_corrected(s.second_moment[i], s.beta2_power),
                ),
        )
    }

    /// Whether a step updates parameter `id`: it is registered, the arena
    /// holds it, and it has a gradient.
    pub open spec fn updates(self, g: GraphView, id: usize) -> bool {
        &&& self.registered(id)
        &&& id < g.tensors.len()
        &&& g.tensors[id as int].grad.is_some()
    }

    /// Whether a step cannot update parameter `id` although it should: the
    /// state kept for it has another size than the parameter.
    pub open spec fn mismatched(self, g: GraphView, id: usize) -> bool {
        &&& self.updates(g, id)
        &&& self.states[self.slot(id)].first_moment.len() != g.tensors[id as int].data.len()
    }

    /// Whether every registered parameter of `params` that the arena holds
    /// has a state of the parameter's size.
    pub open spec fn sized_for(self, g: GraphView, params: Seq<usize>) -> bool {
        forall|k: int|
            0 <= k < params.len() && self.registered(#[trigger] params[k]) && params[k]
                < g.tensors.len() ==> self.states[self.slot(params[k])].first_moment.len()
                == g.tensors[params[k] as int].data.len()
    }

    /// Whether some parameter of `params` is mismatched.
    pub open spec fn blocked(self, g: GraphView, params: Seq<usize>) -> bool {
        exists|k: int| 0 <= k < params.len() && self.mismatched(g, #[trigger] params[k])
    }

    /// The optimizer and the graph after a step on the one parameter `id`.
    pub open spec fn step_one(self, g: GraphView, id: usize) -> (AdamView, GraphView) {
        if self.updates(g, id) {
            let slot = self.slot(id);
            let t = g.tensors[id as int];
            let s = self.advance(self.states[slot], t.grad.unwrap());
            (
                AdamView { states: self.states.update(slot, s), ..self },
                GraphView {
                    tensors: g.tensors.update(id as int, t.assigned(self.descend(s, t.data))),
                    tape: g.tape,
                },
            )
        } else {
            (self, g)
        }
    }

    /// The optimizer and the graph after a step on the first `k`
    /// parameters of `params`, one after the other.
    pub open spec fn step_many(self, g: GraphView, params: Seq<usize>, k: nat) -> (
        AdamView,
        GraphView,
    )
        decreases k,
    {
        if k == 0 {
            (self, g)
        } else {
            let (opt, graph) = self.step_many(g, params, (k - 1) as nat);
            opt.step_one(graph, params[k - 1])
        }
    }

    /// The optimizer and the graph after a step on `params`.
    pub open spec fn step(self, g: GraphView, params: Seq<usize>) -> (AdamView, GraphView) {
        self.step_many(g, params, params.len())
    }
}

/// What the optimizer keeps for one parameter: both running means, the
/// number of updates, and both decay rates raised to that number.
pub struct ParamState {
    id: usize,
    first_moment: Vec<Fixed>,
    second_moment: Vec<Fixed>,
    step_count: u64,
    beta1_power: Fixed,
    beta2_power: Fixed,
}

impl View for ParamState {
    type V = ParamStateView;

    closed spec fn view(&self) -> ParamStateView {
        ParamStateView {
            id: self.id,
            first_moment: raws(self.first_moment@),
            second_moment: raws(self.second_moment@),
            step_count: self.step_count as nat,
            beta1_power: self.beta1_power@,
            beta2_power: self.beta2_power@,
        }
    }
}

/// What a list of states is.
pub closed spec fn state_views(states: Seq<ParamState>) -> Seq<ParamStateView> {
    Seq::new(states.len(), |i: int| states[i]@)
}

/// The adaptive moment optimizer.
pub struct Adam {
    learning_rate: Fixed,
    beta1: Fixed,
    beta2: Fixed,
    epsilon: Fixed,
    states: Vec<ParamState>,
}

impl View for Adam {
    type V = AdamView;

    closed spec fn view(&self) -> AdamView {
        AdamView {
            learning_rate: self.learning_rate@,
            beta1: self.beta1@,
            beta2: self.beta2@,
            epsilon: self.epsilon@,
            states: state_views(self.states@),
        }
    }
}

impl Adam {
    /// No parameter has two states, both moments of a state have one size,
    /// and the decay rates' powers match the number of steps taken.
    pub open spec fn wf(&self) -> bool {
        self@.wf()
    }

    /// An optimizer with the given learning rate, decay rates of the two
    /// running means, and the small number that keeps the update's divisor
    /// away from zero. No parameter is registered.
    pub fn new(learning_rate: Fixed, beta1: Fixed, beta2: Fixed, epsilon: Fixed) -> (opt: Adam)
        ensures
            opt.wf(),
            opt@ == (AdamView {
                learning_rate: learning_rate@,
                beta1: beta1@,
                beta2: beta2@,
                epsilon: epsilon@,
                states: Seq::empty(),
            }),
    {
        let opt = Adam { learning_rate, beta1, beta2, epsilon, states: Vec::new() };
        assert(opt@.states =~= Seq::<ParamStateView>::empty());
        opt
    }

    /// Where the state of parameter `id` is kept, if it is registered.
    fn find(&self, id: usize) -> (r: Option<usize>)
        requires
            self.wf(),
        ensures
            match r {
                Some(i) => self@.registered(id) && i == self@.slot(id) && i < self.states.len(),
                None => !self@.registered(id),
            },
    {
        let n: usize = self.states.len();
        let mut i: usize = 0;
        while i < n
            invariant
                n == self.states.len(),
                i <= n,
                self.wf(),
                forall|j: int| 0 <= j < i ==> (#[trigger] self@.states[j]).id != id,
            decreases n - i,
        {
            if self.states[i].id == id {
                assert(self@.states[i as int].id == id);
                assert(self@.states[self@.slot(id)].id == id);
                return Some(i);
            }
            i = i + 1;
        }
        None
    }

    /// The number of updates that parameter `id` has received. Fails when
    /// the parameter is not registered.
    pub fn step_count(&self, id: usize) -> (r: Result<u64, Error>)
        requires
            self.wf(),
        ensures
            match r {
                Ok(n) => self@.registered(id) && n == self@.states[self@.slot(id)].step_count,
                Err(e) => e == Error::UnregisteredParameter && !self@.registered(id),
            },
    {
        match self.find(id) {
            Some(i) => {
                assert(self@.states[i as int] == self.states@[i as int]@);
                Ok(self.states[i].step_count)
            },
            None => Err(Error::UnregisteredParameter),
        }
    }

    /// Registers parameter `id` of `graph`: both running means start at
    /// zero, with as many entries as the parameter has values. A parameter
    /// that is registered already keeps its state. Fails, and changes
    /// nothing, when the arena holds no tensor `id`.
    pub fn register(&mut self, graph: &Graph, id: usize) -> (r: Result<(), Error>)
        requires
            old(self).wf(),
        ensures
            final(self).wf(),
            match r {
                Ok(_) => {
                    &&& id < graph@.tensors.len()
                    &&& final(self)@ == old(self)@.register(
                        id,
                        graph@.tensors[id as int].data.len(),
                    )
                    &&& final(self)@.registered(id)
                },
                Err(e) => {
                    &&& e == Error::ShapeMismatch
                    &&& id >= graph@.tensors.len()
                    &&& final(self)@ == old(self)@
                },
            },
    {
        let size: usize = match graph.tensor(id) {
            Some(t) => t.len(),
            None => {
                return Err(Error::ShapeMismatch);
            },
        };
        match self.find(id) {
            Some(_) => {},
            None => {
                let state = ParamState {
                    id,
                    first_moment: numeric::zeros(size),
                    second_moment: numeric::zeros(size),
                    step_count: 0,
                    beta1_power: Fixed::one(),
                    beta2_power: Fixed::one(),
                };
                assert(state@ == initial_state(id, size as nat));
                self.states.push(state);
                proof {
                    let n = old(self)@.states.len() as int;
                    assert(self@.states =~= old(self)@.states.push(initial_state(id, size as nat)));
                    assert(self@.states[n].id == id);
                    assert forall|i: int, j: int| 0 <= i < j < self@.states.len() implies (
                    #[trigger] self@.states[i]).id != (#[trigger] self@.states[j]).id by {
                        if j < n {
                            assert(old(self)@.states[i].id != old(self)@.states[j].id);
                        } else {
                            assert(old(self)@.states[i].id != id);
                        }
                    }
                }
            },
        }
        Ok(())
    }

    /// Whether every registered parameter of `params` that the arena holds
    /// has a state of the parameter's size, so that no step on `params` can
    /// fail.
    pub fn sized_for(&self, graph: &Graph, params: &Vec<usize>) -> (r: bool)
        requires
            self.wf(),
        ensures
            r == self@.sized_for(graph@, params@),
    {
        let n: usize = params.len();
        let mut k: usize = 0;
        while k < n
            invariant
                k <= n,
                n == params.len(),
                self.wf(),
                forall|j: int|
                    0 <= j < k && self@.registered(#[trigger] params@[j]) && params@[j]
                        < graph@.tensors.len() ==> self@.states[self@.slot(
                        params@[j],
                    )].first_moment.len() == graph@.tensors[params@[j] as int].data.len(),
            decreases n - k,
        {
            let id: usize = params[k];
            match self.find(id) {
                Some(slot) => {
                    match graph.tensor(id) {
                        Some(t) => {
                            assert(self@.states[slot as int] == self.states@[slot as int]@);
                            assert(raws(self.states@[slot as int].first_moment@).len()
                                == self.states@[slot as int].first_moment.len());
                            if self.states[slot].first_moment.len() != t.len() {
                                assert(self@.registered(params@[k as int]));
                                return false;
                            }
                        },
                        None => {},
                    }
                },
                None => {},
            }
            k = k + 1;
        }
        true
    }

    /// Drops the gradients of the parameters named in `params`, so that the
    /// next backward pass starts from nothing.
    pub fn zero_grad(&self, graph: &mut Graph, params: &Vec<usize>)
        requires
            old(graph).wf(),
        ensures
            final(graph).wf(),
            final(graph)@ == old(graph)@.zero_grad(params@),
    {
        graph.zero_grad(params);
    }

    /// Where the state of parameter `id` is kept, if a step updates it.
    fn target(&self, graph: &Graph, id: usize) -> (r: Option<usize>)
        requires
            self.wf(),
        ensures
            match r {
                Some(slot) => {
                    &&& self@.updates(graph@, id)
                    &&& slot == self@.slot(id)
                    &&& slot < self.states.len()
                },
                None => !self@.updates(graph@, id),
            },
    {
        let has_gradient: bool = match graph.tensor(id) {
            Some(t) => t.grad().is_some(),
            None => false,
        };
        if has_gradient {
            self.find(id)
        } else {
            None
        }
    }

    /// The state in `slot` after an update with the gradient `grad`, and
    /// the values `data` after that update.
    fn refresh(&self, slot: usize, data: &Vec<Fixed>, grad: &Vec<Fixed>) -> (r: (
        ParamState,
        Vec<Fixed>,
    ))
        requires
            self.wf(),
            slot < self.states.len(),
            data.len() == grad.len(),
            self@.states[slot as int].first_moment.len() == data.len(),
        ensures
            r.0@ == self@.advance(self@.states[slot as int], raws(grad@)),
            raws(r.1@) == self@.descend(r.0@, raws(data@)),
    {
        let held: &ParamState = &self.states[slot];
        let ghost before = self@.states[slot as int];
        assert(before == held@);
        let n: usize = data.len();
        let one: Fixed = Fixed::one();
        let beta1_power: Fixed = held.beta1_power.times(self.beta1);
        let beta2_power: Fixed = held.beta2_power.times(self.beta2);
        let keep1: Fixed = one.minus(self.beta1);
        let keep2: Fixed = one.minus(self.beta2);
        let divisor1: Fixed = one.minus(beta1_power);
        let divisor2: Fixed = one.minus(beta2_power);
        let mut first: Vec<Fixed> = Vec::new();
        let mut second: Vec<Fixed> = Vec::new();
        let mut values: Vec<Fixed> = Vec::new();
        let mut i: usize = 0;
        assert(raws(held.first_moment@).len() == held.first_moment.len());
        assert(raws(held.second_moment@).len() == held.second_moment.len());
        while i < n
            invariant
                i <= n,
                n == data.len(),
                n == grad.len(),
                n == held.first_moment.len(),
                n == held.second_moment.len(),
                first.len() == i,
                second.len() == i,
                values.len() == i,
                keep1@ == fx_diff(ONE_RAW as int, self.beta1@),
                keep2@ == fx_diff(ONE_RAW as int, self.beta2@),
                divisor1@ == fx_diff(ONE_RAW as int, beta1_power@),
                divisor2@ == fx_diff(ONE_RAW as int, beta2_power@),
                forall|j: int|
                    0 <= j < i ==> (#[trigger] first@[j])@ == next_first_moment(
                        self.beta1@,
                        held.first_moment@[j]@,
                        grad@[j]@,
                    ),
                forall|j: int|
                    0 <= j < i ==> (#[trigger] second@[j])@ == next_second_moment(
                        self.beta2@,
                        held.second_moment@[j]@,
                        grad@[j]@,
                    ),
                forall|j: int|
                    0 <= j < i ==> (#[trigger] values@[j])@ == next_value(
                        self.learning_rate@,
                        self.epsilon@,
                        data@[j]@,
                        bias_corrected(first@[j]@, beta1_power@),
                        bias_corrected(second@[j]@, beta2_power@),
                    ),
            decreases n - i,
        {
            let g: Fixed = grad[i];
            let m: Fixed = self.beta1.times(held.first_moment[i]).plus(keep1.times(g));
            let v: Fixed = self.beta2.times(held.second_moment[i]).plus(keep2.times(g.times(g)));
            let m_hat: Fixed = m.over(divisor1);
            let v_hat: Fixed = v.over(divisor2);
            let moved: Fixed = self.learning_rate.times(m_hat).over(v_hat.sqrt().plus(self.epsilon));
            first.push(m);
            second.push(v);
            values.push(data[i].minus(moved));
            i = i + 1;
        }
        let step_count: u64 = if held.step_count < u64::MAX {
            held.step_count + 1
        } else {
            held.step_count
        };
        let state = ParamState {
            id: held.id,
            first_moment: first,
            second_moment: second,
            step_count,
            beta1_power,
            beta2_power,
        };
        proof {
            let want = self@.advance(before, raws(grad@));
            assert(state@.first_moment =~= want.first_moment);
            assert(state@.second_moment =~= want.second_moment);
            assert(state@ == want);
            assert(raws(values@) =~= self@.descend(state@, raws(data@)));
        }
        (state, values)
    }

    /// Updates the one parameter `id`, whose state is kept in `slot`.
    fn update(&mut self, graph: &mut Graph, slot: usize, id: usize)
        requires
            old(self).wf(),
            old(graph).wf(),
            old(self)@.updates(old(graph)@, id),
            !old(self)@.mismatched(old(graph)@, id),
            slot == old(self)@.slot(id),
        ensures
            final(self).wf(),
            final(graph).wf(),
            (final(self)@, final(graph)@) == old(self)@.step_one(old(graph)@, id),
    {
        let ghost opt = self@;
        let ghost arena = graph@;
        let ghost t = arena.tensors[id as int];
        assert(t.wf());
        let (state, values) = match graph.tensor(id) {
            Some(tensor) => match tensor.grad() {
                Some(grad) => {
                    let data = tensor.data();
                    assert(raws(grad@).len() == grad.len());
                    assert(raws(data@).len() == data.len());
                    self.refresh(slot, data, grad)
                },
                None => {
                    return ;
                },
            },
            None => {
                return ;
            },
        };
        assert(raws(values@).len() == values.len());
        let ghost next = state@;
        self.states[slot] = state;
        let _ = graph.assign(id, values);
        proof {
            assert(self@.states =~= opt.states.update(slot as int, next));
            assert(graph@ == GraphView {
                tensors: arena.tensors.update(id as int, t.assigned(opt.descend(next, t.data))),
                tape: arena.tape,
            });
            let held = opt.states[slot as int];
            assert(held.step_count < u64::MAX ==> held.beta1_power == fx_pow(
                opt.beta1,
                held.step_count,
            ) && held.beta2_power == fx_pow(opt.beta2, held.step_count));
            lemma_one_times(opt.beta1);
            lemma_one_times(opt.beta2);
            assert forall|i: int, j: int| 0 <= i < j < self@.states.len() implies (
            #[trigger] self@.states[i]).id != (#[trigger] self@.states[j]).id by {
                assert(opt.states[i].id != opt.states[j].id);
            }
            assert forall|i: int| 0 <= i < self@.states.len() implies (
            #[trigger] self@.states[i]).first_moment.len()
                == self@.states[i].second_moment.len() by {
                assert(opt.states[i].first_moment.len() == opt.states[i].second_moment.len());
            }
            assert forall|i: int|
                0 <= i < self@.states.len() && (#[trigger] self@.states[i]).step_count
                    < u64::MAX implies self@.states[i].beta1_power == fx_pow(
                self@.beta1,
                self@.states[i].step_count,
            ) && self@.states[i].beta2_power == fx_pow(self@.beta2, self@.states[i].step_count) by {
                if i != slot {
                    assert(self@.states[i] == opt.states[i]);
                }
            }
        }
    }

    /// One optimizer step on the parameters named in `params`, one after
    /// the other. A parameter is updated when it is registered, the arena
    /// holds it and it has a gradient; every other parameter is passed
    /// over. An update counts one more step, moves both running means
    /// toward the gradient and its square, and moves the parameter's
    /// values against the bias-corrected mean, scaled by the root of the
    /// bias-corrected mean square. Fails, and changes nothing, when a
    /// parameter that should be updated has a state of another size.
    pub fn step(&mut self, graph: &mut Graph, params: &Vec<usize>) -> (r: Result<(), Error>)
        requires
            old(self).wf(),
            old(graph).wf(),
        ensures
            final(self).wf(),
            final(graph).wf(),
            match r {
                Ok(_) => {
                    &&& !old(self)@.blocked(old(graph)@, params@)
                    &&& (final(self)@, final(graph)@) == old(self)@.step(old(graph)@, params@)
                    &&& same_layout(old(self)@, old(graph)@, final(self)@, final(graph)@)
                    &&& final(graph)@.tape == old(graph)@.tape
                },
                Err(e) => {
                    &&& e == Error::ShapeMismatch
                    &&& old(self)@.blocked(old(graph)@, params@)
                    &&& final(self)@ == old(self)@
                    &&& final(graph)@ == old(graph)@
                },
            },
    {
        let ghost opt = self@;
        let ghost arena = graph@;
        let n: usize = params.len();
        let mut k: usize = 0;
        while k < n
            invariant
                k <= n,
                n == params.len(),
                self.wf(),
                graph.wf(),
                self@ == opt,
                graph@ == arena,
                forall|j: int| 0 <= j < k ==> !opt.mismatched(arena, #[trigger] params@[j]),
            decreases n - k,
        {
            let id: usize = params[k];
            match self.target(graph, id) {
                Some(slot) => {
                    let size: usize = match graph.tensor(id) {
                        Some(t) => t.len(),
                        None => 0,
                    };
                    assert(self@.states[slot as int] == self.states@[slot as int]@);
                    assert(raws(self.states@[slot as int].first_moment@).len()
                        == self.states@[slot as int].first_moment.len());
                    if self.states[slot].first_moment.len() != size {
                        assert(opt.mismatched(arena, params@[k as int]));
                        return Err(Error::ShapeMismatch);
                    }
                },
                None => {},
            }
            k = k + 1;
        }
        assert(!opt.blocked(arena, params@));
        let mut k: usize = 0;
        while k < n
            invariant
                k <= n,
                n == params.len(),
                self.wf(),
                graph.wf(),
                opt.wf(),
                arena.wf(),
                (self@, graph@) == opt.step_many(arena, params@, k as nat),
                forall|j: int| 0 <= j < n ==> !opt.mismatched(arena, #[trigger] params@[j]),
                same_layout(opt, arena, self@, graph@),
                graph@.tape == arena.tape,
            decreases n - k,
        {
            let id: usize = params[k];
            let ghost cur_opt = self@;
            let ghost cur_arena = graph@;
            proof {
                assert(!opt.mismatched(arena, params@[k as int]));
                lemma_same_layout(opt, arena, cur_opt, cur_arena, id);
            }
            match self.target(graph, id) {
                Some(slot) => {
                    self.update(graph, slot, id);
                    proof {
                        lemma_step_one_layout(cur_opt, cur_arena, id);
                        lemma_same_layout_trans(opt, arena, cur_opt, cur_arena, self@, graph@);
                    }
                },
                None => {},
            }
            k = k + 1;
        }
        Ok(())
    }
}

/// Two pairs of an optimizer and a graph keep the same parameters, with
/// states of the same sizes and tensors of the same shapes, tracking and
/// gradients; only values, moments and step counts may differ.
pub open spec fn same_layout(
    opt: AdamView,
    arena: GraphView,
    opt2: AdamView,
    arena2: GraphView,
) -> bool {
    &&& opt2.states.len() == opt.states.len()
    &&& arena2.tensors.len() == arena.tensors.len()
    &&& forall|i: int|
        0 <= i < opt.states.len() ==> (#[trigger] opt2.states[i]).id == opt.states[i].id
            && opt2.states[i].first_moment.len() == opt.states[i].first_moment.len()
    &&& forall|i: int|
        0 <= i < arena.tensors.len() ==> {
            &&& (#[trigger] arena2.tensors[i]).shape == arena.tensors[i].shape
            &&& arena2.tensors[i].data.len() == arena.tensors[i].data.len()
            &&& arena2.tensors[i].grad == arena.tensors[i].grad
            &&& arena2.tensors[i].requires_grad == arena.tensors[i].requires_grad
        }
}

/// With the same layout, the same parameters are updated, from the same
/// slots, and the same are mismatched.
pub proof fn lemma_same_layout(
    opt: AdamView,
    arena: GraphView,
    opt2: AdamView,
    arena2: GraphView,
    id: usize,
)
    requires
        opt.wf(),
        opt2.wf(),
        same_layout(opt, arena, opt2, arena2),
    ensures
        opt2.registered(id) == opt.registered(id),
        opt.registered(id) ==> opt2.slot(id) == opt.slot(id),
        opt2.updates(arena2, id) == opt.updates(arena, id),
        opt2.mismatched(arena2, id) == opt.mismatched(arena, id),
{
    if opt.registered(id) {
        let i = opt.slot(id);
        assert(opt2.states[i].id == id);
        let j = opt2.slot(id);
        assert(opt2.states[j].id == id);
        if i < j {
            assert(opt2.states[i].id != opt2.states[j].id);
        }
        if j < i {
            assert(opt2.states[j].id != opt2.states[i].id);
        }
    }
    if opt2.registered(id) {
        let j = opt2.slot(id);
        assert(opt.states[j].id == id);
    }
}

/// An optimizer that is sized for a graph is not blocked on any graph that
/// keeps the sizes of the parameters.
pub proof fn lemma_sized_not_blocked(
    opt: AdamView,
    g: GraphView,
    g2: GraphView,
    params: Seq<usize>,
)
    requires
        opt.sized_for(g, params),
        g.tensors.len() <= g2.tensors.len(),
        forall|k: int| 0 <= k < params.len() ==> (#[trigger] params[k]) < g.tensors.len(),
        forall|i: int|
            0 <= i < g.tensors.len() ==> (#[trigger] g2.tensors[i]).data.len()
                == g.tensors[i].data.len(),
    ensures
        !opt.blocked(g2, params),
{
    assert forall|k: int| 0 <= k < params.len() implies !opt.mismatched(
        g2,
        #[trigger] params[k],
    ) by {
        assert(params[k] < g.tensors.len());
    }
}

/// A step on one parameter keeps the layout.
pub proof fn lemma_step_one_layout(opt: AdamView, arena: GraphView, id: usize)
    ensures
        same_layout(opt, arena, opt.step_one(arena, id).0, opt.step_one(arena, id).1),
{
}

/// A step on any number of parameters keeps the layout.
pub proof fn lemma_step_many_layout(opt: AdamView, arena: GraphView, params: Seq<usize>, k: nat)
    ensures
        same_layout(
            opt,
            arena,
            opt.step_many(arena, params, k).0,
            opt.step_many(arena, params, k).1,
        ),
    decreases k,
{
    if k > 0 {
        let (o, g) = opt.step_many(arena, params, (k - 1) as nat);
        lemma_step_many_layout(opt, arena, params, (k - 1) as nat);
        lemma_step_one_layout(o, g, params[k - 1]);
        lemma_same_layout_trans(
            opt,
            arena,
            o,
            g,
            o.step_one(g, params[k - 1]).0,
            o.step_one(g, params[k - 1]).1,
        );
    }
}

/// What a step on the one parameter `id` does to the step count of a
/// registered parameter `other`: it stays registered, and its count grows
/// by one when it is the parameter that is updated, and stays otherwise.
pub proof fn lemma_step_one_count(opt: AdamView, arena: GraphView, id: usize, other: usize)
    requires
        opt.unique_ids(),
        opt.registered(other),
    ensures
        ({
            let after = opt.step_one(arena, id).0;
            let before_count = opt.states[opt.slot(other)].step_count;
            &&& after.registered(other)
            &&& after.slot(other) == opt.slot(other)
            &&& after.states[after.slot(other)].step_count == if other == id && opt.updates(
                arena,
                id,
            ) && before_count < u64::MAX {
                before_count + 1
            } else {
                before_count
            }
        }),
{
    let after = opt.step_one(arena, id).0;
    let slot = opt.slot(other);
    lemma_step_one_layout(opt, arena, id);
    assert(after.states[slot].id == other);
    let found = after.slot(other);
    assert(after.states[found].id == other);
    assert(opt.states[found].id == other);
    if found < slot {
        assert(opt.states[found].id != opt.states[slot].id);
    }
    if slot < found {
        assert(opt.states[slot].id != opt.states[found].id);
    }
    if opt.updates(arena, id) {
        let target = opt.slot(id);
        assert(opt.states[target].id == id);
        if other != id {
            assert(target != slot);
        } else {
            if target < slot {
                assert(opt.states[target].id != opt.states[slot].id);
            }
            if slot < target {
                assert(opt.states[slot].id != opt.states[target].id);
            }
        }
    }
}

/// A step never forgets a registered parameter and never lowers its step
/// count.
pub proof fn lemma_step_count_never_falls(
    opt: AdamView,
    arena: GraphView,
    params: Seq<usize>,
    k: nat,
    other: usize,
)
    requires
        opt.wf(),
        opt.registered(other),
    ensures
        ({
            let after = opt.step_many(arena, params, k).0;
            &&& after.registered(other)
            &&& after.slot(other) == opt.slot(other)
            &&& after.states[after.slot(other)].step_count >= opt.states[opt.slot(
                other,
            )].step_count
        }),
    decreases k,
{
    if k > 0 {
        let (o, g) = opt.step_many(arena, params, (k - 1) as nat);
        lemma_step_count_never_falls(opt, arena, params, (k - 1) as nat, other);
        lemma_step_many_layout(opt, arena, params, (k - 1) as nat);
        lemma_unique_ids(opt, o);
        lemma_step_one_count(o, g, params[k - 1], other);
    }
}

/// An optimizer with the same parameters in the same places has no
/// parameter twice either.
pub proof fn lemma_unique_ids(opt: AdamView, other: AdamView)
    requires
        opt.wf(),
        other.states.len() == opt.states.len(),
        forall|i: int| 0 <= i < opt.states.len() ==> (#[trigger] other.states[i]).id == opt.states[i].id,
    ensures
        other.unique_ids(),
{
    assert forall|i: int, j: int| 0 <= i < j < other.states.len() implies (
    #[trigger] other.states[i]).id != (#[trigger] other.states[j]).id by {
        assert(opt.states[i].id != opt.states[j].id);
    }
}

/// Keeping the layout carries over from step to step.
pub proof fn lemma_same_layout_trans(
    a: AdamView,
    ga: GraphView,
    b: AdamView,
    gb: GraphView,
    c: AdamView,
    gc: GraphView,
)
    requires
        same_layout(a, ga, b, gb),
        same_layout(b, gb, c, gc),
    ensures
        same_layout(a, ga, c, gc),
{
}

} // verus!
