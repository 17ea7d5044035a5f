//! The stages of the feature extractor, and the walk through them.
//!
//! The extractor is a fixed chain of layers. A batch of `n` images enters as
//! the first stage; each further stage is the output of one layer applied to
//! the stage before it, and has a known shape. Features can be taken at any
//! stage: either at one, where the walk stops, or at a set of them in a single
//! pass through the whole chain.
//!
//! Nothing here knows what a layer does. [`fid_forward`] and
//! [`fid_forward_layers`] run the layers that the caller hands in; a caller
//! that has to run them itself, on a device or without blocking, takes a
//! [`Walk`], which says which layer comes next and whether the tensor at hand
//! is one that was asked for.

use vstd::prelude::*;
use std::collections::HashSet;

verus! {

broadcast use vstd::std_specs::hash::group_hash_axioms;

/// A point of the chain at which features can be taken.
#[derive(Clone, Copy, Debug, PartialEq, Eq, Structural)]
pub enum Stage {
    /// The batch as it was given: 3 channels of 299 × 299.
    Input,
    /// After the first convolution, 3 × 3 with stride 2.
    Conv2d1a3x3,
    /// After the second convolution, 3 × 3.
    Conv2d2a3x3,
    /// After the third convolution, 3 × 3 and padded.
    Conv2d2b3x3,
    /// After the first max pooling.
    MaxPool1,
    /// After the fourth convolution, 1 × 1.
    Conv2d3b1x1,
    /// After the fifth convolution, 3 × 3.
    Conv2d4a3x3,
    /// After the second max pooling.
    MaxPool2,
    /// After the first of the three mixed blocks at 35 × 35.
    Mixed5b,
    /// After the second of the three mixed blocks at 35 × 35.
    Mixed5c,
    /// After the third of the three mixed blocks at 35 × 35.
    Mixed5d,
    /// After the mixed block that reduces the grid to 17 × 17.
    Mixed6a,
    /// After the first of the four mixed blocks at 17 × 17.
    Mixed6b,
    /// After the second of the four mixed blocks at 17 × 17.
    Mixed6c,
    /// After the third of the four mixed blocks at 17 × 17.
    Mixed6d,
    /// After the fourth of the four mixed blocks at 17 × 17.
    Mixed6e,
    /// After the mixed block that reduces the grid to 8 × 8.
    Mixed7a,
    /// After the first of the two mixed blocks at 8 × 8.
    Mixed7b,
    /// After the second of the two mixed blocks at 8 × 8.
    Mixed7c,
    /// After the final pooling, down to one value for each channel.
    AvgPool,
    /// After the dropout that closes the chain.
    Dropout,
}

/// The number of stages.
pub const STAGE_COUNT: usize = 21;

/// Why no features could be taken.
#[derive(Clone, Copy, Debug, PartialEq, Eq, Structural)]
pub enum Error {
    /// There is no stage of this index.
    LayerIndexOutOfBounds { layer: usize },
}

/// The stage of index `i`; beyond the chain, its last.
pub open spec fn stage_at(i: nat) -> Stage {
    if i == 0 {
        Stage::Input
    } else if i == 1 {
        Stage::Conv2d1a3x3
    } else if i == 2 {
        Stage::Conv2d2a3x3
    } else if i == 3 {
        Stage::Conv2d2b3x3
    } else if i == 4 {
        Stage::MaxPool1
    } else if i == 5 {
        Stage::Conv2d3b1x1
    } else if i == 6 {
        Stage::Conv2d4a3x3
    } else if i == 7 {
        Stage::MaxPool2
    } else if i == 8 {
        Stage::Mixed5b
    } else if i == 9 {
        Stage::Mixed5c
    } else if i == 10 {
        Stage::Mixed5d
    } else if i == 11 {
        Stage::Mixed6a
    } else if i == 12 {
        Stage::Mixed6b
    } else if i == 13 {
        Stage::Mixed6c
    } else if i == 14 {
        Stage::Mixed6d
    } else if i == 15 {
        Stage::Mixed6e
    } else if i == 16 {
        Stage::Mixed7a
    } else if i == 17 {
        Stage::Mixed7b
    } else if i == 18 {
        Stage::Mixed7c
    } else if i == 19 {
        Stage::AvgPool
    } else {
        Stage::Dropout
    }
}

impl Stage {
    /// The index of the stage in the chain, from 0 for the input.
    pub open spec fn position(self) -> nat {
        match self {
            Stage::Input => 0,
            Stage::Conv2d1a3x3 => 1,
            Stage::Conv2d2a3x3 => 2,
            Stage::Conv2d2b3x3 => 3,
            Stage::MaxPool1 => 4,
            Stage::Conv2d3b1x1 => 5,
            Stage::Conv2d4a3x3 => 6,
            Stage::MaxPool2 => 7,
            Stage::Mixed5b => 8,
            Stage::Mixed5c => 9,
            Stage::Mixed5d => 10,
            Stage::Mixed6a => 11,
            Stage::Mixed6b => 12,
            Stage::Mixed6c => 13,
            Stage::Mixed6d => 14,
            Stage::Mixed6e => 15,
            Stage::Mixed7a => 16,
            Stage::Mixed7b => 17,
            Stage::Mixed7c => 18,
            Stage::AvgPool => 19,
            Stage::Dropout => 20,
        }
    }

    /// The channels, height and width of one sample at this stage.
    pub open spec fn sample_shape(self) -> (usize, usize, usize) {
        match self {
            Stage::Input => (3, 299, 299),
            Stage::Conv2d1a3x3 => (32, 149, 149),
            Stage::Conv2d2a3x3 => (32, 147, 147),
            Stage::Conv2d2b3x3 => (64, 147, 147),
            Stage::MaxPool1 => (64, 73, 73),
            Stage::Conv2d3b1x1 => (80, 73, 73),
            Stage::Conv2d4a3x3 => (192, 71, 71),
            Stage::MaxPool2 => (192, 35, 35),
            Stage::Mixed5b => (256, 35, 35),
            Stage::Mixed5c => (288, 35, 35),
            Stage::Mixed5d => (288, 35, 35),
            Stage::Mixed6a => (768, 17, 17),
            Stage::Mixed6b => (768, 17, 17),
            Stage::Mixed6c => (768, 17, 17),
            Stage::Mixed6d => (768, 17, 17),
            Stage::Mixed6e => (768, 17, 17),
            Stage::Mixed7a => (1280, 8, 8),
            Stage::Mixed7b => (2048, 8, 8),
            Stage::Mixed7c => (2048, 8, 8),
            Stage::AvgPool => (2048, 1, 1),
            Stage::Dropout => (2048, 1, 1),
        }
    }

    /// The shape of a batch of `n` samples at this stage.
    pub open spec fn batch_shape(self, n: usize) -> Seq<usize> {
        seq![n, self.sample_shape().0, self.sample_shape().1, self.sample_shape().2]
    }

    /// The index of the stage in the chain, from 0 for the input.
    pub fn index(self) -> (i: usize)
        ensures
            i == self.position(),
            i < STAGE_COUNT,
    {
        match self {
            Stage::Input => 0,
            Stage::Conv2d1a3x3 => 1,
            Stage::Conv2d2a3x3 => 2,
            Stage::Conv2d2b3x3 => 3,
            Stage::MaxPool1 => 4,
            Stage::Conv2d3b1x1 => 5,
            Stage::Conv2d4a3x3 => 6,
            Stage::MaxPool2 => 7,
            Stage::Mixed5b => 8,
            Stage::Mixed5c => 9,
            Stage::Mixed5d => 10,
            Stage::Mixed6a => 11,
            Stage::Mixed6b => 12,
            Stage::Mixed6c => 13,
            Stage::Mixed6d => 14,
            Stage::Mixed6e => 15,
            Stage::Mixed7a => 16,
            Stage::Mixed7b => 17,
            Stage::Mixed7c => 18,
            Stage::AvgPool => 19,
            Stage::Dropout => 20,
        }
    }

    /// The stage of an index inside the chain.
    fn nth(i: usize) -> (s: Stage)
        requires
            i < STAGE_COUNT,
        ensures
            s == stage_at(i as nat),
    {
        if i == 0 {
            Stage::Input
        } else if i == 1 {
            Stage::Conv2d1a3x3
        } else if i == 2 {
            Stage::Conv2d2a3x3
        } else if i == 3 {
            Stage::Conv2d2b3x3
        } else if i == 4 {
            Stage::MaxPool1
        } else if i == 5 {
            Stage::Conv2d3b1x1
        } else if i == 6 {
            Stage::Conv2d4a3x3
        } else if i == 7 {
            Stage::MaxPool2
        } else if i == 8 {
            Stage::Mixed5b
        } else if i == 9 {
            Stage::Mixed5c
        } else if i == 10 {
            Stage::Mixed5d
        } else if i == 11 {
            Stage::Mixed6a
        } else if i == 12 {
            Stage::Mixed6b
        } else if i == 13 {
            Stage::Mixed6c
        } else if i == 14 {
            Stage::Mixed6d
        } else if i == 15 {
            Stage::Mixed6e
        } else if i == 16 {
            Stage::Mixed7a
        } else if i == 17 {
            Stage::Mixed7b
        } else if i == 18 {
            Stage::Mixed7c
        } else if i == 19 {
            Stage::AvgPool
        } else {
            Stage::Dropout
        }
    }

    /// The stage of index `layer`, where there is one.
    pub fn from_index(layer: usize) -> (r: Result<Stage, Error>)
        ensures
            layer < STAGE_COUNT ==> r == Ok::<Stage, Error>(stage_at(layer as nat)),
            layer >= STAGE_COUNT ==> r == Err::<Stage, Error>(
                Error::LayerIndexOutOfBounds { layer },
            ),
    {
        if layer < STAGE_COUNT {
            Ok(Stage::nth(layer))
        } else {
            Err(Error::LayerIndexOutOfBounds { layer })
        }
    }

    /// The channels, height and width of one sample at this stage.
    pub fn sample_dims(self) -> (r: (usize, usize, usize))
        ensures
            r == self.sample_shape(),
    {
        match self {
            Stage::Input => (3, 299, 299),
            Stage::Conv2d1a3x3 => (32, 149, 149),
            Stage::Conv2d2a3x3 => (32, 147, 147),
            Stage::Conv2d2b3x3 => (64, 147, 147),
            Stage::MaxPool1 => (64, 73, 73),
            Stage::Conv2d3b1x1 => (80, 73, 73),
            Stage::Conv2d4a3x3 => (192, 71, 71),
            Stage::MaxPool2 => (192, 35, 35),
            Stage::Mixed5b => (256, 35, 35),
            Stage::Mixed5c | Stage::Mixed5d => (288, 35, 35),
            Stage::Mixed6a | Stage::Mixed6b | Stage::Mixed6c | Stage::Mixed6d | Stage::Mixed6e => (
                768,
                17,
                17,
            ),
            Stage::Mixed7a => (1280, 8, 8),
            Stage::Mixed7b | Stage::Mixed7c => (2048, 8, 8),
            Stage::AvgPool | Stage::Dropout => (2048, 1, 1),
        }
    }

    /// Whether `dims` is the shape of a batch of `n` samples at this stage.
    pub fn accepts(self, n: usize, dims: &[usize]) -> (r: bool)
        ensures
            r <==> dims@ == self.batch_shape(n),
    {
        let (c, h, w) = self.sample_dims();
        let r = dims.len() == 4 && dims[0] == n && dims[1] == c && dims[2] == h && dims[3] == w;
        proof {
            let asked = self.batch_shape(n);
            if r {
                assert(dims@ =~= asked);
            } else if dims@.len() == 4 {
                assert(asked[0] == n && asked[1] == c && asked[2] == h && asked[3] == w);
            } else {
                assert(asked.len() == 4);
            }
        }
        r
    }
}

/// Every stage has its index, and every index below the count its stage.
pub proof fn lemma_stage_positions(s: Stage, i: nat)
    ensures
        s.position() < STAGE_COUNT,
        stage_at(s.position()) == s,
        i < STAGE_COUNT ==> stage_at(i).position() == i,
{
}

/// The `count` stages that follow one another from index `first` on.
pub open spec fn stages_from(first: nat, count: nat) -> Seq<Stage> {
    Seq::new(count, |k: int| stage_at((first + k) as nat))
}

/// The test that picks the stages whose index is in `wanted`.
pub open spec fn asked_for(wanted: Set<nat>) -> spec_fn(Stage) -> bool {
    |s: Stage| wanted.contains(s.position())
}

/// The test that picks the stages whose index is in `layers`.
pub open spec fn selected_by(layers: Set<usize>) -> spec_fn(Stage) -> bool {
    |s: Stage| layers.contains(s.position() as usize)
}

/// The stages whose index is in `layers`, in the order of the chain.
pub open spec fn picked(layers: Set<usize>) -> Seq<Stage> {
    stages_from(0, STAGE_COUNT as nat).filter(selected_by(layers))
}

/// Where a walk stands and what it is after.
pub ghost struct WalkView {
    /// The index of the stage whose tensor is at hand.
    pub at: nat,
    /// The index of the stage at which the walk ends.
    pub last: nat,
    /// The indices of the stages that were asked for.
    pub wanted: Set<nat>,
}

impl WalkView {
    /// The walk one layer further.
    pub open spec fn step(self) -> WalkView {
        WalkView { at: self.at + 1, last: self.last, wanted: self.wanted }
    }

    /// The stages that are handed out from here to the end of the walk, in the
    /// order in which they are reached.
    pub open spec fn handed_out(self) -> Seq<Stage>
        decreases self.last - self.at,
    {
        let here = if self.wanted.contains(self.at) {
            seq![stage_at(self.at)]
        } else {
            Seq::<Stage>::empty()
        };
        if self.at < self.last {
            here + self.step().handed_out()
        } else {
            here
        }
    }

    /// The stages whose layers are run from here to the end of the walk, in the
    /// order in which they run.
    pub open spec fn run(self) -> Seq<Stage>
        decreases self.last - self.at,
    {
        if self.at < self.last {
            seq![stage_at(self.at + 1)] + self.step().run()
        } else {
            Seq::<Stage>::empty()
        }
    }
}

/// The walk that stops at stage `layer` and hands out that stage alone.
pub open spec fn walk_to(layer: nat) -> WalkView {
    WalkView { at: 0, last: layer, wanted: set![layer] }
}

/// The walk through the whole chain that hands out each stage of `layers`.
pub open spec fn walk_through(layers: Set<usize>) -> WalkView {
    WalkView {
        at: 0,
        last: (STAGE_COUNT - 1) as nat,
        wanted: Set::new(|i: nat| i < STAGE_COUNT && layers.contains(i as usize)),
    }
}

/// A pass along the chain of stages, one layer at a time.
///
/// The walk starts at the input. At each stage, [`Walk::wanted`] says whether
/// the tensor at hand was asked for, and [`Walk::advance`] names the layer to
/// run next, or ends the walk.
#[derive(Debug)]
pub struct Walk {
    at: usize,
    last: usize,
    wanted: Vec<bool>,
}

impl View for Walk {
    type V = WalkView;

    closed spec fn view(&self) -> WalkView {
        WalkView {
            at: self.at as nat,
            last: self.last as nat,
            wanted: Set::new(|i: nat| i < self.wanted@.len() && self.wanted@[i as int]),
        }
    }
}

impl Walk {
    #[verifier::type_invariant]
    spec fn inside_the_chain(&self) -> bool {
        &&& self.at <= self.last < STAGE_COUNT
        &&& self.wanted@.len() == STAGE_COUNT
    }

    /// Starts the walk that ends at stage `layer` and hands out that stage
    /// alone.
    pub fn single(layer: usize) -> (r: Result<Walk, Error>)
        ensures
            match r {
                Ok(w) => layer < STAGE_COUNT && w@ == walk_to(layer as nat),
                Err(e) => layer >= STAGE_COUNT && e == (Error::LayerIndexOutOfBounds { layer }),
            },
    {
        if layer >= STAGE_COUNT {
            return Err(Error::LayerIndexOutOfBounds { layer });
        }
        let mut wanted: Vec<bool> = Vec::new();
        let mut i: usize = 0;
        while i < STAGE_COUNT
            invariant
                i <= STAGE_COUNT,
                wanted@.len() == i,
                forall|k: int| 0 <= k < i ==> #[trigger] wanted@[k] == (k == layer),
            decreases STAGE_COUNT - i,
        {
            wanted.push(i == layer);
            i += 1;
        }
        let w = Walk { at: 0, last: layer, wanted };
        assert(w@.wanted =~= set![layer as nat]);
        Ok(w)
    }

    /// Starts the walk through the whole chain that hands out every stage
    /// whose index is in `layers`. An index beyond the chain selects nothing.
    pub fn collecting(layers: &HashSet<usize>) -> (w: Walk)
        ensures
            w@ == walk_through(layers@),
    {
        let mut wanted: Vec<bool> = Vec::new();
        let mut i: usize = 0;
        while i < STAGE_COUNT
            invariant
                i <= STAGE_COUNT,
                wanted@.len() == i,
                forall|k: int| 0 <= k < i ==> #[trigger] wanted@[k] == layers@.contains(k as usize),
            decreases STAGE_COUNT - i,
        {
            wanted.push(layers.contains(&i));
            i += 1;
        }
        let w = Walk { at: 0, last: STAGE_COUNT - 1, wanted };
        assert(w@.wanted =~= walk_through(layers@).wanted);
        w
    }

    /// The stage whose tensor is at hand.
    pub fn stage(&self) -> (s: Stage)
        ensures
            s == stage_at(self@.at),
            self@.at <= self@.last < STAGE_COUNT,
    {
        proof {
            use_type_invariant(self);
        }
        Stage::nth(self.at)
    }

    /// Whether the tensor at hand is one that was asked for.
    pub fn wanted(&self) -> (r: bool)
        ensures
            r == self@.wanted.contains(self@.at),
    {
        proof {
            use_type_invariant(self);
        }
        self.wanted[self.at]
    }

    /// Moves to the next stage and names it: the caller runs that stage's layer
    /// on the tensor at hand. At the end of the walk nothing moves.
    pub fn advance(&mut self) -> (r: Option<Stage>)
        ensures
            old(self)@.at < old(self)@.last ==> final(self)@ == old(self)@.step() && r == Some(
                stage_at(old(self)@.at + 1),
            ),
            old(self)@.at >= old(self)@.last ==> final(self)@ == old(self)@ && r is None,
    {
        proof {
            use_type_invariant(&*self);
        }
        if self.at < self.last {
            self.at = self.at + 1;
            Some(Stage::nth(self.at))
        } else {
            None
        }
    }
}

/// Whether `chain` holds the tensors of successive stages, each made from the
/// one before it by the layer of its stage; the first is the input.
pub open spec fn is_run<X, F: Fn(Stage, X) -> X>(apply: F, chain: Seq<X>) -> bool {
    forall|k: int|
        1 <= k < chain.len() ==> call_ensures(
            apply,
            (stage_at(k as nat), chain[k - 1]),
            #[trigger] chain[k],
        )
}

/// Whether `apply` can be asked for each of the first `count` layers on a run
/// that starts with `x`: for the first on `x`, and for each further one on
/// whatever the layers before it may have made of `x`.
pub open spec fn can_run<X, F: Fn(Stage, X) -> X>(apply: F, x: X, count: nat) -> bool {
    forall|chain: Seq<X>|
        1 <= chain.len() <= count && chain[0] == x && #[trigger] is_run(apply, chain)
            ==> call_requires(apply, (stage_at(chain.len()), chain.last()))
}

/// Whether running the layers of the stages 1 to `layer` on `x`, each on what
/// the one before it made, can give `out`.
pub open spec fn reaches<X, F: Fn(Stage, X) -> X>(apply: F, x: X, layer: nat, out: X) -> bool {
    exists|chain: Seq<X>|
        {
            &&& #[trigger] is_run(apply, chain)
            &&& chain.len() == layer + 1
            &&& chain[0] == x
            &&& chain[layer as int] == out
        }
}

/// Whether running the layers of all the stages on `x`, each on what the one
/// before it made, can give `out`: clones of the tensors at the stages whose
/// index is in `layers`, in the order of the chain.
pub open spec fn collects<X: Clone, F: Fn(Stage, X) -> X>(
    apply: F,
    x: X,
    layers: Set<usize>,
    out: Seq<X>,
) -> bool {
    exists|chain: Seq<X>|
        {
            &&& #[trigger] is_run(apply, chain)
            &&& chain.len() == STAGE_COUNT
            &&& chain[0] == x
            &&& taken_from(chain, picked(layers), out)
        }
}

/// Whether `out` holds, for each stage of `picked` in turn, a clone of the
/// tensor that `chain` has at that stage.
pub open spec fn taken_from<X: Clone>(chain: Seq<X>, picked: Seq<Stage>, out: Seq<X>) -> bool {
    &&& out.len() == picked.len()
    &&& forall|k: int|
        0 <= k < out.len() ==> cloned(chain[picked[k].position() as int], #[trigger] out[k])
}

/// A run goes on by the tensor that the next layer makes of its last.
proof fn lemma_run_goes_on<X, F: Fn(Stage, X) -> X>(apply: F, chain: Seq<X>, next: X)
    requires
        chain.len() >= 1,
        is_run(apply, chain),
        call_ensures(apply, (stage_at(chain.len()), chain.last()), next),
    ensures
        is_run(apply, chain.push(next)),
        chain.push(next)[0] == chain[0],
        chain.push(next).len() == chain.len() + 1,
        chain.push(next)[chain.len() as int] == next,
{
    let longer = chain.push(next);
    assert forall|k: int| 1 <= k < longer.len() implies call_ensures(
        apply,
        (stage_at(k as nat), longer[k - 1]),
        #[trigger] longer[k],
    ) by {
        if k < chain.len() {
            assert(longer[k] == chain[k]);
            assert(longer[k - 1] == chain[k - 1]);
        }
    }
}

/// What was taken from a run stays taken from it as the run goes on.
proof fn lemma_taken_stays<X: Clone>(chain: Seq<X>, picked: Seq<Stage>, out: Seq<X>, next: X)
    requires
        taken_from(chain, picked, out),
        forall|k: int| 0 <= k < picked.len() ==> (#[trigger] picked[k]).position() < chain.len(),
    ensures
        taken_from(chain.push(next), picked, out),
{
    let longer = chain.push(next);
    assert forall|k: int| 0 <= k < out.len() implies cloned(
        longer[picked[k].position() as int],
        #[trigger] out[k],
    ) by {
        assert(longer[picked[k].position() as int] == chain[picked[k].position() as int]);
    }
}

/// A clone of the tensor at one more stage is one more tensor taken.
proof fn lemma_taken_more<X: Clone>(
    chain: Seq<X>,
    picked: Seq<Stage>,
    out: Seq<X>,
    stage: Stage,
    copy: X,
)
    requires
        taken_from(chain, picked, out),
        cloned(chain[stage.position() as int], copy),
    ensures
        taken_from(chain, picked.push(stage), out.push(copy)),
{
    let more = picked.push(stage);
    let copies = out.push(copy);
    assert forall|k: int| 0 <= k < copies.len() implies cloned(
        chain[more[k].position() as int],
        #[trigger] copies[k],
    ) by {
        if k < out.len() {
            assert(more[k] == picked[k]);
            assert(copies[k] == out[k]);
        }
    }
}

/// What a walk hands out is what it hands out where it stands, and then what
/// it hands out from the next stage on.
proof fn lemma_handed_out_unfolds(v: WalkView)
    ensures
        v.handed_out() == (if v.wanted.contains(v.at) {
            seq![stage_at(v.at)]
        } else {
            Seq::<Stage>::empty()
        }) + (if v.at < v.last {
            v.step().handed_out()
        } else {
            Seq::<Stage>::empty()
        }),
{
    let here = if v.wanted.contains(v.at) {
        seq![stage_at(v.at)]
    } else {
        Seq::<Stage>::empty()
    };
    assert(here + Seq::<Stage>::empty() =~= here);
}

/// The features of `x` at stage `layer`.
///
/// `apply(stage, t)` runs the layer that leads to `stage` on the tensor `t` of
/// the stage before. The layers of the stages 1 to `layer` are run, each once
/// and in this order, and what the last of them gives is returned; for
/// `layer` 0 that is `x` itself.
pub fn fid_forward<X, F: Fn(Stage, X) -> X>(apply: F, x: X, layer: usize) -> (r: Result<X, Error>)
    requires
        layer < STAGE_COUNT ==> can_run(apply, x, layer as nat),
    ensures
        match r {
            Ok(out) => layer < STAGE_COUNT && reaches(apply, x, layer as nat, out),
            Err(e) => layer >= STAGE_COUNT && e == (Error::LayerIndexOutOfBounds { layer }),
        },
{
    let mut walk = match Walk::single(layer) {
        Ok(walk) => walk,
        Err(e) => {
            return Err(e);
        },
    };
    let ghost mut chain: Seq<X> = seq![x];
    let mut held = x;
    loop
        invariant
            can_run(apply, x, layer as nat),
            walk@.at <= walk@.last == layer < STAGE_COUNT,
            chain.len() == walk@.at + 1,
            chain[0] == x,
            chain[walk@.at as int] == held,
            is_run(apply, chain),
        decreases walk@.last - walk@.at,
    {
        match walk.advance() {
            Some(stage) => {
                let ghost before = held;
                held = apply(stage, held);
                proof {
                    assert(chain.last() == before);
                    lemma_run_goes_on(apply, chain, held);
                    chain = chain.push(held);
                }
            },
            None => {
                assert(is_run(apply, chain) && chain.len() == layer + 1 && chain[0] == x
                    && chain[layer as int] == held);
                return Ok(held);
            },
        }
    }
}

/// The features of `x` at each stage whose index is in `layers`, in the order
/// of the chain.
///
/// The layers of all the stages are run, each once and in order, whatever
/// `layers` holds; of the tensor at each stage asked for, a clone is kept. An
/// index beyond the chain selects nothing.
pub fn fid_forward_layers<X: Clone, F: Fn(Stage, X) -> X>(
    apply: F,
    x: X,
    layers: &HashSet<usize>,
) -> (r: Vec<X>)
    requires
        can_run(apply, x, (STAGE_COUNT - 1) as nat),
    ensures
        collects(apply, x, layers@, r@),
{
    let mut walk = Walk::collecting(layers);
    let mut out: Vec<X> = Vec::new();
    let ghost all = walk@.handed_out();
    let ghost mut kept: Seq<Stage> = Seq::empty();
    let ghost mut chain: Seq<X> = seq![x];
    let mut held = x;
    proof {
        assert(kept + walk@.handed_out() =~= all);
        lemma_walk_through(layers@);
    }
    loop
        invariant
            can_run(apply, x, (STAGE_COUNT - 1) as nat),
            all == picked(layers@),
            walk@.at <= walk@.last == STAGE_COUNT - 1,
            chain.len() == walk@.at + 1,
            chain[0] == x,
            chain[walk@.at as int] == held,
            is_run(apply, chain),
            all == kept + walk@.handed_out(),
            taken_from(chain, kept, out@),
            forall|k: int| 0 <= k < kept.len() ==> (#[trigger] kept[k]).position() < chain.len(),
        decreases walk@.last - walk@.at,
    {
        let ghost before = walk@;
        proof {
            lemma_handed_out_unfolds(before);
            lemma_stage_positions(stage_at(before.at), before.at);
        }
        if walk.wanted() {
            let copy = held.clone();
            proof {
                lemma_taken_more(chain, kept, out@, stage_at(before.at), copy);
                assert((kept + seq![stage_at(before.at)]) =~= kept.push(stage_at(before.at)));
                kept = kept.push(stage_at(before.at));
            }
            out.push(copy);
        } else {
            proof {
                assert(kept + Seq::<Stage>::empty() =~= kept);
            }
        }
        match walk.advance() {
            Some(stage) => {
                let ghost last = held;
                held = apply(stage, held);
                proof {
                    assert(chain.last() == last);
                    assert(all =~= kept + walk@.handed_out());
                    lemma_run_goes_on(apply, chain, held);
                    lemma_taken_stays(chain, kept, out@, held);
                    chain = chain.push(held);
                }
            },
            None => {
                proof {
                    assert(all =~= kept);
                }
                assert(is_run(apply, chain) && chain.len() == STAGE_COUNT && chain[0] == x
                    && taken_from(chain, all, out@));
                return out;
            },
        }
    }
}

/// Two tests that agree on every item of a sequence keep the same items.
proof fn lemma_filter_agrees(s: Seq<Stage>, p: spec_fn(Stage) -> bool, q: spec_fn(Stage) -> bool)
    requires
        forall|i: int| 0 <= i < s.len() ==> p(#[trigger] s[i]) == q(s[i]),
    ensures
        s.filter(p) == s.filter(q),
    decreases s.len(),
{
    reveal(Seq::filter);
    if s.len() > 0 {
        lemma_filter_agrees(s.drop_last(), p, q);
    }
}

/// Of a single item, a test keeps the item or nothing.
proof fn lemma_filter_single(item: Stage, p: spec_fn(Stage) -> bool)
    ensures
        seq![item].filter(p) == (if p(item) {
            seq![item]
        } else {
            Seq::<Stage>::empty()
        }),
{
    reveal_with_fuel(Seq::filter, 2);
    let one = seq![item];
    assert(one.drop_last() =~= Seq::<Stage>::empty());
    assert(one.last() == item);
    assert(Seq::<Stage>::empty().push(item) =~= one);
}

/// Of a run of stages, a test keeps what it keeps of the first, and then what
/// it keeps of the run from the second on.
proof fn lemma_filter_run(first: nat, count: nat, p: spec_fn(Stage) -> bool)
    requires
        count >= 1,
    ensures
        stages_from(first, count).filter(p) == (if p(stage_at(first)) {
            seq![stage_at(first)]
        } else {
            Seq::<Stage>::empty()
        }) + stages_from(first + 1, (count - 1) as nat).filter(p),
{
    let head = seq![stage_at(first)];
    let rest = stages_from(first + 1, (count - 1) as nat);
    assert(stages_from(first, count) =~= head + rest);
    Seq::filter_distributes_over_add(head, rest, p);
    lemma_filter_single(stage_at(first), p);
}

/// A walk runs the layers of the stages after the one it stands at, up to its
/// last, each once and in the order of the chain.
pub proof fn lemma_walk_runs(v: WalkView)
    requires
        v.at <= v.last,
    ensures
        v.run() == stages_from(v.at + 1, (v.last - v.at) as nat),
    decreases v.last - v.at,
{
    if v.at < v.last {
        lemma_walk_runs(v.step());
        assert(seq![stage_at(v.at + 1)] + stages_from(v.at + 2, (v.last - v.at - 1) as nat)
            =~= stages_from(v.at + 1, (v.last - v.at) as nat));
    } else {
        assert(v.run() =~= stages_from(v.at + 1, 0));
    }
}

/// A walk hands out, in the order of the chain, the stages from the one it
/// stands at to its last that were asked for.
pub proof fn lemma_walk_hands_out(v: WalkView)
    requires
        v.at <= v.last < STAGE_COUNT,
    ensures
        v.handed_out() == stages_from(v.at, (v.last - v.at + 1) as nat).filter(
            asked_for(v.wanted),
        ),
    decreases v.last - v.at,
{
    let keep = asked_for(v.wanted);
    lemma_stage_positions(stage_at(v.at), v.at);
    lemma_filter_run(v.at, (v.last - v.at + 1) as nat, keep);
    lemma_handed_out_unfolds(v);
    if v.at < v.last {
        lemma_walk_hands_out(v.step());
    } else {
        assert(stages_from(v.at + 1, 0).filter(keep) =~= Seq::<Stage>::empty()) by {
            reveal(Seq::filter);
        }
    }
}

/// The walk to one stage runs the layers of the stages from the second to
/// that one, and hands out that stage and no other.
pub proof fn lemma_walk_to(layer: nat)
    requires
        layer < STAGE_COUNT,
    ensures
        walk_to(layer).run() == stages_from(1, layer),
        walk_to(layer).handed_out() == seq![stage_at(layer)],
{
    lemma_walk_runs(walk_to(layer));
    lemma_only_the_last(walk_to(layer));
}

/// A walk that was asked for its last stage alone hands out that stage and no
/// other, from wherever it stands.
proof fn lemma_only_the_last(v: WalkView)
    requires
        v.at <= v.last,
        v.wanted == set![v.last],
    ensures
        v.handed_out() == seq![stage_at(v.last)],
    decreases v.last - v.at,
{
    if v.at < v.last {
        lemma_only_the_last(v.step());
        assert(Seq::<Stage>::empty() + v.step().handed_out() =~= v.step().handed_out());
    }
}

/// The walk through the chain runs every layer once, in order, and hands out
/// the stages whose index is in `layers`, in the order of the chain.
pub proof fn lemma_walk_through(layers: Set<usize>)
    ensures
        walk_through(layers).run() == stages_from(1, (STAGE_COUNT - 1) as nat),
        walk_through(layers).handed_out() == picked(layers),
{
    let v = walk_through(layers);
    lemma_walk_runs(v);
    lemma_walk_hands_out(v);
    let all = stages_from(0, STAGE_COUNT as nat);
    assert forall|i: int| 0 <= i < all.len() implies asked_for(v.wanted)(#[trigger] all[i])
        == selected_by(layers)(all[i]) by {
        lemma_stage_positions(all[i], i as nat);
    }
    lemma_filter_agrees(all, asked_for(v.wanted), selected_by(layers));
}

/// Of a run of stages, those of index `layer`: that stage where the run holds
/// it, and none where it does not.
proof fn lemma_filter_one(first: nat, count: nat, layer: usize)
    requires
        first + count <= STAGE_COUNT,
    ensures
        stages_from(first, count).filter(selected_by(set![layer])) == (if first <= layer < first
            + count {
            seq![stage_at(layer as nat)]
        } else {
            Seq::<Stage>::empty()
        }),
    decreases count,
{
    reveal(Seq::filter);
    if count > 0 {
        let all = stages_from(first, count);
        lemma_filter_one(first, (count - 1) as nat, layer);
        assert(all.drop_last() =~= stages_from(first, (count - 1) as nat));
        lemma_stage_positions(all.last(), (first + count - 1) as nat);
        assert(Seq::<Stage>::empty().push(all.last()) =~= seq![all.last()]);
    }
}

/// Asking for one stage through a set is asking for it alone: that stage is
/// picked and no other, and the walk through the chain hands out what the walk
/// to that stage hands out.
pub proof fn lemma_one_layer(layer: usize)
    requires
        layer < STAGE_COUNT,
    ensures
        picked(set![layer]) == seq![stage_at(layer as nat)],
        walk_through(set![layer]).handed_out() == walk_to(layer as nat).handed_out(),
{
    lemma_walk_through(set![layer]);
    lemma_walk_to(layer as nat);
    lemma_filter_one(0, STAGE_COUNT as nat, layer);
}

} // verus!
