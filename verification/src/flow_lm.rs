//! The token-conditioned flow-matching LM: what it reads from a checkpoint, what a sampling step
//! runs on, and when it says that speech is over.
use crate::conditioners::{LUTConditioner, Lookup};
use crate::error::{Cause, TensorError};
use crate::loader::NamedShape;
use crate::text;
use vstd::prelude::*;
use vstd::string::*;

verus! {

/// Replays a fixed sequence of values, cycling when exhausted.
///
/// The sampler's only source of randomness is its noise, so feeding it a recorded sequence makes
/// a generation reproducible across implementations.
pub struct ReplayRng<T> {
    values: Vec<T>,
    index: usize,
}

impl<T: Copy> ReplayRng<T> {
    /// The recorded values.
    pub closed spec fn recorded(self) -> Seq<T> {
        self.values@
    }

    /// The place of the next value.
    pub closed spec fn place(self) -> int {
        self.index as int
    }

    /// The next value is one of those recorded.
    pub open spec fn wf(self) -> bool {
        0 <= self.place() < self.recorded().len()
    }

    pub fn new(values: Vec<T>) -> (r: std::result::Result<Self, TensorError>)
        ensures
            match r {
                Ok(rng) => values@.len() > 0 && rng.wf() && rng.recorded() == values@ && rng.place()
                    == 0,
                Err(e) => values@.len() == 0 && e.text@ == "ReplayRng needs at least one value"@
                    && e.cause == Cause::Other,
            },
    {
        if values.len() == 0 {
            return Err(TensorError::msg("ReplayRng needs at least one value"));
        }
        Ok(ReplayRng { values, index: 0 })
    }

    /// The next value.
    pub fn sample(&mut self) -> (r: T)
        requires
            old(self).wf(),
        ensures
            final(self).wf(),
            final(self).recorded() == old(self).recorded(),
            r == old(self).recorded()[old(self).place()],
            final(self).place() == after(old(self).place(), old(self).recorded().len()),
    {
        let value = self.values[self.index];
        if self.index < self.values.len() - 1 {
            self.index = self.index + 1;
        } else {
            self.index = 0;
        }
        value
    }
}

/// The place behind `place` in a cycle of `n`.
pub open spec fn after(place: int, n: nat) -> int {
    if place + 1 < n {
        place + 1
    } else {
        0
    }
}

/// The place reached from the start of a cycle of `n` after `k` steps.
pub open spec fn place_after(k: nat, n: nat) -> int
    decreases k,
{
    if k == 0 {
        0
    } else {
        after(place_after((k - 1) as nat, n), n)
    }
}

/// The k-th value that is replayed is the k-th of those recorded, counted round and round.
pub proof fn replay_cycles(k: nat, n: nat)
    requires
        n > 0,
    ensures
        place_after(k, n) == k % n,
    decreases k,
{
    if k > 0 {
        replay_cycles((k - 1) as nat, n);
        let j = (k - 1) as int;
        let m = n as int;
        vstd::arithmetic::div_mod::lemma_fundamental_div_mod(j, m);
        let q = j / m;
        if j % m + 1 < m {
            vstd::arithmetic::div_mod::lemma_fundamental_div_mod_converse(j + 1, m, q, j % m + 1);
        } else {
            assert(m * (q + 1) == m * q + m) by (nonlinear_arith);
            vstd::arithmetic::div_mod::lemma_fundamental_div_mod_converse(j + 1, m, q + 1, 0);
        }
    } else {
        assert(0nat % n == 0) by (nonlinear_arith)
            requires
                n > 0,
        ;
    }
}

/// The sizes of the flow LM. `max_period` is the bits of a single-precision number.
#[derive(Clone, Copy, Debug, PartialEq, Eq, Structural)]
pub struct FlowLMConfig {
    pub d_model: usize,
    pub num_heads: usize,
    pub num_layers: usize,
    pub dim_feedforward: usize,
    pub max_period: u32,
    pub n_bins: usize,
    pub lut_dim: usize,
    pub flow_dim: usize,
    pub flow_depth: usize,
    pub ldim: usize,
}

/// Which of the optional tensors of a conditioner a checkpoint has.
#[derive(Clone, Copy, Debug, PartialEq, Eq, Structural)]
pub struct LutExtras {
    pub learnt_padding: bool,
    pub output_proj: bool,
}

/// The name and the dimensions of each tensor of a list.
pub open spec fn shapes(v: Seq<NamedShape>) -> Seq<(Seq<char>, Seq<usize>)> {
    Seq::new(v.len(), |i: int| (v[i].name@, v[i].dims@))
}

/// A tensor on its own.
pub open spec fn one(name: Seq<char>, dims: Seq<usize>) -> Seq<(Seq<char>, Seq<usize>)> {
    seq![(name, dims)]
}

/// The tensors of a conditioner of `n_bins` tokens under `prefix`.
pub open spec fn lut_tensors(
    prefix: Seq<char>,
    n_bins: usize,
    extras: LutExtras,
    dim: usize,
    output_dim: usize,
) -> Seq<(Seq<char>, Seq<usize>)> {
    one(prefix + "embed.weight"@, seq![(n_bins + 1) as usize, dim]) + (if extras.learnt_padding {
        one(prefix + "learnt_padding"@, seq![1, 1, output_dim])
    } else {
        Seq::empty()
    }) + (if extras.output_proj {
        one(prefix + "output_proj.weight"@, seq![output_dim, dim])
    } else {
        Seq::empty()
    })
}

/// The tensors that the flow LM itself reads, besides those of its flow net and its transformer.
pub open spec fn flow_lm_tensors(
    cfg: FlowLMConfig,
    text: LutExtras,
    num_speakers: Option<LutExtras>,
) -> Seq<(Seq<char>, Seq<usize>)> {
    lut_tensors("conditioner."@, cfg.n_bins, text, cfg.lut_dim, cfg.d_model) + (match num_speakers {
        Some(extras) => lut_tensors(
            "condition_provider.conditioners.num_speakers."@,
            31,
            extras,
            16,
            cfg.d_model,
        ),
        None => Seq::empty(),
    }) + one("emb_std"@, seq![cfg.ldim]) + one("emb_mean"@, seq![cfg.ldim]) + one(
        "bos_emb"@,
        seq![cfg.ldim],
    ) + one("input_linear.weight"@, seq![cfg.d_model, cfg.ldim]) + one(
        "out_norm.weight"@,
        seq![cfg.d_model],
    ) + one("out_norm.bias"@, seq![cfg.d_model]) + one("out_eos.weight"@, seq![1, cfg.d_model])
        + one("out_eos.bias"@, seq![1])
}

/// Add one tensor to a list.
fn add_tensor(v: &mut Vec<NamedShape>, prefix: &str, name: &str, dims: Vec<usize>)
    ensures
        shapes(final(v)@) == shapes(old(v)@).push((prefix@ + name@, dims@)),
{
    let ghost before = v@;
    let full = text::glue2(prefix, name);
    v.push(NamedShape { name: full, dims });
    assert(shapes(v@) =~= shapes(before).push((full@, dims@)));
}

/// Add the tensors of a conditioner to a list.
fn add_lut(
    v: &mut Vec<NamedShape>,
    prefix: &str,
    n_bins: usize,
    extras: LutExtras,
    dim: usize,
    output_dim: usize,
)
    requires
        n_bins < usize::MAX,
    ensures
        shapes(final(v)@) == shapes(old(v)@) + lut_tensors(prefix@, n_bins, extras, dim, output_dim),
{
    let ghost before = shapes(v@);
    let d = vec![n_bins + 1, dim];
    assert(d@ =~= seq![(n_bins + 1) as usize, dim]);
    add_tensor(v, prefix, "embed.weight", d);
    if extras.learnt_padding {
        let d = vec![1, 1, output_dim];
        assert(d@ =~= seq![1, 1, output_dim]);
        add_tensor(v, prefix, "learnt_padding", d);
    }
    if extras.output_proj {
        let d = vec![output_dim, dim];
        assert(d@ =~= seq![output_dim, dim]);
        add_tensor(v, prefix, "output_proj.weight", d);
    }
    assert(shapes(v@) =~= before + lut_tensors(prefix@, n_bins, extras, dim, output_dim));
}

/// Add a tensor of one dimension to a list.
fn add_vector(v: &mut Vec<NamedShape>, name: &str, dim: usize)
    ensures
        shapes(final(v)@) == shapes(old(v)@) + one(name@, seq![dim]),
{
    let ghost before = shapes(v@);
    let d = vec![dim];
    assert(d@ =~= seq![dim]);
    proof {
        reveal_strlit("");
        assert(""@ + name@ =~= name@);
    }
    add_tensor(v, "", name, d);
    assert(shapes(v@) =~= before + one(name@, seq![dim]));
}

/// Add the weight of a linear map to a list.
fn add_matrix(v: &mut Vec<NamedShape>, name: &str, rows: usize, cols: usize)
    ensures
        shapes(final(v)@) == shapes(old(v)@) + one(name@, seq![rows, cols]),
{
    let ghost before = shapes(v@);
    let d = vec![rows, cols];
    assert(d@ =~= seq![rows, cols]);
    proof {
        reveal_strlit("");
        assert(""@ + name@ =~= name@);
    }
    add_tensor(v, "", name, d);
    assert(shapes(v@) =~= before + one(name@, seq![rows, cols]));
}

/// The tensors that loading the flow LM reads, in order, besides those of its flow net and its
/// transformer: by name, and with the dimensions they have to have. A speaker-count conditioner
/// is read when the checkpoint has one.
pub fn load_plan(cfg: &FlowLMConfig, text: LutExtras, num_speakers: Option<LutExtras>) -> (r: Vec<
    NamedShape,
>)
    requires
        cfg.n_bins < usize::MAX,
    ensures
        shapes(r@) == flow_lm_tensors(*cfg, text, num_speakers),
{
    let mut v: Vec<NamedShape> = Vec::new();
    assert(shapes(v@) =~= Seq::<(Seq<char>, Seq<usize>)>::empty());
    add_lut(&mut v, "conditioner.", cfg.n_bins, text, cfg.lut_dim, cfg.d_model);
    if let Some(extras) = num_speakers {
        add_lut(
            &mut v,
            "condition_provider.conditioners.num_speakers.",
            31,
            extras,
            16,
            cfg.d_model,
        );
    }
    add_vector(&mut v, "emb_std", cfg.ldim);
    add_vector(&mut v, "emb_mean", cfg.ldim);
    add_vector(&mut v, "bos_emb", cfg.ldim);
    add_matrix(&mut v, "input_linear.weight", cfg.d_model, cfg.ldim);
    add_vector(&mut v, "out_norm.weight", cfg.d_model);
    add_vector(&mut v, "out_norm.bias", cfg.d_model);
    add_matrix(&mut v, "out_eos.weight", 1, cfg.d_model);
    add_vector(&mut v, "out_eos.bias", 1);
    assert(shapes(v@) =~= flow_lm_tensors(*cfg, text, num_speakers));
    v
}

/// The token that stands for one speaker.
pub const ONE_SPEAKER: u32 = 1;

/// How the speaker-count condition is looked up in its conditioner: the model speaks with one
/// voice.
pub fn num_speakers_condition<T>(table: &LUTConditioner<T>) -> (r: Lookup)
    ensures
        r.ids@ == seq![1i64],
        r.shape@ == seq![1usize, 1, table.output_dim],
{
    let r = table.embed_tokens(&[ONE_SPEAKER]);
    assert(r.ids@ =~= seq![1i64]);
    r
}

/// The sizes of the flow net.
#[derive(Clone, Copy, Debug, PartialEq, Eq, Structural)]
pub struct FlowNetSizes {
    pub in_channels: usize,
    pub model_channels: usize,
    pub out_channels: usize,
    pub cond_channels: usize,
    pub num_res_blocks: usize,
    pub num_time_conds: usize,
}

/// The sizes of the flow net: latents in and out, conditioned on the transformer's output and on
/// two times.
pub fn flow_net_sizes(cfg: &FlowLMConfig) -> (r: FlowNetSizes)
    ensures
        r.in_channels == cfg.ldim,
        r.model_channels == cfg.flow_dim,
        r.out_channels == cfg.ldim,
        r.cond_channels == cfg.d_model,
        r.num_res_blocks == cfg.flow_depth,
        r.num_time_conds == 2,
{
    FlowNetSizes {
        in_channels: cfg.ldim,
        model_channels: cfg.flow_dim,
        out_channels: cfg.ldim,
        cond_channels: cfg.d_model,
        num_res_blocks: cfg.flow_depth,
        num_time_conds: 2,
    }
}

/// The sizes of the transformer. It attends over all of its context, and scales no layer.
#[derive(Clone, Copy, Debug, PartialEq, Eq, Structural)]
pub struct TransformerSizes {
    pub d_model: usize,
    pub num_heads: usize,
    pub num_layers: usize,
    pub dim_feedforward: usize,
    /// The bits of the longest period of its position encoding.
    pub max_period: u32,
}

/// The sizes of the transformer.
pub fn transformer_sizes(cfg: &FlowLMConfig) -> (r: TransformerSizes)
    ensures
        r.d_model == cfg.d_model,
        r.num_heads == cfg.num_heads,
        r.num_layers == cfg.num_layers,
        r.dim_feedforward == cfg.dim_feedforward,
        r.max_period == cfg.max_period,
{
    TransformerSizes {
        d_model: cfg.d_model,
        num_heads: cfg.num_heads,
        num_layers: cfg.num_layers,
        dim_feedforward: cfg.dim_feedforward,
        max_period: cfg.max_period,
    }
}

/// What a sampling step is conditioned on.
///
/// Saying "first step" in the type, rather than with a sentinel the model would have to read
/// back to notice, is what keeps the step on the device.
pub enum StepInput<T> {
    /// Start the sequence; every row of the batch starts from the same learnt embedding.
    Bos { batch: usize },
    Latent(T),
}

/// One step of the decode from noise: from `from / of` to `to / of` of the way.
#[derive(Clone, Copy, Debug, PartialEq, Eq, Structural)]
pub struct LsdStep {
    pub from: usize,
    pub to: usize,
    pub of: usize,
}

/// The steps of the Lagrangian self-distillation decode, which rebuilds a data sample from noise.
pub fn lsd_steps(num_steps: usize) -> (r: Vec<LsdStep>)
    ensures
        r@.len() == num_steps,
        forall|i: int|
            0 <= i < num_steps ==> #[trigger] r@[i] == (LsdStep {
                from: i as usize,
                to: (i + 1) as usize,
                of: num_steps,
            }),
{
    let mut r: Vec<LsdStep> = Vec::new();
    for i in 0..num_steps
        invariant
            r@.len() == i,
            forall|j: int|
                0 <= j < i ==> #[trigger] r@[j] == (LsdStep {
                    from: j as usize,
                    to: (j + 1) as usize,
                    of: num_steps,
                }),
    {
        r.push(LsdStep { from: i, to: i + 1, of: num_steps });
    }
    r
}

/// The steps of the decode follow on one another and go all the way: each starts where the one
/// before it ended, the first from nothing and the last to the whole.
pub proof fn lsd_steps_go_all_the_way(steps: Seq<LsdStep>, num_steps: usize)
    requires
        steps.len() == num_steps,
        num_steps > 0,
        forall|i: int|
            0 <= i < num_steps ==> #[trigger] steps[i] == (LsdStep {
                from: i as usize,
                to: (i + 1) as usize,
                of: num_steps,
            }),
    ensures
        steps[0].from == 0,
        steps.last().to == steps.last().of,
        forall|i: int, j: int|
            0 <= i && j == i + 1 && j < steps.len() ==> (#[trigger] steps[i]).to == (
            #[trigger] steps[j]).from,
{
}

/// The positions of the backbone's output that are kept: the last `seq_len`, behind the prefix
/// of `total - seq_len` text embeddings.
pub fn kept_positions(total: usize, seq_len: usize) -> (r: (usize, usize))
    requires
        seq_len <= total,
    ensures
        r.1 == total,
        r.1 - r.0 == seq_len,
{
    (total - seq_len, total)
}

/// The bits of a single-precision number stand for no number.
pub open spec fn is_nan(bits: u32) -> bool {
    bits % 0x8000_0000 > 0x7f80_0000
}

/// Where a single-precision number that is one stands in the order of numbers. Both zeros stand
/// at the same place.
pub open spec fn rank(bits: u32) -> int {
    if bits < 0x8000_0000 {
        bits as int
    } else {
        0x8000_0000 - bits
    }
}

/// `a > b`, as single-precision numbers given by their bits.
pub open spec fn above(a: u32, b: u32) -> bool {
    !is_nan(a) && !is_nan(b) && rank(a) > rank(b)
}

/// Threshold EOS logits already on the host, given by their single-precision bits. Only row 0
/// decides; an empty slice is never EOS.
pub fn eos_from_logit(logits: &[u32], threshold: u32) -> (r: bool)
    ensures
        r == (logits@.len() > 0 && above(logits@[0], threshold)),
{
    if logits.len() == 0 {
        return false;
    }
    let a: u32 = logits[0];
    if a % 0x8000_0000 > 0x7f80_0000 || threshold % 0x8000_0000 > 0x7f80_0000 {
        return false;
    }
    let x: i64 = if a < 0x8000_0000 {
        a as i64
    } else {
        0x8000_0000 - a as i64
    };
    let y: i64 = if threshold < 0x8000_0000 {
        threshold as i64
    } else {
        0x8000_0000 - threshold as i64
    };
    x > y
}

/// The decode from noise goes all the way in equal steps, each from where the one before it ended.
pub proof fn the_decode_goes_all_the_way(num_steps: usize, steps: Vec<LsdStep>)
    requires
        call_ensures(lsd_steps, (num_steps,), steps),
    ensures
        steps@.len() == num_steps,
        num_steps > 0 ==> steps@[0].from == 0 && steps@.last().to == steps@.last().of,
        forall|i: int|
            0 <= i < steps@.len() ==> (#[trigger] steps@[i]).to - steps@[i].from == 1 && steps@[i].of
                == num_steps,
        forall|i: int, j: int|
            0 <= i && j == i + 1 && j < steps@.len() ==> (#[trigger] steps@[i]).to == (
            #[trigger] steps@[j]).from,
{
}

/// Speech is over when the first logit is above the threshold, as numbers are: of two positive
/// ones the one with the larger bits is, of two negative ones the one with the smaller; a negative
/// one is above no positive one; the two zeros are equal; and what is no number is above nothing
/// and below nothing.
pub proof fn logits_compare_as_numbers(logits: &[u32], threshold: u32, over: bool)
    requires
        call_ensures(eos_from_logit, (logits, threshold), over),
    ensures
        logits@.len() == 0 ==> !over,
        logits@.len() > 0 ==> {
            let a = logits@[0];
            let nan = 0x7f80_0000 < a < 0x8000_0000 || a > 0xff80_0000 || 0x7f80_0000 < threshold
                < 0x8000_0000 || threshold > 0xff80_0000;
            if nan {
                !over
            } else if a < 0x8000_0000 && threshold < 0x8000_0000 {
                over <==> a > threshold
            } else if a >= 0x8000_0000 && threshold >= 0x8000_0000 {
                over <==> a < threshold
            } else if a < 0x8000_0000 {
                over <==> !(a == 0 && threshold == 0x8000_0000)
            } else {
                !over
            }
        },
{
}

/// Replayed values come in the order they were recorded in, round and round.
pub proof fn values_are_replayed_in_order<T: Copy>(
    values: Vec<T>,
    states: Seq<ReplayRng<T>>,
    calls: Seq<&mut ReplayRng<T>>,
    drawn: Seq<T>,
)
    requires
        call_ensures(
            ReplayRng::<T>::new,
            (values,),
            Ok::<ReplayRng<T>, TensorError>(states[0]),
        ),
        states.len() == calls.len() + 1,
        drawn.len() == calls.len(),
        forall|i: int|
            #![trigger calls[i]]
            0 <= i < calls.len() ==> {
                &&& *calls[i] == states[i]
                &&& *final(calls[i]) == states[i + 1]
                &&& call_ensures(ReplayRng::<T>::sample, (calls[i],), drawn[i])
            },
    ensures
        values@.len() > 0,
        forall|k: int| 0 <= k < drawn.len() ==> #[trigger] drawn[k] == values@[k % values@.len() as int],
{
    assert forall|k: int| 0 <= k < drawn.len() implies #[trigger] drawn[k] == values@[k
        % values@.len() as int] by {
        replay_stands_at(values, states, calls, drawn, k);
        assert(*calls[k] == states[k]);
        replay_cycles(k as nat, values@.len());
    }
}

proof fn replay_stands_at<T: Copy>(
    values: Vec<T>,
    states: Seq<ReplayRng<T>>,
    calls: Seq<&mut ReplayRng<T>>,
    drawn: Seq<T>,
    k: int,
)
    requires
        call_ensures(
            ReplayRng::<T>::new,
            (values,),
            Ok::<ReplayRng<T>, TensorError>(states[0]),
        ),
        states.len() == calls.len() + 1,
        drawn.len() == calls.len(),
        forall|i: int|
            #![trigger calls[i]]
            0 <= i < calls.len() ==> {
                &&& *calls[i] == states[i]
                &&& *final(calls[i]) == states[i + 1]
                &&& call_ensures(ReplayRng::<T>::sample, (calls[i],), drawn[i])
            },
        0 <= k < states.len(),
    ensures
        states[k].recorded() == values@,
        states[k].place() == place_after(k as nat, values@.len()),
    decreases k,
{
    if k > 0 {
        replay_stands_at(values, states, calls, drawn, k - 1);
        assert(*calls[k - 1] == states[k - 1]);
    }
}

} // verus!
