//! Encode side of the codec's residual vector quantizer: which codebooks there are, and the
//! shapes that go through them.
use crate::error::{Cause, TensorError};
use crate::flow_lm;
use crate::loader::NamedShape;
use crate::text;
use vstd::prelude::*;
use vstd::string::*;

verus! {

/// A stack of codebooks behind a 1x1 input projection.
#[derive(Clone, Copy, Debug, PartialEq, Eq, Structural)]
pub struct Rvq {
    pub input_dim: usize,
    pub dim: usize,
    pub layers: usize,
    pub bins: usize,
}

/// The codec's split quantizer: one semantic codebook plus the acoustic ones, each stack fed the
/// same latent.
#[derive(Clone, Copy, Debug, PartialEq, Eq, Structural)]
pub struct MimiQuantizer {
    pub rvq_first: Rvq,
    pub rvq_rest: Rvq,
}

/// The tensors of the codebooks `0..layers` under `prefix`: running sums rather than centroids.
pub open spec fn codebook_tensors(
    prefix: Seq<char>,
    layers: nat,
    dim: usize,
    bins: usize,
) -> Seq<(Seq<char>, Seq<usize>)>
    decreases layers,
{
    if layers == 0 {
        Seq::empty()
    } else {
        let i = (layers - 1) as nat;
        let at = prefix + "vq.layers."@ + text::decimal(i) + "._codebook."@;
        codebook_tensors(prefix, i, dim, bins) + flow_lm::one(at + "cluster_usage"@, seq![bins])
            + flow_lm::one(at + "embedding_sum"@, seq![bins, dim])
    }
}

/// The tensors of a stack under `prefix`.
pub open spec fn rvq_tensors(prefix: Seq<char>, rvq: Rvq) -> Seq<(Seq<char>, Seq<usize>)> {
    flow_lm::one(prefix + "input_proj.weight"@, seq![rvq.dim, rvq.input_dim, 1])
        + codebook_tensors(prefix, rvq.layers as nat, rvq.dim, rvq.bins)
}

impl MimiQuantizer {
    /// A quantizer of `n_q` codebooks of `bins` entries: the first is the semantic one.
    pub fn load(input_dim: usize, dim: usize, n_q: usize, bins: usize) -> (r: std::result::Result<
        Self,
        TensorError,
    >)
        ensures
            match r {
                Ok(q) => n_q >= 2 && q.rvq_first == (Rvq { input_dim, dim, layers: 1, bins })
                    && q.rvq_rest == (Rvq { input_dim, dim, layers: (n_q - 1) as usize, bins }),
                Err(e) => n_q < 2 && e.cause == Cause::Other && e.text@
                    == "expected at least 2 codebooks, got "@ + text::decimal(n_q as nat),
            },
    {
        if n_q < 2 {
            return Err(
                TensorError {
                    text: text::glue2(
                        "expected at least 2 codebooks, got ",
                        text::decimal_of(n_q as u64).as_str(),
                    ),
                    cause: Cause::Other,
                },
            );
        }
        Ok(
            MimiQuantizer {
                rvq_first: Rvq { input_dim, dim, layers: 1, bins },
                rvq_rest: Rvq { input_dim, dim, layers: n_q - 1, bins },
            },
        )
    }

    /// How many codes a frame becomes.
    pub open spec fn codes(self) -> nat {
        (self.rvq_first.layers + self.rvq_rest.layers) as nat
    }

    /// The tensors that loading the quantizer reads, in order, with the dimensions they have to
    /// have.
    pub fn tensors(&self) -> (r: Vec<NamedShape>)
        ensures
            flow_lm::shapes(r@) == rvq_tensors("rvq_first."@, self.rvq_first) + rvq_tensors(
                "rvq_rest."@,
                self.rvq_rest,
            ),
    {
        let mut v: Vec<NamedShape> = Vec::new();
        assert(flow_lm::shapes(v@) =~= Seq::<(Seq<char>, Seq<usize>)>::empty());
        add_rvq(&mut v, "rvq_first.", self.rvq_first);
        add_rvq(&mut v, "rvq_rest.", self.rvq_rest);
        assert(flow_lm::shapes(v@) =~= rvq_tensors("rvq_first."@, self.rvq_first) + rvq_tensors(
            "rvq_rest."@,
            self.rvq_rest,
        ));
        v
    }

    /// The codes of a frame, semantic first.
    pub fn encode<T>(&self, semantic: Vec<T>, acoustic: Vec<T>) -> (r: Vec<T>)
        requires
            semantic@.len() == self.rvq_first.layers,
            acoustic@.len() == self.rvq_rest.layers,
        ensures
            r@ == semantic@ + acoustic@,
            r@.len() == self.codes(),
    {
        let mut codes = semantic;
        let mut rest = acoustic;
        codes.append(&mut rest);
        codes
    }
}

/// Add one tensor to a list.
fn add(v: &mut Vec<NamedShape>, name: String, dims: Vec<usize>)
    ensures
        flow_lm::shapes(final(v)@) == flow_lm::shapes(old(v)@) + flow_lm::one(name@, dims@),
{
    let ghost before = v@;
    v.push(NamedShape { name, dims });
    assert(flow_lm::shapes(v@) =~= flow_lm::shapes(before) + flow_lm::one(name@, dims@));
}

/// Add the tensors of a stack to a list.
fn add_rvq(v: &mut Vec<NamedShape>, prefix: &str, rvq: Rvq)
    ensures
        flow_lm::shapes(final(v)@) == flow_lm::shapes(old(v)@) + rvq_tensors(prefix@, rvq),
{
    let ghost before = flow_lm::shapes(v@);
    let d = vec![rvq.dim, rvq.input_dim, 1];
    assert(d@ =~= seq![rvq.dim, rvq.input_dim, 1]);
    self::add(v, text::glue2(prefix, "input_proj.weight"), d);
    let ghost with_proj = flow_lm::shapes(v@);
    assert(with_proj + codebook_tensors(prefix@, 0, rvq.dim, rvq.bins) =~= with_proj);
    for i in 0..rvq.layers
        invariant
            flow_lm::shapes(v@) == with_proj + codebook_tensors(
                prefix@,
                i as nat,
                rvq.dim,
                rvq.bins,
            ),
    {
        let ghost so_far = flow_lm::shapes(v@);
        let mut at = text::glue3(prefix, "vq.layers.", text::decimal_of(i as u64).as_str());
        at.append("._codebook.");
        let usage = vec![rvq.bins];
        assert(usage@ =~= seq![rvq.bins]);
        self::add(v, text::glue2(at.as_str(), "cluster_usage"), usage);
        let sum = vec![rvq.bins, rvq.dim];
        assert(sum@ =~= seq![rvq.bins, rvq.dim]);
        self::add(v, text::glue2(at.as_str(), "embedding_sum"), sum);
        assert(flow_lm::shapes(v@) =~= with_proj + codebook_tensors(
            prefix@,
            (i + 1) as nat,
            rvq.dim,
            rvq.bins,
        ));
    }
    assert(flow_lm::shapes(v@) =~= before + rvq_tensors(prefix@, rvq));
}

/// The dimensions of the codes of a tensor: those of the tensor without the last. A tensor that
/// has no others keeps its codes as they are.
pub fn code_dims(dims: &Vec<usize>) -> (r: Vec<usize>)
    ensures
        r@ == (if dims@.len() > 0 {
            dims@.drop_last()
        } else {
            dims@
        }),
{
    let mut r = dims.clone();
    r.pop();
    r
}

/// The dimensions of what codes decode to: those of the codes, and the codebook's behind them.
pub fn latent_dims(codes: &Vec<usize>, dim: usize) -> (r: Vec<usize>)
    ensures
        r@ == codes@.push(dim),
{
    let mut r = codes.clone();
    r.push(dim);
    r
}

/// Decoding gives back the dimensions that encoding took a tensor from.
pub proof fn decoding_restores_the_shape(dims: Seq<usize>)
    requires
        dims.len() > 0,
    ensures
        dims.drop_last().push(dims.last()) == dims,
{
}

/// A quantizer has the codebooks that are asked for, one of them for the meaning and the others for
/// the sound, all of one size; and the codes of a frame come in that order.
pub proof fn codes_come_meaning_first<T>(
    input_dim: usize,
    dim: usize,
    n_q: usize,
    bins: usize,
    r: std::result::Result<MimiQuantizer, TensorError>,
    semantic: Vec<T>,
    acoustic: Vec<T>,
    codes: Vec<T>,
)
    requires
        call_ensures(MimiQuantizer::load, (input_dim, dim, n_q, bins), r),
        r matches Ok(q) && call_ensures(
            MimiQuantizer::encode::<T>,
            (&q, semantic, acoustic),
            codes,
        ) && semantic@.len() == 1 && acoustic@.len() == n_q - 1,
    ensures
        r matches Ok(q) && q.rvq_first.layers == 1 && q.rvq_rest.layers == n_q - 1
            && q.rvq_first.bins == q.rvq_rest.bins && q.rvq_first.dim == q.rvq_rest.dim,
        codes@.len() == n_q,
        codes@[0] == semantic@[0],
        forall|i: int| 0 <= i < acoustic@.len() ==> codes@[i + 1] == #[trigger] acoustic@[i],
{
}

} // verus!
