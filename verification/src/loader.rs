//! Reading checkpoints and voice embeddings: key names, file headers and tensor layouts.
//!
//! Every frontend has to rename the same checkpoint keys, skip the same unused tensors and
//! unpack voice files the same way. Keeping that here means a checkpoint layout change is one
//! edit rather than four.
mod old_parts;

use crate::error::{Cause, Error, Failure, Result, TensorError};
use crate::text;
use vstd::prelude::*;
use vstd::slice::*;
use vstd::string::*;

verus! {

/// Name of the speaker projection weight, as [`remap_key`] spells it.
pub const SPEAKER_PROJ_WEIGHT: &'static str = "flow_lm.speaker_proj_weight";

/// Tensor name of a precomputed voice embedding.
pub const EMB_TENSOR: &'static str = "emb";

/// Tensor name of stored speaker latents, as the training pipeline writes them.
pub const SPEAKER_WAVS_TENSOR: &'static str = "speaker_wavs";

/// What a voice file is refused with whose declared sizes cannot be added up.
pub const BROKEN_VOICE_FILE: &'static str = "the voice file does not look like a safetensors file";

/// The longest header a weights file may claim to have: 100 MiB.
pub const MAX_HEADER: u64 = 104857600;

/// The checkpoint keys that the runtime has no use for.
pub open spec fn dropped(name: Seq<char>) -> bool {
    ||| text::holds(name, "flow.w_s_t"@)
    ||| text::holds(name, "quantizer.vq"@)
    ||| text::holds(name, "quantizer.logvar_proj"@)
}

/// A checkpoint key under the name that the modules expect, more specific replacements first.
pub open spec fn renamed(name: Seq<char>) -> Seq<char> {
    let a = text::replaced(
        name,
        "flow_lm.condition_provider.conditioners.speaker_wavs.output_proj.weight"@,
        "flow_lm.speaker_proj_weight"@,
    );
    let b = text::replaced(
        a,
        "flow_lm.condition_provider.conditioners.transcript_in_segment."@,
        "flow_lm.conditioner."@,
    );
    let c = text::replaced(b, "flow_lm.backbone."@, "flow_lm.transformer."@);
    let d = text::replaced(c, "flow_lm.flow."@, "flow_lm.flow_net."@);
    text::replaced(d, "mimi.model."@, "mimi."@)
}

/// Maps checkpoint names onto the names this crate's modules expect, dropping the
/// tensors the runtime has no use for.
pub fn remap_key(name: &str) -> (r: Option<String>)
    ensures
        match r {
            Some(to) => !dropped(name@) && to@ == renamed(name@),
            None => dropped(name@),
        },
{
    let chars = text::chars_of(name);
    // Skip keys we don't need.
    if text::contains(&chars, "flow.w_s_t") || text::contains(&chars, "quantizer.vq")
        || text::contains(&chars, "quantizer.logvar_proj") {
        return None;
    }
    proof {
        reveal_strlit("flow_lm.condition_provider.conditioners.speaker_wavs.output_proj.weight");
        reveal_strlit("flow_lm.condition_provider.conditioners.transcript_in_segment.");
        reveal_strlit("flow_lm.backbone.");
        reveal_strlit("flow_lm.flow.");
        reveal_strlit("mimi.model.");
    }
    // Order matters: more specific replacements first.
    let a = text::replace(
        &chars,
        "flow_lm.condition_provider.conditioners.speaker_wavs.output_proj.weight",
        "flow_lm.speaker_proj_weight",
    );
    let b = text::replace(
        &a,
        "flow_lm.condition_provider.conditioners.transcript_in_segment.",
        "flow_lm.conditioner.",
    );
    let c = text::replace(&b, "flow_lm.backbone.", "flow_lm.transformer.");
    let d = text::replace(&c, "flow_lm.flow.", "flow_lm.flow_net.");
    let e = text::replace(&d, "mimi.model.", "mimi.");
    Some(text::string_of(&e))
}

/// A key that nothing recognizes passes through untouched.
pub proof fn unrecognized_keys_pass_through(name: Seq<char>)
    requires
        !text::holds(
            name,
            "flow_lm.condition_provider.conditioners.speaker_wavs.output_proj.weight"@,
        ),
        !text::holds(name, "flow_lm.condition_provider.conditioners.transcript_in_segment."@),
        !text::holds(name, "flow_lm.backbone."@),
        !text::holds(name, "flow_lm.flow."@),
        !text::holds(name, "mimi.model."@),
    ensures
        renamed(name) == name,
{
    text::absent_patterns_change_nothing(
        name,
        "flow_lm.condition_provider.conditioners.speaker_wavs.output_proj.weight"@,
        "flow_lm.speaker_proj_weight"@,
    );
    text::absent_patterns_change_nothing(
        name,
        "flow_lm.condition_provider.conditioners.transcript_in_segment."@,
        "flow_lm.conditioner."@,
    );
    text::absent_patterns_change_nothing(name, "flow_lm.backbone."@, "flow_lm.transformer."@);
    text::absent_patterns_change_nothing(name, "flow_lm.flow."@, "flow_lm.flow_net."@);
    text::absent_patterns_change_nothing(name, "mimi.model."@, "mimi."@);
}

/// A renamed key holds none of the parts that are renamed. Of the codec's part, which is cut short
/// once, this is said only of names in which its `model.` does not stand twice in a row.
pub proof fn renamed_keys_hold_no_old_part(name: Seq<char>)
    ensures
        !text::holds(
            renamed(name),
            "flow_lm.condition_provider.conditioners.speaker_wavs.output_proj.weight"@,
        ),
        !text::holds(
            renamed(name),
            "flow_lm.condition_provider.conditioners.transcript_in_segment."@,
        ),
        !text::holds(renamed(name), "flow_lm.backbone."@),
        !text::holds(renamed(name), "flow_lm.flow."@),
        !text::holds(name, "mimi.model.model."@) ==> !text::holds(renamed(name), "mimi.model."@),
{
    old_parts::no_part_comes_back(name);
}

/// The tensors that loading the model legitimately leaves untouched.
pub open spec fn unused_by_tts_model(name: Seq<char>) -> bool {
    ||| name == "flow_lm.condition_provider.conditioners.speaker_wavs.learnt_padding"@
    ||| text::occurs_at(name, "mimi.quantizer"@, 0)
    ||| text::occurs_at(name, "mimi.encoder"@, 0)
    ||| text::occurs_at(name, "speaker_mimi"@, 0)
    ||| text::occurs_at(name, "mimi.downsample."@, 0)
}

/// Tensors that loading the model legitimately leaves untouched: the encoder side is only pulled
/// in later, and the quantizer is replaced by a dummy.
///
/// A genuinely unused tensor is still an error.
pub fn is_unused_by_tts_model(name: &str) -> (r: bool)
    ensures
        r == unused_by_tts_model(name@),
{
    let chars = text::chars_of(name);
    text::same(name, "flow_lm.condition_provider.conditioners.speaker_wavs.learnt_padding")
        || text::starts_with(&chars, "mimi.quantizer") || text::starts_with(&chars, "mimi.encoder")
        || text::starts_with(&chars, "speaker_mimi") || text::starts_with(&chars, "mimi.downsample.")
}

/// How a weights file is laid out.
#[derive(Clone, Copy, Debug, PartialEq, Eq, Structural)]
pub enum WeightsFormat {
    Gguf,
    Safetensors,
}

/// The format of a weights file, picked from the extension of its path.
pub fn weights_format(extension: Option<&str>) -> (r: WeightsFormat)
    ensures
        r == (match extension {
            Some(e) => if e@ == "gguf"@ {
                WeightsFormat::Gguf
            } else {
                WeightsFormat::Safetensors
            },
            None => WeightsFormat::Safetensors,
        }),
{
    match extension {
        Some(e) => if text::same(e, "gguf") {
            WeightsFormat::Gguf
        } else {
            WeightsFormat::Safetensors
        },
        None => WeightsFormat::Safetensors,
    }
}

/// The shape of the checkpoint's speaker projection, when it has one: the linear map from
/// speaker latents to the flow LM's width.
pub fn speaker_proj_shape(present: bool, d_model: usize, latent_dim: usize) -> (r: Option<
    (usize, usize),
>)
    ensures
        r == (if present {
            Some((d_model, latent_dim))
        } else {
            None
        }),
{
    if present {
        Some((d_model, latent_dim))
    } else {
        None
    }
}

/// What a voice file holds, told apart by tensor name.
#[derive(Clone, Copy, Debug, PartialEq, Eq, Structural)]
pub enum VoiceTensor {
    /// A voice embedding, `[T, dim]` or `[1, T, dim]`.
    Emb,
    /// Speaker latents, `[C, T]` or `[1, C, T]`.
    Latents,
}

/// Which tensor of a voice file is read, and as what: the one named for an embedding, else the
/// one named for latents, else the first.
pub open spec fn picked(names: Seq<Seq<char>>) -> Option<(Seq<char>, VoiceTensor)> {
    if names.contains(EMB_TENSOR@) {
        Some((EMB_TENSOR@, VoiceTensor::Emb))
    } else if names.contains(SPEAKER_WAVS_TENSOR@) {
        Some((SPEAKER_WAVS_TENSOR@, VoiceTensor::Latents))
    } else if names.len() > 0 {
        Some((names[0], VoiceTensor::Emb))
    } else {
        None
    }
}

/// Pick the tensor of a voice file that is read. A file whose single tensor goes by another name
/// is read as an embedding. `label` names the file in the message.
pub fn pick_voice_tensor(names: &Vec<String>, label: &str) -> (r: Result<(String, VoiceTensor)>)
    ensures
        match r {
            Ok((name, kind)) => picked(text::texts(names@)) == Some((name@, kind)),
            Err(e) => names@.len() == 0 && e@ == Failure::InvalidData(
                "no tensors found in voice file "@ + label@,
            ),
        },
{
    if text::is_listed(names, EMB_TENSOR) {
        return Ok((EMB_TENSOR.to_owned(), VoiceTensor::Emb));
    }
    if text::is_listed(names, SPEAKER_WAVS_TENSOR) {
        return Ok((SPEAKER_WAVS_TENSOR.to_owned(), VoiceTensor::Latents));
    }
    if names.len() == 0 {
        return Err(
            Error::InvalidData(text::glue2("no tensors found in voice file ", label)),
        );
    }
    let first = names[0].clone();
    assert(text::texts(names@)[0] == first@);
    Ok((first, VoiceTensor::Emb))
}

/// How a voice tensor becomes the conditioning embedding.
#[derive(Clone, Copy, Debug, PartialEq, Eq, Structural)]
pub struct VoiceLayout {
    /// The last two dimensions of the tensor. One that has no other is seen as `[1, rows, cols]`.
    pub rows: usize,
    pub cols: usize,
    /// These two are then swapped, and the tensor projected.
    pub projected: bool,
}

/// The last two of two or three dimensions.
pub open spec fn matrix(dims: Seq<usize>) -> Option<(usize, usize)> {
    if dims.len() == 2 {
        Some((dims[0], dims[1]))
    } else if dims.len() == 3 {
        Some((dims[1], dims[2]))
    } else {
        None
    }
}

/// What a voice file of latents is refused with when the checkpoint has no projection.
pub open spec fn no_projection(label: Seq<char>) -> Failure {
    Failure::InvalidData(
        label
            + " holds `speaker_wavs` latents, but this checkpoint has no speaker projection (`flow_lm.speaker_proj_weight`) to turn them into a voice embedding. A GGUF written by an older `quantize --no-mimi-encoder` dropped it: regenerate the GGUF from the safetensors checkpoint, or use a precomputed `emb` voice."@,
    )
}

/// What a voice tensor of the wrong rank is refused with.
pub open spec fn wrong_rank(name: Seq<char>, label: Seq<char>, dims: Seq<usize>) -> Failure {
    Failure::InvalidData(
        "voice tensor `"@ + name + "` in "@ + label + " has shape "@ + text::bracketed(dims)
            + ", expected two or three dimensions"@,
    )
}

/// What latents that the projection does not take are refused with.
pub open spec fn wrong_channels(label: Seq<char>, channels: nat, in_dim: nat) -> Failure {
    Failure::InvalidData(
        "`speaker_wavs` in "@ + label + " has "@ + text::decimal(channels)
            + " channels but the speaker projection takes "@ + text::decimal(in_dim),
    )
}

/// How the voice tensor `name`, of shape `dims`, becomes the conditioning embedding.
///
/// An embedding is used as it is. Latents are transposed and projected to the flow LM's width by
/// a projection that takes `proj_in` channels; they cannot be used without it -- unprojected
/// latents make the model babble or stop at once, with no other symptom.
pub fn voice_layout(
    name: &str,
    kind: VoiceTensor,
    dims: &Vec<usize>,
    label: &str,
    proj_in: Option<usize>,
) -> (r: Result<VoiceLayout>)
    ensures
        match matrix(dims@) {
            None => r matches Err(e) && e@ == wrong_rank(name@, label@, dims@),
            Some((rows, cols)) => match (kind, proj_in) {
                (VoiceTensor::Emb, _) => r == Ok::<_, Error>(
                    VoiceLayout { rows, cols, projected: false },
                ),
                (VoiceTensor::Latents, None) => r matches Err(e) && e@ == no_projection(label@),
                (VoiceTensor::Latents, Some(in_dim)) => if rows == in_dim {
                    r == Ok::<_, Error>(VoiceLayout { rows, cols, projected: true })
                } else {
                    r matches Err(e) && e@ == wrong_channels(label@, rows as nat, in_dim as nat)
                },
            },
        },
{
    let rank: usize = dims.len();
    if rank != 2 && rank != 3 {
        let mut m = text::glue3("voice tensor `", name, "` in ");
        m.append(label);
        m.append(" has shape ");
        m.append(text::list_of(dims).as_str());
        m.append(", expected two or three dimensions");
        return Err(Error::InvalidData(m));
    }
    let rows: usize = dims[rank - 2];
    let cols: usize = dims[rank - 1];
    match kind {
        VoiceTensor::Emb => Ok(VoiceLayout { rows, cols, projected: false }),
        VoiceTensor::Latents => {
            match proj_in {
                None => {
                    Err(
                        Error::InvalidData(
                            text::glue2(
                                label,
                                " holds `speaker_wavs` latents, but this checkpoint has no speaker projection (`flow_lm.speaker_proj_weight`) to turn them into a voice embedding. A GGUF written by an older `quantize --no-mimi-encoder` dropped it: regenerate the GGUF from the safetensors checkpoint, or use a precomputed `emb` voice.",
                            ),
                        ),
                    )
                },
                Some(in_dim) => {
                    if rows != in_dim {
                        let mut m = text::glue3("`speaker_wavs` in ", label, " has ");
                        m.append(text::decimal_of(rows as u64).as_str());
                        m.append(" channels but the speaker projection takes ");
                        m.append(text::decimal_of(in_dim as u64).as_str());
                        return Err(Error::InvalidData(m));
                    }
                    Ok(VoiceLayout { rows, cols, projected: true })
                },
            }
        },
    }
}

impl VoiceLayout {
    /// The frames of the embedding.
    pub fn frames(&self) -> (r: usize)
        ensures
            r == (if self.projected {
                self.cols
            } else {
                self.rows
            }),
    {
        if self.projected {
            self.cols
        } else {
            self.rows
        }
    }
}

/// What the string member `inner` of the member `outer` of a JSON text holds, or how the text
/// fails to be JSON.
pub uninterp spec fn json_string(
    json: Seq<u8>,
    outer: Seq<char>,
    inner: Seq<char>,
) -> std::result::Result<Option<Seq<char>>, Seq<char>>;

/// The texts of a lookup.
pub open spec fn looked_up(r: std::result::Result<Option<String>, String>) -> std::result::Result<
    Option<Seq<char>>,
    Seq<char>,
> {
    match r {
        Ok(None) => Ok(None),
        Ok(Some(s)) => Ok(Some(s@)),
        Err(e) => Err(e@),
    }
}

/// `serde_json::from_slice` parses `json`; `Value::get` then looks up `outer` and in it `inner`,
/// and `Value::as_str` takes what is there if it is a string. The outcome depends on these three
/// arguments alone. What JSON is, and how a text that is none is complained about, is left to
/// that crate.
#[verifier::external_body]
fn json_string_at(json: &[u8], outer: &str, inner: &str) -> (r: std::result::Result<
    Option<String>,
    String,
>)
    ensures
        looked_up(r) == json_string(json@, outer@, inner@),
{
    let value: serde_json::Value = match serde_json::from_slice(json) {
        Ok(value) => value,
        Err(e) => return Err(e.to_string()),
    };
    let found = value.get(outer).and_then(|m| m.get(inner)).and_then(|v| v.as_str());
    Ok(found.map(|s| s.to_owned()))
}

/// Fails if a voice file records a `model_ext` other than `model_ext`. A file that records none
/// is accepted: older voices predate the metadata.
pub fn check_recorded_ext(recorded: Option<&str>, model_ext: &str) -> (r: Result<()>)
    ensures
        match r {
            Ok(_) => recorded matches Some(ext) ==> ext@ == model_ext@,
            Err(e) => recorded matches Some(ext) && ext@ != model_ext@ && e@ == other_ext(
                ext@,
                model_ext@,
            ),
        },
{
    match recorded {
        Some(ext) => {
            if !text::same(ext, model_ext) {
                let mut m = text::glue3(
                    "voice embedding model_ext '",
                    ext,
                    "' does not match config model_ext '",
                );
                m.append(model_ext);
                m.append("'");
                return Err(Error::InvalidData(m));
            }
            Ok(())
        },
        None => Ok(()),
    }
}

/// What a voice of another checkpoint is refused with.
pub open spec fn other_ext(recorded: Seq<char>, model_ext: Seq<char>) -> Failure {
    Failure::InvalidData(
        "voice embedding model_ext '"@ + recorded + "' does not match config model_ext '"@
            + model_ext + "'"@,
    )
}

/// Fails if the voice file's safetensors `header` records a `model_ext` other than `model_ext`.
pub fn check_model_ext(header: &[u8], label: &str, model_ext: &str) -> (r: Result<()>)
    ensures
        match json_string(header@, "__metadata__"@, "model_ext"@) {
            Ok(None) => r is Ok,
            Ok(Some(ext)) => if ext == model_ext@ {
                r is Ok
            } else {
                r matches Err(e) && e@ == other_ext(ext, model_ext@)
            },
            Err(why) => r matches Err(e) && e@ == Failure::InvalidData(
                "cannot parse safetensors header of "@ + label@ + ": "@ + why,
            ),
        },
{
    match json_string_at(header, "__metadata__", "model_ext") {
        Ok(recorded) => match &recorded {
            Some(ext) => check_recorded_ext(Some(ext.as_str()), model_ext),
            None => check_recorded_ext(None, model_ext),
        },
        Err(why) => {
            let mut m = text::glue3("cannot parse safetensors header of ", label, ": ");
            m.append(why.as_str());
            Err(Error::InvalidData(m))
        },
    }
}

/// The number that eight bytes stand for, least significant first.
pub open spec fn le_value(b: Seq<u8>) -> nat
    decreases b.len(),
{
    if b.len() == 0 {
        0
    } else {
        b[0] as nat + 256 * le_value(b.skip(1))
    }
}

/// `n` as `k` bytes, least significant first.
pub open spec fn le_bytes(n: nat, k: nat) -> Seq<u8>
    decreases k,
{
    if k == 0 {
        Seq::empty()
    } else {
        seq![(n % 256) as u8] + le_bytes(n / 256, (k - 1) as nat)
    }
}

/// The number that the first eight bytes stand for.
fn le_u64(b: &[u8]) -> (r: u64)
    requires
        b@.len() >= 8,
    ensures
        r == le_value(b@.take(8)),
{
    let mut r: u64 = 0;
    let mut i: usize = 8;
    let ghost eight = b@.take(8);
    assert(eight.skip(8) =~= Seq::<u8>::empty());
    assert(le_value(eight.skip(8)) == 0);
    let ghost mut bound: nat = 1;
    while i > 0
        invariant
            i <= 8,
            b@.len() >= 8,
            eight == b@.take(8),
            r == le_value(eight.skip(i as int)),
            r < bound,
            bound * byte_power(i as nat) == byte_power(8),
            bound > 0,
        decreases i,
    {
        assert(eight.skip(i - 1)[0] == b@[i - 1]);
        assert(eight.skip(i - 1).skip(1) =~= eight.skip(i as int));
        proof {
            let p = byte_power((i - 1) as nat);
            assert(byte_power(i as nat) == 256 * p);
            power_is_positive((i - 1) as nat);
            assert(byte_power(8) == 0x1_0000_0000_0000_0000) by {
                reveal_with_fuel(byte_power, 9);
            }
            assert(bound * (256 * p) == (bound * 256) * p) by (nonlinear_arith);
            assert(bound * 256 <= (bound * 256) * p) by (nonlinear_arith)
                requires
                    p >= 1,
            ;
            assert(256 * r + 255 < bound * 256) by (nonlinear_arith)
                requires
                    r + 1 <= bound,
            ;
            bound = bound * 256;
        }
        i -= 1;
        r = 256 * r + b[i] as u64;
    }
    assert(eight.skip(0) =~= eight);
    r
}

/// 256 to the power of `k`.
pub open spec fn byte_power(k: nat) -> nat
    decreases k,
{
    if k == 0 {
        1
    } else {
        256 * byte_power((k - 1) as nat)
    }
}

proof fn power_is_positive(k: nat)
    ensures
        byte_power(k) >= 1,
    decreases k,
{
    if k > 0 {
        power_is_positive((k - 1) as nat);
    }
}

/// The header of a safetensors file: the 8-byte little-endian header length, then that many
/// bytes.
pub open spec fn header_of(bytes: Seq<u8>) -> Option<Seq<u8>> {
    if bytes.len() < 8 {
        None
    } else {
        let n = le_value(bytes.take(8));
        if 8 + n <= bytes.len() {
            Some(bytes.subrange(8, 8 + n as int))
        } else {
            None
        }
    }
}

/// What a file that is no safetensors file is refused with.
pub open spec fn not_safetensors(label: Seq<char>) -> Failure {
    Failure::InvalidData(label + " does not look like a safetensors file"@)
}

/// The JSON header of a safetensors file held in memory.
pub fn safetensors_header_from_bytes<'a>(bytes: &'a [u8], label: &str) -> (r: Result<&'a [u8]>)
    ensures
        match r {
            Ok(header) => header_of(bytes@) == Some(header@),
            Err(e) => header_of(bytes@) is None && e@ == not_safetensors(label@),
        },
{
    if bytes.len() < 8 {
        return Err(
            Error::InvalidData(text::glue2(label, " does not look like a safetensors file")),
        );
    }
    let n: u64 = le_u64(bytes);
    if n > (bytes.len() - 8) as u64 {
        return Err(
            Error::InvalidData(text::glue2(label, " does not look like a safetensors file")),
        );
    }
    Ok(slice_subrange(bytes, 8, 8 + n as usize))
}

/// How many bytes of header to read from a file that begins with these eight. A file that is not
/// safetensors can claim an absurd header length; its word is not enough to allocate on.
pub fn header_len(len_bytes: &[u8], label: &str) -> (r: Result<usize>)
    requires
        len_bytes@.len() >= 8,
    ensures
        match r {
            Ok(n) => n == le_value(len_bytes@.take(8)) && n <= MAX_HEADER,
            Err(e) => le_value(len_bytes@.take(8)) > MAX_HEADER && e@ == not_safetensors(label@),
        },
{
    let n: u64 = le_u64(len_bytes);
    if n > MAX_HEADER {
        return Err(
            Error::InvalidData(text::glue2(label, " does not look like a safetensors file")),
        );
    }
    Ok(n as usize)
}

/// Writing a number as bytes and reading them gives it back.
proof fn bytes_give_back_the_number(n: nat, k: nat)
    requires
        n < byte_power(k),
    ensures
        le_bytes(n, k).len() == k,
        le_value(le_bytes(n, k)) == n,
    decreases k,
{
    if k > 0 {
        let rest = le_bytes(n / 256, (k - 1) as nat);
        bytes_give_back_the_number(n / 256, (k - 1) as nat);
        assert(le_bytes(n, k).skip(1) =~= rest);
    }
}

/// A header that is framed by its length is read back, whatever follows it.
pub proof fn a_framed_header_is_read_back(header: Seq<u8>, data: Seq<u8>)
    requires
        header.len() < 0x1_0000_0000_0000_0000,
    ensures
        header_of(le_bytes(header.len(), 8) + header + data) == Some(header),
{
    assert(byte_power(8) == 0x1_0000_0000_0000_0000) by {
        reveal_with_fuel(byte_power, 9);
    }
    bytes_give_back_the_number(header.len(), 8);
    let file = le_bytes(header.len(), 8) + header + data;
    assert(file.take(8) =~= le_bytes(header.len(), 8));
    assert(file.subrange(8, 8 + header.len() as int) =~= header);
}

/// A tensor of a file: its name and its dimensions.
#[derive(Debug)]
pub struct NamedShape {
    pub name: String,
    pub dims: Vec<usize>,
}

/// The names of a list of tensors.
pub open spec fn names_of(tensors: Seq<NamedShape>) -> Seq<Seq<char>> {
    Seq::new(tensors.len(), |i: int| tensors[i].name@)
}

/// A list gives each tensor of a file once, with its dimensions.
pub open spec fn gives(tensors: Seq<NamedShape>, shapes: Map<Seq<char>, Seq<usize>>) -> bool {
    &&& names_of(tensors).no_duplicates()
    &&& forall|k: Seq<char>|
        #[trigger] names_of(tensors).contains(k) <==> shapes.dom().contains(k)
    &&& forall|i: int|
        0 <= i < tensors.len() ==> shapes[(#[trigger] tensors[i]).name@] == tensors[i].dims@
}

/// Of each member of a JSON object, the number at `index` of a list that it holds: the list is the
/// member's own member `key` or, where the member is a list itself, its item `place`. A member
/// that has no such number gives `None`, and so does a text that is no JSON object.
pub uninterp spec fn json_numbers(
    json: Seq<u8>,
    key: Seq<char>,
    place: nat,
    index: nat,
) -> Option<Seq<Option<u64>>>;

/// `serde_json::from_slice` parses `json`, and `Value::as_object` takes it if it is an object; in
/// each of its members `Value::get` looks up `key`, or else the item `place`, and there the item
/// `index`, which `Value::as_u64` takes if it is a whole number that fits. The outcome depends on
/// these four arguments alone. What JSON is, is left to that crate, and so is the order of the
/// members.
#[verifier::external_body]
fn json_numbers_at(json: &[u8], key: &str, place: usize, index: usize) -> (r: Option<
    Vec<Option<u64>>,
>)
    ensures
        match r {
            Some(numbers) => json_numbers(json@, key@, place as nat, index as nat) == Some(numbers@),
            None => json_numbers(json@, key@, place as nat, index as nat) is None,
        },
{
    let value: serde_json::Value = match serde_json::from_slice(json) {
        Ok(value) => value,
        Err(_) => return None,
    };
    let list = |m: &serde_json::Value| m.get(key).or_else(|| m.get(place)).cloned();
    let number = |m| list(m).and_then(|l| l.get(index).and_then(|n| n.as_u64()));
    value.as_object().map(|members| members.values().map(number).collect())
}

/// Where the data of each tensor that a safetensors header declares ends, or `None` when the
/// header is no JSON object.
pub open spec fn declared_ends(header: Seq<u8>) -> Option<Seq<Option<u64>>> {
    json_numbers(header, "data_offsets"@, 2, 1)
}

/// A tensor that ends at `end`, behind a header of `header` bytes, ends at a place in the file
/// that a `usize` can hold.
pub open spec fn within_reach(end: Option<u64>, header: nat) -> bool {
    end matches Some(e) ==> e + 8 + header <= usize::MAX
}

/// The sizes that a safetensors file declares can be added up: it has a header, which is a JSON
/// object, and each of its tensors ends within reach.
pub open spec fn adds_up(file: Seq<u8>) -> bool {
    match header_of(file) {
        None => false,
        Some(header) => match declared_ends(header) {
            None => false,
            Some(ends) => forall|i: int|
                0 <= i < ends.len() ==> within_reach(#[trigger] ends[i], header.len()),
        },
    }
}

/// Whether the sizes that a safetensors file declares can be added up.
pub fn does_add_up(file: &[u8]) -> (r: bool)
    ensures
        r == adds_up(file@),
{
    let header = match safetensors_header_from_bytes(file, "the voice file") {
        Ok(header) => header,
        Err(_) => {
            return false;
        },
    };
    let ends = match json_numbers_at(header, "data_offsets", 2, 1) {
        Some(ends) => ends,
        None => {
            return false;
        },
    };
    let mut i: usize = 0;
    while i < ends.len()
        invariant
            0 <= i <= ends.len(),
            header_of(file@) == Some(header@),
            declared_ends(header@) == Some(ends@),
            forall|j: int| 0 <= j < i ==> within_reach(#[trigger] ends@[j], header@.len()),
        decreases ends.len() - i,
    {
        if let Some(end) = ends[i] {
            if end as u128 + 8 + header.len() as u128 > usize::MAX as u128 {
                assert(!within_reach(declared_ends(header_of(file@)->0)->0[i as int], header@.len()));
                return false;
            }
        }
        i += 1;
    }
    true
}

/// The tensors of a safetensors file and their dimensions, or `None` when it is no such file.
/// Tensors of another type than f32, f16 or bf16 are left out.
pub uninterp spec fn tensor_shapes(file: Seq<u8>) -> Option<Map<Seq<char>, Seq<usize>>>;

/// `xn::nn::VB::from_bytes` reads a safetensors file; `tensor_names` and `shape` then list its
/// tensors, each once. Which tensors those are depends on the bytes alone; the order they are
/// listed in does not, and neither does the text that a broken file is complained about with.
/// The end of the declared data, the header and its length are added up unchecked there, so the
/// sum has to fit.
#[verifier::external_body]
fn tensors_in(file: &[u8]) -> (r: std::result::Result<Vec<NamedShape>, String>)
    requires
        adds_up(file@),
    ensures
        match r {
            Ok(tensors) => tensor_shapes(file@) matches Some(shapes) && gives(tensors@, shapes),
            Err(_) => tensor_shapes(file@) is None,
        },
{
    let vb = match xn::nn::VB::from_bytes(vec![file.to_vec()], xn::CPU) {
        Ok(vb) => vb,
        Err(e) => return Err(e.to_string()),
    };
    let dims = |n: &str| vb.shape(n).map(|s| s.dims().to_vec()).unwrap_or_default();
    Ok(vb.tensor_names().into_iter().map(|n| NamedShape { name: n.to_owned(), dims: dims(n) }).collect())
}

/// How a voice file becomes a conditioning embedding: which of its tensors is read, and how that
/// one is laid out.
#[derive(Debug)]
pub struct VoicePlan {
    pub name: String,
    pub kind: VoiceTensor,
    pub layout: VoiceLayout,
}

/// The outcome of planning the tensor `name`, of dimensions `dims`.
pub open spec fn planned(
    r: Result<VoicePlan>,
    name: Seq<char>,
    kind: VoiceTensor,
    dims: Seq<usize>,
    label: Seq<char>,
    proj_in: Option<usize>,
) -> bool {
    match matrix(dims) {
        None => r matches Err(e) && e@ == wrong_rank(name, label, dims),
        Some((rows, cols)) => match (kind, proj_in) {
            (VoiceTensor::Emb, _) => r matches Ok(p) && p.name@ == name && p.kind == kind
                && p.layout == (VoiceLayout { rows, cols, projected: false }),
            (VoiceTensor::Latents, None) => r matches Err(e) && e@ == no_projection(label),
            (VoiceTensor::Latents, Some(in_dim)) => if rows == in_dim {
                r matches Ok(p) && p.name@ == name && p.kind == kind && p.layout == (VoiceLayout {
                    rows,
                    cols,
                    projected: true,
                })
            } else {
                r matches Err(e) && e@ == wrong_channels(label, rows as nat, in_dim as nat)
            },
        },
    }
}

/// Where a name stands in a list of tensors.
pub open spec fn dims_of(tensors: Seq<NamedShape>, name: Seq<char>) -> Seq<usize> {
    tensors[names_of(tensors).index_of(name)].dims@
}

/// Plan how the tensors of a voice file become a conditioning embedding. `label` names the file
/// in messages.
pub fn plan_voice(tensors: &Vec<NamedShape>, label: &str, proj_in: Option<usize>) -> (r: Result<
    VoicePlan,
>)
    requires
        names_of(tensors@).no_duplicates(),
    ensures
        match picked(names_of(tensors@)) {
            None => r matches Err(e) && e@ == Failure::InvalidData(
                "no tensors found in voice file "@ + label@,
            ),
            Some((name, kind)) => planned(
                r,
                name,
                kind,
                dims_of(tensors@, name),
                label@,
                proj_in,
            ),
        },
{
    let mut names: Vec<String> = Vec::new();
    for i in 0..tensors.len()
        invariant
            text::texts(names@) == names_of(tensors@).take(i as int),
    {
        let ghost before = names@;
        let name = tensors[i].name.clone();
        names.push(name);
        assert(text::texts(names@) =~= text::texts(before).push(name@));
        assert(names_of(tensors@).take(i + 1) =~= names_of(tensors@).take(i as int).push(name@));
    }
    assert(names_of(tensors@).take(tensors@.len() as int) =~= names_of(tensors@));
    let (name, kind) = match pick_voice_tensor(&names, label) {
        Ok(found) => found,
        Err(e) => {
            return Err(e);
        },
    };
    let mut i: usize = 0;
    let count: usize = tensors.len();
    assert(names_of(tensors@).contains(name@));
    let ghost at = names_of(tensors@).index_of(name@);
    assert(0 <= at < tensors@.len() && names_of(tensors@)[at] == name@);
    while !text::same(tensors[i].name.as_str(), name.as_str())
        invariant
            i <= at < tensors@.len(),
            count == tensors@.len(),
            names_of(tensors@)[at] == name@,
            tensors@[at].name@ == name@,
        decreases at - i,
    {
        i += 1;
    }
    assert(names_of(tensors@)[i as int] == name@);
    assert(i == at);
    match voice_layout(name.as_str(), kind, &tensors[i].dims, label, proj_in) {
        Ok(layout) => Ok(VoicePlan { name, kind, layout }),
        Err(e) => Err(e),
    }
}

/// The outcome of loading a voice file already in memory, given the names of its tensors in some
/// order. A file whose sizes do not add up is a broken one.
pub open spec fn loaded(
    r: Result<VoicePlan>,
    bytes: Seq<u8>,
    model_ext: Option<&str>,
    proj_in: Option<usize>,
) -> bool {
    match (adds_up(bytes), tensor_shapes(bytes)) {
        (false, _) => r matches Err(e) && e@ == (Failure::Tensor {
            text: BROKEN_VOICE_FILE@,
            cause: Cause::Other,
        }),
        (true, None) => r matches Err(e) && e@ is Tensor,
        (true, Some(shapes)) => exists|names: Seq<Seq<char>>|
            #![trigger picked(names)]
            {
                &&& forall|k: Seq<char>|
                    #[trigger] names.contains(k) <==> shapes.dom().contains(k)
                &&& match picked(names) {
                    None => r matches Err(e) && e@ == Failure::InvalidData(
                        "no tensors found in voice file the voice file"@,
                    ),
                    Some((name, kind)) => checked(
                        r,
                        name,
                        kind,
                        shapes[name],
                        bytes,
                        model_ext,
                        proj_in,
                    ),
                }
            },
    }
}

/// Plan how a voice file already in memory becomes a conditioning embedding, for a checkpoint of
/// `model_ext` whose speaker projection takes `proj_in` channels.
///
/// When `model_ext` is given and the file records one of its own, the two must agree -- a voice
/// conditioned on a different checkpoint produces confident nonsense rather than an error. When
/// the file names its tensor neither way, which of several is read is left open; so is the text
/// that a broken file is complained about with, where its sizes add up.
pub fn load_voice_emb_from_bytes(
    bytes: &[u8],
    model_ext: Option<&str>,
    proj_in: Option<usize>,
) -> (r: Result<VoicePlan>)
    ensures
        loaded(r, bytes@, model_ext, proj_in),
{
    let label = "the voice file";
    if !does_add_up(bytes) {
        return Err(
            Error::Tensor(TensorError { text: BROKEN_VOICE_FILE.to_owned(), cause: Cause::Other }),
        );
    }
    let tensors = match tensors_in(bytes) {
        Ok(tensors) => tensors,
        Err(text) => {
            return Err(Error::Tensor(TensorError { text, cause: Cause::Other }));
        },
    };
    let ghost names = names_of(tensors@);
    let ghost shapes = tensor_shapes(bytes@)->0;
    proof {
        reveal_strlit("no tensors found in voice file ");
        reveal_strlit("the voice file");
        reveal_strlit("no tensors found in voice file the voice file");
        assert("no tensors found in voice file "@ + "the voice file"@
            =~= "no tensors found in voice file the voice file"@);
        if let Some((name, kind)) = picked(names) {
            if names.len() > 0 {
                assert(names.contains(names[0]));
            }
            assert(names.contains(name));
            let at = names.index_of(name);
            assert(tensors@[at].name@ == name);
        }
    }
    let plan = match plan_voice(&tensors, label, proj_in) {
        Ok(plan) => plan,
        Err(e) => {
            return Err(e);
        },
    };
    match model_ext {
        None => Ok(plan),
        Some(ext) => {
            let header = match safetensors_header_from_bytes(bytes, label) {
                Ok(header) => header,
                Err(e) => {
                    return Err(e);
                },
            };
            match check_model_ext(header, label, ext) {
                Ok(_) => Ok(plan),
                Err(e) => Err(e),
            }
        },
    }
}

/// The outcome of planning a tensor of a file in memory and of checking the file's header: the
/// tensor is looked at first.
pub open spec fn checked(
    r: Result<VoicePlan>,
    name: Seq<char>,
    kind: VoiceTensor,
    dims: Seq<usize>,
    bytes: Seq<u8>,
    model_ext: Option<&str>,
    proj_in: Option<usize>,
) -> bool {
    let label = "the voice file"@;
    let usable = match (matrix(dims), kind, proj_in) {
        (None, _, _) => false,
        (Some(_), VoiceTensor::Emb, _) => true,
        (Some(m), VoiceTensor::Latents, Some(in_dim)) => m.0 == in_dim,
        (Some(_), VoiceTensor::Latents, None) => false,
    };
    match (usable, model_ext, header_of(bytes)) {
        (false, _, _) => planned(r, name, kind, dims, label, proj_in),
        (true, None, _) => planned(r, name, kind, dims, label, proj_in),
        (true, Some(_), None) => r matches Err(e) && e@ == not_safetensors(label),
        (true, Some(ext), Some(header)) => match json_string(
            header,
            "__metadata__"@,
            "model_ext"@,
        ) {
            Ok(None) => planned(r, name, kind, dims, label, proj_in),
            Ok(Some(recorded)) => if recorded == ext@ {
                planned(r, name, kind, dims, label, proj_in)
            } else {
                r matches Err(e) && e@ == other_ext(recorded, ext@)
            },
            Err(why) => r matches Err(e) && e@ == Failure::InvalidData(
                "cannot parse safetensors header of "@ + label + ": "@ + why,
            ),
        },
    }
}

/// A voice tensor is laid out alike with and without a batch of one in front of it.
pub proof fn a_batch_in_front_changes_nothing(
    name: &str,
    kind: VoiceTensor,
    dims: Vec<usize>,
    batched: Vec<usize>,
    label: &str,
    proj_in: Option<usize>,
    r: Result<VoiceLayout>,
    s: Result<VoiceLayout>,
)
    requires
        dims@.len() == 2,
        batched@ == seq![1usize, dims@[0], dims@[1]],
        call_ensures(voice_layout, (name, kind, &dims, label, proj_in), r),
        call_ensures(voice_layout, (name, kind, &batched, label, proj_in), s),
    ensures
        r is Ok <==> s is Ok,
        r matches Ok(layout) ==> s == Ok::<VoiceLayout, Error>(layout),
        r is Ok <==> (kind == VoiceTensor::Emb || proj_in == Some(dims@[0])),
{
}

/// An embedding has a frame for each of its rows and is used as it is; latents have a frame for
/// each of their columns, and are projected by what takes their rows.
pub proof fn a_voice_has_a_frame_for_each_step(
    name: &str,
    kind: VoiceTensor,
    dims: Vec<usize>,
    label: &str,
    proj_in: Option<usize>,
    r: Result<VoiceLayout>,
    frames: usize,
)
    requires
        call_ensures(voice_layout, (name, kind, &dims, label, proj_in), r),
        r matches Ok(layout) && call_ensures(VoiceLayout::frames, (&layout,), frames),
    ensures
        2 <= dims@.len() <= 3,
        match kind {
            VoiceTensor::Emb => frames == dims@[dims@.len() - 2] && !r->Ok_0.projected,
            VoiceTensor::Latents => frames == dims@.last() && r->Ok_0.projected && proj_in == Some(
                dims@[dims@.len() - 2],
            ),
        },
{
}

/// Which tensor of a voice file is read does not depend on the order of the others: the embedding
/// if there is one, else the latents if there are some, and otherwise one of the file.
pub proof fn the_voice_is_picked_by_name(
    names: Vec<String>,
    label: &str,
    r: Result<(String, VoiceTensor)>,
)
    requires
        call_ensures(pick_voice_tensor, (&names, label), r),
    ensures
        r is Ok <==> names@.len() > 0,
        r matches Ok((name, kind)) ==> {
            &&& text::texts(names@).contains(name@)
            &&& kind == VoiceTensor::Latents <==> name@ == "speaker_wavs"@ && !text::texts(
                names@,
            ).contains("emb"@)
            &&& text::texts(names@).contains("emb"@) ==> name@ == "emb"@
            &&& !text::texts(names@).contains("emb"@) && text::texts(names@).contains(
                "speaker_wavs"@,
            ) ==> name@ == "speaker_wavs"@
        },
{
    let all = text::texts(names@);
    reveal_strlit("emb");
    reveal_strlit("speaker_wavs");
    assert("emb"@.len() != "speaker_wavs"@.len());
    if all.len() > 0 {
        assert(all.contains(all[0]));
    }
}

/// A file in memory gives back the header that it was written with.
pub proof fn a_written_header_is_found(
    bytes: &[u8],
    label: &str,
    header: Seq<u8>,
    data: Seq<u8>,
    r: Result<&[u8]>,
)
    requires
        call_ensures(safetensors_header_from_bytes, (bytes, label), r),
        header.len() < 0x1_0000,
        bytes@ == seq![
            (header.len() % 256) as u8,
            (header.len() / 256) as u8,
            0,
            0,
            0,
            0,
            0,
            0,
        ] + header + data,
    ensures
        r matches Ok(found) && found@ == header,
{
    let n = header.len();
    let lead = seq![(n % 256) as u8, (n / 256) as u8, 0, 0, 0, 0, 0, 0];
    assert(bytes@.take(8) =~= lead);
    reveal_with_fuel(le_value, 9);
    let l1 = lead.skip(1);
    let l2 = l1.skip(1);
    assert(l1 =~= seq![(n / 256) as u8, 0, 0, 0, 0, 0, 0]);
    assert(l2 =~= seq![0u8, 0, 0, 0, 0, 0]);
    assert(l2.skip(1) =~= seq![0u8, 0, 0, 0, 0]);
    assert(seq![0u8, 0, 0, 0, 0].skip(1) =~= seq![0u8, 0, 0, 0]);
    assert(seq![0u8, 0, 0, 0].skip(1) =~= seq![0u8, 0, 0]);
    assert(seq![0u8, 0, 0].skip(1) =~= seq![0u8, 0]);
    assert(seq![0u8, 0].skip(1) =~= seq![0u8]);
    assert(seq![0u8].skip(1) =~= Seq::<u8>::empty());
    assert(le_value(lead) == n);
    assert(bytes@.subrange(8, 8 + n as int) =~= header);
}

/// Only what belongs to the training of the flow or to the quantizer is dropped from a checkpoint.
pub proof fn little_is_dropped(name: &str, r: Option<String>)
    requires
        call_ensures(remap_key, (name,), r),
    ensures
        r is None <==> text::holds(name@, "flow.w_s_t"@) || text::holds(name@, "quantizer.vq"@)
            || text::holds(name@, "quantizer.logvar_proj"@),
{
}

/// A voice that was made for another checkpoint is refused, whatever else the file holds.
pub proof fn a_voice_of_another_checkpoint_is_refused(
    bytes: &[u8],
    model_ext: &str,
    proj_in: Option<usize>,
    header: Seq<u8>,
    recorded: Seq<char>,
    r: Result<VoicePlan>,
)
    requires
        call_ensures(load_voice_emb_from_bytes, (bytes, Some(model_ext), proj_in), r),
        header_of(bytes@) == Some(header),
        json_string(header, "__metadata__"@, "model_ext"@) == Ok::<Option<Seq<char>>, Seq<char>>(
            Some(recorded),
        ),
        recorded != model_ext@,
    ensures
        r is Err,
{
}

/// What is read from a voice file is one of its tensors, laid out by its own last two dimensions.
pub proof fn a_voice_is_read_from_its_file(
    bytes: &[u8],
    model_ext: Option<&str>,
    proj_in: Option<usize>,
    r: Result<VoicePlan>,
)
    requires
        call_ensures(load_voice_emb_from_bytes, (bytes, model_ext, proj_in), r),
    ensures
        r matches Ok(plan) ==> {
            &&& tensor_shapes(bytes@) is Some
            &&& ({
                let shapes = tensor_shapes(bytes@)->0;
                let dims = shapes[plan.name@];
                &&& shapes.dom().contains(plan.name@)
                &&& 2 <= dims.len() <= 3
                &&& plan.layout.rows == dims[dims.len() - 2]
                &&& plan.layout.cols == dims[dims.len() - 1]
                &&& plan.layout.projected <==> plan.kind == VoiceTensor::Latents
                &&& plan.layout.projected ==> proj_in == Some(plan.layout.rows)
                &&& shapes.dom().contains("emb"@) ==> plan.name@ == "emb"@
            })
        },
{
    if let Ok(plan) = r {
        let shapes = tensor_shapes(bytes@)->0;
        let names = choose|names: Seq<Seq<char>>|
            #![trigger picked(names)]
            {
                &&& forall|k: Seq<char>|
                    #[trigger] names.contains(k) <==> shapes.dom().contains(k)
                &&& match picked(names) {
                    None => false,
                    Some((name, kind)) => checked(
                        r,
                        name,
                        kind,
                        shapes[name],
                        bytes@,
                        model_ext,
                        proj_in,
                    ),
                }
            };
        let (name, kind) = picked(names)->0;
        if names.len() > 0 {
            assert(names.contains(names[0]));
        }
        assert(names.contains(name));
        assert(planned(r, name, kind, shapes[name], "the voice file"@, proj_in));
    }
}

} // verus!
