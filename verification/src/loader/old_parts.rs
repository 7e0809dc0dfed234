//! Why renaming the keys of a checkpoint leaves none of the old parts behind: no old part can share
//! a character with what another one was replaced by.
use crate::loader;
use crate::text;
use vstd::prelude::*;
use vstd::string::*;

verus! {

/// The part that the names of the flow model begin with stands nowhere else in this one, which
/// holds nothing of the codec's.
spec fn of_the_flow_model(s: Seq<char>) -> bool {
    &&& s.len() > 8
    &&& s.take(8) == "flow_lm."@
    &&& text::differ_from(s, "flow_lm."@, 1)
    &&& text::differ_from(s, "mimi."@, 0)
}

proof fn speaker_key_is_of_the_flow_model()
    ensures
        of_the_flow_model("flow_lm.condition_provider.conditioners.speaker_wavs.output_proj.weight"@),
{
    reveal_strlit("flow_lm.condition_provider.conditioners.speaker_wavs.output_proj.weight");
    reveal_strlit("flow_lm.");
    reveal_strlit("mimi.");
    let s = "flow_lm.condition_provider.conditioners.speaker_wavs.output_proj.weight"@;
    let head = "flow_lm."@;
    let codec = "mimi."@;
    assert(s.take(8) =~= head);
    assert forall|i: int| 1 <= i < s.len() implies text::differ_somewhere(s, head, i) by {
        assert(text::differ(s, head, i, 0));
    }
    assert forall|i: int| 0 <= i < s.len() implies text::differ_somewhere(s, codec, i) by {
        if i == 6 {
            assert(text::differ(s, codec, 6, 1));
        } else {
            assert(text::differ(s, codec, i, 0));
        }
    }
}

proof fn transcript_key_is_of_the_flow_model()
    ensures
        of_the_flow_model("flow_lm.condition_provider.conditioners.transcript_in_segment."@),
{
    reveal_strlit("flow_lm.condition_provider.conditioners.transcript_in_segment.");
    reveal_strlit("flow_lm.");
    reveal_strlit("mimi.");
    let s = "flow_lm.condition_provider.conditioners.transcript_in_segment."@;
    let head = "flow_lm."@;
    let codec = "mimi."@;
    assert(s.take(8) =~= head);
    assert forall|i: int| 1 <= i < s.len() implies text::differ_somewhere(s, head, i) by {
        assert(text::differ(s, head, i, 0));
    }
    assert forall|i: int| 0 <= i < s.len() implies text::differ_somewhere(s, codec, i) by {
        if i == 6 {
            assert(text::differ(s, codec, 6, 1));
        } else if i == 57 {
            assert(text::differ(s, codec, 57, 1));
        } else {
            assert(text::differ(s, codec, i, 0));
        }
    }
}

proof fn backbone_key_is_of_the_flow_model()
    ensures
        of_the_flow_model("flow_lm.backbone."@),
{
    reveal_strlit("flow_lm.backbone.");
    reveal_strlit("flow_lm.");
    reveal_strlit("mimi.");
    let s = "flow_lm.backbone."@;
    let head = "flow_lm."@;
    let codec = "mimi."@;
    assert(s.take(8) =~= head);
    assert forall|i: int| 1 <= i < s.len() implies text::differ_somewhere(s, head, i) by {
        assert(text::differ(s, head, i, 0));
    }
    assert forall|i: int| 0 <= i < s.len() implies text::differ_somewhere(s, codec, i) by {
        if i == 6 {
            assert(text::differ(s, codec, 6, 1));
        } else {
            assert(text::differ(s, codec, i, 0));
        }
    }
}

proof fn flow_key_is_of_the_flow_model()
    ensures
        of_the_flow_model("flow_lm.flow."@),
{
    reveal_strlit("flow_lm.flow.");
    reveal_strlit("flow_lm.");
    reveal_strlit("mimi.");
    let s = "flow_lm.flow."@;
    let head = "flow_lm."@;
    let codec = "mimi."@;
    assert(s.take(8) =~= head);
    assert forall|i: int| 1 <= i < s.len() implies text::differ_somewhere(s, head, i) by {
        if i == 8 {
            assert(text::differ(s, head, 8, 4));
        } else {
            assert(text::differ(s, head, i, 0));
        }
    }
    assert forall|i: int| 0 <= i < s.len() implies text::differ_somewhere(s, codec, i) by {
        if i == 6 {
            assert(text::differ(s, codec, 6, 1));
        } else {
            assert(text::differ(s, codec, i, 0));
        }
    }
}

proof fn speaker_name_is_of_the_flow_model()
    ensures
        of_the_flow_model("flow_lm.speaker_proj_weight"@),
{
    reveal_strlit("flow_lm.speaker_proj_weight");
    reveal_strlit("flow_lm.");
    reveal_strlit("mimi.");
    let s = "flow_lm.speaker_proj_weight"@;
    let head = "flow_lm."@;
    let codec = "mimi."@;
    assert(s.take(8) =~= head);
    assert forall|i: int| 1 <= i < s.len() implies text::differ_somewhere(s, head, i) by {
        assert(text::differ(s, head, i, 0));
    }
    assert forall|i: int| 0 <= i < s.len() implies text::differ_somewhere(s, codec, i) by {
        if i == 6 {
            assert(text::differ(s, codec, 6, 1));
        } else {
            assert(text::differ(s, codec, i, 0));
        }
    }
}

proof fn conditioner_name_is_of_the_flow_model()
    ensures
        of_the_flow_model("flow_lm.conditioner."@),
{
    reveal_strlit("flow_lm.conditioner.");
    reveal_strlit("flow_lm.");
    reveal_strlit("mimi.");
    let s = "flow_lm.conditioner."@;
    let head = "flow_lm."@;
    let codec = "mimi."@;
    assert(s.take(8) =~= head);
    assert forall|i: int| 1 <= i < s.len() implies text::differ_somewhere(s, head, i) by {
        assert(text::differ(s, head, i, 0));
    }
    assert forall|i: int| 0 <= i < s.len() implies text::differ_somewhere(s, codec, i) by {
        if i == 6 {
            assert(text::differ(s, codec, 6, 1));
        } else {
            assert(text::differ(s, codec, i, 0));
        }
    }
}

proof fn transformer_name_is_of_the_flow_model()
    ensures
        of_the_flow_model("flow_lm.transformer."@),
{
    reveal_strlit("flow_lm.transformer.");
    reveal_strlit("flow_lm.");
    reveal_strlit("mimi.");
    let s = "flow_lm.transformer."@;
    let head = "flow_lm."@;
    let codec = "mimi."@;
    assert(s.take(8) =~= head);
    assert forall|i: int| 1 <= i < s.len() implies text::differ_somewhere(s, head, i) by {
        if i == 13 {
            assert(text::differ(s, head, 13, 1));
        } else {
            assert(text::differ(s, head, i, 0));
        }
    }
    assert forall|i: int| 0 <= i < s.len() implies text::differ_somewhere(s, codec, i) by {
        if i == 6 {
            assert(text::differ(s, codec, 6, 1));
        } else if i == 16 {
            assert(text::differ(s, codec, 16, 1));
        } else {
            assert(text::differ(s, codec, i, 0));
        }
    }
}

proof fn flow_net_name_is_of_the_flow_model()
    ensures
        of_the_flow_model("flow_lm.flow_net."@),
{
    reveal_strlit("flow_lm.flow_net.");
    reveal_strlit("flow_lm.");
    reveal_strlit("mimi.");
    let s = "flow_lm.flow_net."@;
    let head = "flow_lm."@;
    let codec = "mimi."@;
    assert(s.take(8) =~= head);
    assert forall|i: int| 1 <= i < s.len() implies text::differ_somewhere(s, head, i) by {
        if i == 8 {
            assert(text::differ(s, head, 8, 5));
        } else {
            assert(text::differ(s, head, i, 0));
        }
    }
    assert forall|i: int| 0 <= i < s.len() implies text::differ_somewhere(s, codec, i) by {
        if i == 6 {
            assert(text::differ(s, codec, 6, 1));
        } else {
            assert(text::differ(s, codec, i, 0));
        }
    }
}

/// Two names of the flow model that differ behind their common start stay apart.
proof fn names_of_the_flow_model_stay_apart(key: Seq<char>, name: Seq<char>, at: int)
    requires
        of_the_flow_model(key),
        of_the_flow_model(name),
        text::differ(name, key, 0, at),
    ensures
        text::apart(key, name),
{
    reveal_strlit("flow_lm.");
    let head = "flow_lm."@;
    assert forall|i: int| 0 <= i < name.len() implies text::differ_somewhere(name, key, i) by {
        if i > 0 {
            assert(text::differ_somewhere(name, head, i));
            let j = choose|j: int| text::differ(name, head, i, j);
            assert(key.take(8)[j] == head[j]);
            assert(text::differ(name, key, i, j));
        }
    }
    assert forall|i: int| 1 <= i < key.len() implies text::differ_somewhere(key, name, i) by {
        assert(text::differ_somewhere(key, head, i));
        let j = choose|j: int| text::differ(key, head, i, j);
        assert(name.take(8)[j] == head[j]);
        assert(text::differ(key, name, i, j));
    }
}

/// The codec's part and the names of the flow model stay apart.
proof fn the_codec_stays_apart(s: Seq<char>)
    requires
        of_the_flow_model(s),
    ensures
        text::apart(s, "mimi."@),
        text::apart("mimi.model.model."@, s),
{
    reveal_strlit("flow_lm.");
    reveal_strlit("mimi.");
    reveal_strlit("mimi.model.model.");
    let codec = "mimi."@;
    let twice = "mimi.model.model."@;
    assert(s.take(8)[0] == 'f');
    assert forall|i: int| 0 <= i < codec.len() implies text::differ_somewhere(codec, s, i) by {
        assert(text::differ(codec, s, i, 0));
    }
    assert forall|i: int| 0 <= i < s.len() implies text::differ_somewhere(s, twice, i) by {
        assert(text::differ_somewhere(s, codec, i));
        let j = choose|j: int| text::differ(s, codec, i, j);
        assert(twice[j] == codec[j]);
        assert(text::differ(s, twice, i, j));
    }
    assert forall|i: int| 1 <= i < twice.len() implies text::differ_somewhere(twice, s, i) by {
        assert(text::differ(twice, s, i, 0));
    }
}

/// Taking the codec's part off leaves none behind, unless it stands there twice.
proof fn the_codec_part_is_taken_off(s: Seq<char>)
    requires
        !text::holds(s, "mimi.model.model."@),
    ensures
        !text::holds(text::replaced(s, "mimi.model."@, "mimi."@), "mimi.model."@),
{
    reveal_strlit("mimi.");
    reveal_strlit("model.");
    reveal_strlit("mimi.model.");
    reveal_strlit("mimi.model.model.");
    let short = "mimi."@;
    let tail = "model."@;
    let long = "mimi.model."@;
    assert(short + tail =~= long);
    assert(long + tail =~= "mimi.model.model."@);
    assert forall|i: int| 1 <= i < short.len() implies text::differ_somewhere(short, long, i) by {
        if i == 2 {
            assert(text::differ(short, long, 2, 2));
        } else {
            assert(text::differ(short, long, i, 0));
        }
    }
    assert forall|i: int| 1 <= i < long.len() implies text::differ_somewhere(long, short, i) by {
        if i == 2 {
            assert(text::differ(long, short, 2, 2));
        } else if i == 5 {
            assert(text::differ(long, short, 5, 1));
        } else {
            assert(text::differ(long, short, i, 0));
        }
    }
    text::shortening_leaves_nothing(s, short, tail);
}

/// None of the old parts comes back.
pub(crate) proof fn no_part_comes_back(name: Seq<char>)
    ensures
        !text::holds(loader::renamed(name), "flow_lm.condition_provider.conditioners.speaker_wavs.output_proj.weight"@),
        !text::holds(loader::renamed(name), "flow_lm.condition_provider.conditioners.transcript_in_segment."@),
        !text::holds(loader::renamed(name), "flow_lm.backbone."@),
        !text::holds(loader::renamed(name), "flow_lm.flow."@),
        !text::holds(name, "mimi.model.model."@) ==> !text::holds(
            loader::renamed(name),
            "mimi.model."@,
        ),
{
    speaker_key_is_of_the_flow_model();
    transcript_key_is_of_the_flow_model();
    backbone_key_is_of_the_flow_model();
    flow_key_is_of_the_flow_model();
    speaker_name_is_of_the_flow_model();
    conditioner_name_is_of_the_flow_model();
    transformer_name_is_of_the_flow_model();
    flow_net_name_is_of_the_flow_model();
    reveal_strlit("flow_lm.condition_provider.conditioners.speaker_wavs.output_proj.weight");
    reveal_strlit("flow_lm.condition_provider.conditioners.transcript_in_segment.");
    reveal_strlit("flow_lm.backbone.");
    reveal_strlit("flow_lm.flow.");
    reveal_strlit("flow_lm.speaker_proj_weight");
    reveal_strlit("flow_lm.conditioner.");
    reveal_strlit("flow_lm.transformer.");
    reveal_strlit("flow_lm.flow_net.");
    reveal_strlit("mimi.model.");
    reveal_strlit("mimi.model.model.");
    let speaker = "flow_lm.condition_provider.conditioners.speaker_wavs.output_proj.weight"@;
    let transcript = "flow_lm.condition_provider.conditioners.transcript_in_segment."@;
    let backbone = "flow_lm.backbone."@;
    let flow = "flow_lm.flow."@;
    let speaker_name = "flow_lm.speaker_proj_weight"@;
    let conditioner = "flow_lm.conditioner."@;
    let transformer = "flow_lm.transformer."@;
    let flow_net = "flow_lm.flow_net."@;
    let codec = "mimi.model."@;
    let twice = "mimi.model.model."@;
    let a = text::replaced(name, speaker, speaker_name);
    assert(text::differ(speaker_name, speaker, 0, 8));
    names_of_the_flow_model_stay_apart(speaker, speaker_name, 8);
    text::replacing_brings_in_nothing_else(name, speaker, speaker_name, speaker);
    the_codec_stays_apart(speaker_name);
    if !text::holds(name, twice) {
        text::replacing_brings_in_nothing_else(name, speaker, speaker_name, twice);
    }
    let b = text::replaced(a, transcript, conditioner);
    assert(text::differ(conditioner, speaker, 0, 17));
    names_of_the_flow_model_stay_apart(speaker, conditioner, 17);
    text::replacing_brings_in_nothing_else(a, transcript, conditioner, speaker);
    assert(text::differ(conditioner, transcript, 0, 17));
    names_of_the_flow_model_stay_apart(transcript, conditioner, 17);
    text::replacing_brings_in_nothing_else(a, transcript, conditioner, transcript);
    the_codec_stays_apart(conditioner);
    if !text::holds(name, twice) {
        text::replacing_brings_in_nothing_else(a, transcript, conditioner, twice);
    }
    let c = text::replaced(b, backbone, transformer);
    assert(text::differ(transformer, speaker, 0, 8));
    names_of_the_flow_model_stay_apart(speaker, transformer, 8);
    text::replacing_brings_in_nothing_else(b, backbone, transformer, speaker);
    assert(text::differ(transformer, transcript, 0, 8));
    names_of_the_flow_model_stay_apart(transcript, transformer, 8);
    text::replacing_brings_in_nothing_else(b, backbone, transformer, transcript);
    assert(text::differ(transformer, backbone, 0, 8));
    names_of_the_flow_model_stay_apart(backbone, transformer, 8);
    text::replacing_brings_in_nothing_else(b, backbone, transformer, backbone);
    the_codec_stays_apart(transformer);
    if !text::holds(name, twice) {
        text::replacing_brings_in_nothing_else(b, backbone, transformer, twice);
    }
    let d = text::replaced(c, flow, flow_net);
    assert(text::differ(flow_net, speaker, 0, 8));
    names_of_the_flow_model_stay_apart(speaker, flow_net, 8);
    text::replacing_brings_in_nothing_else(c, flow, flow_net, speaker);
    assert(text::differ(flow_net, transcript, 0, 8));
    names_of_the_flow_model_stay_apart(transcript, flow_net, 8);
    text::replacing_brings_in_nothing_else(c, flow, flow_net, transcript);
    assert(text::differ(flow_net, backbone, 0, 8));
    names_of_the_flow_model_stay_apart(backbone, flow_net, 8);
    text::replacing_brings_in_nothing_else(c, flow, flow_net, backbone);
    assert(text::differ(flow_net, flow, 0, 12));
    names_of_the_flow_model_stay_apart(flow, flow_net, 12);
    text::replacing_brings_in_nothing_else(c, flow, flow_net, flow);
    the_codec_stays_apart(flow_net);
    if !text::holds(name, twice) {
        text::replacing_brings_in_nothing_else(c, flow, flow_net, twice);
    }
    the_codec_stays_apart(speaker);
    text::replacing_brings_in_nothing_else(d, codec, "mimi."@, speaker);
    the_codec_stays_apart(transcript);
    text::replacing_brings_in_nothing_else(d, codec, "mimi."@, transcript);
    the_codec_stays_apart(backbone);
    text::replacing_brings_in_nothing_else(d, codec, "mimi."@, backbone);
    the_codec_stays_apart(flow);
    text::replacing_brings_in_nothing_else(d, codec, "mimi."@, flow);
    if !text::holds(name, twice) {
        the_codec_part_is_taken_off(d);
    }
}

} // verus!
