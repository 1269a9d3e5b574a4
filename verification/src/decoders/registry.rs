//! The decoders that schema files define.
use vstd::prelude::*;
#[allow(unused_imports)]
use vstd::string::*;
use crate::decoders::decoder::SignalDecoder;
use crate::decoders::engines;
use crate::decoders::error::{DecoderError, ErrorView};
use crate::decoders::schema;
use crate::decoders::schema::{DecoderSchema, RawSchema, SchemaDecoder, SchemaView};
use crate::text;

verus! {

/// The schema file of the `tdm_audio` decoder.
pub const TDM_AUDIO_SCHEMA: &'static str = "id = \"tdm_audio\"
name = \"TDM Audio\"
engine = \"clocked_serial\"

[[inputs]]
role = \"bitclk\"
description = \"Bit clock\"

[[inputs]]
role = \"frame_sync\"
description = \"Frame sync / word select\"

[[inputs]]
role = \"data\"
description = \"Serial data\"

[[settings]]
key = \"mode\"
label = \"Frame sync mode\"
type = \"enum\"
default = \"pulse\"
options = [
    { value = \"pulse\", label = \"Pulse (TDM)\" },
    { value = \"level\", label = \"Level (I2S)\" },
]

[[settings]]
key = \"justification\"
label = \"Justification\"
type = \"enum\"
default = \"left\"
options = [
    { value = \"left\", label = \"Left\" },
    { value = \"right\", label = \"Right\" },
]

[[settings]]
key = \"edge\"
label = \"Bit clock edge\"
type = \"enum\"
default = \"rising\"
options = [
    { value = \"rising\", label = \"Rising\" },
    { value = \"falling\", label = \"Falling\" },
]

[[settings]]
key = \"fs_edge\"
label = \"Frame sync edge\"
type = \"enum\"
default = \"rising\"
options = [
    { value = \"rising\", label = \"Rising\" },
    { value = \"falling\", label = \"Falling\" },
]

[[settings]]
key = \"active_high\"
label = \"Frame sync active high\"
type = \"bool\"
default = true

[[settings]]
key = \"bits\"
label = \"Bits per sample\"
type = \"integer\"
default = 16
min = 1
max = 64

[[settings]]
key = \"channels\"
label = \"Channels\"
type = \"integer\"
default = 2
min = 1
max = 64

[[settings]]
key = \"slot_width\"
label = \"Slot width\"
type = \"integer\"
default = 0
min = 0
max = 64

[[settings]]
key = \"offset\"
label = \"Offset\"
type = \"integer\"
default = 0
min = 0
max = 64

[[settings]]
key = \"signed\"
label = \"Signed samples\"
type = \"bool\"
default = true

[[settings]]
key = \"show_errors\"
label = \"Show errors\"
type = \"bool\"
default = true

[[settings]]
key = \"order\"
label = \"Bit order\"
type = \"enum\"
default = \"msb\"
options = [
    { value = \"msb\", label = \"MSB first\" },
    { value = \"lsb\", label = \"LSB first\" },
]

[engine_params]
clock = \"bitclk\"
clock_edge = \"$edge\"
data = \"data\"
frame = \"frame_sync\"
frame_mode = \"$mode\"
frame_edge = \"$fs_edge\"
frame_active_high = \"$active_high\"
bits = \"$bits\"
channels = \"$channels\"
bit_order = \"$order\"
justification = \"$justification\"
offset = \"$offset\"
signed = \"$signed\"
show_errors = \"$show_errors\"
slot_width = \"$slot_width\"
";

/// The schema file of the `spdif` decoder.
pub const SPDIF_SCHEMA: &'static str = "id = \"spdif\"
name = \"S/PDIF / AES3\"
engine = \"biphase_audio\"

[[inputs]]
role = \"data\"
description = \"Biphase-mark-coded line\"

[[inputs]]
role = \"bitclk\"
description = \"Bit clock\"
required = false

[[settings]]
key = \"word_bits\"
label = \"Word length\"
type = \"enum\"
default = \"auto\"
options = [
    { value = \"auto\", label = \"Auto\" },
    { value = \"16\", label = \"16-bit\" },
    { value = \"20\", label = \"20-bit\" },
    { value = \"24\", label = \"24-bit\" },
]

[[settings]]
key = \"signed\"
label = \"Signed samples\"
type = \"bool\"
default = true

[[settings]]
key = \"show_validity\"
label = \"Show validity\"
type = \"bool\"
default = false

[[settings]]
key = \"show_user\"
label = \"Show user bits\"
type = \"bool\"
default = false

[[settings]]
key = \"show_status\"
label = \"Show channel status\"
type = \"bool\"
default = true

[[settings]]
key = \"show_parity_errors\"
label = \"Show errors\"
type = \"bool\"
default = true

[[settings]]
key = \"show_preambles\"
label = \"Show preambles\"
type = \"bool\"
default = true

[engine_params]
data = \"data\"
bitclk = \"bitclk\"
word_bits = \"$word_bits\"
signed = \"$signed\"
show_validity = \"$show_validity\"
show_user = \"$show_user\"
show_status = \"$show_status\"
show_parity_errors = \"$show_parity_errors\"
show_preambles = \"$show_preambles\"
";

/// Whether a file is a schema file, by its name: the name has an extension, and
/// that is `toml`.
pub fn is_schema_file(name: &str) -> (accepted: bool)
    ensures
        accepted == (name@.len() > 5 && name@.skip(name@.len() - 5) == ".toml"@),
{
    proof {
        reveal_strlit(".toml");
    }
    let chars = text::chars_of(name);
    if chars.len() <= 5 {
        return false;
    }
    let ending = text::text_from(&chars, chars.len() - 5);
    text::same_text(ending.as_str(), ".toml")
}

/// The schemas that the first `n` files define.
pub open spec fn loaded(files: Seq<RawSchema>, n: nat) -> Seq<SchemaView>
    decreases n,
{
    if n == 0 {
        Seq::empty()
    } else {
        let rest = loaded(files, (n - 1) as nat);
        match schema::declared_schema(files[n - 1]) {
            Ok(schema) => rest.push(schema),
            Err(_) => rest,
        }
    }
}

/// Which of the first `n` files define none, and what is wrong with them.
pub open spec fn refused(files: Seq<RawSchema>, n: nat) -> Seq<(int, ErrorView)>
    decreases n,
{
    if n == 0 {
        Seq::empty()
    } else {
        let rest = refused(files, (n - 1) as nat);
        match schema::declared_schema(files[n - 1]) {
            Ok(_) => rest,
            Err(fault) => rest.push((n - 1, fault)),
        }
    }
}

/// The schemas of a list of decoders.
pub open spec fn schemas_of(decoders: Seq<SchemaDecoder>) -> Seq<SchemaView> {
    Seq::new(decoders.len(), |i: int| decoders[i].declared())
}

/// The views of a list of errors, each with the place of its file.
pub open spec fn error_views(errors: Seq<(usize, DecoderError)>) -> Seq<(int, ErrorView)> {
    Seq::new(errors.len(), |i: int| (errors[i].0 as int, errors[i].1@))
}

/// All decoders that the schema files define, in the order of the files, and
/// what is wrong with the files that define none, each by its place among them.
pub fn all_decoders(files: &Vec<RawSchema>) -> (result: (
    Vec<SchemaDecoder>,
    Vec<(usize, DecoderError)>,
))
    ensures
        schemas_of(result.0@) == loaded(files@, files@.len()),
        error_views(result.1@) == refused(files@, files@.len()),
{
    let mut decoders: Vec<SchemaDecoder> = Vec::new();
    let mut errors: Vec<(usize, DecoderError)> = Vec::new();
    let mut i: usize = 0;
    proof {
        assert(schemas_of(decoders@) =~= loaded(files@, 0));
        assert(error_views(errors@) =~= refused(files@, 0));
    }
    while i < files.len()
        invariant
            i <= files.len(),
            schemas_of(decoders@) == loaded(files@, i as nat),
            error_views(errors@) == refused(files@, i as nat),
        decreases files.len() - i,
    {
        let ghost before = schemas_of(decoders@);
        let ghost failed = error_views(errors@);
        match DecoderSchema::parse(&files[i]) {
            Ok(schema) => {
                let ghost view = schema@;
                match SchemaDecoder::new(schema) {
                    Ok(decoder) => {
                        decoders.push(decoder);
                        assert(schemas_of(decoders@) =~= before.push(view));
                    },
                    Err(error) => {
                        assert(engines::engine_named(view.engine) is Some);
                    },
                }
            },
            Err(error) => {
                let ghost view = error@;
                errors.push((i, error));
                assert(error_views(errors@) =~= failed.push((i as int, view)));
            },
        }
        i += 1;
    }
    (decoders, errors)
}

/// The first decoder, from position `from` on, with an identifier.
pub open spec fn first_with_id(schemas: Seq<SchemaView>, id: Seq<char>, from: int) -> Option<int>
    decreases schemas.len() - from,
{
    if from < 0 || from >= schemas.len() {
        None
    } else if schemas[from].id == id {
        Some(from)
    } else {
        first_with_id(schemas, id, from + 1)
    }
}

/// Look up a decoder by its [`SignalDecoder::id`].
pub fn decoder_by_id<'a>(decoders: &'a Vec<SchemaDecoder>, id: &str) -> (decoder: Option<
    &'a SchemaDecoder,
>)
    ensures
        match (decoder, first_with_id(schemas_of(decoders@), id@, 0)) {
            (Some(found), Some(i)) => 0 <= i < decoders@.len() && *found == decoders@[i],
            (None, None) => true,
            _ => false,
        },
{
    let mut i: usize = 0;
    while i < decoders.len()
        invariant
            i <= decoders.len(),
            first_with_id(schemas_of(decoders@), id@, 0) == first_with_id(
                schemas_of(decoders@),
                id@,
                i as int,
            ),
        decreases decoders.len() - i,
    {
        if text::same_text(decoders[i].id(), id) {
            return Some(&decoders[i]);
        }
        i += 1;
    }
    None
}

/// Where several files define decoders with one identifier, the earliest one is
/// found, whatever comes after it.
pub proof fn earlier_decoders_win(schemas: Seq<SchemaView>, more: Seq<SchemaView>, id: Seq<char>)
    requires
        first_with_id(schemas, id, 0) is Some,
    ensures
        first_with_id(schemas + more, id, 0) == first_with_id(schemas, id, 0),
{
    earlier_wins_from(schemas, more, id, 0);
}

proof fn earlier_wins_from(
    schemas: Seq<SchemaView>,
    more: Seq<SchemaView>,
    id: Seq<char>,
    from: int,
)
    requires
        first_with_id(schemas, id, from) is Some,
    ensures
        first_with_id(schemas + more, id, from) == first_with_id(schemas, id, from),
    decreases schemas.len() - from,
{
    if 0 <= from < schemas.len() {
        assert((schemas + more)[from] == schemas[from]);
        if schemas[from].id != id {
            earlier_wins_from(schemas, more, id, from + 1);
        }
    }
}

} // verus!
