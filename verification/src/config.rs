//! Model configuration.

use vstd::prelude::*;

use crate::bits::Bits32;
use crate::gguf;
use crate::gguf::{Fraction, Metadata, Value, ValueView};
use crate::text;
use crate::text::{and, and_num, lit};

verus! {

/// The compression ratio of layer `il`: none for the first two layers, then 4
/// on even layers and 128 on odd ones.
pub open spec fn compress_ratio(il: u32) -> u32 {
    if il < 2 {
        0
    } else if il % 2 == 0 {
        4
    } else {
        128
    }
}

/// Compression ratio of layer `il`: `0` for the dense first two layers, `4` on
/// even layers (which also carry an indexer), `128` on odd layers.
pub fn layer_compress_ratio(il: u32) -> (ratio: u32)
    ensures
        ratio == compress_ratio(il),
{
    if il < 2 {
        0
    } else if il % 2 == 0 {
        4
    } else {
        128
    }
}

/// Number of indexer heads.
pub const INDEXER_HEAD: u32 = 64;

/// Width of one indexer head.
pub const INDEXER_HEAD_DIM: u32 = 128;

/// Most compressed rows that one indexer head may select.
pub const INDEXER_TOP_K: u32 = 512;

/// Metadata key of the per-layer compression ratios.
pub const COMPRESS_RATIOS_KEY: &'static str = "deepseek4.attention.compress_ratios";

/// Metadata key of [`INDEXER_HEAD`].
pub const INDEXER_HEAD_KEY: &'static str = "deepseek4.attention.indexer.head_count";

/// Metadata key of [`INDEXER_HEAD_DIM`].
pub const INDEXER_HEAD_DIM_KEY: &'static str = "deepseek4.attention.indexer.key_length";

/// Metadata key of [`INDEXER_TOP_K`].
pub const INDEXER_TOP_K_KEY: &'static str = "deepseek4.attention.indexer.top_k";

/// The shape of a model, as the metadata of its file give it.
#[derive(Clone, Copy, Debug, PartialEq, Eq, Structural)]
pub struct ModelConfig {
    pub n_vocab: u32,
    pub n_embd: u32,
    pub n_head: u32,
    pub n_kv_head: u32,
    pub n_layer: u32,
    pub n_ff: u32,
    pub n_expert: u32,
    pub n_expert_used: u32,
    pub n_hc: u32,
    pub head_dim: u32,
    /// Width between the two query projections.
    pub q_lora_rank: u32,
    /// Base of the rotary frequencies.
    pub rope_theta: Bits32,
    pub ctx_size: u32,
}

/// 10000, the base of the rotary frequencies where the metadata give none.
pub const DEFAULT_ROPE_THETA: Bits32 = 0x461C_4000;

/// Why metadata give no configuration.
#[derive(Debug)]
pub enum ConfigError {
    /// A key is missing.
    Missing(&'static str),
    /// A value is not a 32-bit number.
    NotU32(&'static str),
    /// A value that divides or sizes something is zero.
    Zero(&'static str),
    /// A fixed number differs.
    Fixed { key: &'static str, got: u32, want: u32 },
    /// The compression ratios are no array, but this.
    RatiosNotArray(Value),
    /// There are fewer compression ratios than layers.
    RatiosShort { len: usize, n_layer: u32 },
    /// A compression ratio is not a 32-bit number, but this.
    RatioNotU32 { il: usize, entry: Value },
    /// A compression ratio differs from that of its layer.
    Ratio { il: usize, got: u32, want: u32 },
}

/// What a [`ConfigError`] says.
pub enum ConfigErrorView {
    Missing(Seq<char>),
    NotU32(Seq<char>),
    Zero(Seq<char>),
    Fixed { key: Seq<char>, got: u32, want: u32 },
    RatiosNotArray(ValueView),
    RatiosShort { len: int, n_layer: u32 },
    RatioNotU32 { il: int, entry: ValueView },
    Ratio { il: int, got: u32, want: u32 },
}

impl ConfigErrorView {
    /// The numbers with a fraction that the message names.
    pub open spec fn fractions(self) -> Seq<Fraction> {
        match self {
            ConfigErrorView::RatiosNotArray(v) => v.fractions(),
            ConfigErrorView::RatioNotU32 { entry, .. } => entry.fractions(),
            _ => Seq::empty(),
        }
    }

    /// The words of the message; `spelled` is how its numbers with a fraction
    /// are written.
    pub open spec fn text(self, spelled: Seq<Seq<char>>) -> Seq<char> {
        match self {
            ConfigErrorView::Missing(key) => "Missing metadata key: "@ + key,
            ConfigErrorView::NotU32(key) => "Type mismatch for "@ + key + ": expected u32"@,
            ConfigErrorView::Zero(key) => key + " must be > 0"@,
            ConfigErrorView::Fixed { key, got, want } => key + ": GGUF says "@ + text::decimal(
                got as nat,
            ) + ", expected "@ + text::decimal(want as nat),
            ConfigErrorView::RatiosNotArray(v) => COMPRESS_RATIOS_KEY@ + ": expected array, got "@
                + v.form(spelled, 0),
            ConfigErrorView::RatiosShort { len, n_layer } => COMPRESS_RATIOS_KEY@
                + ": array length "@ + text::decimal(len as nat) + " < n_layer "@ + text::decimal(
                n_layer as nat,
            ),
            ConfigErrorView::RatioNotU32 { il, entry } => COMPRESS_RATIOS_KEY@ + "["@
                + text::decimal(il as nat) + "]: expected u32, got "@ + entry.form(spelled, 0),
            ConfigErrorView::Ratio { il, got, want } => COMPRESS_RATIOS_KEY@ + "["@
                + text::decimal(il as nat) + "]: GGUF says "@ + text::decimal(got as nat)
                + ", expected "@ + text::decimal(want as nat),
        }
    }
}

impl ConfigError {
    pub open spec fn view(&self) -> ConfigErrorView {
        match *self {
            ConfigError::Missing(key) => ConfigErrorView::Missing(key@),
            ConfigError::NotU32(key) => ConfigErrorView::NotU32(key@),
            ConfigError::Zero(key) => ConfigErrorView::Zero(key@),
            ConfigError::Fixed { key, got, want } => ConfigErrorView::Fixed {
                key: key@,
                got,
                want,
            },
            ConfigError::RatiosNotArray(v) => ConfigErrorView::RatiosNotArray(v@),
            ConfigError::RatiosShort { len, n_layer } => ConfigErrorView::RatiosShort {
                len: len as int,
                n_layer,
            },
            ConfigError::RatioNotU32 { il, entry } => ConfigErrorView::RatioNotU32 {
                il: il as int,
                entry: entry@,
            },
            ConfigError::Ratio { il, got, want } => ConfigErrorView::Ratio {
                il: il as int,
                got,
                want,
            },
        }
    }

    /// The numbers with a fraction that the message names, in their order.
    pub fn fractions(&self) -> (out: Vec<Fraction>)
        ensures
            out@ == self@.fractions(),
    {
        let mut out: Vec<Fraction> = Vec::new();
        match self {
            ConfigError::RatiosNotArray(v) => v.push_fractions(&mut out),
            ConfigError::RatioNotU32 { entry, .. } => entry.push_fractions(&mut out),
            _ => {},
        }
        assert(out@ =~= self@.fractions());
        out
    }

    /// A message for people. `spelled` says how each of
    /// [`ConfigError::fractions`] is written.
    pub fn message(&self, spelled: &[String]) -> (s: String)
        requires
            spelled@.len() == self@.fractions().len(),
        ensures
            s@ == self@.text(text::words(spelled@)),
    {
        match *self {
            ConfigError::Missing(key) => and(lit("Missing metadata key: "), key),
            ConfigError::NotU32(key) => and(and(lit("Type mismatch for "), key), ": expected u32"),
            ConfigError::Zero(key) => and(lit(key), " must be > 0"),
            ConfigError::Fixed { key, got, want } => and_num(
                and(and_num(and(lit(key), ": GGUF says "), got as u64), ", expected "),
                want as u64,
            ),
            ConfigError::RatiosNotArray(ref v) => {
                let mut s = and(lit(COMPRESS_RATIOS_KEY), ": expected array, got ");
                v.push_form(&mut s, spelled, 0);
                s
            },
            ConfigError::RatiosShort { len, n_layer } => and_num(
                and(
                    and_num(and(lit(COMPRESS_RATIOS_KEY), ": array length "), len as u64),
                    " < n_layer ",
                ),
                n_layer as u64,
            ),
            ConfigError::RatioNotU32 { il, ref entry } => {
                let mut s = and(
                    and_num(and(lit(COMPRESS_RATIOS_KEY), "["), il as u64),
                    "]: expected u32, got ",
                );
                entry.push_form(&mut s, spelled, 0);
                s
            },
            ConfigError::Ratio { il, got, want } => and_num(
                and(
                    and_num(
                        and(
                            and_num(and(lit(COMPRESS_RATIOS_KEY), "["), il as u64),
                            "]: GGUF says ",
                        ),
                        got as u64,
                    ),
                    ", expected ",
                ),
                want as u64,
            ),
        }
    }
}

/// The 32-bit number under `key`.
pub open spec fn number(m: Map<Seq<char>, ValueView>, key: Seq<char>) -> Result<
    u32,
    ConfigErrorView,
> {
    if !m.contains_key(key) {
        Err(ConfigErrorView::Missing(key))
    } else {
        match m[key].as_u32() {
            Some(x) => Ok(x),
            None => Err(ConfigErrorView::NotU32(key)),
        }
    }
}

/// The 32-bit number under `key`, or `otherwise`.
pub open spec fn number_or(m: Map<Seq<char>, ValueView>, key: Seq<char>, otherwise: u32) -> u32 {
    match number(m, key) {
        Ok(x) => x,
        Err(_) => otherwise,
    }
}

/// The base of the rotary frequencies.
pub open spec fn theta_of(m: Map<Seq<char>, ValueView>) -> Bits32 {
    if !m.contains_key("deepseek4.rope.freq_base"@) {
        DEFAULT_ROPE_THETA
    } else {
        match m["deepseek4.rope.freq_base"@].as_f32() {
            Some(x) => x,
            None => DEFAULT_ROPE_THETA,
        }
    }
}

/// What is wrong with a number that is fixed but may be given.
pub open spec fn fixed_error(m: Map<Seq<char>, ValueView>, key: Seq<char>, want: u32) -> Option<
    ConfigErrorView,
> {
    if !m.contains_key(key) {
        None
    } else {
        match number(m, key) {
            Err(e) => Some(e),
            Ok(got) => if got == want {
                None
            } else {
                Some(ConfigErrorView::Fixed { key, got, want })
            },
        }
    }
}

/// What is wrong with the compression ratio of layer `il`.
pub open spec fn ratio_error(v: ValueView, il: int) -> Option<ConfigErrorView> {
    match v.as_u32() {
        None => Some(ConfigErrorView::RatioNotU32 { il, entry: v }),
        Some(got) => if got == compress_ratio(il as u32) {
            None
        } else {
            Some(ConfigErrorView::Ratio { il, got, want: compress_ratio(il as u32) })
        },
    }
}

/// What is wrong with the first wrong one of the first `n` ratios.
pub open spec fn ratios_error(a: Seq<ValueView>, n: nat) -> Option<ConfigErrorView>
    decreases n,
{
    if n == 0 {
        None
    } else {
        match ratios_error(a, (n - 1) as nat) {
            Some(e) => Some(e),
            None => ratio_error(a[n - 1], n - 1),
        }
    }
}

/// What is wrong with the compression ratios, which may be given.
pub open spec fn schedule_error(m: Map<Seq<char>, ValueView>, n_layer: u32) -> Option<
    ConfigErrorView,
> {
    if !m.contains_key(COMPRESS_RATIOS_KEY@) {
        None
    } else {
        match m[COMPRESS_RATIOS_KEY@] {
            ValueView::Array(a) => if a.len() < n_layer {
                Some(ConfigErrorView::RatiosShort { len: a.len() as int, n_layer })
            } else {
                ratios_error(a, n_layer as nat)
            },
            v => Some(ConfigErrorView::RatiosNotArray(v)),
        }
    }
}

/// What is wrong first: a number that must be there, or a fixed number, or the
/// compression ratios.
pub open spec fn config_error(m: Map<Seq<char>, ValueView>) -> Option<ConfigErrorView> {
    let n_vocab = number(m, "deepseek4.vocab_size"@);
    let n_embd = number(m, "deepseek4.embedding_length"@);
    let n_head = number(m, "deepseek4.attention.head_count"@);
    let n_kv_head = number(m, "deepseek4.attention.head_count_kv"@);
    let n_layer = number(m, "deepseek4.block_count"@);
    let n_ff = number(m, "deepseek4.expert_feed_forward_length"@);
    let q_lora_rank = number(m, "deepseek4.attention.q_lora_rank"@);
    if n_vocab is Err {
        Some(n_vocab->Err_0)
    } else if n_embd is Err {
        Some(n_embd->Err_0)
    } else if n_head is Err {
        Some(n_head->Err_0)
    } else if n_head->Ok_0 == 0 {
        Some(ConfigErrorView::Zero("deepseek4.attention.head_count"@))
    } else if n_kv_head is Err {
        Some(n_kv_head->Err_0)
    } else if n_layer is Err {
        Some(n_layer->Err_0)
    } else if n_ff is Err {
        Some(n_ff->Err_0)
    } else if q_lora_rank is Err {
        Some(q_lora_rank->Err_0)
    } else if q_lora_rank->Ok_0 == 0 {
        Some(ConfigErrorView::Zero("deepseek4.attention.q_lora_rank"@))
    } else if fixed_error(m, INDEXER_HEAD_KEY@, INDEXER_HEAD) is Some {
        fixed_error(m, INDEXER_HEAD_KEY@, INDEXER_HEAD)
    } else if fixed_error(m, INDEXER_HEAD_DIM_KEY@, INDEXER_HEAD_DIM) is Some {
        fixed_error(m, INDEXER_HEAD_DIM_KEY@, INDEXER_HEAD_DIM)
    } else if fixed_error(m, INDEXER_TOP_K_KEY@, INDEXER_TOP_K) is Some {
        fixed_error(m, INDEXER_TOP_K_KEY@, INDEXER_TOP_K)
    } else {
        schedule_error(m, n_layer->Ok_0)
    }
}

/// The configuration that metadata without an error give.
pub open spec fn config_of(m: Map<Seq<char>, ValueView>) -> ModelConfig {
    let n_embd = number(m, "deepseek4.embedding_length"@)->Ok_0;
    let n_head = number(m, "deepseek4.attention.head_count"@)->Ok_0;
    ModelConfig {
        n_vocab: number(m, "deepseek4.vocab_size"@)->Ok_0,
        n_embd,
        n_head,
        n_kv_head: number(m, "deepseek4.attention.head_count_kv"@)->Ok_0,
        n_layer: number(m, "deepseek4.block_count"@)->Ok_0,
        n_ff: number(m, "deepseek4.expert_feed_forward_length"@)->Ok_0,
        n_expert: number_or(m, "deepseek4.expert_count"@, 0),
        n_expert_used: number_or(m, "deepseek4.expert_used_count"@, 0),
        n_hc: number_or(m, "deepseek4.hyper_connection.count"@, 4),
        head_dim: number_or(
            m,
            "deepseek4.attention.key_length"@,
            number_or(m, "deepseek4.attention.head_dim"@, n_embd / n_head),
        ),
        q_lora_rank: number(m, "deepseek4.attention.q_lora_rank"@)->Ok_0,
        rope_theta: theta_of(m),
        ctx_size: number_or(m, "deepseek4.context_length"@, 32768),
    }
}

fn get_number(m: &Metadata, key: &'static str) -> (r: Result<u32, ConfigError>)
    ensures
        match r {
            Ok(x) => number(m@, key@) == Ok::<u32, ConfigErrorView>(x),
            Err(e) => number(m@, key@) == Err::<u32, ConfigErrorView>(e@),
        },
{
    match m.get(key) {
        None => Err(ConfigError::Missing(key)),
        Some(v) => match v.to_u32() {
            Some(x) => Ok(x),
            None => Err(ConfigError::NotU32(key)),
        },
    }
}

fn get_number_or(m: &Metadata, key: &'static str, otherwise: u32) -> (x: u32)
    ensures
        x == number_or(m@, key@, otherwise),
{
    match get_number(m, key) {
        Ok(x) => x,
        Err(_) => otherwise,
    }
}

fn check_fixed(m: &Metadata, key: &'static str, want: u32) -> (r: Result<(), ConfigError>)
    ensures
        match r {
            Ok(_) => fixed_error(m@, key@, want) is None,
            Err(e) => fixed_error(m@, key@, want) == Some(e@),
        },
{
    match m.get(key) {
        None => Ok(()),
        Some(_) => match get_number(m, key) {
            Err(e) => Err(e),
            Ok(got) => if got == want {
                Ok(())
            } else {
                Err(ConfigError::Fixed { key, got, want })
            },
        },
    }
}

proof fn ratios_error_stays(a: Seq<ValueView>, k: nat, n: nat)
    requires
        k <= n,
        ratios_error(a, k) is Some,
    ensures
        ratios_error(a, n) == ratios_error(a, k),
    decreases n,
{
    if k < n {
        ratios_error_stays(a, k, (n - 1) as nat);
    }
}

fn check_ratios(a: &[Value], n_layer: u32) -> (r: Result<(), ConfigError>)
    requires
        n_layer <= a.len(),
    ensures
        match r {
            Ok(_) => ratios_error(gguf::views(a@), n_layer as nat) is None,
            Err(e) => ratios_error(gguf::views(a@), n_layer as nat) == Some(e@),
        },
{
    let mut il: u32 = 0;
    while il < n_layer
        invariant
            il <= n_layer <= a.len(),
            ratios_error(gguf::views(a@), il as nat) is None,
        decreases n_layer - il,
    {
        proof {
            if ratios_error(gguf::views(a@), (il + 1) as nat) is Some {
                ratios_error_stays(gguf::views(a@), (il + 1) as nat, n_layer as nat);
            }
        }
        let want: u32 = layer_compress_ratio(il);
        match a[il as usize].to_u32() {
            None => return Err(
                ConfigError::RatioNotU32 { il: il as usize, entry: a[il as usize].duplicate() },
            ),
            Some(got) => {
                if got != want {
                    return Err(ConfigError::Ratio { il: il as usize, got, want });
                }
            },
        }
        il += 1;
    }
    Ok(())
}

fn check_schedule(m: &Metadata, n_layer: u32) -> (r: Result<(), ConfigError>)
    ensures
        match r {
            Ok(_) => schedule_error(m@, n_layer) is None,
            Err(e) => schedule_error(m@, n_layer) == Some(e@),
        },
{
    match m.get(COMPRESS_RATIOS_KEY) {
        None => Ok(()),
        Some(v) => match v.to_array() {
            None => Err(ConfigError::RatiosNotArray(v.duplicate())),
            Some(a) => {
                assert(v@->Array_0 =~= gguf::views(a@));
                if a.len() < n_layer as usize {
                    Err(ConfigError::RatiosShort { len: a.len(), n_layer })
                } else {
                    check_ratios(a, n_layer)
                }
            },
        },
    }
}

impl ModelConfig {
    /// The configuration that metadata give.
    pub fn from_metadata(metadata: &Metadata) -> (r: Result<Self, ConfigError>)
        ensures
            match r {
                Ok(c) => config_error(metadata@) is None && c == config_of(metadata@),
                Err(e) => config_error(metadata@) == Some(e@),
            },
    {
        let n_vocab: u32 = match get_number(metadata, "deepseek4.vocab_size") {
            Ok(x) => x,
            Err(e) => return Err(e),
        };
        let n_embd: u32 = match get_number(metadata, "deepseek4.embedding_length") {
            Ok(x) => x,
            Err(e) => return Err(e),
        };
        let n_head: u32 = match get_number(metadata, "deepseek4.attention.head_count") {
            Ok(x) => x,
            Err(e) => return Err(e),
        };
        if n_head == 0 {
            return Err(ConfigError::Zero("deepseek4.attention.head_count"));
        }
        let n_kv_head: u32 = match get_number(metadata, "deepseek4.attention.head_count_kv") {
            Ok(x) => x,
            Err(e) => return Err(e),
        };
        let n_layer: u32 = match get_number(metadata, "deepseek4.block_count") {
            Ok(x) => x,
            Err(e) => return Err(e),
        };
        let n_ff: u32 = match get_number(metadata, "deepseek4.expert_feed_forward_length") {
            Ok(x) => x,
            Err(e) => return Err(e),
        };
        let q_lora_rank: u32 = match get_number(metadata, "deepseek4.attention.q_lora_rank") {
            Ok(x) => x,
            Err(e) => return Err(e),
        };
        if q_lora_rank == 0 {
            return Err(ConfigError::Zero("deepseek4.attention.q_lora_rank"));
        }
        match check_fixed(metadata, INDEXER_HEAD_KEY, INDEXER_HEAD) {
            Ok(_) => {},
            Err(e) => return Err(e),
        }
        match check_fixed(metadata, INDEXER_HEAD_DIM_KEY, INDEXER_HEAD_DIM) {
            Ok(_) => {},
            Err(e) => return Err(e),
        }
        match check_fixed(metadata, INDEXER_TOP_K_KEY, INDEXER_TOP_K) {
            Ok(_) => {},
            Err(e) => return Err(e),
        }
        match check_schedule(metadata, n_layer) {
            Ok(_) => {},
            Err(e) => return Err(e),
        }
        let own_dim: u32 = get_number_or(
            metadata,
            "deepseek4.attention.head_dim",
            n_embd / n_head,
        );
        let rope_theta: Bits32 = match metadata.get("deepseek4.rope.freq_base") {
            None => DEFAULT_ROPE_THETA,
            Some(v) => match v.to_f32() {
                Some(x) => x,
                None => DEFAULT_ROPE_THETA,
            },
        };
        Ok(
            ModelConfig {
                n_vocab,
                n_embd,
                n_head,
                n_kv_head,
                n_layer,
                n_ff,
                n_expert: get_number_or(metadata, "deepseek4.expert_count", 0),
                n_expert_used: get_number_or(metadata, "deepseek4.expert_used_count", 0),
                n_hc: get_number_or(metadata, "deepseek4.hyper_connection.count", 4),
                head_dim: get_number_or(metadata, "deepseek4.attention.key_length", own_dim),
                q_lora_rank,
                rope_theta,
                ctx_size: get_number_or(metadata, "deepseek4.context_length", 32768),
            },
        )
    }
}

/// Compression ratios that are given and accepted are those of the layers.
pub proof fn accepted_ratios_are_those_of_the_layers(m: Map<Seq<char>, ValueView>, il: int)
    requires
        config_error(m) is None,
        m.contains_key(COMPRESS_RATIOS_KEY@),
        0 <= il < config_of(m).n_layer,
    ensures
        m[COMPRESS_RATIOS_KEY@] is Array,
        il < m[COMPRESS_RATIOS_KEY@]->Array_0.len(),
        m[COMPRESS_RATIOS_KEY@]->Array_0[il].as_u32() == Some(compress_ratio(il as u32)),
{
    let a = m[COMPRESS_RATIOS_KEY@]->Array_0;
    let n = config_of(m).n_layer as nat;
    if ratios_error(a, (il + 1) as nat) is Some {
        ratios_error_stays(a, (il + 1) as nat, n);
    }
}

/// An accepted model has heads and a width between its query projections, and
/// where its indexer numbers are given they are the fixed ones.
pub proof fn accepted_numbers_are_sound(m: Map<Seq<char>, ValueView>)
    requires
        config_error(m) is None,
    ensures
        config_of(m).n_head > 0,
        config_of(m).q_lora_rank > 0,
        m.contains_key(INDEXER_HEAD_KEY@) ==> m[INDEXER_HEAD_KEY@].as_u32() == Some(INDEXER_HEAD),
        m.contains_key(INDEXER_HEAD_DIM_KEY@) ==> m[INDEXER_HEAD_DIM_KEY@].as_u32() == Some(
            INDEXER_HEAD_DIM,
        ),
        m.contains_key(INDEXER_TOP_K_KEY@) ==> m[INDEXER_TOP_K_KEY@].as_u32() == Some(
            INDEXER_TOP_K,
        ),
{
}

/// The first two layers are not compressed; after them layers with ratio 4 and
/// with ratio 128 alternate.
pub proof fn ratios_alternate(il: u32)
    requires
        il + 2 <= u32::MAX,
    ensures
        compress_ratio(0) == 0,
        compress_ratio(1) == 0,
        compress_ratio(2) == 4,
        compress_ratio(3) == 128,
        il >= 2 ==> compress_ratio((il + 2) as u32) == compress_ratio(il),
{
}

/// A configuration holds the numbers under their keys.
pub proof fn numbers_are_found_under_their_keys(m: Map<Seq<char>, ValueView>)
    requires
        config_error(m) is None,
    ensures
        ({
            let c = config_of(m);
            &&& m.contains_key("deepseek4.vocab_size"@) && m["deepseek4.vocab_size"@].as_u32()
                == Some(c.n_vocab)
            &&& m.contains_key("deepseek4.embedding_length"@)
                && m["deepseek4.embedding_length"@].as_u32() == Some(c.n_embd)
            &&& m.contains_key("deepseek4.attention.head_count"@)
                && m["deepseek4.attention.head_count"@].as_u32() == Some(c.n_head)
            &&& m.contains_key("deepseek4.attention.head_count_kv"@)
                && m["deepseek4.attention.head_count_kv"@].as_u32() == Some(c.n_kv_head)
            &&& m.contains_key("deepseek4.block_count"@) && m["deepseek4.block_count"@].as_u32()
                == Some(c.n_layer)
            &&& m.contains_key("deepseek4.expert_feed_forward_length"@)
                && m["deepseek4.expert_feed_forward_length"@].as_u32() == Some(c.n_ff)
            &&& m.contains_key("deepseek4.attention.q_lora_rank"@)
                && m["deepseek4.attention.q_lora_rank"@].as_u32() == Some(c.q_lora_rank)
        }),
{
}

/// A number that may be left out has a fixed value where it is: no experts, four
/// residual streams, heads that share the width evenly, rotary frequencies of base
/// 10000, a context of 32768 tokens. Where it is given it is taken; the length of a
/// key goes before the width of a head.
pub proof fn numbers_may_be_left_out(m: Map<Seq<char>, ValueView>, x: u32)
    requires
        config_error(m) is None,
    ensures
        ({
            let c = config_of(m);
            let v = ValueView::U32(x);
            &&& !m.contains_key("deepseek4.expert_count"@) ==> c.n_expert == 0
            &&& !m.contains_key("deepseek4.expert_used_count"@) ==> c.n_expert_used == 0
            &&& !m.contains_key("deepseek4.hyper_connection.count"@) ==> c.n_hc == 4
            &&& !m.contains_key("deepseek4.context_length"@) ==> c.ctx_size == 32768
            &&& !m.contains_key("deepseek4.rope.freq_base"@) ==> c.rope_theta == 0x461C_4000
            &&& !m.contains_key("deepseek4.attention.key_length"@) && !m.contains_key(
                "deepseek4.attention.head_dim"@,
            ) ==> c.head_dim == c.n_embd / c.n_head
            &&& m.contains_key("deepseek4.expert_count"@) && m["deepseek4.expert_count"@] == v
                ==> c.n_expert == x
            &&& m.contains_key("deepseek4.expert_used_count"@)
                && m["deepseek4.expert_used_count"@] == v ==> c.n_expert_used == x
            &&& m.contains_key("deepseek4.hyper_connection.count"@)
                && m["deepseek4.hyper_connection.count"@] == v ==> c.n_hc == x
            &&& m.contains_key("deepseek4.context_length"@) && m["deepseek4.context_length"@] == v
                ==> c.ctx_size == x
            &&& m.contains_key("deepseek4.rope.freq_base"@) && m["deepseek4.rope.freq_base"@]
                == ValueView::F32(x) ==> c.rope_theta == x
            &&& m.contains_key("deepseek4.attention.key_length"@)
                && m["deepseek4.attention.key_length"@] == v ==> c.head_dim == x
            &&& !m.contains_key("deepseek4.attention.key_length"@) && m.contains_key(
                "deepseek4.attention.head_dim"@,
            ) && m["deepseek4.attention.head_dim"@] == v ==> c.head_dim == x
        }),
{
}

/// Metadata with all numbers that must be there, heads and a width between the
/// query projections, and none of those that are fixed, give a configuration.
pub proof fn these_numbers_suffice(
    m: Map<Seq<char>, ValueView>,
    n_vocab: u32,
    n_embd: u32,
    n_head: u32,
    n_kv_head: u32,
    n_layer: u32,
    n_ff: u32,
    q_lora_rank: u32,
)
    requires
        m.contains_key("deepseek4.vocab_size"@),
        m.contains_key("deepseek4.embedding_length"@),
        m.contains_key("deepseek4.attention.head_count"@),
        m.contains_key("deepseek4.attention.head_count_kv"@),
        m.contains_key("deepseek4.block_count"@),
        m.contains_key("deepseek4.expert_feed_forward_length"@),
        m.contains_key("deepseek4.attention.q_lora_rank"@),
        m["deepseek4.vocab_size"@] == ValueView::U32(n_vocab),
        m["deepseek4.embedding_length"@] == ValueView::U32(n_embd),
        m["deepseek4.attention.head_count"@] == ValueView::U32(n_head),
        m["deepseek4.attention.head_count_kv"@] == ValueView::U32(n_kv_head),
        m["deepseek4.block_count"@] == ValueView::U32(n_layer),
        m["deepseek4.expert_feed_forward_length"@] == ValueView::U32(n_ff),
        m["deepseek4.attention.q_lora_rank"@] == ValueView::U32(q_lora_rank),
        n_head > 0,
        q_lora_rank > 0,
        !m.contains_key(INDEXER_HEAD_KEY@),
        !m.contains_key(INDEXER_HEAD_DIM_KEY@),
        !m.contains_key(INDEXER_TOP_K_KEY@),
        !m.contains_key(COMPRESS_RATIOS_KEY@),
    ensures
        config_error(m) is None,
{
}

/// Given ratios are refused exactly where one of the layers' differs, and then
/// because of the first such one.
pub proof fn the_first_wrong_ratio_is_reported(a: Seq<ValueView>, n: nat, i: int)
    requires
        n <= a.len(),
        n <= u32::MAX,
    ensures
        ratios_error(a, n) is None && 0 <= i < n ==> a[i].as_u32() == Some(
            compress_ratio(i as u32),
        ),
        ratios_error(a, n) matches Some(e) ==> match e {
            ConfigErrorView::Ratio { il, got, want } => {
                &&& 0 <= il < n
                &&& a[il].as_u32() == Some(got)
                &&& want == compress_ratio(il as u32)
                &&& got != want
                &&& 0 <= i < il ==> a[i].as_u32() == Some(compress_ratio(i as u32))
            },
            ConfigErrorView::RatioNotU32 { il, entry } => {
                &&& 0 <= il < n
                &&& a[il] == entry
                &&& entry.as_u32() is None
                &&& 0 <= i < il ==> a[i].as_u32() == Some(compress_ratio(i as u32))
            },
            _ => false,
        },
    decreases n,
{
    if n > 0 {
        the_first_wrong_ratio_is_reported(a, (n - 1) as nat, i);
    }
}

/// Where the indexer's numbers are given, only 64 heads of width 128 and 512 rows are
/// accepted.
pub proof fn other_indexers_are_refused(m: Map<Seq<char>, ValueView>, x: u32)
    requires
        config_error(m) is None,
    ensures
        m.contains_key("deepseek4.attention.indexer.head_count"@)
            && m["deepseek4.attention.indexer.head_count"@] == ValueView::U32(x) ==> x == 64,
        m.contains_key("deepseek4.attention.indexer.key_length"@)
            && m["deepseek4.attention.indexer.key_length"@] == ValueView::U32(x) ==> x == 128,
        m.contains_key("deepseek4.attention.indexer.top_k"@)
            && m["deepseek4.attention.indexer.top_k"@] == ValueView::U32(x) ==> x == 512,
{
}

/// A reported fault is one: a key that is missing is not there, a value that is no
/// 32-bit number is none, and one that is zero or differs does so.
pub proof fn reported_faults_are_there(m: Map<Seq<char>, ValueView>)
    ensures
        config_error(m) matches Some(e) ==> match e {
            ConfigErrorView::Missing(key) => !m.contains_key(key),
            ConfigErrorView::NotU32(key) => m.contains_key(key) && m[key].as_u32() is None,
            ConfigErrorView::Zero(key) => m.contains_key(key) && m[key].as_u32() == Some(0u32),
            ConfigErrorView::Fixed { key, got, want } => m.contains_key(key) && m[key].as_u32()
                == Some(got) && got != want,
            ConfigErrorView::RatiosNotArray(v) => m.contains_key(COMPRESS_RATIOS_KEY@)
                && m[COMPRESS_RATIOS_KEY@] == v && !(v is Array),
            ConfigErrorView::RatiosShort { len, n_layer } => m.contains_key(COMPRESS_RATIOS_KEY@)
                && m[COMPRESS_RATIOS_KEY@]->Array_0.len() == len && len < n_layer
                && m["deepseek4.block_count"@].as_u32() == Some(n_layer),
            ConfigErrorView::RatioNotU32 { il, entry } => m[COMPRESS_RATIOS_KEY@]->Array_0[il]
                == entry && entry.as_u32() is None,
            ConfigErrorView::Ratio { il, got, want } => m[COMPRESS_RATIOS_KEY@]->Array_0[il].as_u32(
            ) == Some(got) && got != want && want == compress_ratio(il as u32),
        },
{
    if config_error(m) is Some && m.contains_key(COMPRESS_RATIOS_KEY@)
        && m[COMPRESS_RATIOS_KEY@] is Array {
        let a = m[COMPRESS_RATIOS_KEY@]->Array_0;
        let n = number(m, "deepseek4.block_count"@);
        if n is Ok && n->Ok_0 <= a.len() {
            the_first_wrong_ratio_is_reported(a, n->Ok_0 as nat, 0);
        }
    }
}

/// The numbers are looked for in this order, and the first that is missing is
/// reported.
pub proof fn the_first_missing_number_is_reported(m: Map<Seq<char>, ValueView>)
    ensures
        ({
            let vocab = number(m, "deepseek4.vocab_size"@) is Ok;
            let embd = number(m, "deepseek4.embedding_length"@) is Ok;
            let head = number(m, "deepseek4.attention.head_count"@) matches Ok(n) && n > 0;
            let kv_head = number(m, "deepseek4.attention.head_count_kv"@) is Ok;
            let layer = number(m, "deepseek4.block_count"@) is Ok;
            let ff = number(m, "deepseek4.expert_feed_forward_length"@) is Ok;
            &&& !m.contains_key("deepseek4.vocab_size"@) ==> config_error(m) == Some(
                ConfigErrorView::Missing("deepseek4.vocab_size"@),
            )
            &&& vocab && !m.contains_key("deepseek4.embedding_length"@) ==> config_error(m) == Some(
                ConfigErrorView::Missing("deepseek4.embedding_length"@),
            )
            &&& vocab && embd && !m.contains_key("deepseek4.attention.head_count"@)
                ==> config_error(m) == Some(
                ConfigErrorView::Missing("deepseek4.attention.head_count"@),
            )
            &&& vocab && embd && head && !m.contains_key("deepseek4.attention.head_count_kv"@)
                ==> config_error(m) == Some(
                ConfigErrorView::Missing("deepseek4.attention.head_count_kv"@),
            )
            &&& vocab && embd && head && kv_head && !m.contains_key("deepseek4.block_count"@)
                ==> config_error(m) == Some(ConfigErrorView::Missing("deepseek4.block_count"@))
            &&& vocab && embd && head && kv_head && layer && !m.contains_key(
                "deepseek4.expert_feed_forward_length"@,
            ) ==> config_error(m) == Some(
                ConfigErrorView::Missing("deepseek4.expert_feed_forward_length"@),
            )
            &&& vocab && embd && head && kv_head && layer && ff && !m.contains_key(
                "deepseek4.attention.q_lora_rank"@,
            ) ==> config_error(m) == Some(
                ConfigErrorView::Missing("deepseek4.attention.q_lora_rank"@),
            )
        }),
{
}

/// The numbers of a message stand in this order: first what the file says.
pub proof fn messages_name_what_was_found(key: Seq<char>, a: u32, b: u32, il: nat)
    ensures
        (ConfigErrorView::Fixed { key, got: a, want: b }).text(Seq::empty()) == key
            + ": GGUF says "@ + text::decimal(a as nat) + ", expected "@ + text::decimal(b as nat),
        (ConfigErrorView::RatiosShort { len: il as int, n_layer: b }).text(Seq::empty())
            == COMPRESS_RATIOS_KEY@ + ": array length "@ + text::decimal(il) + " < n_layer "@
            + text::decimal(b as nat),
        (ConfigErrorView::Ratio { il: il as int, got: a, want: b }).text(Seq::empty())
            == COMPRESS_RATIOS_KEY@ + "["@ + text::decimal(il) + "]: GGUF says "@ + text::decimal(
            a as nat,
        ) + ", expected "@ + text::decimal(b as nat),
{
}

} // verus!
