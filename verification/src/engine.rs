//! What a model file must agree with before it is used.

use vstd::arithmetic::power2::*;
use vstd::prelude::*;

use crate::bits::Bits32;
use crate::config::ModelConfig;
use crate::float;
use crate::text;
use crate::text::{with_name, with_nums};

verus! {

/// 10000, the base of the rotary frequencies.
pub const ROPE_FREQ_BASE: Bits32 = 0x461C_4000;

/// 160000, the base of the rotary frequencies of compressed rows.
pub const ROPE_LONG_FREQ_BASE: Bits32 = 0x481C_4000;

/// Why a model, or a draft model beside it, cannot be used.
#[derive(Clone, Copy, Debug, PartialEq, Eq, Structural)]
pub enum EngineError {
    /// The file has another base of the rotary frequencies.
    RopeFreqBase(Bits32),
    /// The draft model has another width.
    MtpEmbd { main: u32, mtp: u32 },
    /// The draft model has another vocabulary.
    MtpVocab { main: u32, mtp: u32 },
}

impl EngineError {
    /// The words of the message; `found` is how the base that a file has is
    /// written.
    pub open spec fn text(self, found: Seq<char>) -> Seq<char> {
        match self {
            EngineError::RopeFreqBase(_) => "rope.freq_base mismatch: GGUF metadata says "@ + found
                + ", expected 10000"@,
            EngineError::MtpEmbd { main, mtp } => "MTP n_embd mismatch: main="@ + text::decimal(
                main as nat,
            ) + ", mtp="@ + text::decimal(mtp as nat) + ""@,
            EngineError::MtpVocab { main, mtp } => "MTP n_vocab mismatch: main="@ + text::decimal(
                main as nat,
            ) + ", mtp="@ + text::decimal(mtp as nat) + ""@,
        }
    }

    /// A message for people. `found` says how the base that the file has is
    /// written; the other messages do not name it.
    pub fn message(&self, found: &str) -> (s: String)
        ensures
            s@ == self.text(found@),
    {
        match self {
            EngineError::RopeFreqBase(_) => with_name(
                "rope.freq_base mismatch: GGUF metadata says ",
                found,
                ", expected 10000",
            ),
            EngineError::MtpEmbd { main, mtp } => with_nums(
                "MTP n_embd mismatch: main=",
                *main as u64,
                ", mtp=",
                *mtp as u64,
                "",
            ),
            EngineError::MtpVocab { main, mtp } => with_nums(
                "MTP n_vocab mismatch: main=",
                *main as u64,
                ", mtp=",
                *mtp as u64,
                "",
            ),
        }
    }
}

/// Holds the base of the rotary frequencies to the one that is built in.
pub fn check_rope(config: &ModelConfig) -> (r: Result<(), EngineError>)
    ensures
        match r {
            Ok(_) => config.rope_theta == ROPE_FREQ_BASE,
            Err(e) => config.rope_theta != ROPE_FREQ_BASE && e == EngineError::RopeFreqBase(
                config.rope_theta,
            ),
        },
{
    if config.rope_theta != ROPE_FREQ_BASE {
        Err(EngineError::RopeFreqBase(config.rope_theta))
    } else {
        Ok(())
    }
}

/// Holds the shape of a draft model to that of the main model.
pub fn check_mtp(main: &ModelConfig, mtp: &ModelConfig) -> (r: Result<(), EngineError>)
    ensures
        match r {
            Ok(_) => mtp.n_embd == main.n_embd && mtp.n_vocab == main.n_vocab,
            Err(e) => if mtp.n_embd != main.n_embd {
                e == (EngineError::MtpEmbd { main: main.n_embd, mtp: mtp.n_embd })
            } else {
                mtp.n_vocab != main.n_vocab && e == (EngineError::MtpVocab {
                    main: main.n_vocab,
                    mtp: mtp.n_vocab,
                })
            },
        },
{
    if mtp.n_embd != main.n_embd {
        return Err(EngineError::MtpEmbd { main: main.n_embd, mtp: mtp.n_embd });
    }
    if mtp.n_vocab != main.n_vocab {
        return Err(EngineError::MtpVocab { main: main.n_vocab, mtp: mtp.n_vocab });
    }
    Ok(())
}

/// The two bases are the patterns of 10000 and of 16 times as much.
pub proof fn bases_are_these_numbers()
    ensures
        float::magnitude32(ROPE_FREQ_BASE) == 10000 * pow2(149),
        float::magnitude32(ROPE_LONG_FREQ_BASE) == 16 * float::magnitude32(ROPE_FREQ_BASE),
{
    lemma2_to64();
    lemma_pow2_adds(139, 10);
    lemma_pow2_adds(143, 6);
    assert(0x9C_4000 * pow2(139) == 10000 * pow2(149)) by (nonlinear_arith)
        requires
            pow2(149) == pow2(139) * 1024,
            0x9C_4000 == 10000 * 1024,
    ;
    lemma_pow2_adds(139, 4);
    assert(0x9C_4000 * pow2(143) == 16 * (0x9C_4000 * pow2(139))) by (nonlinear_arith)
        requires
            pow2(143) == pow2(139) * 16,
    ;
}

/// The numbers of a message stand in this order: first those of the main model.
pub proof fn messages_name_both_models(a: u32, b: u32, found: Seq<char>)
    ensures
        (EngineError::MtpEmbd { main: a, mtp: b }).text(found) == "MTP n_embd mismatch: main="@
            + text::decimal(a as nat) + ", mtp="@ + text::decimal(b as nat) + ""@,
        (EngineError::MtpVocab { main: a, mtp: b }).text(found) == "MTP n_vocab mismatch: main="@
            + text::decimal(a as nat) + ", mtp="@ + text::decimal(b as nat) + ""@,
        EngineError::RopeFreqBase(a).text(found) == "rope.freq_base mismatch: GGUF metadata says "@
            + found + ", expected 10000"@,
{
}

} // verus!
