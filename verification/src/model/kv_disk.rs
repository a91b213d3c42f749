//! Sessions in files.
//!
//! A file has a header of 48 bytes, the length of a text and the text itself,
//! and the payload: 13 words about the shapes, the tokens, one word for each
//! score (left zero), the row counts of all compressors and of all indexers,
//! and the rows and windows of each layer. All numbers are little-endian.

use vstd::prelude::*;
use vstd::utf8::*;

use crate::bits;
use crate::bits::{Bits32, ZERO};
use crate::config;
use crate::config::{layer_compress_ratio, ModelConfig};
use crate::le;
use crate::le::{get_u32, get_u64, put_u32, put_u64};
use crate::model::kv_cache;
use crate::model::kv_cache::{
    CompressorState, IndexerState, KvCache, KvView, LaneView, HEAD_DIM, IDX_DIM, SWA,
};
use crate::model::weights;
use crate::session;
use crate::session::{common_prefix_len, Session, SessionError, SessionView};
use crate::text;
use crate::text::{and, and_num, lit};
use crate::utf8;
use crate::utf8::{from_utf8_lossy, utf8_split};

verus! {

/// "KVC".
pub const KVC_MAGIC: [u8; 3] = [0x4B, 0x56, 0x43];

/// Version of the file format.
pub const KVC_VERSION: u8 = 1;

/// "DSV4", read as a little-endian number.
pub const DSV4_MAGIC: u32 = 0x3456_5344;

/// Version of the payload.
pub const DSV4_VERSION: u32 = 1;

/// Most tokens that are read without their caches.
pub const MAX_TOKEN_COUNT: u32 = 1_000_000;

/// Why a session is saved.
#[derive(Clone, Copy, Debug, PartialEq, Eq, Structural)]
pub enum SaveReason {
    Cold,
    Continued,
    Evict,
    Shutdown,
    Manual,
}

impl SaveReason {
    /// The number of the reason in a file.
    pub open spec fn number(self) -> u8 {
        match self {
            SaveReason::Cold => 0,
            SaveReason::Continued => 1,
            SaveReason::Evict => 2,
            SaveReason::Shutdown => 3,
            SaveReason::Manual => 4,
        }
    }

    /// The number of the reason in a file.
    pub fn as_u8(&self) -> (n: u8)
        ensures
            n == self.number(),
    {
        match self {
            SaveReason::Cold => 0,
            SaveReason::Continued => 1,
            SaveReason::Evict => 2,
            SaveReason::Shutdown => 3,
            SaveReason::Manual => 4,
        }
    }
}

// ---------------------------------------------------------------------------
// Errors
// ---------------------------------------------------------------------------

/// Why a session could not be saved or loaded.
#[derive(Clone, Copy, Debug, PartialEq, Eq, Structural)]
pub enum KvcError {
    /// The file ends too early.
    Truncated,
    /// The file ends within a part that is skipped.
    SkipPastEnd { n: u64, got: u64 },
    /// The file does not start with the magic bytes.
    Magic { a: u8, b: u8, c: u8 },
    /// The version is not supported.
    Version(u8),
    /// The text is not UTF-8.
    NotUtf8,
    /// The payload does not start with the magic number.
    PayloadMagic(u32),
    /// The number of layers differs.
    Layers { file: u32, engine: u32 },
    /// The width of rows differs.
    HeadDim(u32),
    /// The width of indexer rows differs.
    IndexerDim(u32),
    /// The number of scores differs.
    Vocab { file: u32, engine: u32 },
    /// Header and payload disagree on the number of tokens.
    TokenCount { payload: u32, header: u32 },
    /// A ring has more rows than its capacity.
    RawLive { live: u32, cap: u32 },
    /// A ring has more rows than the context allows.
    RawRing { live: u32, cap: usize },
    /// No session can be built.
    Session(SessionError),
    /// There are more tokens than the context holds.
    TokenContext { count: u32, ctx_size: u32 },
    /// There are more tokens than the context holds or than are read.
    TokenLimit { count: u32, ctx_size: u32 },
    /// A token is not in the vocabulary.
    TokenId { token: u32, vocab: u32 },
    /// A compressor has more rows than it may emit.
    CompCap { n: u32, cap: usize, il: usize },
    /// An indexer has more rows than it may emit.
    IdxCap { n: u32, cap: usize, il: usize },
    /// The bytes of the payload cannot be counted.
    SizeOverflow,
}

impl KvcError {
    /// The words of the message.
    pub open spec fn text(self) -> Seq<char> {
        match self {
            KvcError::Truncated => "failed to fill whole buffer"@,
            KvcError::SkipPastEnd { n, got } => "KVC: unexpected EOF while skipping "@
                + text::decimal(n as nat) + " bytes (got "@ + text::decimal(got as nat) + ")"@,
            KvcError::Magic { a, b, c } => "KVC: bad magic: ["@ + text::decimal(a as nat) + ", "@
                + text::decimal(b as nat) + ", "@ + text::decimal(c as nat) + "]"@,
            KvcError::Version(v) => "KVC: unsupported version "@ + text::decimal(v as nat),
            KvcError::NotUtf8 => "KVC: rendered text is not valid UTF-8"@,
            KvcError::PayloadMagic(m) => "KVC/DSV4: bad magic: 0x"@ + text::upper_hex(m as nat, 8),
            KvcError::Layers { file, engine } => "DSV4: layer_count mismatch: file="@
                + text::decimal(file as nat) + ", engine="@ + text::decimal(engine as nat),
            KvcError::HeadDim(file) => "DSV4: head_dim mismatch: file="@ + text::decimal(
                file as nat,
            ) + ", engine=512"@,
            KvcError::IndexerDim(file) => "DSV4: indexer_head_dim mismatch: file="@
                + text::decimal(file as nat) + ", engine=128"@,
            KvcError::Vocab { file, engine } => "DSV4: vocab_size mismatch: file="@
                + text::decimal(file as nat) + ", engine="@ + text::decimal(engine as nat),
            KvcError::TokenCount { payload, header } => "DSV4: token_count mismatch: payload="@
                + text::decimal(payload as nat) + ", header="@ + text::decimal(header as nat),
            KvcError::RawLive { live, cap } => "DSV4: raw_live ("@ + text::decimal(live as nat)
                + ") > raw_cap ("@ + text::decimal(cap as nat) + ")"@,
            KvcError::RawRing { live, cap } => "DSV4: raw_live ("@ + text::decimal(live as nat)
                + ") > expected cap_raw ("@ + text::decimal(cap as nat) + ")"@,
            KvcError::Session(e) => e.text(),
            KvcError::TokenContext { count, ctx_size } => "DSV4: token_count "@ + text::decimal(
                count as nat,
            ) + " exceeds context_size "@ + text::decimal(ctx_size as nat),
            KvcError::TokenLimit { count, ctx_size } => "KVC: token_count "@ + text::decimal(
                count as nat,
            ) + " exceeds context_size "@ + text::decimal(ctx_size as nat)
                + " or hard limit 1000000"@,
            KvcError::TokenId { token, vocab } => "DSV4: token ID "@ + text::decimal(token as nat)
                + " >= vocab_size "@ + text::decimal(vocab as nat),
            KvcError::CompCap { n, cap, il } => "DSV4: n_comp "@ + text::decimal(n as nat)
                + " exceeds capacity "@ + text::decimal(cap as nat) + " at layer "@
                + text::decimal(il as nat),
            KvcError::IdxCap { n, cap, il } => "DSV4: n_idx "@ + text::decimal(n as nat)
                + " exceeds capacity "@ + text::decimal(cap as nat) + " at layer "@
                + text::decimal(il as nat),
            KvcError::SizeOverflow => "compute_payload_size: overflow"@,
        }
    }

    /// A message for people.
    pub fn message(&self) -> (s: String)
        ensures
            s@ == self.text(),
    {
        match *self {
            KvcError::Truncated => lit("failed to fill whole buffer"),
            KvcError::SkipPastEnd { n, got } => and(
                two_nums("KVC: unexpected EOF while skipping ", n, " bytes (got ", got),
                ")",
            ),
            KvcError::Magic { a, b, c } => and(
                and_num(
                    and(two_nums("KVC: bad magic: [", a as u64, ", ", b as u64), ", "),
                    c as u64,
                ),
                "]",
            ),
            KvcError::Version(v) => and_num(lit("KVC: unsupported version "), v as u64),
            KvcError::NotUtf8 => lit("KVC: rendered text is not valid UTF-8"),
            KvcError::PayloadMagic(m) => text::with_upper_hex("KVC/DSV4: bad magic: 0x", m),
            KvcError::Layers { file, engine } => two_nums(
                "DSV4: layer_count mismatch: file=",
                file as u64,
                ", engine=",
                engine as u64,
            ),
            KvcError::HeadDim(file) => and(
                and_num(lit("DSV4: head_dim mismatch: file="), file as u64),
                ", engine=512",
            ),
            KvcError::IndexerDim(file) => and(
                and_num(lit("DSV4: indexer_head_dim mismatch: file="), file as u64),
                ", engine=128",
            ),
            KvcError::Vocab { file, engine } => two_nums(
                "DSV4: vocab_size mismatch: file=",
                file as u64,
                ", engine=",
                engine as u64,
            ),
            KvcError::TokenCount { payload, header } => two_nums(
                "DSV4: token_count mismatch: payload=",
                payload as u64,
                ", header=",
                header as u64,
            ),
            KvcError::RawLive { live, cap } => and(
                two_nums("DSV4: raw_live (", live as u64, ") > raw_cap (", cap as u64),
                ")",
            ),
            KvcError::RawRing { live, cap } => and(
                two_nums("DSV4: raw_live (", live as u64, ") > expected cap_raw (", cap as u64),
                ")",
            ),
            KvcError::Session(e) => e.message(),
            KvcError::TokenContext { count, ctx_size } => two_nums(
                "DSV4: token_count ",
                count as u64,
                " exceeds context_size ",
                ctx_size as u64,
            ),
            KvcError::TokenLimit { count, ctx_size } => and(
                two_nums(
                    "KVC: token_count ",
                    count as u64,
                    " exceeds context_size ",
                    ctx_size as u64,
                ),
                " or hard limit 1000000",
            ),
            KvcError::TokenId { token, vocab } => two_nums(
                "DSV4: token ID ",
                token as u64,
                " >= vocab_size ",
                vocab as u64,
            ),
            KvcError::CompCap { n, cap, il } => and_num(
                and(
                    two_nums("DSV4: n_comp ", n as u64, " exceeds capacity ", cap as u64),
                    " at layer ",
                ),
                il as u64,
            ),
            KvcError::IdxCap { n, cap, il } => and_num(
                and(
                    two_nums("DSV4: n_idx ", n as u64, " exceeds capacity ", cap as u64),
                    " at layer ",
                ),
                il as u64,
            ),
            KvcError::SizeOverflow => lit("compute_payload_size: overflow"),
        }
    }
}

fn two_nums(a: &str, n: u64, b: &str, m: u64) -> (s: String)
    ensures
        s@ == a@ + text::decimal(n as nat) + b@ + text::decimal(m as nat),
{
    and_num(and(and_num(lit(a), n), b), m)
}

// ---------------------------------------------------------------------------
// Header
// ---------------------------------------------------------------------------

/// The first 48 bytes of a file.
#[derive(Clone, Copy, Debug, PartialEq, Eq)]
pub struct KvcHeader {
    pub magic: [u8; 3],
    pub version: u8,
    pub routed_quant_bits: u8,
    pub save_reason: u8,
    pub reserved: [u8; 2],
    pub cached_token_count: u32,
    pub hit_count: u32,
    pub context_size: u32,
    pub reserved2: [u8; 4],
    pub creation_time: u64,
    pub last_used_time: u64,
    pub payload_bytes: u64,
}

/// The bytes of a header.
pub open spec fn header_bytes(h: KvcHeader) -> Seq<u8> {
    h.magic@ + seq![h.version, h.routed_quant_bits, h.save_reason] + h.reserved@ + le::bytes32(
        h.cached_token_count,
    ) + le::bytes32(h.hit_count) + le::bytes32(h.context_size) + h.reserved2@ + le::bytes64(
        h.creation_time,
    ) + le::bytes64(h.last_used_time) + le::bytes64(h.payload_bytes)
}

/// The bytes from the start of `b` on are those of the header `h`.
pub open spec fn starts_with_header(b: Seq<u8>, h: KvcHeader) -> bool {
    &&& b.len() >= 48
    &&& h.magic@ == b.subrange(0, 3)
    &&& h.version == b[3]
    &&& h.routed_quant_bits == b[4]
    &&& h.save_reason == b[5]
    &&& h.reserved@ == b.subrange(6, 8)
    &&& h.cached_token_count == le::le32(b, 8)
    &&& h.hit_count == le::le32(b, 12)
    &&& h.context_size == le::le32(b, 16)
    &&& h.reserved2@ == b.subrange(20, 24)
    &&& h.creation_time == le::le64(b, 24)
    &&& h.last_used_time == le::le64(b, 32)
    &&& h.payload_bytes == le::le64(b, 40)
}

/// Appends the bytes of a header.
pub fn write_header(out: &mut Vec<u8>, h: &KvcHeader)
    ensures
        final(out)@ == old(out)@ + header_bytes(*h),
{
    out.push(h.magic[0]);
    out.push(h.magic[1]);
    out.push(h.magic[2]);
    out.push(h.version);
    out.push(h.routed_quant_bits);
    out.push(h.save_reason);
    out.push(h.reserved[0]);
    out.push(h.reserved[1]);
    put_u32(out, h.cached_token_count);
    put_u32(out, h.hit_count);
    put_u32(out, h.context_size);
    out.push(h.reserved2[0]);
    out.push(h.reserved2[1]);
    out.push(h.reserved2[2]);
    out.push(h.reserved2[3]);
    put_u64(out, h.creation_time);
    put_u64(out, h.last_used_time);
    put_u64(out, h.payload_bytes);
    assert(out@ =~= old(out)@ + header_bytes(*h));
}

/// Reads a header.
pub fn read_header(b: &[u8]) -> (r: Result<KvcHeader, KvcError>)
    ensures
        match r {
            Ok(h) => starts_with_header(b@, h),
            Err(e) => b@.len() < 48 && e == KvcError::Truncated,
        },
{
    if b.len() < 48 {
        return Err(KvcError::Truncated);
    }
    let h = KvcHeader {
        magic: [b[0], b[1], b[2]],
        version: b[3],
        routed_quant_bits: b[4],
        save_reason: b[5],
        reserved: [b[6], b[7]],
        cached_token_count: get_u32(b, 8),
        hit_count: get_u32(b, 12),
        context_size: get_u32(b, 16),
        reserved2: [b[20], b[21], b[22], b[23]],
        creation_time: get_u64(b, 24),
        last_used_time: get_u64(b, 32),
        payload_bytes: get_u64(b, 40),
    };
    assert(h.magic@ =~= b@.subrange(0, 3));
    assert(h.reserved@ =~= b@.subrange(6, 8));
    assert(h.reserved2@ =~= b@.subrange(20, 24));
    Ok(h)
}

/// A header has 48 bytes, and reading them gives it back.
pub proof fn header_reads_back(h: KvcHeader, rest: Seq<u8>)
    ensures
        header_bytes(h).len() == 48,
        starts_with_header(header_bytes(h) + rest, h),
{
    let b = header_bytes(h) + rest;
    assert(b.subrange(0, 3) =~= h.magic@);
    assert(b.subrange(6, 8) =~= h.reserved@);
    assert(b.subrange(20, 24) =~= h.reserved2@);
    le32_of_part(b, 8, h.cached_token_count);
    le32_of_part(b, 12, h.hit_count);
    le32_of_part(b, 16, h.context_size);
    le64_of_part(b, 24, h.creation_time);
    le64_of_part(b, 32, h.last_used_time);
    le64_of_part(b, 40, h.payload_bytes);
}

/// Writing a header that was read gives its bytes back.
pub proof fn header_writes_back(b: Seq<u8>, h: KvcHeader)
    requires
        starts_with_header(b, h),
    ensures
        header_bytes(h) == b.take(48),
{
    le::bytes32_of_le32(b, 8);
    le::bytes32_of_le32(b, 12);
    le::bytes32_of_le32(b, 16);
    le::bytes64_of_le64(b, 24);
    le::bytes64_of_le64(b, 32);
    le::bytes64_of_le64(b, 40);
    assert(header_bytes(h) =~= b.take(48));
}

proof fn le32_of_part(b: Seq<u8>, i: int, x: u32)
    requires
        0 <= i,
        i + 4 <= b.len(),
        forall|j: int| 0 <= j < 4 ==> b[i + j] == #[trigger] le::bytes32(x)[j],
    ensures
        le::le32(b, i) == x,
{
    le::le32_reads_bytes32(x);
    assert(b[i + 0] == le::bytes32(x)[0]);
    assert(b[i + 1] == le::bytes32(x)[1]);
    assert(b[i + 2] == le::bytes32(x)[2]);
    assert(b[i + 3] == le::bytes32(x)[3]);
}

proof fn le64_of_part(b: Seq<u8>, i: int, x: u64)
    requires
        0 <= i,
        i + 8 <= b.len(),
        forall|j: int| 0 <= j < 8 ==> b[i + j] == #[trigger] le::bytes64(x)[j],
    ensures
        le::le64(b, i) == x,
{
    le::le64_reads_bytes64(x);
    assert forall|j: int| 0 <= j < 8 implies b[i + j] == #[trigger] le::bytes64(x)[j] by {}
    assert(b[i + 0] == le::bytes64(x)[0]);
    assert(b[i + 1] == le::bytes64(x)[1]);
    assert(b[i + 2] == le::bytes64(x)[2]);
    assert(b[i + 3] == le::bytes64(x)[3]);
    assert(b[i + 4] == le::bytes64(x)[4]);
    assert(b[i + 5] == le::bytes64(x)[5]);
    assert(b[i + 6] == le::bytes64(x)[6]);
    assert(b[i + 7] == le::bytes64(x)[7]);
}

// ---------------------------------------------------------------------------
// Words
// ---------------------------------------------------------------------------

/// The bytes of `words`, one after the other.
pub open spec fn word_bytes(words: Seq<u32>) -> Seq<u8>
    decreases words.len(),
{
    if words.len() == 0 {
        Seq::empty()
    } else {
        word_bytes(words.drop_last()) + le::bytes32(words.last())
    }
}

proof fn word_bytes_at(words: Seq<u32>, i: int)
    requires
        0 <= i < words.len(),
    ensures
        word_bytes(words).len() == 4 * words.len(),
        le::le32(word_bytes(words), 4 * i) == words[i],
    decreases words.len(),
{
    let head = words.drop_last();
    word_bytes_len(head);
    if i == words.len() - 1 {
        le32_of_part(word_bytes(words), 4 * i, words[i]);
    } else {
        word_bytes_at(head, i);
        assert(head[i] == words[i]);
    }
}

proof fn word_bytes_len(words: Seq<u32>)
    ensures
        word_bytes(words).len() == 4 * words.len(),
    decreases words.len(),
{
    if words.len() > 0 {
        word_bytes_len(words.drop_last());
    }
}

/// Reading the bytes of words gives the words back.
pub proof fn words_read_back(words: Seq<u32>)
    ensures
        word_bytes(words).len() == 4 * words.len(),
        weights::words(word_bytes(words)) == words,
{
    word_bytes_len(words);
    let read = weights::words(word_bytes(words));
    assert forall|i: int| 0 <= i < words.len() implies read[i] == words[i] by {
        word_bytes_at(words, i);
    }
    assert(read =~= words);
}

fn push_words(out: &mut Vec<u8>, words: &[u32])
    ensures
        final(out)@ == old(out)@ + word_bytes(words@),
{
    let mut i: usize = 0;
    assert(words@.take(0) =~= Seq::empty());
    assert(out@ =~= old(out)@ + word_bytes(words@.take(0)));
    while i < words.len()
        invariant
            i <= words.len(),
            out@ == old(out)@ + word_bytes(words@.take(i as int)),
        decreases words.len() - i,
    {
        put_u32(out, words[i]);
        assert(words@.take(i + 1).drop_last() =~= words@.take(i as int));
        assert(out@ =~= old(out)@ + word_bytes(words@.take(i + 1)));
        i += 1;
    }
    assert(words@.take(i as int) =~= words@);
}

// ---------------------------------------------------------------------------
// Payload
// ---------------------------------------------------------------------------

/// The rows of a compressor or an indexer, its state and its scores.
pub open spec fn lane_words(l: Option<LaneView>) -> Seq<u32> {
    match l {
        Some(x) => x.rows + x.kv + x.score,
        None => Seq::empty(),
    }
}

/// How many rows of width `dim` a compressor or an indexer has emitted.
pub open spec fn lane_count(l: Option<LaneView>, dim: int) -> u32 {
    match l {
        Some(x) => (x.rows.len() as int / dim) as u32,
        None => 0,
    }
}

/// What layer `il` holds.
pub open spec fn layer_words(v: KvView, il: int) -> Seq<u32> {
    v.raw[il] + lane_words(v.comp[il]) + lane_words(v.idx[il])
}

/// What the first `n` layers hold.
pub open spec fn layers_words(v: KvView, n: nat) -> Seq<u32>
    decreases n,
{
    if n == 0 {
        Seq::empty()
    } else {
        layers_words(v, (n - 1) as nat) + layer_words(v, n - 1)
    }
}

/// The 13 words about the shapes.
pub open spec fn shape_words(v: KvView, n_tokens: nat, n_vocab: u32) -> Seq<u32> {
    seq![
        DSV4_MAGIC,
        DSV4_VERSION,
        v.cap_raw as u32,
        0u32,
        v.cap_raw as u32,
        128u32,
        0u32,
        n_tokens as u32,
        v.raw.len() as u32,
        512u32,
        128u32,
        n_vocab,
        (v.raw[0].len() as int / 512) as u32,
    ]
}

/// The row counts of all compressors.
pub open spec fn comp_counts(v: KvView) -> Seq<u32> {
    Seq::new(v.comp.len(), |il: int| lane_count(v.comp[il], 512))
}

/// The row counts of all indexers.
pub open spec fn idx_counts(v: KvView) -> Seq<u32> {
    Seq::new(v.idx.len(), |il: int| lane_count(v.idx[il], 128))
}

/// The words of a payload.
pub open spec fn payload_words(v: KvView, tokens: Seq<u32>, n_vocab: u32) -> Seq<u32> {
    shape_words(v, tokens.len(), n_vocab) + tokens + bits::splat(ZERO, n_vocab as nat)
        + comp_counts(v) + idx_counts(v) + layers_words(v, v.raw.len())
}

/// All rings hold as many rows.
pub open spec fn even_rings(v: KvView) -> bool {
    forall|il: int| 0 <= il < v.raw.len() ==> (#[trigger] v.raw[il]).len() == v.raw[0].len()
}

/// Appends all words of `src`.
fn push_all(out: &mut Vec<u32>, src: &[u32])
    ensures
        final(out)@ == old(out)@ + src@,
{
    out.extend_from_slice(src);
    assert(out@ =~= old(out)@ + src@);
}

fn push_layer(out: &mut Vec<u32>, kv: &KvCache, il: usize)
    requires
        kv.wf(),
        il < kv@.raw.len(),
    ensures
        final(out)@ == old(out)@ + layer_words(kv@, il as int),
{
    proof {
        kv.wf_valid();
    }
    push_all(out, kv.layer(il).rows());
    let ghost a = out@;
    match kv.compressor(il) {
        Some(c) => {
            push_all(out, c.comp_rows());
            push_all(out, c.state_kv.as_slice());
            push_all(out, c.state_score.as_slice());
            assert(out@ =~= a + lane_words(kv@.comp[il as int]));
        },
        None => {
            assert(out@ =~= a + lane_words(kv@.comp[il as int]));
        },
    }
    let ghost b = out@;
    match kv.indexer(il) {
        Some(c) => {
            push_all(out, c.comp_rows());
            push_all(out, c.state_kv.as_slice());
            push_all(out, c.state_score.as_slice());
            assert(out@ =~= b + lane_words(kv@.idx[il as int]));
        },
        None => {
            assert(out@ =~= b + lane_words(kv@.idx[il as int]));
        },
    }
    assert(out@ =~= old(out)@ + layer_words(kv@, il as int));
}

/// The words of a payload.
pub fn write_dsv4_payload(kv: &KvCache, tokens: &[u32], n_vocab: u32) -> (out: Vec<u32>)
    requires
        kv.wf(),
        kv@.raw.len() > 0,
        even_rings(kv@),
    ensures
        out@ == payload_words(kv@, tokens@, n_vocab),
{
    let n_layer: usize = kv.n_layer();
    let cap: usize = kv.cap_raw();
    proof {
        kv.wf_valid();
    }
    let live: usize = kv.layer(0).n_raw();
    let mut out: Vec<u32> = Vec::new();
    out.push(DSV4_MAGIC);
    out.push(DSV4_VERSION);
    out.push(cap as u32);
    out.push(0);
    out.push(cap as u32);
    out.push(SWA as u32);
    out.push(0);
    out.push(tokens.len() as u32);
    out.push(n_layer as u32);
    out.push(HEAD_DIM as u32);
    out.push(IDX_DIM as u32);
    out.push(n_vocab);
    out.push(live as u32);
    assert(out@ =~= shape_words(kv@, tokens@.len(), n_vocab));
    push_all(&mut out, tokens);
    let ghost head = out@;
    let mut i: u32 = 0;
    assert(bits::splat(ZERO, 0) =~= Seq::empty());
    while i < n_vocab
        invariant
            i <= n_vocab,
            out@ == head + bits::splat(ZERO, i as nat),
        decreases n_vocab - i,
    {
        out.push(ZERO);
        i += 1;
        assert(out@ =~= head + bits::splat(ZERO, i as nat));
    }
    let ghost head = out@;
    let mut il: usize = 0;
    assert(comp_counts(kv@).take(0) =~= Seq::empty());
    while il < n_layer
        invariant
            il <= n_layer,
            n_layer == kv@.raw.len(),
            kv.wf(),
            kv_cache::valid(kv@),
            out@ == head + comp_counts(kv@).take(il as int),
        decreases n_layer - il,
    {
        let n: u32 = match kv.compressor(il) {
            Some(c) => c.n_comp as u32,
            None => 0,
        };
        out.push(n);
        assert(n == comp_counts(kv@)[il as int]);
        assert(comp_counts(kv@).take(il + 1) =~= comp_counts(kv@).take(il as int).push(n));
        il += 1;
        assert(out@ =~= head + comp_counts(kv@).take(il as int));
    }
    assert(comp_counts(kv@).take(il as int) =~= comp_counts(kv@));
    let ghost head = out@;
    let mut il: usize = 0;
    assert(idx_counts(kv@).take(0) =~= Seq::empty());
    while il < n_layer
        invariant
            il <= n_layer,
            n_layer == kv@.raw.len(),
            kv.wf(),
            kv_cache::valid(kv@),
            out@ == head + idx_counts(kv@).take(il as int),
        decreases n_layer - il,
    {
        let n: u32 = match kv.indexer(il) {
            Some(c) => c.n_comp as u32,
            None => 0,
        };
        out.push(n);
        assert(n == idx_counts(kv@)[il as int]);
        assert(idx_counts(kv@).take(il + 1) =~= idx_counts(kv@).take(il as int).push(n));
        il += 1;
        assert(out@ =~= head + idx_counts(kv@).take(il as int));
    }
    assert(idx_counts(kv@).take(il as int) =~= idx_counts(kv@));
    let ghost head = out@;
    let mut il: usize = 0;
    while il < n_layer
        invariant
            il <= n_layer,
            n_layer == kv@.raw.len(),
            kv.wf(),
            out@ == head + layers_words(kv@, il as nat),
        decreases n_layer - il,
    {
        push_layer(&mut out, kv, il);
        il += 1;
        assert(out@ =~= head + layers_words(kv@, il as nat));
    }
    out
}

proof fn layers_words_grow(v: KvView, k: nat, n: nat)
    requires
        k <= n,
    ensures
        layers_words(v, k).len() <= layers_words(v, n).len(),
    decreases n,
{
    if k < n {
        layers_words_grow(v, k, (n - 1) as nat);
    }
}

/// `total` and the bytes of `n` words more, if they can be counted.
fn plus_words(total: usize, n: usize) -> (r: Option<usize>)
    ensures
        match r {
            Some(t) => t == total + 4 * n,
            None => total + 4 * n > usize::MAX,
        },
{
    match n.checked_mul(4) {
        Some(b) => total.checked_add(b),
        None => None,
    }
}

/// `total` and the bytes of layer `il` more, if they can be counted.
fn plus_layer(total: usize, kv: &KvCache, il: usize) -> (r: Option<usize>)
    requires
        kv.wf(),
        il < kv@.raw.len(),
    ensures
        match r {
            Some(t) => t == total + 4 * layer_words(kv@, il as int).len(),
            None => total + 4 * layer_words(kv@, il as int).len() > usize::MAX,
        },
{
    let total: usize = match plus_words(total, kv.layer(il).rows().len()) {
        Some(t) => t,
        None => return None,
    };
    let total: usize = match kv.compressor(il) {
        None => total,
        Some(c) => {
            let t: usize = match plus_words(total, c.comp_rows().len()) {
                Some(t) => t,
                None => return None,
            };
            let t: usize = match plus_words(t, c.state_kv.len()) {
                Some(t) => t,
                None => return None,
            };
            match plus_words(t, c.state_score.len()) {
                Some(t) => t,
                None => return None,
            }
        },
    };
    match kv.indexer(il) {
        None => Some(total),
        Some(c) => {
            let t: usize = match plus_words(total, c.comp_rows().len()) {
                Some(t) => t,
                None => return None,
            };
            let t: usize = match plus_words(t, c.state_kv.len()) {
                Some(t) => t,
                None => return None,
            };
            plus_words(t, c.state_score.len())
        },
    }
}

/// The bytes of a payload, if they can be counted.
pub fn compute_payload_size(kv: &KvCache, tokens: &[u32], n_vocab: u32) -> (r: Result<
    usize,
    KvcError,
>)
    requires
        kv.wf(),
    ensures
        match r {
            Ok(n) => n == word_bytes(payload_words(kv@, tokens@, n_vocab)).len(),
            Err(e) => word_bytes(payload_words(kv@, tokens@, n_vocab)).len() > usize::MAX && e
                == KvcError::SizeOverflow,
        },
{
    let n_layer: usize = kv.n_layer();
    proof {
        word_bytes_len(payload_words(kv@, tokens@, n_vocab));
        kv.wf_valid();
    }
    let total: usize = match plus_words(52, tokens.len()) {
        Some(t) => t,
        None => return Err(KvcError::SizeOverflow),
    };
    let total: usize = match plus_words(total, n_vocab as usize) {
        Some(t) => t,
        None => return Err(KvcError::SizeOverflow),
    };
    let total: usize = match plus_words(total, n_layer) {
        Some(t) => t,
        None => return Err(KvcError::SizeOverflow),
    };
    let fixed: usize = match plus_words(total, n_layer) {
        Some(t) => t,
        None => return Err(KvcError::SizeOverflow),
    };
    let mut total: usize = fixed;
    let mut il: usize = 0;
    while il < n_layer
        invariant
            il <= n_layer,
            n_layer == kv@.raw.len(),
            kv.wf(),
            total == fixed + 4 * layers_words(kv@, il as nat).len(),
            word_bytes(payload_words(kv@, tokens@, n_vocab)).len() == fixed + 4 * layers_words(
                kv@,
                n_layer as nat,
            ).len(),
        decreases n_layer - il,
    {
        proof {
            layers_words_grow(kv@, (il + 1) as nat, n_layer as nat);
        }
        total = match plus_layer(total, kv, il) {
            Some(t) => t,
            None => return Err(KvcError::SizeOverflow),
        };
        il += 1;
    }
    Ok(total)
}

// ---------------------------------------------------------------------------
// Saving
// ---------------------------------------------------------------------------

/// The header of a saved session.
pub open spec fn saved_header(v: SessionView, n_vocab: u32, reason: SaveReason, now: u64) -> KvcHeader {
    KvcHeader {
        magic: KVC_MAGIC,
        version: KVC_VERSION,
        routed_quant_bits: 2,
        save_reason: reason.number(),
        reserved: [0u8, 0u8],
        cached_token_count: v.tokens.len() as u32,
        hit_count: 0,
        context_size: v.ctx_size,
        reserved2: [0u8, 0u8, 0u8, 0u8],
        creation_time: now,
        last_used_time: now,
        payload_bytes: (4 * payload_words(v.kv, v.tokens, n_vocab).len()) as u64,
    }
}

/// The file of a session.
pub open spec fn saved(
    v: SessionView,
    n_vocab: u32,
    rendered: Seq<u8>,
    reason: SaveReason,
    now: u64,
) -> Seq<u8> {
    header_bytes(saved_header(v, n_vocab, reason, now)) + le::bytes32(rendered.len() as u32)
        + rendered + word_bytes(payload_words(v.kv, v.tokens, n_vocab))
}

/// The bytes of a file that holds the session and the text of its tokens.
///
/// The length of the text is stored in 32 bits: of a longer text the file
/// states less than it holds.
pub fn save_session(
    session: &Session,
    n_vocab: u32,
    rendered: &[u8],
    reason: SaveReason,
    now: u64,
) -> (r: Result<Vec<u8>, KvcError>)
    requires
        session.wf(),
        session@.kv.raw.len() > 0,
        even_rings(session@.kv),
    ensures
        match r {
            Ok(b) => b@ == saved(session@, n_vocab, rendered@, reason, now),
            Err(e) => word_bytes(payload_words(session@.kv, session@.tokens, n_vocab)).len()
                > usize::MAX && e == KvcError::SizeOverflow,
        },
{
    let kv: &KvCache = session.kv_cache();
    let tokens: &[u32] = session.tokens();
    let size: usize = match compute_payload_size(kv, tokens, n_vocab) {
        Ok(n) => n,
        Err(e) => return Err(e),
    };
    let mut out: Vec<u8> = Vec::new();
    let h = KvcHeader {
        magic: KVC_MAGIC,
        version: KVC_VERSION,
        routed_quant_bits: 2,
        save_reason: reason.as_u8(),
        reserved: [0, 0],
        cached_token_count: tokens.len() as u32,
        hit_count: 0,
        context_size: session.ctx_size(),
        reserved2: [0, 0, 0, 0],
        creation_time: now,
        last_used_time: now,
        payload_bytes: size as u64,
    };
    write_header(&mut out, &h);
    put_u32(&mut out, rendered.len() as u32);
    let ghost head = out@;
    out.extend_from_slice(rendered);
    assert(out@ =~= head + rendered@);
    let payload: Vec<u32> = write_dsv4_payload(kv, tokens, n_vocab);
    push_words(&mut out, payload.as_slice());
    proof {
        word_bytes_len(payload@);
        let g = saved_header(session@, n_vocab, reason, now);
        assert(header_bytes(h) =~= header_bytes(g));
        assert(out@ =~= saved(session@, n_vocab, rendered@, reason, now));
    }
    Ok(out)
}

// ---------------------------------------------------------------------------
// What a file says
// ---------------------------------------------------------------------------

/// What is wrong with the header of a file.
pub open spec fn head_fault(b: Seq<u8>) -> Option<KvcError> {
    if b.len() < 48 {
        Some(KvcError::Truncated)
    } else if b.subrange(0, 3) != KVC_MAGIC@ {
        Some(KvcError::Magic { a: b[0], b: b[1], c: b[2] })
    } else if b[3] != KVC_VERSION {
        Some(KvcError::Version(b[3]))
    } else {
        None
    }
}

/// The number of tokens that a header states.
pub open spec fn header_count(b: Seq<u8>) -> u32 {
    le::le32(b, 8) as u32
}

/// The context size that a header states.
pub open spec fn header_ctx(b: Seq<u8>) -> u32 {
    le::le32(b, 16) as u32
}

/// The bytes of the text.
pub open spec fn text_len(b: Seq<u8>) -> int {
    le::le32(b, 48)
}

/// What is wrong with the text of a file.
pub open spec fn text_fault(b: Seq<u8>) -> Option<KvcError> {
    if b.len() < 52 || b.len() < 52 + text_len(b) {
        Some(KvcError::Truncated)
    } else if !valid_utf8(b.subrange(52, 52 + text_len(b))) {
        Some(KvcError::NotUtf8)
    } else {
        None
    }
}

/// The payload of a file.
pub open spec fn payload_of(b: Seq<u8>) -> Seq<u8> {
    b.skip(52 + text_len(b))
}

/// What is wrong with the words about the shapes, for a model and a header that
/// states `count` tokens.
pub open spec fn shape_fault(w: Seq<u32>, c: ModelConfig, count: u32) -> Option<KvcError> {
    if w.len() < 1 {
        Some(KvcError::Truncated)
    } else if w[0] != DSV4_MAGIC {
        Some(KvcError::PayloadMagic(w[0]))
    } else if w.len() < 13 {
        Some(KvcError::Truncated)
    } else if w[8] != c.n_layer {
        Some(KvcError::Layers { file: w[8], engine: c.n_layer })
    } else if w[9] != 512 {
        Some(KvcError::HeadDim(w[9]))
    } else if w[10] != 128 {
        Some(KvcError::IndexerDim(w[10]))
    } else if w[11] != c.n_vocab {
        Some(KvcError::Vocab { file: w[11], engine: c.n_vocab })
    } else if w[7] != count {
        Some(KvcError::TokenCount { payload: w[7], header: count })
    } else if w[12] > w[4] {
        Some(KvcError::RawLive { live: w[12], cap: w[4] })
    } else if w[12] > kv_cache::ring_cap(w[2] as nat) {
        Some(KvcError::RawRing { live: w[12], cap: kv_cache::ring_cap(w[2] as nat) as usize })
    } else {
        None
    }
}

/// What is wrong with the first wrong one of the first `n` tokens.
pub open spec fn tokens_fault(w: Seq<u32>, n: nat, vocab: u32) -> Option<KvcError>
    decreases n,
{
    if n == 0 {
        None
    } else if tokens_fault(w, (n - 1) as nat, vocab) is Some {
        tokens_fault(w, (n - 1) as nat, vocab)
    } else if w.len() < 13 + n {
        Some(KvcError::Truncated)
    } else if w[12 + n as int] >= vocab {
        Some(KvcError::TokenId { token: w[12 + n as int], vocab })
    } else {
        None
    }
}

/// How much a payload holds of each layer.
pub struct Plan {
    pub ctx: u32,
    /// The rows of each ring.
    pub live: u32,
    /// The rows of each compressor.
    pub comp: Seq<u32>,
    /// The rows of each indexer.
    pub idx: Seq<u32>,
}

impl Plan {
    /// The words of a ring.
    pub open spec fn raw_len(self) -> int {
        self.live * 512
    }

    /// The words of the compressor of layer `il`.
    pub open spec fn comp_len(self, il: int) -> int {
        let ratio = kv_cache::ratio_at(il);
        if ratio == 0 {
            0
        } else {
            self.comp[il] * 512 + 2 * kv_cache::state_len(ratio)
        }
    }

    /// The words of the indexer of layer `il`.
    pub open spec fn idx_len(self, il: int) -> int {
        if kv_cache::ratio_at(il) == 4 {
            self.idx[il] * 128 + 4096
        } else {
            0
        }
    }

    /// The words of layer `il`.
    pub open spec fn layer_len(self, il: int) -> int {
        self.raw_len() + self.comp_len(il) + self.idx_len(il)
    }

    /// The words of the first `n` layers.
    pub open spec fn len(self, n: nat) -> int
        decreases n,
    {
        if n == 0 {
            0
        } else {
            self.len((n - 1) as nat) + self.layer_len(n - 1)
        }
    }

    /// What is wrong with layer `il`, which starts at word `at` of `end`.
    pub open spec fn layer_fault(self, end: int, at: int, il: int) -> Option<KvcError> {
        let ratio = kv_cache::ratio_at(il);
        let cap = kv_cache::emit_cap(ratio, self.ctx as nat);
        if at + self.raw_len() > end {
            Some(KvcError::Truncated)
        } else if ratio != 0 && self.comp[il] > cap {
            Some(KvcError::CompCap { n: self.comp[il], cap: cap as usize, il: il as usize })
        } else if at + self.raw_len() + self.comp_len(il) > end {
            Some(KvcError::Truncated)
        } else if ratio == 4 && self.idx[il] > cap {
            Some(KvcError::IdxCap { n: self.idx[il], cap: cap as usize, il: il as usize })
        } else if at + self.layer_len(il) > end {
            Some(KvcError::Truncated)
        } else {
            None
        }
    }

    /// What is wrong with the first wrong one of the first `n` layers.
    pub open spec fn layers_fault(self, end: int, at: int, n: nat) -> Option<KvcError>
        decreases n,
    {
        if n == 0 {
            None
        } else if self.layers_fault(end, at, (n - 1) as nat) is Some {
            self.layers_fault(end, at, (n - 1) as nat)
        } else {
            self.layer_fault(end, at + self.len((n - 1) as nat), n - 1)
        }
    }

    /// The ring of layer `il`, which starts at word `at`: the last rows, as many
    /// as the ring holds.
    pub open spec fn ring(self, w: Seq<u32>, at: int) -> Seq<u32> {
        last_rows(w.subrange(at, at + self.raw_len()), kv_cache::ring_cap(self.ctx as nat))
    }

    /// The compressor of layer `il`, which starts at word `at`.
    pub open spec fn comp_lane(self, w: Seq<u32>, at: int, il: int) -> Option<LaneView> {
        let ratio = kv_cache::ratio_at(il);
        if ratio == 0 {
            None
        } else {
            Some(
                lane_at(
                    w,
                    at,
                    self.comp[il] * 512,
                    kv_cache::state_len(ratio) as int,
                    kv_cache::emit_cap(ratio, self.ctx as nat),
                ),
            )
        }
    }

    /// The indexer of layer `il`, which starts at word `at`.
    pub open spec fn idx_lane(self, w: Seq<u32>, at: int, il: int) -> Option<LaneView> {
        if kv_cache::ratio_at(il) == 4 {
            Some(
                lane_at(
                    w,
                    at,
                    self.idx[il] * 128,
                    2048,
                    kv_cache::emit_cap(4, self.ctx as nat),
                ),
            )
        } else {
            None
        }
    }

    /// The caches of `n` layers, which start at word `at`.
    pub open spec fn caches(self, w: Seq<u32>, at: int, n: nat) -> KvView {
        KvView {
            cap_raw: kv_cache::fresh(n, self.ctx as nat).cap_raw,
            raw: Seq::new(n, |il: int| self.ring(w, at + self.len(il as nat))),
            comp: Seq::new(
                n,
                |il: int| self.comp_lane(w, at + self.len(il as nat) + self.raw_len(), il),
            ),
            idx: Seq::new(
                n,
                |il: int|
                    self.idx_lane(
                        w,
                        at + self.len(il as nat) + self.raw_len() + self.comp_len(il),
                        il,
                    ),
            ),
        }
    }
}

/// The last `cap` of `rows`, or all if there are no more.
pub open spec fn last_rows(rows: Seq<u32>, cap: nat) -> Seq<u32> {
    if rows.len() <= cap * 512 {
        rows
    } else {
        rows.skip(rows.len() - cap * 512)
    }
}

/// A compressor or an indexer that starts at word `at`.
pub open spec fn lane_at(w: Seq<u32>, at: int, rows: int, state: int, cap: nat) -> LaneView {
    LaneView {
        cap,
        rows: w.subrange(at, at + rows),
        kv: w.subrange(at + rows, at + rows + state),
        score: w.subrange(at + rows + state, at + rows + 2 * state),
    }
}

/// The word behind the tokens and the scores.
pub open spec fn counts_at(c: ModelConfig, count: u32) -> int {
    13 + count + c.n_vocab
}

/// How much a payload holds of each layer.
pub open spec fn plan_of(w: Seq<u32>, c: ModelConfig, count: u32, ctx: u32) -> Plan {
    let at = counts_at(c, count);
    Plan {
        ctx,
        live: w[12],
        comp: w.subrange(at, at + c.n_layer),
        idx: w.subrange(at + c.n_layer, at + 2 * c.n_layer),
    }
}

/// What is wrong with a payload, for a header that states `count` tokens and
/// the context size `ctx`.
pub open spec fn payload_fault(
    p: Seq<u8>,
    c: ModelConfig,
    has_mtp: bool,
    count: u32,
    ctx: u32,
) -> Option<KvcError> {
    let w = weights::words(p);
    let at = counts_at(c, count);
    if shape_fault(w, c, count) is Some {
        shape_fault(w, c, count)
    } else if session::session_error(c, has_mtp, ctx) is Some {
        Some(KvcError::Session(session::session_error(c, has_mtp, ctx)->Some_0))
    } else if count > ctx {
        Some(KvcError::TokenContext { count, ctx_size: ctx })
    } else if tokens_fault(w, count as nat, c.n_vocab) is Some {
        tokens_fault(w, count as nat, c.n_vocab)
    } else if 4 * at > p.len() {
        Some(
            KvcError::SkipPastEnd {
                n: (4 * c.n_vocab) as u64,
                got: (p.len() - 4 * (13 + count)) as u64,
            },
        )
    } else if at + 2 * c.n_layer > w.len() {
        Some(KvcError::Truncated)
    } else {
        plan_of(w, c, count, ctx).layers_fault(
            w.len() as int,
            at + 2 * c.n_layer,
            c.n_layer as nat,
        )
    }
}

/// The session in a payload.
pub open spec fn payload_session(
    p: Seq<u8>,
    c: ModelConfig,
    has_mtp: bool,
    count: u32,
    ctx: u32,
) -> SessionView {
    let w = weights::words(p);
    SessionView {
        tokens: w.subrange(13, 13 + count),
        pos: count as int,
        kv: plan_of(w, c, count, ctx).caches(
            w,
            counts_at(c, count) + 2 * c.n_layer,
            c.n_layer as nat,
        ),
        ..session::fresh_session(c, has_mtp, ctx)
    }
}

/// What is wrong first with a file.
#[verifier::opaque]
pub open spec fn load_fault(b: Seq<u8>, c: ModelConfig, has_mtp: bool) -> Option<KvcError> {
    if head_fault(b) is Some {
        head_fault(b)
    } else if text_fault(b) is Some {
        text_fault(b)
    } else {
        payload_fault(payload_of(b), c, has_mtp, header_count(b), header_ctx(b))
    }
}

/// The session in a file.
#[verifier::opaque]
pub open spec fn loaded(b: Seq<u8>, c: ModelConfig, has_mtp: bool) -> SessionView {
    payload_session(payload_of(b), c, has_mtp, header_count(b), header_ctx(b))
}

// ---------------------------------------------------------------------------
// Loading
// ---------------------------------------------------------------------------

/// Holds the header of a file to what is expected.
fn check_head(b: &[u8]) -> (r: Result<KvcHeader, KvcError>)
    ensures
        match r {
            Ok(h) => head_fault(b@) is None && starts_with_header(b@, h),
            Err(e) => head_fault(b@) == Some(e),
        },
{
    let h = match read_header(b) {
        Ok(h) => h,
        Err(e) => return Err(e),
    };
    if b[0] != KVC_MAGIC[0] || b[1] != KVC_MAGIC[1] || b[2] != KVC_MAGIC[2] {
        proof {
            let m = b@.subrange(0, 3);
            assert(m[0] == b@[0] && m[1] == b@[1] && m[2] == b@[2]);
        }
        return Err(KvcError::Magic { a: b[0], b: b[1], c: b[2] });
    }
    assert(b@.subrange(0, 3) =~= KVC_MAGIC@);
    if h.version != KVC_VERSION {
        return Err(KvcError::Version(h.version));
    }
    Ok(h)
}

/// Word `i` of a payload.
fn word(p: &[u8], i: usize) -> (x: u32)
    requires
        i < p@.len() / 4,
    ensures
        x == weights::words(p@)[i as int],
{
    assert(4 * i + 4 <= p.len());
    get_u32(p, 4 * i)
}

/// The `n` words of a payload from `at` on.
fn take_words(p: &[u8], at: usize, n: usize) -> (r: Vec<u32>)
    requires
        at + n <= p@.len() / 4,
    ensures
        r@ == weights::words(p@).subrange(at as int, at + n),
{
    let mut r: Vec<u32> = Vec::new();
    let mut i: usize = 0;
    while i < n
        invariant
            i <= n,
            at + n <= p@.len() / 4,
            r@ == weights::words(p@).subrange(at as int, at + i),
        decreases n - i,
    {
        assert(p.len() == p@.len());
        r.push(word(p, at + i));
        i += 1;
        assert(r@ =~= weights::words(p@).subrange(at as int, at + i));
    }
    r
}

/// Holds the words about the shapes to what is expected.
fn check_shapes(p: &[u8], c: &ModelConfig, count: u32) -> (r: Result<u32, KvcError>)
    ensures
        match r {
            Ok(live) => shape_fault(weights::words(p@), *c, count) is None && live
                == weights::words(p@)[12] && p@.len() >= 52,
            Err(e) => shape_fault(weights::words(p@), *c, count) == Some(e),
        },
{
    let n: usize = p.len() / 4;
    if n < 1 {
        return Err(KvcError::Truncated);
    }
    let magic: u32 = word(p, 0);
    if magic != DSV4_MAGIC {
        return Err(KvcError::PayloadMagic(magic));
    }
    if n < 13 {
        return Err(KvcError::Truncated);
    }
    let file_ctx: u32 = word(p, 2);
    let raw_cap: u32 = word(p, 4);
    let tokens: u32 = word(p, 7);
    let layers: u32 = word(p, 8);
    let head_dim: u32 = word(p, 9);
    let idx_dim: u32 = word(p, 10);
    let vocab: u32 = word(p, 11);
    let live: u32 = word(p, 12);
    if layers != c.n_layer {
        return Err(KvcError::Layers { file: layers, engine: c.n_layer });
    }
    if head_dim != HEAD_DIM as u32 {
        return Err(KvcError::HeadDim(head_dim));
    }
    if idx_dim != IDX_DIM as u32 {
        return Err(KvcError::IndexerDim(idx_dim));
    }
    if vocab != c.n_vocab {
        return Err(KvcError::Vocab { file: vocab, engine: c.n_vocab });
    }
    if tokens != count {
        return Err(KvcError::TokenCount { payload: tokens, header: count });
    }
    if live > raw_cap {
        return Err(KvcError::RawLive { live, cap: raw_cap });
    }
    let cap: usize = if file_ctx == 0 {
        1
    } else if file_ctx < 128 {
        file_ctx as usize
    } else {
        SWA
    };
    if live as usize > cap {
        return Err(KvcError::RawRing { live, cap });
    }
    Ok(live)
}

proof fn tokens_fault_stays(w: Seq<u32>, k: nat, n: nat, vocab: u32)
    requires
        k <= n,
        tokens_fault(w, k, vocab) is Some,
    ensures
        tokens_fault(w, n, vocab) == tokens_fault(w, k, vocab),
    decreases n,
{
    if k < n {
        tokens_fault_stays(w, k, (n - 1) as nat, vocab);
    }
}

/// Reads the tokens of a payload.
fn load_tokens(p: &[u8], count: u32, vocab: u32) -> (r: Result<Vec<u32>, KvcError>)
    requires
        p@.len() >= 52,
    ensures
        match r {
            Ok(t) => tokens_fault(weights::words(p@), count as nat, vocab) is None && 13 + count
                <= p@.len() / 4 && t@ == weights::words(p@).subrange(13, 13 + count),
            Err(e) => tokens_fault(weights::words(p@), count as nat, vocab) == Some(e),
        },
{
    let n: usize = p.len() / 4;
    let mut t: Vec<u32> = Vec::new();
    let mut k: u32 = 0;
    assert(t@ =~= weights::words(p@).subrange(13, 13));
    while k < count
        invariant
            k <= count,
            n == p@.len() / 4,
            13 + k <= n,
            tokens_fault(weights::words(p@), k as nat, vocab) is None,
            t@ == weights::words(p@).subrange(13, 13 + k),
        decreases count - k,
    {
        proof {
            if tokens_fault(weights::words(p@), (k + 1) as nat, vocab) is Some {
                tokens_fault_stays(weights::words(p@), (k + 1) as nat, count as nat, vocab);
            }
        }
        let i: usize = 13 + k as usize;
        if i >= n {
            return Err(KvcError::Truncated);
        }
        let token: u32 = word(p, i);
        if token >= vocab {
            return Err(KvcError::TokenId { token, vocab });
        }
        t.push(token);
        k += 1;
        assert(t@ =~= weights::words(p@).subrange(13, 13 + k));
    }
    Ok(t)
}

proof fn push_keeps_last_rows(rows: Seq<u32>, cap: nat, row: Seq<u32>)
    requires
        rows.len() % 512 == 0,
        row.len() == 512,
        cap >= 1,
    ensures
        kv_cache::pushed(last_rows(rows, cap), cap, row) == last_rows(rows + row, cap),
{
    assert(kv_cache::pushed(last_rows(rows, cap), cap, row) =~= last_rows(rows + row, cap));
}

/// Pushes the rows of a payload from word `at` on into the ring of layer `il`.
fn load_ring(kv: &mut KvCache, p: &[u8], at: usize, il: usize, live: u32)
    requires
        old(kv).wf(),
        il < old(kv)@.raw.len(),
        old(kv)@.cap_raw >= 1,
        old(kv)@.raw[il as int] == Seq::<Bits32>::empty(),
        at + live * 512 <= p@.len() / 4,
    ensures
        final(kv).wf(),
        final(kv)@ == (KvView {
            raw: old(kv)@.raw.update(
                il as int,
                last_rows(
                    weights::words(p@).subrange(at as int, at + live * 512),
                    old(kv)@.cap_raw,
                ),
            ),
            ..old(kv)@
        }),
{
    let ghost v = kv@;
    let ghost w = weights::words(p@);
    let mut k: u32 = 0;
    proof {
        assert(w.subrange(at as int, at as int) =~= Seq::empty());
        assert(v.raw.update(il as int, last_rows(w.subrange(at as int, at as int), v.cap_raw))
            =~= v.raw);
    }
    while k < live
        invariant
            k <= live,
            kv.wf(),
            il < v.raw.len(),
            v.cap_raw >= 1,
            w == weights::words(p@),
            at + live * 512 <= p@.len() / 4,
            kv@ == (KvView {
                raw: v.raw.update(
                    il as int,
                    last_rows(w.subrange(at as int, at + k * 512), v.cap_raw),
                ),
                ..v
            }),
        decreases live - k,
    {
        assert(p.len() == p@.len());
        let row: Vec<u32> = take_words(p, at + (k as usize) * HEAD_DIM, HEAD_DIM);
        kv.layer_mut(il).push(row.as_slice());
        proof {
            let rows = w.subrange(at as int, at + k * 512);
            push_keeps_last_rows(rows, v.cap_raw, row@);
            assert(rows + row@ =~= w.subrange(at as int, at + (k + 1) * 512));
        }
        k += 1;
        assert(kv@.raw =~= v.raw.update(
            il as int,
            last_rows(w.subrange(at as int, at + k * 512), v.cap_raw),
        ));
    }
}

/// The words from `at` on that are left of `end`, and whether `n` are there.
fn has_words(end: usize, at: usize, n: usize) -> (r: bool)
    requires
        at <= end,
    ensures
        r == (at + n <= end),
{
    end - at >= n
}

/// Reads the compressor of layer `il` from word `at` on.
fn load_compressor(kv: &mut KvCache, p: &[u8], at: usize, il: usize, n: u32) -> (r: Result<
    usize,
    KvcError,
>)
    requires
        old(kv).wf(),
        il < old(kv)@.raw.len(),
        at <= p@.len() / 4,
    ensures
        ({
            let ratio = kv_cache::ratio_at(il as int);
            let state = kv_cache::state_len(ratio) as int;
            match r {
                Ok(end) => {
                    &&& final(kv).wf()
                    &&& if ratio == 0 {
                        end == at && final(kv)@ == old(kv)@
                    } else {
                        let cap = old(kv)@.comp[il as int]->Some_0.cap;
                        &&& n <= cap
                        &&& end == at + n * 512 + 2 * state
                        &&& end <= p@.len() / 4
                        &&& final(kv)@ == (KvView {
                            comp: old(kv)@.comp.update(
                                il as int,
                                Some(
                                    lane_at(
                                        weights::words(p@),
                                        at as int,
                                        n * 512,
                                        state,
                                        cap,
                                    ),
                                ),
                            ),
                            ..old(kv)@
                        })
                    }
                },
                Err(e) => {
                    let cap = old(kv)@.comp[il as int]->Some_0.cap;
                    &&& ratio != 0
                    &&& if n > cap {
                        e == (KvcError::CompCap { n, cap: cap as usize, il })
                    } else {
                        at + n * 512 + 2 * state > p@.len() / 4 && e == KvcError::Truncated
                    }
                },
            }
        }),
{
    proof {
        kv.wf_valid();
    }
    let end: usize = p.len() / 4;
    match kv.compressor_mut(il) {
        None => Ok(at),
        Some(c) => {
            if n as usize > c.comp_cap {
                return Err(KvcError::CompCap { n, cap: c.comp_cap, il });
            }
            proof {
                assert(c.comp_kv.len() == c.comp_cap * 512);
                assert(n * 512 <= c.comp_cap * 512) by (nonlinear_arith)
                    requires
                        n <= c.comp_cap,
                ;
            }
            let rows: usize = n as usize * HEAD_DIM;
            let state: usize = c.state_kv.len();
            if !has_words(end, at, rows) {
                return Err(KvcError::Truncated);
            }
            if !has_words(end, at + rows, state) {
                return Err(KvcError::Truncated);
            }
            if !has_words(end, at + rows + state, state) {
                return Err(KvcError::Truncated);
            }
            let r: Vec<u32> = take_words(p, at, rows);
            let k: Vec<u32> = take_words(p, at + rows, state);
            let s: Vec<u32> = take_words(p, at + rows + state, state);
            c.load(r.as_slice(), k, s);
            Ok(at + rows + state + state)
        },
    }
}

/// Reads the indexer of layer `il` from word `at` on.
fn load_indexer(kv: &mut KvCache, p: &[u8], at: usize, il: usize, n: u32) -> (r: Result<
    usize,
    KvcError,
>)
    requires
        old(kv).wf(),
        il < old(kv)@.raw.len(),
        at <= p@.len() / 4,
    ensures
        match r {
            Ok(end) => {
                &&& final(kv).wf()
                &&& if kv_cache::ratio_at(il as int) != 4 {
                    end == at && final(kv)@ == old(kv)@
                } else {
                    let cap = old(kv)@.idx[il as int]->Some_0.cap;
                    &&& n <= cap
                    &&& end == at + n * 128 + 4096
                    &&& end <= p@.len() / 4
                    &&& final(kv)@ == (KvView {
                        idx: old(kv)@.idx.update(
                            il as int,
                            Some(lane_at(weights::words(p@), at as int, n * 128, 2048, cap)),
                        ),
                        ..old(kv)@
                    })
                }
            },
            Err(e) => {
                let cap = old(kv)@.idx[il as int]->Some_0.cap;
                &&& kv_cache::ratio_at(il as int) == 4
                &&& if n > cap {
                    e == (KvcError::IdxCap { n, cap: cap as usize, il })
                } else {
                    at + n * 128 + 4096 > p@.len() / 4 && e == KvcError::Truncated
                }
            },
        },
{
    proof {
        kv.wf_valid();
    }
    let end: usize = p.len() / 4;
    match kv.indexer_mut(il) {
        None => Ok(at),
        Some(c) => {
            if n as usize > c.comp_cap {
                return Err(KvcError::IdxCap { n, cap: c.comp_cap, il });
            }
            proof {
                assert(c.comp_kv.len() == c.comp_cap * 128);
                assert(n * 128 <= c.comp_cap * 128) by (nonlinear_arith)
                    requires
                        n <= c.comp_cap,
                ;
            }
            let rows: usize = n as usize * IDX_DIM;
            if !has_words(end, at, rows) {
                return Err(KvcError::Truncated);
            }
            if !has_words(end, at + rows, 2048) {
                return Err(KvcError::Truncated);
            }
            if !has_words(end, at + rows + 2048, 2048) {
                return Err(KvcError::Truncated);
            }
            let r: Vec<u32> = take_words(p, at, rows);
            let k: Vec<u32> = take_words(p, at + rows, 2048);
            let s: Vec<u32> = take_words(p, at + rows + 2048, 2048);
            c.load(r.as_slice(), k, s);
            Ok(at + rows + 2048 + 2048)
        },
    }
}

proof fn layers_fault_stays(plan: Plan, end: int, at: int, k: nat, n: nat)
    requires
        k <= n,
        plan.layers_fault(end, at, k) is Some,
    ensures
        plan.layers_fault(end, at, n) == plan.layers_fault(end, at, k),
    decreases n,
{
    if k < n {
        layers_fault_stays(plan, end, at, k, (n - 1) as nat);
    }
}

proof fn each_layer_fits(plan: Plan, end: int, at: int, n: nat, il: int)
    requires
        plan.layers_fault(end, at, n) is None,
        0 <= il < n,
    ensures
        plan.layer_fault(end, at + plan.len(il as nat), il) is None,
        plan.len(il as nat) >= 0,
    decreases n,
{
    if il < n - 1 {
        each_layer_fits(plan, end, at, (n - 1) as nat, il);
    } else {
        plan_len_is_nonnegative(plan, il as nat);
    }
}

proof fn plan_len_is_nonnegative(plan: Plan, n: nat)
    ensures
        plan.len(n) >= 0,
    decreases n,
{
    if n > 0 {
        plan_len_is_nonnegative(plan, (n - 1) as nat);
    }
}

/// The caches in a payload have the shapes that the context size asks for.
proof fn caches_have_shape(plan: Plan, w: Seq<u32>, at: int, n: nat)
    requires
        at >= 0,
        plan.layers_fault(w.len() as int, at, n) is None,
    ensures
        kv_cache::same_shape(plan.caches(w, at, n), kv_cache::fresh(n, plan.ctx as nat)),
{
    let a = plan.caches(w, at, n);
    let b = kv_cache::fresh(n, plan.ctx as nat);
    assert forall|i: int| 0 <= i < a.comp.len() implies kv_cache::same_lane_shape(
        #[trigger] a.comp[i],
        b.comp[i],
    ) by {
        each_layer_fits(plan, w.len() as int, at, n, i);
    }
    assert forall|i: int| 0 <= i < a.idx.len() implies kv_cache::same_lane_shape(
        #[trigger] a.idx[i],
        b.idx[i],
    ) by {
        each_layer_fits(plan, w.len() as int, at, n, i);
    }
}

/// The first `k` of `n` layers are those of a payload, the others are empty.
spec fn partly_loaded(plan: Plan, w: Seq<u32>, at: int, n: nat, k: int) -> KvView {
    let full = plan.caches(w, at, n);
    let none = kv_cache::fresh(n, plan.ctx as nat);
    KvView {
        cap_raw: none.cap_raw,
        raw: Seq::new(
            n,
            |il: int|
                if il < k {
                    full.raw[il]
                } else {
                    none.raw[il]
                },
        ),
        comp: Seq::new(
            n,
            |il: int|
                if il < k {
                    full.comp[il]
                } else {
                    none.comp[il]
                },
        ),
        idx: Seq::new(
            n,
            |il: int|
                if il < k {
                    full.idx[il]
                } else {
                    none.idx[il]
                },
        ),
    }
}

/// Reads the caches of all layers from word `at` on into an empty cache.
fn load_layers(
    kv: &mut KvCache,
    p: &[u8],
    at: usize,
    ctx: u32,
    live: u32,
    comp: &Vec<u32>,
    idx: &Vec<u32>,
) -> (r: Result<(), KvcError>)
    requires
        old(kv).wf(),
        old(kv)@ == kv_cache::fresh(comp@.len(), ctx as nat),
        comp@.len() == idx@.len(),
        comp@.len() <= u32::MAX,
        at <= p@.len() / 4,
    ensures
        ({
            let plan = Plan { ctx, live, comp: comp@, idx: idx@ };
            match r {
                Ok(_) => final(kv).wf() && plan.layers_fault(
                    p@.len() as int / 4,
                    at as int,
                    comp@.len(),
                ) is None && final(kv)@ == plan.caches(weights::words(p@), at as int, comp@.len()),
                Err(e) => plan.layers_fault(p@.len() as int / 4, at as int, comp@.len()) == Some(e),
            }
        }),
{
    let ghost plan = Plan { ctx, live, comp: comp@, idx: idx@ };
    let ghost w = weights::words(p@);
    let n: usize = comp.len();
    let end: usize = p.len() / 4;
    let mut pos: usize = at;
    let mut il: usize = 0;
    assert(kv@ =~= partly_loaded(plan, w, at as int, n as nat, 0));
    while il < n
        invariant
            il <= n,
            n == comp@.len(),
            n == idx@.len(),
            n <= u32::MAX,
            end == p@.len() / 4,
            pos <= end,
            plan == (Plan { ctx, live, comp: comp@, idx: idx@ }),
            w == weights::words(p@),
            kv.wf(),
            pos == at + plan.len(il as nat),
            plan.layers_fault(end as int, at as int, il as nat) is None,
            kv@ == partly_loaded(plan, w, at as int, n as nat, il as int),
        decreases n - il,
    {
        proof {
            if plan.layers_fault(end as int, at as int, (il + 1) as nat) is Some {
                layers_fault_stays(plan, end as int, at as int, (il + 1) as nat, n as nat);
            }
            kv.wf_valid();
        }
        if live as u64 * 512 > (end - pos) as u64 {
            return Err(KvcError::Truncated);
        }
        load_ring(kv, p, pos, il, live);
        let p1: usize = pos + (live as usize) * HEAD_DIM;
        let p2: usize = match load_compressor(kv, p, p1, il, comp[il]) {
            Ok(x) => x,
            Err(e) => return Err(e),
        };
        let p3: usize = match load_indexer(kv, p, p2, il, idx[il]) {
            Ok(x) => x,
            Err(e) => return Err(e),
        };
        proof {
            let next = partly_loaded(plan, w, at as int, n as nat, il + 1);
            assert(kv@.raw =~= next.raw);
            assert(kv@.comp =~= next.comp);
            assert(kv@.idx =~= next.idx);
        }
        pos = p3;
        il += 1;
    }
    assert(kv@ =~= plan.caches(w, at as int, n as nat));
    Ok(())
}

/// Skips the scores, and reads the row counts of all compressors and of all
/// indexers.
fn load_counts(p: &[u8], config: &ModelConfig, count: u32) -> (r: Result<
    (Vec<u32>, Vec<u32>, usize),
    KvcError,
>)
    requires
        13 + count <= p@.len() / 4,
    ensures
        ({
            let at = counts_at(*config, count);
            let w = weights::words(p@);
            match r {
                Ok((comp, idx, end)) => {
                    &&& at + 2 * config.n_layer <= p@.len() / 4
                    &&& comp@ == w.subrange(at, at + config.n_layer)
                    &&& idx@ == w.subrange(at + config.n_layer, at + 2 * config.n_layer)
                    &&& end == at + 2 * config.n_layer
                },
                Err(e) => if 4 * at > p@.len() {
                    e == (KvcError::SkipPastEnd {
                        n: (4 * config.n_vocab) as u64,
                        got: (p@.len() - 4 * (13 + count)) as u64,
                    })
                } else {
                    at + 2 * config.n_layer > p@.len() / 4 && e == KvcError::Truncated
                },
            }
        }),
{
    assert(p.len() == p@.len());
    let skip: u64 = 4 * (config.n_vocab as u64);
    let at: usize = 13 + count as usize;
    let left: u64 = (p.len() - 4 * at) as u64;
    if left < skip {
        return Err(KvcError::SkipPastEnd { n: skip, got: left });
    }
    let end: usize = p.len() / 4;
    let at: usize = at + config.n_vocab as usize;
    let n_layer: usize = config.n_layer as usize;
    if !has_words(end, at, n_layer) {
        return Err(KvcError::Truncated);
    }
    let comp: Vec<u32> = take_words(p, at, n_layer);
    if !has_words(end, at + n_layer, n_layer) {
        return Err(KvcError::Truncated);
    }
    let idx: Vec<u32> = take_words(p, at + n_layer, n_layer);
    Ok((comp, idx, at + n_layer + n_layer))
}

/// Reads the payload of a file whose header states `count` tokens and the
/// context size `ctx`.
pub fn read_dsv4_payload(p: &[u8], config: &ModelConfig, has_mtp: bool, count: u32, ctx: u32) -> (r:
    Result<Session, KvcError>)
    requires
        has_mtp ==> 16 * config.n_embd <= usize::MAX,
    ensures
        match r {
            Ok(s) => payload_fault(p@, *config, has_mtp, count, ctx) is None && s.wf() && s@
                == payload_session(p@, *config, has_mtp, count, ctx) && session::is_idle(s@),
            Err(e) => payload_fault(p@, *config, has_mtp, count, ctx) == Some(e),
        },
{
    let live: u32 = match check_shapes(p, config, count) {
        Ok(x) => x,
        Err(e) => return Err(e),
    };
    let mut s = match Session::new(config, has_mtp, ctx) {
        Ok(s) => s,
        Err(e) => return Err(KvcError::Session(e)),
    };
    if count > ctx {
        return Err(KvcError::TokenContext { count, ctx_size: ctx });
    }
    let tokens: Vec<u32> = match load_tokens(p, count, config.n_vocab) {
        Ok(t) => t,
        Err(e) => return Err(e),
    };
    let (comp, idx, at) = match load_counts(p, config, count) {
        Ok(x) => x,
        Err(e) => return Err(e),
    };
    let ghost plan = plan_of(weights::words(p@), *config, count, ctx);
    assert(plan == (Plan { ctx, live, comp: comp@, idx: idx@ }));
    proof {
        if plan.layers_fault(p@.len() as int / 4, at as int, comp@.len()) is None {
            caches_have_shape(plan, weights::words(p@), at as int, comp@.len());
        }
    }
    match load_layers(s.kv_cache_mut(), p, at, ctx, live, &comp, &idx) {
        Ok(_) => {},
        Err(e) => return Err(e),
    }
    match s.restore_from_tokens(tokens) {
        Ok(_) => {},
        Err(_) => {
            assert(false);
        },
    }
    assert(s@ =~= payload_session(p@, *config, has_mtp, count, ctx));
    Ok(s)
}

/// Reads a session and the text of its tokens from the bytes of a file.
///
/// Tokens, position and caches are those that were saved; scores are not saved.
pub fn load_session(b: &[u8], config: &ModelConfig, has_mtp: bool) -> (r: Result<
    (Session, String),
    KvcError,
>)
    requires
        has_mtp ==> 16 * config.n_embd <= usize::MAX,
    ensures
        match r {
            Ok((s, t)) => {
                &&& load_fault(b@, *config, has_mtp) is None
                &&& s.wf()
                &&& session::is_idle(s@)
                &&& s@ == loaded(b@, *config, has_mtp)
                &&& t@ == decode_utf8(b@.subrange(52, 52 + text_len(b@)))
            },
            Err(e) => load_fault(b@, *config, has_mtp) == Some(e),
        },
{
    reveal(load_fault);
    reveal(loaded);
    let h = match check_head(b) {
        Ok(h) => h,
        Err(e) => return Err(e),
    };
    if b.len() < 52 {
        return Err(KvcError::Truncated);
    }
    let len: usize = get_u32(b, 48) as usize;
    if b.len() - 52 < len {
        return Err(KvcError::Truncated);
    }
    let rendered = vstd::slice::slice_subrange(b, 52, 52 + len);
    let (valid, _) = utf8_split(rendered);
    proof {
        utf8::valid_prefix_decides(rendered@);
    }
    if valid != rendered.len() {
        return Err(KvcError::NotUtf8);
    }
    let text = from_utf8_lossy(rendered);
    proof {
        utf8::valid_is_unchanged(rendered@);
    }
    let p = vstd::slice::slice_subrange(b, 52 + len, b.len());
    assert(p@ =~= payload_of(b@));
    match read_dsv4_payload(p, config, has_mtp, h.cached_token_count, h.context_size) {
        Ok(s) => Ok((s, text)),
        Err(e) => Err(e),
    }
}

// ---------------------------------------------------------------------------
// What is saved is loaded
// ---------------------------------------------------------------------------

/// A session of a model that can be saved and loaded: no token waits, tokens
/// are in the vocabulary, the caches are those of the model's layers, and all
/// rings hold as many rows.
pub open spec fn is_savable(v: SessionView, c: ModelConfig) -> bool {
    &&& session::is_idle(v)
    &&& v.tokens.len() <= v.ctx_size
    &&& forall|i: int| 0 <= i < v.tokens.len() ==> #[trigger] v.tokens[i] < c.n_vocab
    &&& c.n_layer > 0
    &&& kv_cache::valid(v.kv)
    &&& kv_cache::same_shape(v.kv, kv_cache::fresh(c.n_layer as nat, v.ctx_size as nat))
    &&& even_rings(v.kv)
}

proof fn no_token_fault(w: Seq<u32>, n: nat, vocab: u32)
    requires
        w.len() >= 13 + n,
        forall|i: int| 13 <= i < 13 + n ==> #[trigger] w[i] < vocab,
    ensures
        tokens_fault(w, n, vocab) is None,
    decreases n,
{
    if n > 0 {
        no_token_fault(w, (n - 1) as nat, vocab);
    }
}

/// The plan of the payload that a savable session gives.
spec fn saved_plan(v: SessionView) -> Plan {
    Plan {
        ctx: v.ctx_size,
        live: (v.kv.raw[0].len() as int / 512) as u32,
        comp: comp_counts(v.kv),
        idx: idx_counts(v.kv),
    }
}

proof fn saved_layer_len(v: SessionView, c: ModelConfig, il: int)
    requires
        is_savable(v, c),
        0 <= il < c.n_layer,
    ensures
        saved_plan(v).raw_len() == v.kv.raw[il].len(),
        saved_plan(v).comp_len(il) == lane_words(v.kv.comp[il]).len(),
        saved_plan(v).idx_len(il) == lane_words(v.kv.idx[il]).len(),
        saved_plan(v).layer_len(il) == layer_words(v.kv, il).len(),
        kv_cache::ratio_at(il) != 0 ==> saved_plan(v).comp[il] <= kv_cache::emit_cap(
            kv_cache::ratio_at(il),
            v.ctx_size as nat,
        ),
        kv_cache::ratio_at(il) == 4 ==> saved_plan(v).idx[il] <= kv_cache::emit_cap(
            4,
            v.ctx_size as nat,
        ),
{
    let f = kv_cache::fresh(c.n_layer as nat, v.ctx_size as nat);
    assert(v.kv.raw[il].len() == v.kv.raw[0].len());
    assert(v.kv.raw[0].len() % 512 == 0);
    assert(v.kv.cap_raw <= 128);
    assert(kv_cache::same_lane_shape(v.kv.comp[il], f.comp[il]));
    assert(kv_cache::same_lane_shape(v.kv.idx[il], f.idx[il]));
    match v.kv.comp[il] {
        Some(l) => {
            assert(l.rows.len() <= l.cap * 512);
            assert(l.rows.len() as int / 512 <= l.cap);
            assert(l.cap == kv_cache::emit_cap(kv_cache::ratio_at(il), v.ctx_size as nat));
            assert(l.cap <= u32::MAX);
        },
        None => {},
    }
    match v.kv.idx[il] {
        Some(l) => {
            assert(l.rows.len() <= l.cap * 128);
            assert(l.rows.len() as int / 128 <= l.cap);
            assert(l.cap == kv_cache::emit_cap(4, v.ctx_size as nat));
            assert(l.cap <= u32::MAX);
        },
        None => {},
    }
}

proof fn saved_len(v: SessionView, c: ModelConfig, n: nat)
    requires
        is_savable(v, c),
        n <= c.n_layer,
    ensures
        saved_plan(v).len(n) == layers_words(v.kv, n).len(),
    decreases n,
{
    if n > 0 {
        saved_len(v, c, (n - 1) as nat);
        saved_layer_len(v, c, n - 1);
    }
}

proof fn saved_layer_at(v: KvView, il: nat, n: nat)
    requires
        il < n,
    ensures
        ({
            let at = layers_words(v, il).len() as int;
            let end = at + layer_words(v, il as int).len();
            &&& end <= layers_words(v, n).len()
            &&& layers_words(v, n).subrange(at, end) == layer_words(v, il as int)
        }),
    decreases n,
{
    let at = layers_words(v, il).len() as int;
    let end = at + layer_words(v, il as int).len();
    if il < n - 1 {
        saved_layer_at(v, il, (n - 1) as nat);
        let head = layers_words(v, (n - 1) as nat);
        assert(layers_words(v, n).subrange(at, end) =~= head.subrange(at, end));
    } else {
        assert(layers_words(v, n).subrange(at, end) =~= layer_words(v, il as int));
    }
}

proof fn no_layer_fault(v: SessionView, c: ModelConfig, end: int, at: int, n: nat)
    requires
        is_savable(v, c),
        n <= c.n_layer,
        at + layers_words(v.kv, c.n_layer as nat).len() <= end,
    ensures
        saved_plan(v).layers_fault(end, at, n) is None,
    decreases n,
{
    if n > 0 {
        no_layer_fault(v, c, end, at, (n - 1) as nat);
        saved_layer_len(v, c, n - 1);
        saved_len(v, c, (n - 1) as nat);
        layers_words_grow(v.kv, n, c.n_layer as nat);
    }
}

proof fn lane_reads_back(w: Seq<u32>, a: int, x: LaneView)
    requires
        0 <= a,
        a + x.rows.len() + x.kv.len() + x.score.len() <= w.len(),
        x.kv.len() == x.score.len(),
        w.subrange(a, a + lane_words(Some(x)).len()) == lane_words(Some(x)),
    ensures
        lane_at(w, a, x.rows.len() as int, x.kv.len() as int, x.cap) == x,
{
    let l = lane_words(Some(x));
    let got = lane_at(w, a, x.rows.len() as int, x.kv.len() as int, x.cap);
    assert forall|i: int| 0 <= i < l.len() implies w[a + i] == l[i] by {
        assert(w[a + i] == w.subrange(a, a + l.len())[i]);
    }
    let r = x.rows.len() as int;
    let k = x.kv.len() as int;
    assert forall|i: int| 0 <= i < r implies got.rows[i] == x.rows[i] by {
        assert(w[a + i] == l[i]);
    }
    assert forall|i: int| 0 <= i < k implies got.kv[i] == x.kv[i] by {
        assert(w[a + (r + i)] == l[r + i]);
    }
    assert forall|i: int| 0 <= i < k implies got.score[i] == x.score[i] by {
        assert(w[a + (r + k + i)] == l[r + k + i]);
    }
    assert(got.rows =~= x.rows);
    assert(got.kv =~= x.kv);
    assert(got.score =~= x.score);
}

proof fn saved_caches(v: SessionView, c: ModelConfig, w: Seq<u32>, at: int)
    requires
        is_savable(v, c),
        0 <= at,
        w.skip(at) == layers_words(v.kv, c.n_layer as nat),
        at <= w.len(),
    ensures
        saved_plan(v).caches(w, at, c.n_layer as nat) == v.kv,
{
    let n = c.n_layer as nat;
    let plan = saved_plan(v);
    let f = kv_cache::fresh(n, v.ctx_size as nat);
    let got = plan.caches(w, at, n);
    let all = layers_words(v.kv, n);
    assert forall|il: int| 0 <= il < n implies got.raw[il] == v.kv.raw[il] && got.comp[il]
        == v.kv.comp[il] && got.idx[il] == v.kv.idx[il] by {
        saved_len(v, c, il as nat);
        saved_layer_len(v, c, il);
        saved_layer_at(v.kv, il as nat, n);
        assert(kv_cache::same_lane_shape(v.kv.comp[il], f.comp[il]));
        assert(kv_cache::same_lane_shape(v.kv.idx[il], f.idx[il]));
        let off = layers_words(v.kv, il as nat).len() as int;
        let l = layer_words(v.kv, il);
        let a = at + off;
        assert(w.subrange(a, a + l.len()) =~= all.subrange(off, off + l.len()));
        assert forall|i: int| 0 <= i < l.len() implies w[a + i] == l[i] by {
            assert(w[a + i] == w.subrange(a, a + l.len())[i]);
        }
        let r = plan.raw_len();
        assert(w.subrange(a, a + r) =~= v.kv.raw[il]);
        assert(v.kv.raw[il].len() <= v.kv.cap_raw * 512);
        let k = plan.comp_len(il);
        let i = plan.idx_len(il);
        assert(w.subrange(a + r, a + r + k) =~= lane_words(v.kv.comp[il])) by {
            assert forall|j: int| 0 <= j < k implies w[a + r + j] == lane_words(v.kv.comp[il])[j] by {
                assert(w[a + (r + j)] == l[r + j]);
            }
        }
        assert(w.subrange(a + r + k, a + r + k + i) =~= lane_words(v.kv.idx[il])) by {
            assert forall|j: int| 0 <= j < i implies w[a + r + k + j] == lane_words(
                v.kv.idx[il],
            )[j] by {
                assert(w[a + (r + k + j)] == l[r + k + j]);
            }
        }
        match v.kv.comp[il] {
            Some(x) => {
                lane_reads_back(w, a + r, x);
            },
            None => {},
        }
        match v.kv.idx[il] {
            Some(x) => {
                lane_reads_back(w, a + r + k, x);
            },
            None => {},
        }
    }
    assert(got.raw =~= v.kv.raw);
    assert(got.comp =~= v.kv.comp);
    assert(got.idx =~= v.kv.idx);
}

proof fn payload_parts(v: SessionView, c: ModelConfig)
    requires
        is_savable(v, c),
    ensures
        ({
            let w = payload_words(v.kv, v.tokens, c.n_vocab);
            let count = v.tokens.len() as u32;
            let at = counts_at(c, count);
            let n = c.n_layer as int;
            &&& count == v.tokens.len()
            &&& w.len() == at + 2 * n + layers_words(v.kv, n as nat).len()
            &&& w.take(13) == shape_words(v.kv, v.tokens.len(), c.n_vocab)
            &&& w.subrange(13, 13 + count) == v.tokens
            &&& w.subrange(at, at + n) == comp_counts(v.kv)
            &&& w.subrange(at + n, at + 2 * n) == idx_counts(v.kv)
            &&& w.skip(at + 2 * n) == layers_words(v.kv, n as nat)
        }),
{
    let w = payload_words(v.kv, v.tokens, c.n_vocab);
    let count = v.tokens.len() as u32;
    let at = counts_at(c, count);
    let n = c.n_layer as int;
    assert(v.kv.raw.len() == n);
    assert(v.kv.comp.len() == n);
    assert(v.kv.idx.len() == n);
    assert(w.take(13) =~= shape_words(v.kv, v.tokens.len(), c.n_vocab));
    assert(w.subrange(13, 13 + count) =~= v.tokens);
    assert(w.subrange(at, at + n) =~= comp_counts(v.kv));
    assert(w.subrange(at + n, at + 2 * n) =~= idx_counts(v.kv));
    assert(w.skip(at + 2 * n) =~= layers_words(v.kv, n as nat));
}

proof fn saved_shapes(v: SessionView, c: ModelConfig, w: Seq<u32>)
    requires
        is_savable(v, c),
        w.len() >= 13,
        w.take(13) == shape_words(v.kv, v.tokens.len(), c.n_vocab),
    ensures
        shape_fault(w, c, v.tokens.len() as u32) is None,
        w[12] == saved_plan(v).live,
{
    let head = shape_words(v.kv, v.tokens.len(), c.n_vocab);
    assert forall|i: int| 0 <= i < 13 implies w[i] == head[i] by {
        assert(w[i] == w.take(13)[i]);
    }
    assert(v.kv.raw.len() == c.n_layer);
    assert(1 <= v.kv.cap_raw <= 128);
    assert(v.kv.raw[0].len() <= v.kv.cap_raw * 512);
}

proof fn saved_payload(v: SessionView, c: ModelConfig, has_mtp: bool)
    requires
        is_savable(v, c),
        session::session_error(c, has_mtp, v.ctx_size) is None,
    ensures
        ({
            let p = word_bytes(payload_words(v.kv, v.tokens, c.n_vocab));
            let count = v.tokens.len() as u32;
            &&& payload_fault(p, c, has_mtp, count, v.ctx_size) is None
            &&& payload_session(p, c, has_mtp, count, v.ctx_size) == (SessionView {
                tokens: v.tokens,
                pos: v.pos,
                kv: v.kv,
                ..session::fresh_session(c, has_mtp, v.ctx_size)
            })
        }),
{
    let w = payload_words(v.kv, v.tokens, c.n_vocab);
    let count = v.tokens.len() as u32;
    let at = counts_at(c, count);
    let n = c.n_layer as nat;
    words_read_back(w);
    payload_parts(v, c);
    saved_shapes(v, c, w);
    assert forall|i: int| 13 <= i < 13 + count implies #[trigger] w[i] < c.n_vocab by {
        assert(w[i] == w.subrange(13, 13 + count)[i - 13]);
        assert(w[i] == v.tokens[i - 13]);
    }
    no_token_fault(w, count as nat, c.n_vocab);
    no_layer_fault(v, c, w.len() as int, at + 2 * c.n_layer, n);
    saved_caches(v, c, w, at + 2 * c.n_layer);
}

proof fn saved_parts(
    v: SessionView,
    n_vocab: u32,
    rendered: Seq<u8>,
    reason: SaveReason,
    now: u64,
)
    requires
        v.tokens.len() <= v.ctx_size,
        rendered.len() <= u32::MAX,
    ensures
        ({
            let b = saved(v, n_vocab, rendered, reason, now);
            let p = word_bytes(payload_words(v.kv, v.tokens, n_vocab));
            &&& b.len() == 52 + rendered.len() + p.len()
            &&& head_fault(b) is None
            &&& header_count(b) == v.tokens.len()
            &&& header_ctx(b) == v.ctx_size
            &&& text_len(b) == rendered.len()
            &&& b.subrange(52, 52 + text_len(b)) == rendered
            &&& payload_of(b) == p
        }),
{
    let h = saved_header(v, n_vocab, reason, now);
    let p = word_bytes(payload_words(v.kv, v.tokens, n_vocab));
    let rest = le::bytes32(rendered.len() as u32) + rendered + p;
    let b = saved(v, n_vocab, rendered, reason, now);
    assert(b =~= header_bytes(h) + rest);
    header_reads_back(h, rest);
    assert(b.subrange(0, 3) == KVC_MAGIC@);
    assert(b[3] == KVC_VERSION);
    assert forall|j: int| 0 <= j < 4 implies b[48 + j] == #[trigger] le::bytes32(
        rendered.len() as u32,
    )[j] by {}
    le32_of_part(b, 48, rendered.len() as u32);
    assert(b.subrange(52, 52 + text_len(b)) =~= rendered);
    assert(payload_of(b) =~= p);
}

/// Loading the file of a session for the same model gives its tokens, its
/// position, its context size and all its caches back, and the text.
pub proof fn load_restores_what_was_saved(
    v: SessionView,
    c: ModelConfig,
    has_mtp: bool,
    rendered: Seq<u8>,
    reason: SaveReason,
    now: u64,
)
    requires
        is_savable(v, c),
        session::session_error(c, has_mtp, v.ctx_size) is None,
        valid_utf8(rendered),
        rendered.len() <= u32::MAX,
    ensures
        ({
            let b = saved(v, c.n_vocab, rendered, reason, now);
            &&& load_fault(b, c, has_mtp) is None
            &&& loaded(b, c, has_mtp) == (SessionView {
                tokens: v.tokens,
                pos: v.pos,
                kv: v.kv,
                ..session::fresh_session(c, has_mtp, v.ctx_size)
            })
            &&& b.subrange(52, 52 + text_len(b)) == rendered
        }),
{
    reveal(load_fault);
    reveal(loaded);
    saved_parts(v, c.n_vocab, rendered, reason, now);
    saved_payload(v, c, has_mtp);
}

// ---------------------------------------------------------------------------
// Tokens alone
// ---------------------------------------------------------------------------

/// How many of `count` tokens are read if at most `max` are wanted.
pub open spec fn read_count(count: u32, max: Option<usize>) -> int {
    match max {
        Some(m) => if m < count {
            m as int
        } else {
            count as int
        },
        None => count as int,
    }
}

/// What is wrong first with a file of which at most `max` tokens are read.
#[verifier::opaque]
pub open spec fn ids_fault(b: Seq<u8>, max: Option<usize>) -> Option<KvcError> {
    let p = payload_of(b);
    let count = le::le32(p, 28) as u32;
    let n = read_count(count, max);
    if head_fault(b) is Some {
        head_fault(b)
    } else if b.len() < 52 {
        Some(KvcError::Truncated)
    } else if b.len() < 52 + text_len(b) {
        Some(KvcError::SkipPastEnd { n: text_len(b) as u64, got: (b.len() - 52) as u64 })
    } else if p.len() < 4 {
        Some(KvcError::Truncated)
    } else if le::le32(p, 0) != DSV4_MAGIC {
        Some(KvcError::PayloadMagic(le::le32(p, 0) as u32))
    } else if p.len() < 28 {
        Some(KvcError::SkipPastEnd { n: 24, got: (p.len() - 4) as u64 })
    } else if p.len() < 32 {
        Some(KvcError::Truncated)
    } else if count > header_ctx(b) || count > MAX_TOKEN_COUNT {
        Some(KvcError::TokenLimit { count, ctx_size: header_ctx(b) })
    } else if p.len() < 52 {
        Some(KvcError::SkipPastEnd { n: 20, got: (p.len() - 32) as u64 })
    } else if p.len() < 52 + 4 * n {
        Some(KvcError::Truncated)
    } else if p.len() < 52 + 4 * count {
        Some(
            KvcError::SkipPastEnd {
                n: (4 * (count - n)) as u64,
                got: (p.len() - 52 - 4 * n) as u64,
            },
        )
    } else {
        None
    }
}

/// The tokens of a file, at most `max`.
pub open spec fn ids(b: Seq<u8>, max: Option<usize>) -> Seq<u32> {
    weights::words(payload_of(b)).subrange(13, 13 + read_count(ids_count(b), max))
}

/// The number of tokens that a payload states.
pub open spec fn ids_count(b: Seq<u8>) -> u32 {
    le::le32(payload_of(b), 28) as u32
}

/// Reads the tokens of a file without its caches: the tokens, the context size
/// and the number of tokens.
pub fn read_token_ids(b: &[u8]) -> (r: Result<(Vec<u32>, u32, usize), KvcError>)
    ensures
        match r {
            Ok((t, ctx, n)) => ids_fault(b@, None) is None && t@ == ids(b@, None) && ctx
                == header_ctx(b@) && n == ids_count(b@),
            Err(e) => ids_fault(b@, None) == Some(e),
        },
{
    read_token_ids_inner(b, None)
}

/// Like [`read_token_ids`], but reads at most `max` tokens.
pub fn read_token_ids_limited(b: &[u8], max: usize) -> (r: Result<
    (Vec<u32>, u32, usize),
    KvcError,
>)
    ensures
        match r {
            Ok((t, ctx, n)) => ids_fault(b@, Some(max)) is None && t@ == ids(b@, Some(max)) && ctx
                == header_ctx(b@) && n == ids_count(b@),
            Err(e) => ids_fault(b@, Some(max)) == Some(e),
        },
{
    read_token_ids_inner(b, Some(max))
}

fn read_token_ids_inner(b: &[u8], max: Option<usize>) -> (r: Result<
    (Vec<u32>, u32, usize),
    KvcError,
>)
    ensures
        match r {
            Ok((t, ctx, n)) => ids_fault(b@, max) is None && t@ == ids(b@, max) && ctx
                == header_ctx(b@) && n == ids_count(b@),
            Err(e) => ids_fault(b@, max) == Some(e),
        },
{
    reveal(ids_fault);
    let h = match check_head(b) {
        Ok(h) => h,
        Err(e) => return Err(e),
    };
    if b.len() < 52 {
        return Err(KvcError::Truncated);
    }
    let len: usize = get_u32(b, 48) as usize;
    if b.len() - 52 < len {
        return Err(KvcError::SkipPastEnd { n: len as u64, got: (b.len() - 52) as u64 });
    }
    let p = vstd::slice::slice_subrange(b, 52 + len, b.len());
    assert(p@ =~= payload_of(b@));
    if p.len() < 4 {
        return Err(KvcError::Truncated);
    }
    let magic: u32 = get_u32(p, 0);
    if magic != DSV4_MAGIC {
        return Err(KvcError::PayloadMagic(magic));
    }
    if p.len() < 28 {
        return Err(KvcError::SkipPastEnd { n: 24, got: (p.len() - 4) as u64 });
    }
    if p.len() < 32 {
        return Err(KvcError::Truncated);
    }
    let count: u32 = get_u32(p, 28);
    if count > h.context_size || count > MAX_TOKEN_COUNT {
        return Err(KvcError::TokenLimit { count, ctx_size: h.context_size });
    }
    if p.len() < 52 {
        return Err(KvcError::SkipPastEnd { n: 20, got: (p.len() - 32) as u64 });
    }
    let n: usize = match max {
        Some(m) => if m < count as usize {
            m
        } else {
            count as usize
        },
        None => count as usize,
    };
    if p.len() - 52 < 4 * n {
        return Err(KvcError::Truncated);
    }
    let t: Vec<u32> = take_words(p, 13, n);
    let left: usize = p.len() - 52 - 4 * n;
    if left < 4 * (count as usize - n) {
        return Err(
            KvcError::SkipPastEnd { n: (4 * (count as usize - n)) as u64, got: left as u64 },
        );
    }
    Ok((t, h.context_size, count as usize))
}

/// The tokens of a saved session can be read without its caches.
pub proof fn saved_tokens_read_back(
    v: SessionView,
    n_vocab: u32,
    rendered: Seq<u8>,
    reason: SaveReason,
    now: u64,
)
    requires
        v.tokens.len() <= v.ctx_size,
        v.tokens.len() <= MAX_TOKEN_COUNT,
        rendered.len() <= u32::MAX,
    ensures
        ({
            let b = saved(v, n_vocab, rendered, reason, now);
            &&& ids_fault(b, None) is None
            &&& ids(b, None) == v.tokens
            &&& ids_count(b) == v.tokens.len()
            &&& header_ctx(b) == v.ctx_size
        }),
{
    let w = payload_words(v.kv, v.tokens, n_vocab);
    saved_parts(v, n_vocab, rendered, reason, now);
    payload_starts(v.kv, v.tokens, n_vocab);
    tokens_of_words(saved(v, n_vocab, rendered, reason, now), w, v.tokens);
}

proof fn payload_starts(v: KvView, tokens: Seq<u32>, n_vocab: u32)
    requires
        tokens.len() <= u32::MAX,
    ensures
        ({
            let w = payload_words(v, tokens, n_vocab);
            &&& w.len() >= 13 + tokens.len()
            &&& w[0] == DSV4_MAGIC
            &&& w[7] == tokens.len()
            &&& w.subrange(13, 13 + tokens.len() as int) == tokens
        }),
{
    let head = shape_words(v, tokens.len(), n_vocab);
    let tail = bits::splat(ZERO, n_vocab as nat) + comp_counts(v) + idx_counts(v) + layers_words(
        v,
        v.raw.len(),
    );
    let w = payload_words(v, tokens, n_vocab);
    assert(head.len() == 13);
    assert(head[0] == DSV4_MAGIC && head[7] == tokens.len() as u32);
    assert(w =~= head + tokens + tail);
    assert(w.subrange(13, 13 + tokens.len() as int) =~= tokens);
}

proof fn tokens_of_words(b: Seq<u8>, w: Seq<u32>, tokens: Seq<u32>)
    requires
        head_fault(b) is None,
        b.len() == 52 + text_len(b) + word_bytes(w).len(),
        payload_of(b) == word_bytes(w),
        w.len() >= 13 + tokens.len(),
        w[0] == DSV4_MAGIC,
        w[7] == tokens.len(),
        w.subrange(13, 13 + tokens.len() as int) == tokens,
        tokens.len() <= header_ctx(b),
        tokens.len() <= MAX_TOKEN_COUNT,
    ensures
        ids_fault(b, None) is None,
        ids(b, None) == tokens,
        ids_count(b) == tokens.len(),
{
    reveal(ids_fault);
    words_read_back(w);
    word_bytes_at(w, 0);
    word_bytes_at(w, 7);
}

// ---------------------------------------------------------------------------
// Prefixes
// ---------------------------------------------------------------------------

/// How much of `query` a saved session covers: all its `total` tokens, of which
/// `cached` were read, must be the first of the query.
pub open spec fn match_len(cached: Seq<u32>, total: int, query: Seq<u32>) -> Option<usize> {
    if 0 < cached.len() && cached.len() <= query.len() && cached == query.take(
        cached.len() as int,
    ) && total <= query.len() {
        Some(cached.len() as usize)
    } else {
        None
    }
}

/// How much of `query` the session in a file covers; files that cannot be read
/// cover nothing.
pub open spec fn file_match(b: Seq<u8>, query: Seq<u32>) -> Option<usize> {
    let max = Some(query.len() as usize);
    if ids_fault(b, max) is Some {
        None
    } else {
        match_len(ids(b, max), ids_count(b) as int, query)
    }
}

fn match_file(b: &[u8], query: &[u32]) -> (r: Option<usize>)
    ensures
        r == file_match(b@, query@),
{
    match read_token_ids_limited(b, query.len()) {
        Err(_) => None,
        Ok((cached, _, total)) => {
            let common: usize = common_prefix_len(cached.as_slice(), query);
            proof {
                if cached@.len() <= query@.len() && cached@ == query@.take(cached@.len() as int) {
                    assert(cached@.take(cached@.len() as int) =~= cached@);
                    session::common_prefix_is_longest(
                        cached@,
                        query@,
                        common as int,
                        cached@.len() as int,
                    );
                }
                if common == cached@.len() {
                    assert(cached@.take(common as int) =~= cached@);
                }
            }
            if common > 0 && common == cached.len() && total <= query.len() {
                Some(common)
            } else {
                None
            }
        },
    }
}

/// The session in file `i` covers `n` tokens of `query`, no other covers more,
/// and none before it covers as many.
pub open spec fn is_best_match(files: Seq<Vec<u8>>, query: Seq<u32>, i: int, n: usize) -> bool {
    &&& 0 <= i < files.len()
    &&& file_match(files[i]@, query) == Some(n)
    &&& forall|j: int|
        0 <= j < files.len() ==> match file_match((#[trigger] files[j])@, query) {
            Some(m) => m <= n && (j < i ==> m < n),
            None => true,
        }
}

/// The file whose session covers most of `query`, and how much; the first of
/// several.
pub fn find_prefix_match(files: &Vec<Vec<u8>>, query: &[u32]) -> (r: Option<(usize, usize)>)
    ensures
        match r {
            Some((i, n)) => is_best_match(files@, query@, i as int, n),
            None => forall|j: int|
                0 <= j < files@.len() ==> file_match((#[trigger] files@[j])@, query@) is None,
        },
{
    let mut best: Option<(usize, usize)> = None;
    let mut k: usize = 0;
    while k < files.len()
        invariant
            k <= files.len(),
            match best {
                Some((i, n)) => {
                    &&& 0 <= i < k
                    &&& file_match(files@[i as int]@, query@) == Some(n)
                    &&& forall|j: int|
                        0 <= j < k ==> match file_match((#[trigger] files@[j])@, query@) {
                            Some(m) => m <= n && (j < i ==> m < n),
                            None => true,
                        }
                },
                None => forall|j: int|
                    0 <= j < k ==> file_match((#[trigger] files@[j])@, query@) is None,
            },
        decreases files.len() - k,
    {
        match match_file(files[k].as_slice(), query) {
            None => {},
            Some(m) => {
                best = match best {
                    None => Some((k, m)),
                    Some((i, n)) => if m > n {
                        Some((k, m))
                    } else {
                        Some((i, n))
                    },
                };
            },
        }
        k += 1;
    }
    best
}

/// A session that covers `n` tokens of a query holds exactly those tokens, if
/// it can be loaded.
pub proof fn match_holds_the_prefix(
    b: Seq<u8>,
    query: Seq<u32>,
    n: usize,
    c: ModelConfig,
    has_mtp: bool,
)
    requires
        file_match(b, query) == Some(n),
        query.len() <= usize::MAX,
        load_fault(b, c, has_mtp) is None,
    ensures
        n <= query.len(),
        loaded(b, c, has_mtp).tokens == query.take(n as int),
{
    reveal(load_fault);
    reveal(loaded);
    reveal(ids_fault);
    let p = payload_of(b);
    let w = weights::words(p);
    assert(w[7] == le::le32(p, 28));
    assert(ids(b, Some(query.len() as usize)) == w.subrange(13, 13 + header_count(b)));
}

/// Loads the session that covers most of `query`, and gives the tokens that are
/// left.
pub fn load_prefix_match(
    files: &Vec<Vec<u8>>,
    query: &[u32],
    config: &ModelConfig,
    has_mtp: bool,
) -> (r: Result<Option<(Session, Vec<u32>)>, KvcError>)
    requires
        has_mtp ==> 16 * config.n_embd <= usize::MAX,
    ensures
        match r {
            Ok(Some((s, suffix))) => exists|i: int, n: usize|
                {
                    &&& #[trigger] is_best_match(files@, query@, i, n)
                    &&& load_fault(files@[i]@, *config, has_mtp) is None
                    &&& s.wf()
                    &&& session::is_idle(s@)
                    &&& s@ == loaded(files@[i]@, *config, has_mtp)
                    &&& s@.tokens == query@.take(n as int)
                    &&& suffix@ == query@.skip(n as int)
                    &&& s@.tokens + suffix@ == query@
                },
            Ok(None) => forall|j: int|
                0 <= j < files@.len() ==> file_match((#[trigger] files@[j])@, query@) is None,
            Err(e) => exists|i: int, n: usize|
                #[trigger] is_best_match(files@, query@, i, n) && load_fault(
                    files@[i]@,
                    *config,
                    has_mtp,
                ) == Some(e),
        },
{
    match find_prefix_match(files, query) {
        None => Ok(None),
        Some((i, n)) => {
            assert(is_best_match(files@, query@, i as int, n));
            match load_session(files[i].as_slice(), config, has_mtp) {
                Err(e) => Err(e),
                Ok((s, _)) => {
                    proof {
                        assert(query.len() == query@.len());
                        match_holds_the_prefix(files@[i as int]@, query@, n, *config, has_mtp);
                    }
                    let mut suffix: Vec<u32> = Vec::new();
                    let rest = vstd::slice::slice_subrange(query, n, query.len());
                    suffix.extend_from_slice(rest);
                    assert(suffix@ =~= query@.skip(n as int));
                    assert(s@.tokens + suffix@ =~= query@);
                    Ok(Some((s, suffix)))
                },
            }
        },
    }
}

// ---------------------------------------------------------------------------
// The layout of a file
// ---------------------------------------------------------------------------

/// The numbers of the reasons.
pub proof fn reasons_have_fixed_numbers()
    ensures
        SaveReason::Cold.number() == 0,
        SaveReason::Continued.number() == 1,
        SaveReason::Evict.number() == 2,
        SaveReason::Shutdown.number() == 3,
        SaveReason::Manual.number() == 4,
{
}

/// The places of the fields in a header.
pub proof fn a_header_field_by_field(b: Seq<u8>, h: KvcHeader)
    requires
        starts_with_header(b, h),
    ensures
        b.len() >= 48,
        b[0] == h.magic[0] && b[1] == h.magic[1] && b[2] == h.magic[2],
        b[3] == h.version,
        b[4] == h.routed_quant_bits,
        b[5] == h.save_reason,
        b[6] == h.reserved[0] && b[7] == h.reserved[1],
        le::le32(b, 8) == h.cached_token_count,
        le::le32(b, 12) == h.hit_count,
        le::le32(b, 16) == h.context_size,
        le::le64(b, 24) == h.creation_time,
        le::le64(b, 32) == h.last_used_time,
        le::le64(b, 40) == h.payload_bytes,
{
    assert(h.magic@[0] == b.subrange(0, 3)[0]);
    assert(h.magic@[1] == b.subrange(0, 3)[1]);
    assert(h.magic@[2] == b.subrange(0, 3)[2]);
    assert(h.reserved@[0] == b.subrange(6, 8)[0]);
    assert(h.reserved@[1] == b.subrange(6, 8)[1]);
}

/// A header is accepted exactly if it starts with the letters KVC and version 1.
pub proof fn a_header_starts_with_letters_and_version(b: Seq<u8>)
    ensures
        head_fault(b) is None <==> b.len() >= 48 && b[0] == 0x4B && b[1] == 0x56 && b[2] == 0x43
            && b[3] == 1,
{
    if b.len() >= 48 {
        let s = b.subrange(0, 3);
        assert(KVC_MAGIC@.len() == 3 && KVC_MAGIC@[0] == 0x4B && KVC_MAGIC@[1] == 0x56
            && KVC_MAGIC@[2] == 0x43);
        assert(s[0] == b[0] && s[1] == b[1] && s[2] == b[2]);
        if b[0] == 0x4B && b[1] == 0x56 && b[2] == 0x43 {
            assert(s =~= KVC_MAGIC@);
        }
    }
}

/// The header of a saved session: the letters KVC, version 1, two bits for each
/// weight, the reason, the number of tokens, no hits, the context size, twice the
/// time, and the bytes of the payload.
pub proof fn a_saved_file_starts_with_its_header(
    v: SessionView,
    n_vocab: u32,
    rendered: Seq<u8>,
    reason: SaveReason,
    now: u64,
)
    requires
        v.tokens.len() <= u32::MAX,
        4 * payload_words(v.kv, v.tokens, n_vocab).len() <= u64::MAX,
    ensures
        ({
            let b = saved(v, n_vocab, rendered, reason, now);
            &&& b.len() >= 48
            &&& b[0] == 0x4B && b[1] == 0x56 && b[2] == 0x43 && b[3] == 1
            &&& b[4] == 2
            &&& b[5] == reason.number()
            &&& le::le32(b, 8) == v.tokens.len()
            &&& le::le32(b, 12) == 0
            &&& le::le32(b, 16) == v.ctx_size
            &&& le::le64(b, 24) == now
            &&& le::le64(b, 32) == now
            &&& le::le64(b, 40) == 4 * payload_words(v.kv, v.tokens, n_vocab).len()
        }),
{
    let h = saved_header(v, n_vocab, reason, now);
    let b = saved(v, n_vocab, rendered, reason, now);
    let rest = le::bytes32(rendered.len() as u32) + rendered + word_bytes(
        payload_words(v.kv, v.tokens, n_vocab),
    );
    assert(b =~= header_bytes(h) + rest);
    header_reads_back(h, rest);
    a_header_field_by_field(b, h);
}

/// Behind the header of a saved session come the length of the text, the text, and
/// the bytes of the payload, and nothing else.
pub proof fn text_and_payload_follow_the_header(
    v: SessionView,
    n_vocab: u32,
    rendered: Seq<u8>,
    reason: SaveReason,
    now: u64,
    p: Seq<u8>,
    i: int,
)
    requires
        v.tokens.len() <= v.ctx_size,
        rendered.len() <= u32::MAX,
        p == word_bytes(payload_words(v.kv, v.tokens, n_vocab)),
    ensures
        ({
            let b = saved(v, n_vocab, rendered, reason, now);
            &&& b.len() == 52 + rendered.len() + p.len()
            &&& le::le32(b, 48) == rendered.len()
            &&& 0 <= i < rendered.len() ==> b[52 + i] == rendered[i]
            &&& 0 <= i < p.len() ==> b[52 + rendered.len() + i] == p[i]
        }),
{
    saved_parts(v, n_vocab, rendered, reason, now);
    text_and_bytes(saved(v, n_vocab, rendered, reason, now), rendered, p, i);
}

proof fn text_and_bytes(b: Seq<u8>, rendered: Seq<u8>, p: Seq<u8>, i: int)
    requires
        b.len() == 52 + rendered.len() + p.len(),
        text_len(b) == rendered.len(),
        b.subrange(52, 52 + text_len(b)) == rendered,
        payload_of(b) == p,
    ensures
        le::le32(b, 48) == rendered.len(),
        0 <= i < rendered.len() ==> b[52 + i] == rendered[i],
        0 <= i < p.len() ==> b[52 + rendered.len() + i] == p[i],
{
    if 0 <= i < rendered.len() {
        assert(b.subrange(52, 52 + text_len(b))[i] == rendered[i]);
    }
    if 0 <= i < p.len() {
        assert(payload_of(b)[i] == b[52 + rendered.len() + i]);
    }
}

/// A payload, word by word: the letters DSV4, version 1, then the shapes and the
/// counts, the tokens, a zero for every score, the number of rows of every
/// compressor and of every indexer, and then the layers.
pub proof fn a_payload_word_by_word(v: KvView, tokens: Seq<u32>, n_vocab: u32, i: int)
    requires
        v.raw.len() > 0,
        v.comp.len() == v.raw.len(),
        v.idx.len() == v.raw.len(),
        v.raw.len() <= u32::MAX,
        v.cap_raw <= u32::MAX,
        tokens.len() <= u32::MAX,
    ensures
        ({
            let w = payload_words(v, tokens, n_vocab);
            let n = v.raw.len() as int;
            let at = 13 + tokens.len() + n_vocab;
            &&& w.len() == at + 2 * n + layers_words(v, n as nat).len()
            &&& w[0] == 0x44 + 256 * 0x53 + 65536 * 0x56 + 16777216 * 0x34
            &&& w[1] == 1
            &&& w[2] == v.cap_raw && w[4] == v.cap_raw
            &&& w[3] == 0 && w[6] == 0
            &&& w[5] == 128 && w[9] == 512 && w[10] == 128
            &&& w[7] == tokens.len()
            &&& w[8] == n
            &&& w[11] == n_vocab
            &&& v.raw[0].len() == 512 * i && i <= u32::MAX ==> w[12] == i
            &&& 0 <= i < tokens.len() ==> w[13 + i] == tokens[i]
            &&& 0 <= i < n_vocab ==> w[13 + tokens.len() + i] == 0
            &&& 0 <= i < n && v.comp[i] is None ==> w[at + i] == 0
            &&& 0 <= i < n && v.idx[i] is None ==> w[at + n + i] == 0
            &&& 0 <= i < n ==> (v.comp[i] matches Some(l) ==> l.rows.len() as int / 512 <= u32::MAX
                ==> w[at + i] == l.rows.len() as int / 512)
            &&& 0 <= i < n ==> (v.idx[i] matches Some(l) ==> l.rows.len() as int / 128 <= u32::MAX
                ==> w[at + n + i] == l.rows.len() as int / 128)
            &&& 0 <= i < layers_words(v, n as nat).len() ==> w[at + 2 * n + i] == layers_words(
                v,
                n as nat,
            )[i]
        }),
{
    let head = shape_words(v, tokens.len(), n_vocab);
    let w = payload_words(v, tokens, n_vocab);
    assert(head.len() == 13);
    assert(forall|k: int| 0 <= k < 13 ==> #[trigger] w[k] == head[k]);
    assert(w[0] == head[0] && w[1] == head[1] && w[2] == head[2] && w[3] == head[3]);
    assert(w[4] == head[4] && w[5] == head[5] && w[6] == head[6] && w[7] == head[7]);
    assert(w[8] == head[8] && w[9] == head[9] && w[10] == head[10] && w[11] == head[11]);
    assert(w[12] == head[12]);
}

/// A layer holds its ring, then the rows, the state and the scores of its
/// compressor, and then those of its indexer; the layers follow each other.
pub proof fn layers_follow_each_other(v: KvView, n: nat, c: LaneView, x: LaneView, i: int)
    requires
        n < v.raw.len(),
        v.comp.len() == v.raw.len(),
        v.idx.len() == v.raw.len(),
        v.comp[n as int] matches Some(l) ==> l == c,
        v.comp[n as int] is None ==> c.rows.len() == 0 && c.kv.len() == 0 && c.score.len() == 0,
        v.idx[n as int] matches Some(l) ==> l == x,
        v.idx[n as int] is None ==> x.rows.len() == 0 && x.kv.len() == 0 && x.score.len() == 0,
    ensures
        layers_words(v, 0).len() == 0,
        ({
            let before = layers_words(v, n);
            let w = layers_words(v, n + 1);
            let raw = v.raw[n as int];
            let a = before.len() as int;
            let k = a + raw.len();
            let m = k + c.rows.len() + c.kv.len() + c.score.len();
            &&& w.len() == m + x.rows.len() + x.kv.len() + x.score.len()
            &&& 0 <= i < a ==> w[i] == before[i]
            &&& 0 <= i < raw.len() ==> w[a + i] == raw[i]
            &&& 0 <= i < c.rows.len() ==> w[k + i] == c.rows[i]
            &&& 0 <= i < c.kv.len() ==> w[k + c.rows.len() + i] == c.kv[i]
            &&& 0 <= i < c.score.len() ==> w[k + c.rows.len() + c.kv.len() + i] == c.score[i]
            &&& 0 <= i < x.rows.len() ==> w[m + i] == x.rows[i]
            &&& 0 <= i < x.kv.len() ==> w[m + x.rows.len() + i] == x.kv[i]
            &&& 0 <= i < x.score.len() ==> w[m + x.rows.len() + x.kv.len() + i] == x.score[i]
        }),
{
    let before = layers_words(v, n);
    let raw = v.raw[n as int];
    let cw = lane_words(v.comp[n as int]);
    let xw = lane_words(v.idx[n as int]);
    assert(cw =~= c.rows + c.kv + c.score);
    assert(xw =~= x.rows + x.kv + x.score);
    assert(layers_words(v, n + 1) =~= before + raw + cw + xw);
}

/// Words are written lowest byte first, one behind the other.
pub proof fn a_word_is_written_in_four_bytes(words: Seq<u32>, i: int)
    requires
        0 <= i < words.len(),
    ensures
        ({
            let b = word_bytes(words);
            &&& b.len() == 4 * words.len()
            &&& words[i] == b[4 * i] + 256 * b[4 * i + 1] + 65536 * b[4 * i + 2] + 16777216 * b[4
                * i + 3]
        }),
{
    word_bytes_at(words, i);
}

/// A ring that is too small for the rows of a file keeps the last ones.
pub proof fn the_last_rows_are_kept(rows: Seq<u32>, cap: nat, i: int)
    requires
        0 <= i,
    ensures
        rows.len() <= cap * 512 ==> last_rows(rows, cap) == rows,
        rows.len() > cap * 512 ==> last_rows(rows, cap).len() == cap * 512,
        rows.len() > cap * 512 && i < cap * 512 ==> last_rows(rows, cap)[cap * 512 - 1 - i]
            == rows[rows.len() - 1 - i],
{
}

/// The shapes of a payload are accepted exactly if they are those of the model, the
/// number of tokens is that of the header, and no ring holds more rows than the
/// file's limits allow.
pub proof fn shapes_are_those_of_the_model(w: Seq<u32>, c: ModelConfig, count: u32)
    ensures
        shape_fault(w, c, count) is None <==> w.len() >= 13 && {
            &&& w[0] == 0x3456_5344
            &&& w[7] == count
            &&& w[8] == c.n_layer
            &&& w[9] == 512
            &&& w[10] == 128
            &&& w[11] == c.n_vocab
            &&& w[12] <= w[4]
            &&& w[12] <= kv_cache::ring_cap(w[2] as nat)
        },
{
}

/// A file that can be loaded holds its tokens from word 13 of its payload on, all
/// of them in the vocabulary and no more than the context has room for, and all of
/// them have been evaluated.
pub proof fn loaded_tokens_are_those_of_the_file(
    b: Seq<u8>,
    c: ModelConfig,
    has_mtp: bool,
    i: int,
)
    requires
        load_fault(b, c, has_mtp) is None,
    ensures
        ({
            let s = loaded(b, c, has_mtp);
            let at = 52 + le::le32(b, 48);
            &&& b.len() >= at + 52
            &&& s.tokens.len() == le::le32(b, 8)
            &&& s.pos == s.tokens.len()
            &&& s.ctx_size == le::le32(b, 16)
            &&& s.tokens.len() <= s.ctx_size
            &&& 0 <= i < s.tokens.len() ==> s.tokens[i] == le::le32(b, at + 52 + 4 * i)
                && s.tokens[i] < c.n_vocab
            &&& le::le32(b, at) == 0x3456_5344
            &&& le::le32(b, at + 28) == s.tokens.len()
        }),
{
    reveal(load_fault);
    reveal(loaded);
    let p = payload_of(b);
    let w = weights::words(p);
    let at = 52 + text_len(b);
    let count = header_count(b);
    le::bytes32_of_le32(b, 8);
    le::bytes32_of_le32(b, 16);
    le::bytes32_of_le32(b, 48);
    assert(forall|j: int| 0 <= j < p.len() ==> #[trigger] p[j] == b[at + j]);
    payload_word(b, p, at, 0);
    payload_word(b, p, at, 7);
    tokens_in_vocabulary(w, count as nat, c.n_vocab, i);
    if 0 <= i < count {
        payload_word(b, p, at, 13 + i);
    }
}

proof fn payload_word(b: Seq<u8>, p: Seq<u8>, at: int, k: int)
    requires
        0 <= at,
        0 <= k,
        4 * k + 4 <= p.len(),
        p.len() == b.len() - at,
        forall|j: int| 0 <= j < p.len() ==> #[trigger] p[j] == b[at + j],
    ensures
        weights::words(p)[k] == le::le32(b, at + 4 * k),
{
    assert(p[4 * k] == b[at + 4 * k] && p[4 * k + 1] == b[at + 4 * k + 1]);
    assert(p[4 * k + 2] == b[at + 4 * k + 2] && p[4 * k + 3] == b[at + 4 * k + 3]);
    weights::a_word_takes_four_bytes(p, k);
}

proof fn tokens_in_vocabulary(w: Seq<u32>, n: nat, vocab: u32, i: int)
    requires
        tokens_fault(w, n, vocab) is None,
        w.len() >= 13,
    ensures
        w.len() >= 13 + n,
        0 <= i < n ==> w[13 + i] < vocab,
    decreases n,
{
    if n > 0 {
        tokens_in_vocabulary(w, (n - 1) as nat, vocab, i);
    }
}

/// Reading at most `max` tokens gives the first ones of all, and the number of all.
pub proof fn a_limited_read_gives_the_first_tokens(b: Seq<u8>, max: usize, i: int)
    requires
        ids_fault(b, None) is None,
    ensures
        ids_fault(b, Some(max)) is None,
        ids(b, None).len() == ids_count(b),
        ids(b, Some(max)).len() == if max < ids_count(b) {
            max as int
        } else {
            ids_count(b) as int
        },
        0 <= i < ids(b, Some(max)).len() ==> ids(b, Some(max))[i] == ids(b, None)[i],
        0 <= i < ids_count(b) ==> ids(b, None)[i] == le::le32(b, 104 + le::le32(b, 48) + 4 * i),
        ids_count(b) == le::le32(b, 80 + le::le32(b, 48)),
        ids_count(b) <= le::le32(b, 16),
        ids_count(b) <= 1000000,
{
    reveal(ids_fault);
    let p = payload_of(b);
    let at = 52 + text_len(b);
    le::bytes32_of_le32(b, 16);
    le::bytes32_of_le32(b, 48);
    assert(forall|j: int| 0 <= j < p.len() ==> #[trigger] p[j] == b[at + j]);
    payload_word(b, p, at, 7);
    weights::a_word_takes_four_bytes(p, 7);
    if 0 <= i < ids_count(b) {
        payload_word(b, p, at, 13 + i);
    }
}

/// The session in a saved file covers a query exactly if it holds tokens and these
/// are the first of the query, and then it covers as many as it holds.
pub proof fn a_saved_session_covers_what_it_starts(
    v: SessionView,
    n_vocab: u32,
    rendered: Seq<u8>,
    reason: SaveReason,
    now: u64,
    query: Seq<u32>,
)
    requires
        v.tokens.len() <= v.ctx_size,
        v.tokens.len() <= 1000000,
        rendered.len() <= u32::MAX,
        query.len() <= usize::MAX,
    ensures
        ({
            let m = file_match(saved(v, n_vocab, rendered, reason, now), query);
            &&& m is Some <==> v.tokens.len() > 0 && v.tokens.is_prefix_of(query)
            &&& m matches Some(n) ==> n == v.tokens.len()
        }),
{
    let b = saved(v, n_vocab, rendered, reason, now);
    let max = query.len() as usize;
    saved_tokens_read_back(v, n_vocab, rendered, reason, now);
    a_limited_read_gives_the_first_tokens(b, max, 0);
    let read = ids(b, Some(max));
    assert forall|i: int| 0 <= i < read.len() implies read[i] == v.tokens[i] by {
        a_limited_read_gives_the_first_tokens(b, max, i);
    }
    if v.tokens.len() <= query.len() {
        assert(read =~= v.tokens);
        assert(v.tokens.is_prefix_of(query) <==> v.tokens == query.take(v.tokens.len() as int));
    }
}

/// Of several files the one that covers most is taken, and the first of those that
/// cover as much.
pub proof fn the_longest_match_is_taken(
    files: Seq<Vec<u8>>,
    query: Seq<u32>,
    i: int,
    n: usize,
    j: int,
    m: usize,
)
    requires
        is_best_match(files, query, i, n),
        0 <= j < files.len(),
        file_match(files[j]@, query) == Some(m),
    ensures
        m <= n,
        m == n ==> i <= j,
        file_match(files[i]@, query) == Some(n),
{
    assert(match file_match(files[j]@, query) {
        Some(k) => k <= n && (j < i ==> k < n),
        None => true,
    });
}

/// What is wrong first with a header is reported with what was found.
pub proof fn a_wrong_header_is_reported(b: Seq<u8>)
    ensures
        b.len() < 48 ==> head_fault(b) == Some(KvcError::Truncated),
        b.len() >= 48 && !(b[0] == 0x4B && b[1] == 0x56 && b[2] == 0x43) ==> head_fault(b) == Some(
            KvcError::Magic { a: b[0], b: b[1], c: b[2] },
        ),
        b.len() >= 48 && b[0] == 0x4B && b[1] == 0x56 && b[2] == 0x43 && b[3] != 1 ==> head_fault(b)
            == Some(KvcError::Version(b[3])),
{
    if b.len() >= 48 {
        let s = b.subrange(0, 3);
        assert(KVC_MAGIC@.len() == 3 && KVC_MAGIC@[0] == 0x4B && KVC_MAGIC@[1] == 0x56
            && KVC_MAGIC@[2] == 0x43);
        assert(s[0] == b[0] && s[1] == b[1] && s[2] == b[2]);
        if b[0] == 0x4B && b[1] == 0x56 && b[2] == 0x43 {
            assert(s =~= KVC_MAGIC@);
        }
    }
}

/// Shapes that differ from the model's are reported with both numbers.
pub proof fn other_shapes_are_reported(w: Seq<u32>, c: ModelConfig, count: u32)
    requires
        w.len() >= 13,
        w[0] == 0x3456_5344,
    ensures
        w[8] != c.n_layer ==> shape_fault(w, c, count) == Some(
            KvcError::Layers { file: w[8], engine: c.n_layer },
        ),
        w[8] == c.n_layer && w[9] == 512 && w[10] == 128 && w[11] != c.n_vocab ==> shape_fault(
            w,
            c,
            count,
        ) == Some(KvcError::Vocab { file: w[11], engine: c.n_vocab }),
        w[8] == c.n_layer && w[9] == 512 && w[10] == 128 && w[11] == c.n_vocab && w[7] != count
            ==> shape_fault(w, c, count) == Some(
            KvcError::TokenCount { payload: w[7], header: count },
        ),
{
}

/// The text of a file that can be loaded is UTF-8 and lies within the file.
pub proof fn the_text_must_be_utf8(b: Seq<u8>, c: ModelConfig, has_mtp: bool)
    requires
        head_fault(b) is None,
    ensures
        load_fault(b, c, has_mtp) is None ==> b.len() >= 52 + le::le32(b, 48) && valid_utf8(
            b.subrange(52, 52 + le::le32(b, 48)),
        ),
        b.len() >= 52 && b.len() >= 52 + le::le32(b, 48) && !valid_utf8(
            b.subrange(52, 52 + le::le32(b, 48)),
        ) ==> load_fault(b, c, has_mtp) == Some(KvcError::NotUtf8),
        b.len() >= 52 && b.len() < 52 + le::le32(b, 48) ==> load_fault(b, c, has_mtp) == Some(
            KvcError::Truncated,
        ),
{
    reveal(load_fault);
}

/// The numbers of a message stand in this order.
pub proof fn messages_name_what_was_found(a: u32, b: u32, n: u64, m: u64)
    ensures
        (KvcError::SkipPastEnd { n, got: m }).text() == "KVC: unexpected EOF while skipping "@
            + text::decimal(n as nat) + " bytes (got "@ + text::decimal(m as nat) + ")"@,
        (KvcError::Layers { file: a, engine: b }).text() == "DSV4: layer_count mismatch: file="@
            + text::decimal(a as nat) + ", engine="@ + text::decimal(b as nat),
        (KvcError::Vocab { file: a, engine: b }).text() == "DSV4: vocab_size mismatch: file="@
            + text::decimal(a as nat) + ", engine="@ + text::decimal(b as nat),
        (KvcError::TokenCount { payload: a, header: b }).text()
            == "DSV4: token_count mismatch: payload="@ + text::decimal(a as nat) + ", header="@
            + text::decimal(b as nat),
        (KvcError::RawLive { live: a, cap: b }).text() == "DSV4: raw_live ("@ + text::decimal(
            a as nat,
        ) + ") > raw_cap ("@ + text::decimal(b as nat) + ")"@,
        (KvcError::TokenContext { count: a, ctx_size: b }).text() == "DSV4: token_count "@
            + text::decimal(a as nat) + " exceeds context_size "@ + text::decimal(b as nat),
        (KvcError::TokenId { token: a, vocab: b }).text() == "DSV4: token ID "@ + text::decimal(
            a as nat,
        ) + " >= vocab_size "@ + text::decimal(b as nat),
        KvcError::PayloadMagic(a).text() == "KVC/DSV4: bad magic: 0x"@ + text::upper_hex(
            a as nat,
            8,
        ),
{
}

} // verus!
