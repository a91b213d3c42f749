//! An inference session: its tokens, its scores and its caches.
//!
//! Computing the scores of a token is left to the caller. An operation that
//! needs them starts a [`Run`]; while the run is pending, the caller evaluates
//! the token at [`Session::pos`], which fills the cache of the session, and
//! hands the outcome to [`Session::resume`].

use vstd::prelude::*;

use crate::bits;
use crate::bits::{fill, Bits32, ZERO};
use crate::config::ModelConfig;
use crate::float;
use crate::float::best_outside;
use crate::model::kv_cache;
use crate::model::kv_cache::{CacheError, KvCache, KvCacheSnapshot, KvView};
use crate::mtp;
use crate::mtp::{MtpError, MtpState, MtpView};
use crate::text;
use crate::text::{lit, with_num, with_nums};

verus! {

// ---------------------------------------------------------------------------
// Errors
// ---------------------------------------------------------------------------

/// Why an operation was refused.
#[derive(Clone, Copy, Debug, PartialEq, Eq, Structural)]
pub enum SessionError {
    /// The width of all query heads cannot be counted.
    QOverflow,
    /// The cache cannot be built.
    Cache(CacheError),
    /// The state of the draft model cannot be built.
    Mtp(MtpError),
    /// The tokens cannot be counted.
    PrefillLen,
    /// The prompt does not fit into the context.
    PrefillContext { len: usize, ctx_size: u32 },
    /// The context is full.
    EvalContext { len: usize, ctx_size: u32 },
    /// Restored tokens do not fit into the context.
    RestoreContext { len: usize, ctx_size: u32 },
    /// There is no last token.
    Empty,
    /// There are no scores to continue from.
    NoLogits,
    /// There are no scores to verify a draft with.
    NoVerifyLogits,
}

impl SessionError {
    /// The words of the message.
    pub open spec fn text(self) -> Seq<char> {
        match self {
            SessionError::QOverflow => "Session: Q dimension overflow"@,
            SessionError::Cache(e) => e.text(),
            SessionError::Mtp(e) => e.text(),
            SessionError::PrefillLen => "prefill would overflow token buffer length"@,
            SessionError::PrefillContext { len, ctx_size } =>
                "prefill context overflow: final length "@ + text::decimal(len as nat)
                + " exceeds ctx_size "@ + text::decimal(ctx_size as nat) + ""@,
            SessionError::EvalContext { len, ctx_size } => "eval_token context overflow: pos "@
                + text::decimal(len as nat) + " >= ctx_size "@ + text::decimal(ctx_size as nat)
                + ""@,
            SessionError::RestoreContext { len, ctx_size } => "restore_from_tokens: "@
                + text::decimal(len as nat) + " tokens exceeds ctx_size "@ + text::decimal(
                ctx_size as nat,
            ) + ""@,
            SessionError::Empty => "recompute_last_logits: session is empty"@,
            SessionError::NoLogits => "speculative: no logits"@,
            SessionError::NoVerifyLogits => "speculative: empty logits during verification"@,
        }
    }

    /// A message for people.
    pub fn message(&self) -> (s: String)
        ensures
            s@ == self.text(),
    {
        match self {
            SessionError::QOverflow => lit("Session: Q dimension overflow"),
            SessionError::Cache(e) => e.message(),
            SessionError::Mtp(e) => e.message(),
            SessionError::PrefillLen => lit("prefill would overflow token buffer length"),
            SessionError::PrefillContext { len, ctx_size } => with_nums(
                "prefill context overflow: final length ",
                *len as u64,
                " exceeds ctx_size ",
                *ctx_size as u64,
                "",
            ),
            SessionError::EvalContext { len, ctx_size } => with_nums(
                "eval_token context overflow: pos ",
                *len as u64,
                " >= ctx_size ",
                *ctx_size as u64,
                "",
            ),
            SessionError::RestoreContext { len, ctx_size } => with_nums(
                "restore_from_tokens: ",
                *len as u64,
                " tokens exceeds ctx_size ",
                *ctx_size as u64,
                "",
            ),
            SessionError::Empty => lit("recompute_last_logits: session is empty"),
            SessionError::NoLogits => lit("speculative: no logits"),
            SessionError::NoVerifyLogits => lit("speculative: empty logits during verification"),
        }
    }
}

// ---------------------------------------------------------------------------
// State
// ---------------------------------------------------------------------------

/// Most scores: there is one for each token.
pub const MAX_SCORES: u64 = 0x1_0000_0000;

/// An inference session.
pub struct Session {
    tokens: Vec<u32>,
    pos: u32,
    ctx_size: u32,
    logits: Vec<Bits32>,
    kv_cache: KvCache,
    kv_snapshot: KvCacheSnapshot,
    last_hidden: Vec<Bits32>,
    mtp_state: Option<MtpState>,
}

/// What a session holds.
#[verifier::ext_equal]
pub struct SessionView {
    pub ctx_size: u32,
    pub tokens: Seq<u32>,
    pub pos: int,
    /// The scores of the next token.
    pub logits: Seq<Bits32>,
    pub kv: KvView,
    /// What the cache held when it was last copied.
    pub snapshot: KvView,
    /// The hidden state behind the latest evaluated token.
    pub last_hidden: Seq<Bits32>,
    pub mtp: Option<MtpView>,
}

/// A session without tokens.
pub open spec fn fresh_session(config: ModelConfig, has_mtp: bool, ctx_size: u32) -> SessionView {
    SessionView {
        ctx_size,
        tokens: Seq::empty(),
        pos: 0,
        logits: bits::splat(ZERO, config.n_vocab as nat),
        kv: kv_cache::fresh(config.n_layer as nat, ctx_size as nat),
        snapshot: kv_cache::fresh(config.n_layer as nat, ctx_size as nat),
        last_hidden: bits::splat(ZERO, config.n_embd as nat),
        mtp: if has_mtp {
            Some(mtp::fresh_mtp(config, ctx_size))
        } else {
            None
        },
    }
}

/// Why no session can be built, if none can.
pub open spec fn session_error(config: ModelConfig, has_mtp: bool, ctx_size: u32) -> Option<
    SessionError,
> {
    if config.n_head * config.head_dim > usize::MAX {
        Some(SessionError::QOverflow)
    } else {
        match KvCache::new_error(config.n_layer as nat, ctx_size as nat) {
            Some(e) => Some(SessionError::Cache(e)),
            None => if has_mtp && mtp::mtp_error(config, ctx_size) is Some {
                Some(SessionError::Mtp(mtp::mtp_error(config, ctx_size)->Some_0))
            } else {
                None
            },
        }
    }
}

/// No token waits to be evaluated.
pub open spec fn is_idle(v: SessionView) -> bool {
    v.pos == v.tokens.len()
}

/// The last token waits to be evaluated.
pub open spec fn is_pending(v: SessionView) -> bool {
    v.tokens.len() > 0 && v.pos == v.tokens.len() - 1
}

/// The draft model after it was cleared.
pub open spec fn cleared_mtp(m: Option<MtpView>) -> Option<MtpView> {
    match m {
        Some(x) => Some(
            MtpView {
                prev_hidden: bits::splat(ZERO, x.prev_hidden.len()),
                kv: kv_cache::cleared(x.kv),
                ..x
            },
        ),
        None => None,
    }
}

/// A session after all its state was discarded.
pub open spec fn invalidated(v: SessionView) -> SessionView {
    SessionView {
        tokens: Seq::empty(),
        pos: 0,
        kv: kv_cache::cleared(v.kv),
        logits: bits::splat(ZERO, v.logits.len()),
        mtp: cleared_mtp(v.mtp),
        ..v
    }
}

/// A session with `token` waiting to be evaluated; `snap` says whether the
/// cache is copied first.
pub open spec fn begun(v: SessionView, token: u32, snap: bool) -> SessionView {
    SessionView {
        tokens: v.tokens.push(token),
        pos: v.tokens.len() as int,
        snapshot: if snap {
            v.kv
        } else {
            v.snapshot
        },
        ..v
    }
}

/// A session after its waiting token was evaluated.
pub open spec fn committed(
    v: SessionView,
    logits: Seq<Bits32>,
    hidden: Seq<Bits32>,
) -> SessionView {
    SessionView { pos: v.tokens.len() as int, logits, last_hidden: hidden, ..v }
}

/// A session after the evaluation of its waiting token failed; `snap` says
/// whether the cache is put back.
pub open spec fn rolled_back(v: SessionView, snap: bool) -> SessionView {
    SessionView {
        tokens: v.tokens.drop_last(),
        pos: v.tokens.len() - 1,
        kv: if snap {
            v.snapshot
        } else {
            v.kv
        },
        ..v
    }
}

// ---------------------------------------------------------------------------
// Runs
// ---------------------------------------------------------------------------

/// What came of evaluating a token.
pub enum Outcome {
    /// The scores of the next token, and the hidden state.
    Done { logits: Vec<Bits32>, hidden: Vec<Bits32> },
    /// The evaluation failed; the cache may hold rows of some layers.
    Failed,
}

impl Outcome {
    /// There are no more scores than tokens.
    pub open spec fn wf(self) -> bool {
        self matches Outcome::Done { logits, .. } ==> logits@.len() <= MAX_SCORES
    }
}

/// An operation that evaluates tokens.
pub enum Run {
    /// All tokens have been evaluated.
    Done,
    /// An evaluation failed, and the session was put back.
    Failed,
    /// One token; `snap` says whether the cache was copied first.
    Eval { snap: bool },
    /// The tokens of a prompt, of which `next` have been started.
    Prefill {
        start_len: usize,
        start_pos: u32,
        logits: Vec<Bits32>,
        queue: Vec<u32>,
        next: usize,
    },
    /// The tokens up to the position that the session goes back to, of which
    /// `next` have been started.
    Rewind { queue: Vec<u32>, next: usize },
    /// The last token once more.
    Recompute { last: u32, pos: u32, logits: Vec<Bits32> },
}

/// Tokens, scores and cache of a session.
#[verifier::ext_equal]
pub struct Kept {
    pub tokens: Seq<u32>,
    pub pos: int,
    pub logits: Seq<Bits32>,
    pub kv: KvView,
}

/// What a failed operation leaves as it was.
pub open spec fn kept(v: SessionView) -> Kept {
    Kept { tokens: v.tokens, pos: v.pos, logits: v.logits, kv: v.kv }
}

impl Run {
    /// The run waits for an outcome.
    pub open spec fn waits(self) -> bool {
        !(self is Done) && !(self is Failed)
    }

    /// The run belongs to a session that holds `v`.
    pub open spec fn fits(self, v: SessionView) -> bool {
        match self {
            Run::Done => is_idle(v),
            Run::Failed => is_idle(v),
            Run::Eval { .. } => is_pending(v),
            Run::Prefill { start_len, start_pos, queue, next, logits } => {
                &&& is_pending(v)
                &&& logits@.len() <= MAX_SCORES
                &&& start_pos == start_len
                &&& 0 < next <= queue@.len()
                &&& v.tokens.len() == start_len + next
                &&& v.tokens.skip(start_len as int) == queue@.take(next as int)
                &&& start_len + queue@.len() <= v.ctx_size
            },
            Run::Rewind { queue, next } => {
                &&& is_pending(v)
                &&& 0 < next <= queue@.len()
                &&& v.tokens == queue@.take(next as int)
                &&& queue@.len() <= v.ctx_size
            },
            Run::Recompute { last, pos, logits } => {
                &&& is_pending(v)
                &&& logits@.len() <= MAX_SCORES
                &&& v.tokens.last() == last
                &&& pos == v.tokens.len()
            },
        }
    }

    /// The tokens of the session once the run is done.
    pub open spec fn goal(self, v: SessionView) -> Seq<u32> {
        match self {
            Run::Prefill { start_len, queue, .. } => v.tokens.take(start_len as int) + queue@,
            Run::Rewind { queue, .. } => queue@,
            _ => v.tokens,
        }
    }

    /// What the session goes back to if an evaluation fails.
    pub open spec fn origin(self, v: SessionView) -> Kept {
        match self {
            Run::Eval { snap } => kept(rolled_back(v, snap)),
            Run::Prefill { start_len, start_pos, logits, .. } => Kept {
                tokens: v.tokens.take(start_len as int),
                pos: start_pos as int,
                logits: logits@,
                kv: v.snapshot,
            },
            Run::Rewind { .. } => kept(invalidated(v)),
            Run::Recompute { last, pos, logits } => Kept {
                tokens: v.tokens,
                pos: pos as int,
                logits: logits@,
                kv: v.snapshot,
            },
            _ => kept(v),
        }
    }

    /// Whether the run waits for an outcome.
    pub fn is_waiting(&self) -> (r: bool)
        ensures
            r == self.waits(),
    {
        match self {
            Run::Done | Run::Failed => false,
            _ => true,
        }
    }

    /// Whether an evaluation failed.
    pub fn has_failed(&self) -> (r: bool)
        ensures
            r == (*self is Failed),
    {
        match self {
            Run::Failed => true,
            _ => false,
        }
    }
}

/// The length of the longest common prefix of `a` and `b`.
pub open spec fn is_common_prefix_len(a: Seq<u32>, b: Seq<u32>, n: int) -> bool {
    &&& 0 <= n <= a.len()
    &&& n <= b.len()
    &&& a.take(n) == b.take(n)
    &&& n == a.len() || n == b.len() || a[n] != b[n]
}

/// How many leading tokens `a` and `b` share.
pub fn common_prefix_len(a: &[u32], b: &[u32]) -> (n: usize)
    ensures
        is_common_prefix_len(a@, b@, n as int),
{
    let mut n: usize = 0;
    while n < a.len() && n < b.len() && a[n] == b[n]
        invariant
            n <= a.len(),
            n <= b.len(),
            forall|i: int| 0 <= i < n ==> a@[i] == b@[i],
        decreases a.len() - n,
    {
        n += 1;
    }
    assert(a@.take(n as int) =~= b@.take(n as int));
    n
}

/// There is one longest common prefix, and no longer one is common.
pub proof fn common_prefix_is_longest(a: Seq<u32>, b: Seq<u32>, n: int, k: int)
    requires
        is_common_prefix_len(a, b, n),
        0 <= k <= a.len(),
        k <= b.len(),
        a.take(k) == b.take(k),
    ensures
        k <= n,
{
    if k > n {
        assert(a[n] == a.take(k)[n]);
        assert(b[n] == b.take(k)[n]);
    }
}

/// How much two sequences share does not depend on their order.
pub proof fn common_prefix_is_symmetric(a: Seq<u32>, b: Seq<u32>, n: int)
    requires
        is_common_prefix_len(a, b, n),
    ensures
        is_common_prefix_len(b, a, n),
{
}

impl Session {
    /// The position is that of the last token or behind it, the tokens fit into
    /// the context, the cache has the shape that the context asks for, and the
    /// copy has the shape of the cache.
    pub closed spec fn wf(&self) -> bool {
        &&& self.kv_cache.wf()
        &&& self.kv_snapshot.fits(self.kv_cache@)
        &&& kv_cache::same_shape(
            self.kv_cache@,
            kv_cache::fresh(self.kv_cache@.raw.len(), self.ctx_size as nat),
        )
        &&& self.tokens.len() <= self.ctx_size
        &&& self.logits.len() <= MAX_SCORES
        &&& is_idle(self@) || is_pending(self@)
        &&& match self.mtp_state {
            Some(m) => m.wf(),
            None => true,
        }
    }

    pub closed spec fn view(&self) -> SessionView {
        SessionView {
            ctx_size: self.ctx_size,
            tokens: self.tokens@,
            pos: self.pos as int,
            logits: self.logits@,
            kv: self.kv_cache@,
            snapshot: self.kv_snapshot@,
            last_hidden: self.last_hidden@,
            mtp: match self.mtp_state {
                Some(m) => Some(m@),
                None => None,
            },
        }
    }

    /// The tokens of a well-formed session fit into the context, and its cache
    /// is one for that context.
    pub proof fn wf_valid(&self)
        requires
            self.wf(),
        ensures
            self@.tokens.len() <= self@.ctx_size,
            self@.logits.len() <= MAX_SCORES,
            is_idle(self@) || is_pending(self@),
            kv_cache::valid(self@.kv),
            kv_cache::same_shape(
                self@.kv,
                kv_cache::fresh(self@.kv.raw.len(), self@.ctx_size as nat),
            ),
    {
        self.kv_cache.wf_valid();
    }

    /// A session without tokens, with a draft model if `has_mtp`.
    pub fn new(config: &ModelConfig, has_mtp: bool, ctx_size: u32) -> (r: Result<
        Self,
        SessionError,
    >)
        requires
            has_mtp ==> 16 * config.n_embd <= usize::MAX,
        ensures
            match r {
                Ok(s) => session_error(*config, has_mtp, ctx_size) is None && s.wf() && s@
                    == fresh_session(*config, has_mtp, ctx_size),
                Err(e) => session_error(*config, has_mtp, ctx_size) == Some(e),
            },
    {
        let n_head: usize = config.n_head as usize;
        if n_head.checked_mul(config.head_dim as usize).is_none() {
            return Err(SessionError::QOverflow);
        }
        let kv_cache = match KvCache::new(config.n_layer as usize, ctx_size as usize) {
            Ok(c) => c,
            Err(e) => return Err(SessionError::Cache(e)),
        };
        let kv_snapshot = KvCacheSnapshot::with_shape(&kv_cache);
        let mtp_state = if has_mtp {
            match MtpState::new(config, ctx_size) {
                Ok(m) => Some(m),
                Err(e) => return Err(SessionError::Mtp(e)),
            }
        } else {
            None
        };
        let s = Session {
            tokens: Vec::new(),
            pos: 0,
            ctx_size,
            logits: vec![ZERO; config.n_vocab as usize],
            kv_cache,
            kv_snapshot,
            last_hidden: vec![ZERO; config.n_embd as usize],
            mtp_state,
        };
        proof {
            kv_cache::clearing_makes_fresh(s.kv_cache@, config.n_layer as nat, ctx_size as nat);
            assert(s@ =~= fresh_session(*config, has_mtp, ctx_size));
        }
        Ok(s)
    }

    // -----------------------------------------------------------------------
    // One token
    // -----------------------------------------------------------------------

    /// Makes `token` wait for its evaluation, unless the context is full.
    fn begin(&mut self, token: u32, snap: bool) -> (r: Result<(), SessionError>)
        requires
            old(self).wf(),
            is_idle(old(self)@),
        ensures
            final(self).wf(),
            match r {
                Ok(_) => old(self)@.tokens.len() < old(self)@.ctx_size && final(self)@ == begun(
                    old(self)@,
                    token,
                    snap,
                ) && is_pending(final(self)@),
                Err(e) => old(self)@.tokens.len() >= old(self)@.ctx_size && *final(self)
                    == *old(self) && e == (SessionError::EvalContext {
                    len: old(self)@.tokens.len() as usize,
                    ctx_size: old(self)@.ctx_size,
                }),
            },
    {
        if self.tokens.len() >= self.ctx_size as usize {
            return Err(
                SessionError::EvalContext { len: self.tokens.len(), ctx_size: self.ctx_size },
            );
        }
        if snap {
            self.kv_cache.snapshot_into(&mut self.kv_snapshot);
        }
        self.pos = self.tokens.len() as u32;
        self.tokens.push(token);
        assert(self@ =~= begun(old(self)@, token, snap));
        Ok(())
    }

    /// Takes what came of evaluating the waiting token.
    fn finish(&mut self, outcome: Outcome, snap: bool) -> (ok: bool)
        requires
            old(self).wf(),
            is_pending(old(self)@),
            outcome.wf(),
        ensures
            final(self).wf(),
            is_idle(final(self)@),
            match outcome {
                Outcome::Done { logits, hidden } => ok && final(self)@ == committed(
                    old(self)@,
                    logits@,
                    hidden@,
                ),
                Outcome::Failed => !ok && final(self)@ == rolled_back(old(self)@, snap),
            },
    {
        match outcome {
            Outcome::Done { logits, hidden } => {
                self.logits = logits;
                self.last_hidden = hidden;
                self.pos = self.tokens.len() as u32;
                assert(self@ =~= committed(old(self)@, logits@, hidden@));
                true
            },
            Outcome::Failed => {
                self.tokens.pop();
                self.pos = self.tokens.len() as u32;
                if snap {
                    self.kv_cache.restore(&self.kv_snapshot);
                }
                assert(self@ =~= rolled_back(old(self)@, snap));
                false
            },
        }
    }

    /// Starts the evaluation of one token. If it fails, tokens, scores and cache
    /// go back to what they are now.
    pub fn eval_token(&mut self, token: u32) -> (r: Result<Run, SessionError>)
        requires
            old(self).wf(),
            is_idle(old(self)@),
        ensures
            final(self).wf(),
            match r {
                Ok(run) => {
                    &&& old(self)@.tokens.len() < old(self)@.ctx_size
                    &&& run == (Run::Eval { snap: true })
                    &&& run.fits(final(self)@)
                    &&& final(self)@ == begun(old(self)@, token, true)
                    &&& run.goal(final(self)@) == old(self)@.tokens.push(token)
                    &&& run.origin(final(self)@) == kept(old(self)@)
                },
                Err(e) => old(self)@.tokens.len() >= old(self)@.ctx_size && *final(self)
                    == *old(self) && e == (SessionError::EvalContext {
                    len: old(self)@.tokens.len() as usize,
                    ctx_size: old(self)@.ctx_size,
                }),
            },
    {
        match self.begin(token, true) {
            Ok(_) => {
                assert(self@.tokens.drop_last() =~= old(self)@.tokens);
                Ok(Run::Eval { snap: true })
            },
            Err(e) => Err(e),
        }
    }

    /// Starts the evaluation of one token without copying the cache first, for
    /// callers that hold a copy of their own.
    pub fn eval_token_no_snapshot(&mut self, token: u32) -> (r: Result<Run, SessionError>)
        requires
            old(self).wf(),
            is_idle(old(self)@),
        ensures
            final(self).wf(),
            match r {
                Ok(run) => {
                    &&& old(self)@.tokens.len() < old(self)@.ctx_size
                    &&& run == (Run::Eval { snap: false })
                    &&& run.fits(final(self)@)
                    &&& final(self)@ == begun(old(self)@, token, false)
                    &&& run.goal(final(self)@) == old(self)@.tokens.push(token)
                },
                Err(e) => old(self)@.tokens.len() >= old(self)@.ctx_size && *final(self)
                    == *old(self) && e == (SessionError::EvalContext {
                    len: old(self)@.tokens.len() as usize,
                    ctx_size: old(self)@.ctx_size,
                }),
            },
    {
        match self.begin(token, false) {
            Ok(_) => Ok(Run::Eval { snap: false }),
            Err(e) => Err(e),
        }
    }

    // -----------------------------------------------------------------------
    // Several tokens
    // -----------------------------------------------------------------------

    /// Why the tokens of a prompt are refused, if they are.
    pub open spec fn prefill_error(v: SessionView, n: nat) -> Option<SessionError> {
        if n == 0 {
            None
        } else if v.tokens.len() + n > usize::MAX {
            Some(SessionError::PrefillLen)
        } else if v.tokens.len() + n > v.ctx_size {
            Some(
                SessionError::PrefillContext {
                    len: (v.tokens.len() + n) as usize,
                    ctx_size: v.ctx_size,
                },
            )
        } else {
            None
        }
    }

    /// Starts the evaluation of all tokens of a prompt. If any fails, tokens,
    /// position, scores and cache go back to what they are now.
    pub fn prefill(&mut self, tokens: &[u32]) -> (r: Result<Run, SessionError>)
        requires
            old(self).wf(),
            is_idle(old(self)@),
        ensures
            final(self).wf(),
            match r {
                Ok(run) => {
                    &&& Self::prefill_error(old(self)@, tokens@.len()) is None
                    &&& run.fits(final(self)@)
                    &&& run.goal(final(self)@) == old(self)@.tokens + tokens@
                    &&& run.origin(final(self)@) == kept(old(self)@)
                    &&& if tokens@.len() == 0 {
                        run is Done && *final(self) == *old(self)
                    } else {
                        run is Prefill && final(self)@ == begun(old(self)@, tokens@[0], true)
                    }
                },
                Err(e) => Self::prefill_error(old(self)@, tokens@.len()) == Some(e) && *final(self)
                    == *old(self),
            },
    {
        if tokens.len() == 0 {
            assert(self@.tokens + tokens@ =~= self@.tokens);
            return Ok(Run::Done);
        }
        let len: usize = match self.tokens.len().checked_add(tokens.len()) {
            Some(n) => n,
            None => return Err(SessionError::PrefillLen),
        };
        if len > self.ctx_size as usize {
            return Err(SessionError::PrefillContext { len, ctx_size: self.ctx_size });
        }
        let start_len: usize = self.tokens.len();
        let start_pos: u32 = self.pos;
        let logits: Vec<Bits32> = self.logits.clone();
        let mut queue: Vec<u32> = Vec::new();
        queue.extend_from_slice(tokens);
        assert(queue@ =~= tokens@);
        match self.begin(tokens[0], true) {
            Ok(_) => {},
            Err(_) => {
                assert(false);
            },
        }
        assert(logits@ =~= old(self)@.logits);
        assert(self@.tokens.take(start_len as int) =~= old(self)@.tokens);
        assert(self@.tokens.skip(start_len as int) =~= queue@.take(1));
        Ok(Run::Prefill { start_len, start_pos, logits, queue, next: 1 })
    }

    /// Goes back to position `target` by discarding all state and evaluating
    /// the tokens up to there once more; beyond the end it does nothing. If an
    /// evaluation fails, the session is left without state.
    pub fn rewind(&mut self, target: u32) -> (run: Run)
        requires
            old(self).wf(),
            is_idle(old(self)@),
        ensures
            final(self).wf(),
            run.fits(final(self)@),
            if target >= old(self)@.tokens.len() {
                run is Done && *final(self) == *old(self)
            } else if target == 0 {
                run is Done && final(self)@ == invalidated(old(self)@)
            } else {
                &&& run is Rewind
                &&& final(self)@ == begun(invalidated(old(self)@), old(self)@.tokens[0], true)
                &&& run.goal(final(self)@) == old(self)@.tokens.take(target as int)
            },
    {
        if target as usize >= self.tokens.len() {
            return Run::Done;
        }
        if target == 0 {
            self.invalidate();
            return Run::Done;
        }
        let queue: Vec<u32> = first_tokens(&self.tokens, target as usize);
        self.invalidate();
        match self.begin(queue[0], true) {
            Ok(_) => {},
            Err(_) => {
                assert(false);
            },
        }
        assert(self@.tokens =~= queue@.take(1));
        Run::Rewind { queue, next: 1 }
    }

    /// Starts the evaluation of the last token once more, on the cache as it
    /// was before that token. If it fails, tokens, position, scores and cache
    /// go back to what they are now.
    pub fn recompute_last_logits(&mut self) -> (r: Result<Run, SessionError>)
        requires
            old(self).wf(),
            is_idle(old(self)@),
        ensures
            final(self).wf(),
            match r {
                Ok(run) => {
                    &&& old(self)@.tokens.len() > 0
                    &&& run is Recompute
                    &&& run.fits(final(self)@)
                    &&& final(self)@ == (SessionView {
                        pos: old(self)@.pos - 1,
                        snapshot: old(self)@.kv,
                        kv: KvView {
                            raw: Seq::new(
                                old(self)@.kv.raw.len(),
                                |il: int| kv_cache::popped(old(self)@.kv.raw[il]),
                            ),
                            ..old(self)@.kv
                        },
                        ..old(self)@
                    })
                    &&& run.goal(final(self)@) == old(self)@.tokens
                    &&& run.origin(final(self)@) == kept(old(self)@)
                },
                Err(e) => old(self)@.tokens.len() == 0 && *final(self) == *old(self) && e
                    == SessionError::Empty,
            },
    {
        if self.tokens.len() == 0 {
            return Err(SessionError::Empty);
        }
        let last: u32 = self.tokens[self.tokens.len() - 1];
        let pos: u32 = self.pos;
        let logits: Vec<Bits32> = self.logits.clone();
        assert(logits@ =~= self.logits@);
        self.kv_cache.snapshot_into(&mut self.kv_snapshot);
        self.kv_cache.pop_last_row();
        self.pos = pos - 1;
        proof {
            assert forall|i: int| 0 <= i < self@.kv.comp.len() implies kv_cache::same_lane_shape(
                #[trigger] self.kv_snapshot@.comp[i],
                self@.kv.comp[i],
            ) by {}
            assert forall|i: int| 0 <= i < self@.kv.idx.len() implies kv_cache::same_lane_shape(
                #[trigger] self.kv_snapshot@.idx[i],
                self@.kv.idx[i],
            ) by {}
        }
        Ok(Run::Recompute { last, pos, logits })
    }

    /// Takes what came of evaluating the waiting token of a run, and goes on:
    /// with the next token, or to the end, or back to the origin.
    pub fn resume(&mut self, run: Run, outcome: Outcome) -> (next: Run)
        requires
            old(self).wf(),
            run.waits(),
            run.fits(old(self)@),
            outcome.wf(),
        ensures
            final(self).wf(),
            next.fits(final(self)@),
            match outcome {
                Outcome::Failed => {
                    &&& next is Failed
                    &&& kept(final(self)@) == run.origin(old(self)@)
                    &&& run matches Run::Eval { snap } ==> final(self)@ == rolled_back(
                        old(self)@,
                        snap,
                    )
                    &&& final(self)@.snapshot == old(self)@.snapshot
                    &&& final(self)@.last_hidden == old(self)@.last_hidden
                    &&& final(self)@.mtp == if run is Rewind {
                        cleared_mtp(old(self)@.mtp)
                    } else {
                        old(self)@.mtp
                    }
                },
                Outcome::Done { logits, hidden } => {
                    &&& !(next is Failed)
                    &&& next.goal(final(self)@) == run.goal(old(self)@)
                    &&& if old(self)@.tokens == run.goal(old(self)@) {
                        &&& next is Done
                        &&& final(self)@ == committed(old(self)@, logits@, hidden@)
                    } else {
                        &&& next is Prefill <==> run is Prefill
                        &&& next is Rewind <==> run is Rewind
                        &&& next.waits()
                        &&& final(self)@ == begun(
                            committed(old(self)@, logits@, hidden@),
                            run.goal(old(self)@)[old(self)@.tokens.len() as int],
                            run is Rewind,
                        )
                    }
                    &&& next is Prefill ==> next.origin(final(self)@) == run.origin(old(self)@)
                },
            },
            final(self)@.ctx_size == old(self)@.ctx_size,
    {
        match run {
            Run::Eval { snap } => {
                if self.finish(outcome, snap) {
                    Run::Done
                } else {
                    Run::Failed
                }
            },
            Run::Prefill { start_len, start_pos, logits, queue, next } => self.resume_prefill(
                start_len,
                start_pos,
                logits,
                queue,
                next,
                outcome,
            ),
            Run::Rewind { queue, next } => self.resume_rewind(queue, next, outcome),
            Run::Recompute { last, pos, logits } => {
                let ghost v = self@;
                if self.finish(outcome, false) {
                    Run::Done
                } else {
                    self.tokens.push(last);
                    self.pos = pos;
                    self.logits = logits;
                    self.kv_cache.restore(&self.kv_snapshot);
                    assert(self@.tokens =~= v.tokens);
                    Run::Failed
                }
            },
            Run::Done => Run::Done,
            Run::Failed => Run::Failed,
        }
    }

    fn resume_prefill(
        &mut self,
        start_len: usize,
        start_pos: u32,
        logits: Vec<Bits32>,
        queue: Vec<u32>,
        next: usize,
        outcome: Outcome,
    ) -> (r: Run)
        requires
            old(self).wf(),
            (Run::Prefill { start_len, start_pos, logits, queue, next }).fits(old(self)@),
            logits@.len() <= MAX_SCORES,
            outcome.wf(),
        ensures
            final(self).wf(),
            r.fits(final(self)@),
            final(self)@.ctx_size == old(self)@.ctx_size,
            ({
                let run = Run::Prefill { start_len, start_pos, logits, queue, next };
                match outcome {
                    Outcome::Failed => {
                        &&& r is Failed
                        &&& kept(final(self)@) == run.origin(old(self)@)
                        &&& final(self)@.snapshot == old(self)@.snapshot
                        &&& final(self)@.last_hidden == old(self)@.last_hidden
                        &&& final(self)@.mtp == old(self)@.mtp
                    },
                    Outcome::Done { logits: l, hidden } => {
                        &&& r is Done || r is Prefill
                        &&& r.goal(final(self)@) == run.goal(old(self)@)
                        &&& r is Done <==> next == queue@.len()
                        &&& r is Done <==> old(self)@.tokens == run.goal(old(self)@)
                        &&& final(self)@ == if next == queue@.len() {
                            committed(old(self)@, l@, hidden@)
                        } else {
                            begun(committed(old(self)@, l@, hidden@), queue@[next as int], false)
                        }
                        &&& r is Prefill ==> r.origin(final(self)@) == run.origin(old(self)@)
                        &&& r is Prefill ==> queue@[next as int] == run.goal(
                            old(self)@,
                        )[old(self)@.tokens.len() as int]
                    },
                }
            }),
    {
        let ghost v = self@;
        let ghost goal = v.tokens.take(start_len as int) + queue@;
        proof {
            assert(v.tokens =~= v.tokens.take(start_len as int) + queue@.take(next as int));
            if next == queue@.len() {
                assert(queue@.take(next as int) =~= queue@);
            }
        }
        if self.finish(outcome, false) {
            if next == queue.len() {
                return Run::Done;
            }
            match self.begin(queue[next], false) {
                Ok(_) => {},
                Err(_) => {
                    assert(false);
                },
            }
            proof {
                assert(self@.tokens.take(start_len as int) =~= v.tokens.take(start_len as int));
                assert(self@.tokens.skip(start_len as int) =~= queue@.take(next + 1)) by {
                    assert(v.tokens.skip(start_len as int) =~= queue@.take(next as int));
                    assert forall|i: int| 0 <= i < next implies self@.tokens[start_len + i]
                        == queue@[i] by {
                        assert(v.tokens.skip(start_len as int)[i] == queue@.take(next as int)[i]);
                    }
                }
                assert(v.tokens.len() != goal.len());
            }
            Run::Prefill { start_len, start_pos, logits, queue, next: next + 1 }
        } else {
            self.tokens.truncate(start_len);
            self.pos = start_pos;
            self.logits = logits;
            self.kv_cache.restore(&self.kv_snapshot);
            assert(self@.tokens =~= v.tokens.take(start_len as int));
            Run::Failed
        }
    }

    fn resume_rewind(&mut self, queue: Vec<u32>, next: usize, outcome: Outcome) -> (r: Run)
        requires
            old(self).wf(),
            (Run::Rewind { queue, next }).fits(old(self)@),
            outcome.wf(),
        ensures
            final(self).wf(),
            r.fits(final(self)@),
            final(self)@.ctx_size == old(self)@.ctx_size,
            match outcome {
                Outcome::Failed => {
                    &&& r is Failed
                    &&& kept(final(self)@) == kept(invalidated(old(self)@))
                    &&& final(self)@.snapshot == old(self)@.snapshot
                    &&& final(self)@.last_hidden == old(self)@.last_hidden
                    &&& final(self)@.mtp == cleared_mtp(old(self)@.mtp)
                },
                Outcome::Done { logits: l, hidden } => {
                    &&& r is Done || r is Rewind
                    &&& r.goal(final(self)@) == queue@
                    &&& r is Done <==> next == queue@.len()
                    &&& r is Done <==> old(self)@.tokens == queue@
                    &&& final(self)@ == if next == queue@.len() {
                        committed(old(self)@, l@, hidden@)
                    } else {
                        begun(committed(old(self)@, l@, hidden@), queue@[next as int], true)
                    }
                },
            },
    {
        let ghost v = self@;
        proof {
            if next == queue@.len() {
                assert(queue@.take(next as int) =~= queue@);
            }
        }
        if self.finish(outcome, true) {
            if next == queue.len() {
                return Run::Done;
            }
            match self.begin(queue[next], true) {
                Ok(_) => {},
                Err(_) => {
                    assert(false);
                },
            }
            assert(self@.tokens =~= queue@.take(next + 1));
            assert(v.tokens.len() != queue@.len());
            Run::Rewind { queue, next: next + 1 }
        } else {
            self.invalidate();
            proof {
                kv_cache::clearing_forgets(v.kv, v.snapshot);
            }
            Run::Failed
        }
    }

    // -----------------------------------------------------------------------
    // State
    // -----------------------------------------------------------------------

    /// Discards all state; the buffers stay allocated.
    pub fn invalidate(&mut self)
        requires
            old(self).wf(),
        ensures
            final(self).wf(),
            is_idle(final(self)@),
            final(self)@ == invalidated(old(self)@),
    {
        self.tokens.clear();
        self.pos = 0;
        self.kv_cache.clear_all();
        fill(&mut self.logits, ZERO);
        match &mut self.mtp_state {
            Some(m) => m.clear(),
            None => {},
        }
        proof {
            kv_cache::cleared_keeps_shape(old(self)@.kv);
            kv_cache::same_shape_is_symmetric(self.kv_cache@, old(self)@.kv);
            kv_cache::same_shape_is_transitive(self.kv_snapshot@, old(self)@.kv, self.kv_cache@);
            assert(self@ =~= invalidated(old(self)@));
        }
    }

    /// Drops all tokens from `len` on.
    pub fn truncate_tokens(&mut self, len: usize)
        requires
            old(self).wf(),
        ensures
            final(self).wf(),
            is_idle(final(self)@),
            final(self)@ == (SessionView {
                tokens: if len < old(self)@.tokens.len() {
                    old(self)@.tokens.take(len as int)
                } else {
                    old(self)@.tokens
                },
                pos: if len < old(self)@.tokens.len() {
                    len as int
                } else {
                    old(self)@.tokens.len() as int
                },
                ..old(self)@
            }),
    {
        self.tokens.truncate(len);
        self.pos = self.tokens.len() as u32;
    }

    /// Takes over tokens whose rows are already in the cache.
    pub fn restore_from_tokens(&mut self, tokens: Vec<u32>) -> (r: Result<(), SessionError>)
        requires
            old(self).wf(),
        ensures
            final(self).wf(),
            match r {
                Ok(_) => tokens@.len() <= old(self)@.ctx_size && is_idle(final(self)@) && final(self)@ == (SessionView {
                    tokens: tokens@,
                    pos: tokens@.len() as int,
                    ..old(self)@
                }),
                Err(e) => tokens@.len() > old(self)@.ctx_size && *final(self) == *old(self) && e
                    == (SessionError::RestoreContext {
                    len: tokens@.len() as usize,
                    ctx_size: old(self)@.ctx_size,
                }),
            },
    {
        if tokens.len() > self.ctx_size as usize {
            return Err(
                SessionError::RestoreContext { len: tokens.len(), ctx_size: self.ctx_size },
            );
        }
        self.pos = tokens.len() as u32;
        self.tokens = tokens;
        Ok(())
    }

    /// Copies what the cache holds.
    pub fn snapshot_kv(&mut self)
        requires
            old(self).wf(),
        ensures
            final(self).wf(),
            final(self)@ == (SessionView { snapshot: old(self)@.kv, ..old(self)@ }),
    {
        self.kv_cache.snapshot_into(&mut self.kv_snapshot);
        assert(self@ =~= (SessionView { snapshot: old(self)@.kv, ..old(self)@ }));
    }

    /// Puts back what the cache held when it was last copied.
    pub fn restore_kv(&mut self)
        requires
            old(self).wf(),
        ensures
            final(self).wf(),
            final(self)@ == (SessionView { kv: old(self)@.snapshot, ..old(self)@ }),
    {
        self.kv_cache.restore(&self.kv_snapshot);
        assert(self@ =~= (SessionView { kv: old(self)@.snapshot, ..old(self)@ }));
    }

    /// The token with the greatest score, the first of several; scores that are
    /// no numbers do not count.
    pub fn argmax(logits: &[Bits32]) -> (r: Option<u32>)
        requires
            logits@.len() <= MAX_SCORES,
        ensures
            match r {
                Some(i) => float::is_best(logits@, Seq::empty(), i as int),
                None => float::has_no_best(logits@, Seq::empty()),
            },
    {
        let taken: Vec<usize> = Vec::new();
        assert(taken@.take(0) =~= Seq::empty());
        match best_outside(logits, taken.as_slice(), 0) {
            Some(i) => Some(i as u32),
            None => None,
        }
    }

    // -----------------------------------------------------------------------
    // Access
    // -----------------------------------------------------------------------

    /// The position of the next token, or of the one that waits.
    pub fn pos(&self) -> (p: u32)
        ensures
            p == self@.pos,
    {
        self.pos
    }

    /// Most tokens that the session holds.
    pub fn ctx_size(&self) -> (n: u32)
        ensures
            n == self@.ctx_size,
    {
        self.ctx_size
    }

    /// All tokens.
    pub fn tokens(&self) -> (t: &[u32])
        ensures
            t@ == self@.tokens,
    {
        self.tokens.as_slice()
    }

    /// The scores of the next token.
    pub fn logits(&self) -> (l: &[Bits32])
        ensures
            l@ == self@.logits,
    {
        self.logits.as_slice()
    }

    /// The hidden state behind the latest evaluated token.
    pub fn last_hidden(&self) -> (h: &[Bits32])
        ensures
            h@ == self@.last_hidden,
    {
        self.last_hidden.as_slice()
    }

    /// The cache.
    pub fn kv_cache(&self) -> (c: &KvCache)
        requires
            self.wf(),
        ensures
            c.wf(),
            c@ == self@.kv,
    {
        &self.kv_cache
    }

    /// The cache, to be changed. While it keeps its shape, the session stays
    /// well-formed and nothing else changes.
    pub fn kv_cache_mut(&mut self) -> (c: &mut KvCache)
        requires
            old(self).wf(),
        ensures
            c.wf(),
            c@ == old(self)@.kv,
            final(c).wf() && kv_cache::same_shape(final(c)@, c@) ==> final(self).wf() && final(self)@ == (SessionView { kv: final(c)@, ..old(self)@ }),
    {
        proof {
            let ghost before = *self;
            assert forall|x: KvCache|
                #![trigger x.wf()]
                x.wf() && kv_cache::same_shape(x@, before.kv_cache@) implies before.kv_snapshot.fits(
                x@,
            ) by {
                kv_cache::same_shape_is_symmetric(x@, before.kv_cache@);
                kv_cache::same_shape_is_transitive(before.kv_snapshot@, before.kv_cache@, x@);
            }
        }
        &mut self.kv_cache
    }

    /// What the cache held when it was last copied.
    pub fn kv_snapshot(&self) -> (s: &KvCacheSnapshot)
        requires
            self.wf(),
        ensures
            s.fits(self@.kv),
            s@ == self@.snapshot,
    {
        &self.kv_snapshot
    }

    /// What the cache held when it was last copied, to be changed. What
    /// replaces it must have the shape of the cache.
    pub fn kv_snapshot_mut(&mut self) -> (s: &mut KvCacheSnapshot)
        requires
            old(self).wf(),
        ensures
            s.fits(old(self)@.kv),
            s@ == old(self)@.snapshot,
            final(s).fits(old(self)@.kv) ==> final(self).wf() && final(self)@ == (SessionView {
                snapshot: final(s)@,
                ..old(self)@
            }),
    {
        &mut self.kv_snapshot
    }

    /// Whether there is a draft model.
    pub fn has_mtp(&self) -> (r: bool)
        ensures
            r == (self@.mtp is Some),
    {
        self.mtp_state.is_some()
    }

    /// The state of the draft model, if there is one.
    pub fn mtp_state(&self) -> (r: Option<&MtpState>)
        requires
            self.wf(),
        ensures
            match r {
                Some(m) => m.wf() && self@.mtp == Some(m@),
                None => self@.mtp is None,
            },
    {
        match &self.mtp_state {
            Some(m) => Some(m),
            None => None,
        }
    }

    /// The state of the draft model, if there is one, to be changed. While it
    /// stays well-formed, nothing else changes.
    pub fn mtp_state_mut(&mut self) -> (r: Option<&mut MtpState>)
        requires
            old(self).wf(),
        ensures
            match r {
                Some(m) => m.wf() && old(self)@.mtp == Some(m@) && (final(m).wf()
                    ==> final(self).wf() && final(self)@ == (SessionView {
                    mtp: Some(final(m)@),
                    ..old(self)@
                })),
                None => old(self)@.mtp is None && final(self).wf() && final(self)@ == old(self)@,
            },
    {
        match &mut self.mtp_state {
            Some(m) => Some(m),
            None => None,
        }
    }
}

/// A copy of the first `n` tokens.
fn first_tokens(tokens: &Vec<u32>, n: usize) -> (r: Vec<u32>)
    requires
        n <= tokens@.len(),
    ensures
        r@ == tokens@.take(n as int),
{
    let mut r: Vec<u32> = Vec::new();
    let part = vstd::slice::slice_subrange(tokens.as_slice(), 0, n);
    r.extend_from_slice(part);
    assert(r@ =~= tokens@.take(n as int));
    r
}

/// An evaluation that fails changes neither tokens nor position nor scores nor
/// cache, whatever it had written into the cache.
pub proof fn failed_evaluation_changes_nothing(v: SessionView, token: u32, kv: KvView)
    requires
        is_idle(v),
    ensures
        kept(rolled_back(SessionView { kv, ..begun(v, token, true) }, true)) == kept(v),
{
    assert(v.tokens.push(token).drop_last() =~= v.tokens);
}

/// What is written into the cache between two steps changes neither what a run
/// goes back to nor what it leads to, if the cache was copied before.
pub proof fn cache_does_not_change_a_run(run: Run, v: SessionView, kv: KvView)
    requires
        run.waits(),
        run != (Run::Eval { snap: false }),
        run.fits(v),
        kv_cache::same_shape(kv, v.kv),
    ensures
        run.fits(SessionView { kv, ..v }),
        run.origin(SessionView { kv, ..v }) == run.origin(v),
        run.goal(SessionView { kv, ..v }) == run.goal(v),
{
    kv_cache::clearing_forgets(kv, v.kv);
}

/// Starting a token puts it behind the others, where it waits; with a copy asked
/// for, the snapshot is the cache as it is. Nothing else changes.
pub proof fn a_started_token_waits(v: SessionView, token: u32, snap: bool, i: int)
    ensures
        ({
            let w = begun(v, token, snap);
            &&& w.tokens.len() == v.tokens.len() + 1
            &&& w.tokens[v.tokens.len() as int] == token
            &&& 0 <= i < v.tokens.len() ==> w.tokens[i] == v.tokens[i]
            &&& w.pos == v.tokens.len()
            &&& snap ==> w.snapshot == v.kv
            &&& !snap ==> w.snapshot == v.snapshot
            &&& w.kv == v.kv
            &&& w.logits == v.logits
            &&& w.last_hidden == v.last_hidden
            &&& w.mtp == v.mtp
            &&& w.ctx_size == v.ctx_size
            &&& is_pending(w)
            &&& !is_idle(w)
        }),
{
}

/// An evaluated token waits no longer, and leaves its scores and its hidden state.
/// Tokens and cache stay.
pub proof fn an_evaluated_token_leaves_its_scores(
    v: SessionView,
    logits: Seq<Bits32>,
    hidden: Seq<Bits32>,
)
    ensures
        ({
            let w = committed(v, logits, hidden);
            &&& w.tokens == v.tokens
            &&& w.pos == v.tokens.len()
            &&& w.logits == logits
            &&& w.last_hidden == hidden
            &&& w.kv == v.kv
            &&& w.snapshot == v.snapshot
            &&& w.mtp == v.mtp
            &&& w.ctx_size == v.ctx_size
            &&& is_idle(w)
        }),
{
}

/// Going back from a token that was started takes it away again; with a copy the
/// cache is as it was before, whatever was written since.
pub proof fn going_back_undoes_the_start(v: SessionView, token: u32, snap: bool, kv: KvView)
    requires
        is_idle(v),
    ensures
        ({
            let w = rolled_back(SessionView { kv, ..begun(v, token, snap) }, snap);
            &&& w.tokens == v.tokens
            &&& w.pos == v.pos
            &&& snap ==> w.kv == v.kv
            &&& !snap ==> w.kv == kv
            &&& w.logits == v.logits
            &&& w.last_hidden == v.last_hidden
            &&& w.mtp == v.mtp
            &&& w.ctx_size == v.ctx_size
            &&& is_idle(w)
        }),
{
    assert(v.tokens.push(token).drop_last() =~= v.tokens);
}

/// A discarded session has no tokens, zero scores and an empty cache, and so has its
/// draft model; the context size stays.
pub proof fn discarding_leaves_nothing(v: SessionView, il: int, i: int)
    ensures
        ({
            let w = invalidated(v);
            &&& w.tokens.len() == 0
            &&& w.pos == 0
            &&& w.ctx_size == v.ctx_size
            &&& w.logits.len() == v.logits.len()
            &&& 0 <= i < v.logits.len() ==> w.logits[i] == 0
            &&& w.kv.raw.len() == v.kv.raw.len()
            &&& 0 <= il < v.kv.raw.len() ==> w.kv.raw[il].len() == 0
            &&& w.kv == kv_cache::cleared(v.kv)
            &&& w.last_hidden == v.last_hidden
            &&& w.mtp is Some <==> v.mtp is Some
            &&& v.mtp matches Some(m) ==> ({
                let x = w.mtp->Some_0;
                &&& x.kv == kv_cache::cleared(m.kv)
                &&& x.logits == m.logits
                &&& x.prev_hidden.len() == m.prev_hidden.len()
                &&& 0 <= i < m.prev_hidden.len() ==> x.prev_hidden[i] == 0
            })
            &&& is_idle(w)
        }),
{
}

/// A new session has no tokens, a zero for every score and an empty cache of as many
/// layers as the model, and a draft model if one is asked for.
pub proof fn a_new_session_is_empty(config: ModelConfig, has_mtp: bool, ctx_size: u32, i: int)
    ensures
        ({
            let w = fresh_session(config, has_mtp, ctx_size);
            &&& w.tokens.len() == 0
            &&& w.pos == 0
            &&& w.ctx_size == ctx_size
            &&& w.logits.len() == config.n_vocab
            &&& 0 <= i < config.n_vocab ==> w.logits[i] == 0
            &&& w.last_hidden.len() == config.n_embd
            &&& 0 <= i < config.n_embd ==> w.last_hidden[i] == 0
            &&& w.kv.raw.len() == config.n_layer
            &&& 0 <= i < config.n_layer ==> w.kv.raw[i].len() == 0
            &&& w.snapshot == w.kv
            &&& w.mtp is Some <==> has_mtp
            &&& is_idle(w)
        }),
{
}

/// A prompt is taken exactly where its tokens fit into the context behind those that
/// are there; an empty one always is.
pub proof fn a_prompt_must_fit_into_the_context(v: SessionView, n: nat)
    requires
        v.tokens.len() + n <= usize::MAX,
    ensures
        Session::prefill_error(v, n) is None <==> n == 0 || v.tokens.len() + n <= v.ctx_size,
        Session::prefill_error(v, n) matches Some(e) ==> e == (SessionError::PrefillContext {
            len: (v.tokens.len() + n) as usize,
            ctx_size: v.ctx_size,
        }),
{
}

/// Sessions of ordinary models can be built.
pub proof fn ordinary_sessions_can_be_built(config: ModelConfig, has_mtp: bool, ctx_size: u32)
    requires
        config.n_head * config.head_dim <= 0xFFFF_FFFF,
        config.n_hc * config.n_embd <= 0xFFFF_FFFF,
        config.n_layer <= 1000,
        ctx_size <= 1000000,
    ensures
        session_error(config, has_mtp, ctx_size) is None,
{
    kv_cache::ordinary_caches_can_be_sized(config.n_layer as nat, ctx_size as nat);
    mtp::ordinary_draft_models_can_be_built(config, ctx_size);
}

/// What a run goes back to holds the tokens, the position, the scores and the cache.
pub proof fn what_is_kept(v: SessionView)
    ensures
        kept(v).tokens == v.tokens,
        kept(v).pos == v.pos,
        kept(v).logits == v.logits,
        kept(v).kv == v.kv,
{
}

/// A rewind that fails leaves a session without tokens and with an empty cache; an
/// evaluation of the last token that fails leaves everything as it was before.
pub proof fn what_failed_runs_go_back_to(run: Run, v: SessionView)
    requires
        run.fits(v),
    ensures
        run is Rewind ==> run.origin(v).tokens.len() == 0 && run.origin(v).pos == 0 && run.origin(
            v,
        ).kv == kv_cache::cleared(v.kv),
        run is Recompute ==> run.origin(v).tokens == v.tokens && run.origin(v).pos == v.tokens.len()
            && run.origin(v).kv == v.snapshot,
        run is Prefill ==> run.origin(v).pos == run.origin(v).tokens.len()
            && run.origin(v).tokens.is_prefix_of(v.tokens) && run.origin(v).kv == v.snapshot,
        run matches Run::Eval { snap } ==> run.origin(v).tokens == v.tokens.drop_last() && (snap
            ==> run.origin(v).kv == v.snapshot) && (!snap ==> run.origin(v).kv == v.kv),
{
}

} // verus!
