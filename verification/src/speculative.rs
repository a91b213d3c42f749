//! Speculative decoding with a draft model.
//!
//! The main model's best token is drafted again by the draft model. If the two
//! agree, more tokens are drafted, and the main model verifies them one by one:
//! the drafts that it would have chosen itself are kept, the others are undone.
//!
//! Evaluating either model is left to the caller: see [`Speculation`].

use vstd::arithmetic::power2::*;
use vstd::prelude::*;

use crate::bits::Bits32;
use crate::float;
use crate::float::{greater, NEG_INFINITY};
use crate::mtp;
use crate::mtp::{MtpState, MtpView, MAX_DRAFT_TOKENS};
use crate::session;
use crate::session::{Outcome, Run, Session, SessionError, SessionView, MAX_SCORES};

verus! {

/// How to speculate.
#[derive(Clone, Copy, Debug, PartialEq, Eq, Structural)]
pub struct SpecConfig {
    /// Most drafts in one step.
    pub mtp_draft_tokens: usize,
    /// How far the best score must be ahead of the second.
    pub mtp_margin: Bits32,
}

/// The bit pattern of 3.
pub const DEFAULT_MARGIN: Bits32 = 0x4040_0000;

impl Default for SpecConfig {
    fn default() -> (c: Self)
        ensures
            c.mtp_draft_tokens == 1,
            c.mtp_margin == DEFAULT_MARGIN,
    {
        SpecConfig { mtp_draft_tokens: 1, mtp_margin: DEFAULT_MARGIN }
    }
}

// ---------------------------------------------------------------------------
// Confidence
// ---------------------------------------------------------------------------

/// The greatest and the second greatest of `s`, seen from the front; where there
/// are none, minus infinity.
pub open spec fn top_two_of(s: Seq<Bits32>) -> (Bits32, Bits32)
    decreases s.len(),
{
    if s.len() == 0 {
        (NEG_INFINITY, NEG_INFINITY)
    } else {
        let (a, b) = top_two_of(s.drop_last());
        if float::gt(s.last(), a) {
            (s.last(), a)
        } else if float::gt(s.last(), b) {
            (a, s.last())
        } else {
            (a, b)
        }
    }
}

/// The greatest and the second greatest score, if there are two scores.
pub fn top_two(logits: &[Bits32]) -> (r: Option<(Bits32, Bits32)>)
    ensures
        match r {
            Some(p) => logits@.len() >= 2 && p == top_two_of(logits@),
            None => logits@.len() < 2,
        },
{
    if logits.len() < 2 {
        return None;
    }
    let mut a: Bits32 = NEG_INFINITY;
    let mut b: Bits32 = NEG_INFINITY;
    let mut i: usize = 0;
    assert(logits@.take(0) =~= Seq::empty());
    while i < logits.len()
        invariant
            i <= logits.len(),
            (a, b) == top_two_of(logits@.take(i as int)),
        decreases logits.len() - i,
    {
        assert(logits@.take(i + 1).drop_last() =~= logits@.take(i as int));
        let v: Bits32 = logits[i];
        if greater(v, a) {
            b = a;
            a = v;
        } else if greater(v, b) {
            b = v;
        }
        i += 1;
    }
    assert(logits@.take(i as int) =~= logits@);
    Some((a, b))
}

/// No score is greater than the greatest, and at most one is greater than the
/// second greatest.
pub proof fn top_two_are_on_top(s: Seq<Bits32>, i: int, j: int)
    requires
        0 <= i < s.len(),
        0 <= j < s.len(),
    ensures
        !float::gt(s[i], top_two_of(s).0),
        float::gt(s[i], top_two_of(s).1) && float::gt(s[j], top_two_of(s).1) ==> i == j,
        !float::gt(top_two_of(s).1, top_two_of(s).0),
        !float::is_nan(top_two_of(s).0),
        !float::is_nan(top_two_of(s).1),
    decreases s.len(),
{
    let head = s.drop_last();
    let n = s.len() - 1;
    top_two_are_numbers(head);
    if i < n && j < n {
        top_two_are_on_top(head, i, j);
    } else if i < n {
        top_two_are_on_top(head, i, i);
    } else if j < n {
        top_two_are_on_top(head, j, j);
    }
}

proof fn top_two_are_numbers(s: Seq<Bits32>)
    ensures
        !float::gt(top_two_of(s).1, top_two_of(s).0),
        !float::is_nan(top_two_of(s).0),
        !float::is_nan(top_two_of(s).1),
    decreases s.len(),
{
    if s.len() > 0 {
        top_two_are_numbers(s.drop_last());
    }
}

// ---------------------------------------------------------------------------
// One step
// ---------------------------------------------------------------------------

/// One step of speculative decoding.
///
/// While the step drafts, the caller runs the draft model on
/// [`Speculation::next_draft`] and hands the result to
/// [`Speculation::take_draft`]; the draft model leaves its hidden state and one
/// row in its cache. While the step evaluates, the caller runs the main model on
/// the waiting token of the session and hands the outcome to
/// [`Speculation::take_outcome`].
///
/// `before` is the number of tokens before the step.
pub enum Speculation {
    /// The main model evaluates its best token, and nothing is drafted.
    Single { token: u32, before: usize },
    /// The draft model is asked for the next token.
    Drafting {
        main: u32,
        eos: u32,
        max: usize,
        drafts: Vec<u32>,
        hiddens: Vec<Vec<Bits32>>,
        before: usize,
    },
    /// The main model evaluates draft `accepted`, which it agrees with.
    Verifying { drafts: Vec<u32>, hiddens: Vec<Vec<Bits32>>, accepted: usize, before: usize },
    /// The main model evaluates the `accepted` first drafts once more, of which
    /// `next` have been started.
    Replaying {
        drafts: Vec<u32>,
        hiddens: Vec<Vec<Bits32>>,
        accepted: usize,
        next: usize,
        before: usize,
    },
    /// The step is over.
    Done { tokens: Vec<u32>, before: usize },
    /// An evaluation failed.
    Failed,
}

/// Each hidden state has the width of the draft model's.
pub open spec fn hiddens_fit(hiddens: Seq<Vec<Bits32>>, v: SessionView) -> bool {
    &&& v.mtp is Some
    &&& forall|i: int|
        0 <= i < hiddens.len() ==> (#[trigger] hiddens[i])@.len() == v.mtp->Some_0.prev_hidden.len()
}

/// `hiddens` are those before, and `hidden` behind them.
pub open spec fn adds_hidden(
    hiddens: Seq<Vec<Bits32>>,
    before: Seq<Vec<Bits32>>,
    hidden: Seq<Bits32>,
) -> bool {
    &&& hiddens.len() == before.len() + 1
    &&& hiddens.drop_last() == before
    &&& hiddens.last()@ == hidden
}

/// The draft model after all but some drafts were undone: the hidden state is
/// that behind the last accepted one, and the rows of the others are gone.
pub open spec fn aligned(v: SessionView, hidden: Seq<Bits32>, rejected: nat) -> SessionView {
    let m = v.mtp->Some_0;
    SessionView {
        mtp: Some(
            MtpView { prev_hidden: hidden, kv: mtp::without_rows(m.kv, rejected), ..m },
        ),
        ..v
    }
}

/// A session before the tokens from `before` on were evaluated.
pub open spec fn undone(v: SessionView, before: usize) -> SessionView {
    SessionView {
        tokens: v.tokens.take(before as int),
        pos: before as int,
        kv: v.snapshot,
        ..v
    }
}

/// The error of a full context.
pub open spec fn full(v: SessionView) -> SessionError {
    SessionError::EvalContext { len: v.tokens.len() as usize, ctx_size: v.ctx_size }
}

/// Drafting goes on behind `drafts`.
pub open spec fn drafts_more(drafts: Seq<u32>, max: usize, eos: u32) -> bool {
    drafts.len() < max && drafts.last() != eos
}

/// The most tokens that a step with this limit on its drafts accepts.
pub open spec fn most_accepted(limit: usize) -> nat {
    if limit < 1 {
        1
    } else if limit < 16 {
        limit as nat
    } else {
        16
    }
}

impl Speculation {
    /// The step belongs to a session that holds `v`.
    pub open spec fn fits(self, v: SessionView) -> bool {
        match self {
            Speculation::Single { token, before } => {
                &&& session::is_pending(v)
                &&& v.tokens.len() == before + 1
                &&& v.tokens.last() == token
            },
            Speculation::Drafting { main, eos, max, drafts, hiddens, before } => {
                &&& session::is_idle(v)
                &&& v.tokens.len() == before
                &&& before + 16 <= u32::MAX
                &&& max <= 16
                &&& drafts@.len() == hiddens@.len()
                &&& hiddens_fit(hiddens@, v)
                &&& drafts@.len() > 0 ==> drafts@[0] == main && drafts_more(drafts@, max, eos)
            },
            Speculation::Verifying { drafts, hiddens, accepted, before } => {
                &&& session::is_pending(v)
                &&& accepted < drafts@.len()
                &&& v.tokens.len() == before + accepted + 1
                &&& v.tokens.skip(before as int) == drafts@.take(accepted + 1)
                &&& drafts@.len() == hiddens@.len()
                &&& hiddens_fit(hiddens@, v)
            },
            Speculation::Replaying { drafts, hiddens, accepted, next, before } => {
                &&& session::is_pending(v)
                &&& 1 <= next <= accepted
                &&& accepted < drafts@.len()
                &&& v.tokens.len() == before + next
                &&& v.tokens.skip(before as int) == drafts@.take(next as int)
                &&& drafts@.len() == hiddens@.len()
                &&& hiddens_fit(hiddens@, v)
                &&& before + accepted <= v.ctx_size
            },
            Speculation::Done { tokens, before } => {
                &&& session::is_idle(v)
                &&& tokens@.len() > 0
                &&& before <= v.tokens.len()
                &&& v.tokens.skip(before as int) == tokens@
            },
            Speculation::Failed => session::is_idle(v),
        }
    }

    /// The tokens before the step.
    pub open spec fn base(self, v: SessionView) -> Seq<u32> {
        match self {
            Speculation::Single { before, .. } => v.tokens.take(before as int),
            Speculation::Drafting { before, .. } => v.tokens.take(before as int),
            Speculation::Verifying { before, .. } => v.tokens.take(before as int),
            Speculation::Replaying { before, .. } => v.tokens.take(before as int),
            Speculation::Done { before, .. } => v.tokens.take(before as int),
            Speculation::Failed => v.tokens,
        }
    }

    /// The main model's best token, which the step accepts first.
    pub open spec fn first(self) -> u32 {
        match self {
            Speculation::Single { token, .. } => token,
            Speculation::Drafting { main, .. } => main,
            Speculation::Verifying { drafts, .. } => drafts@[0],
            Speculation::Replaying { drafts, .. } => drafts@[0],
            Speculation::Done { tokens, .. } => tokens@[0],
            Speculation::Failed => arbitrary(),
        }
    }

    /// The most tokens that the step can still accept.
    pub open spec fn most(self) -> nat {
        match self {
            Speculation::Single { .. } => 1,
            Speculation::Drafting { max, .. } => if max < 1 {
                1
            } else {
                max as nat
            },
            Speculation::Verifying { drafts, .. } => drafts@.len(),
            Speculation::Replaying { accepted, .. } => accepted as nat,
            Speculation::Done { tokens, .. } => tokens@.len(),
            Speculation::Failed => 0,
        }
    }

    /// `next` may come behind the step: unless it failed, it has the same best
    /// token and accepts no more tokens.
    pub open spec fn leads_to(self, next: Speculation) -> bool {
        !(next is Failed) ==> next.first() == self.first() && next.most() <= self.most()
    }

    /// The step waits for the main model.
    pub open spec fn evaluates(self) -> bool {
        self is Single || self is Verifying || self is Replaying
    }

    /// Whether the step waits for the draft model.
    pub fn is_drafting(&self) -> (r: bool)
        ensures
            r == (*self is Drafting),
    {
        match self {
            Speculation::Drafting { .. } => true,
            _ => false,
        }
    }

    /// Whether the step waits for the main model.
    pub fn is_evaluating(&self) -> (r: bool)
        ensures
            r == self.evaluates(),
    {
        match self {
            Speculation::Single { .. } => true,
            Speculation::Verifying { .. } => true,
            Speculation::Replaying { .. } => true,
            _ => false,
        }
    }

    /// The token and the position that the draft model continues from, and
    /// whether it starts from the main model's hidden state instead of its own.
    pub fn next_draft(&self) -> (r: (u32, u32, bool))
        requires
            *self is Drafting,
            exists|v: SessionView| self.fits(v),
        ensures
            ({
                let drafts = self->Drafting_drafts@;
                &&& r.0 == if drafts.len() == 0 {
                    self->Drafting_main
                } else {
                    drafts.last()
                }
                &&& r.1 == self->Drafting_before + drafts.len()
                &&& r.2 == (drafts.len() == 0)
            }),
    {
        match self {
            Speculation::Drafting { main, drafts, before, .. } => {
                let n: usize = drafts.len();
                if n == 0 {
                    (*main, *before as u32, true)
                } else {
                    (drafts[n - 1], (*before + n) as u32, false)
                }
            },
            _ => (0, 0, false),
        }
    }

    /// Takes the next draft.
    pub fn take_draft(self, session: &mut Session, draft: u32) -> (r: Result<Self, SessionError>)
        requires
            old(session).wf(),
            self is Drafting,
            self.fits(old(session)@),
        ensures
            final(session).wf(),
            ({
                let v = old(session)@;
                let main = self->Drafting_main;
                let drafts = self->Drafting_drafts@.push(draft);
                match r {
                    Ok(next) => {
                        &&& next.fits(final(session)@)
                        &&& next.base(final(session)@) == self.base(v)
                        &&& self.leads_to(next)
                        &&& if drafts[0] != main {
                            &&& next == (Speculation::Single {
                                token: main,
                                before: self->Drafting_before,
                            })
                            &&& final(session)@ == session::begun(v, main, true)
                        } else if drafts_more(drafts, self->Drafting_max, self->Drafting_eos) {
                            &&& next is Drafting
                            &&& next->Drafting_main == main
                            &&& next->Drafting_eos == self->Drafting_eos
                            &&& next->Drafting_max == self->Drafting_max
                            &&& next->Drafting_before == self->Drafting_before
                            &&& next->Drafting_drafts@ == drafts
                            &&& adds_hidden(
                                next->Drafting_hiddens@,
                                self->Drafting_hiddens@,
                                v.mtp->Some_0.prev_hidden,
                            )
                            &&& *final(session) == *old(session)
                        } else {
                            &&& next is Verifying
                            &&& next->Verifying_drafts@ == drafts
                            &&& adds_hidden(
                                next->Verifying_hiddens@,
                                self->Drafting_hiddens@,
                                v.mtp->Some_0.prev_hidden,
                            )
                            &&& next->Verifying_accepted == 0
                            &&& next->Verifying_before == self->Drafting_before
                            &&& final(session)@ == session::begun(
                                SessionView { snapshot: v.kv, ..v },
                                main,
                                false,
                            )
                        }
                    },
                    Err(e) => {
                        &&& v.tokens.len() >= v.ctx_size
                        &&& e == full(v)
                        &&& if drafts[0] != main {
                            final(session)@ == v
                        } else {
                            &&& !drafts_more(drafts, self->Drafting_max, self->Drafting_eos)
                            &&& final(session)@ == (SessionView { snapshot: v.kv, ..v })
                        }
                    },
                }
            }),
    {
        match self {
            Speculation::Drafting { main, eos, max, drafts, hiddens, before } => {
                if drafts.len() == 0 && draft != main {
                    return match session.eval_token(main) {
                        Ok(_) => {
                            assert(session@.tokens.take(before as int) =~= old(session)@.tokens.take(before as int));
                            Ok(Speculation::Single { token: main, before })
                        },
                        Err(e) => Err(e),
                    };
                }
                let mut drafts: Vec<u32> = drafts;
                let mut hiddens: Vec<Vec<Bits32>> = hiddens;
                match session.mtp_state() {
                    Some(m) => hiddens.push(m.hidden()),
                    None => {},
                }
                assert(hiddens@.drop_last() =~= self->Drafting_hiddens@);
                drafts.push(draft);
                assert(drafts@ == self->Drafting_drafts@.push(draft));
                if drafts.len() < max && draft != eos {
                    return Ok(Speculation::Drafting { main, eos, max, drafts, hiddens, before });
                }
                session.snapshot_kv();
                match session.eval_token_no_snapshot(main) {
                    Ok(_) => {
                        assert(session@.tokens.skip(before as int) =~= drafts@.take(1));
                        assert(session@.tokens.take(before as int) =~= old(session)@.tokens.take(
                            before as int,
                        ));
                        Ok(Speculation::Verifying { drafts, hiddens, accepted: 0, before })
                    },
                    Err(e) => Err(e),
                }
            },
            other => Ok(other),
        }
    }

    /// Takes what came of evaluating the waiting token.
    pub fn take_outcome(self, session: &mut Session, outcome: Outcome) -> (r: Result<
        Self,
        SessionError,
    >)
        requires
            old(session).wf(),
            self.evaluates(),
            self.fits(old(session)@),
            outcome.wf(),
        ensures
            final(session).wf(),
            match r {
                Ok(next) => {
                    &&& next.fits(final(session)@)
                    &&& next is Failed <==> outcome is Failed
                    &&& self.leads_to(next)
                    &&& !(next is Failed) ==> next.base(final(session)@) == self.base(
                        old(session)@,
                    )
                },
                Err(_) => outcome is Done && self is Verifying,
            },
            match (self, outcome) {
                (Speculation::Single { token, before }, Outcome::Done { logits, hidden }) => {
                    &&& r matches Ok(Speculation::Done { tokens, before: b })
                    &&& b == before
                    &&& tokens@ == seq![token]
                    &&& final(session)@ == session::committed(old(session)@, logits@, hidden@)
                },
                (Speculation::Single { .. }, Outcome::Failed) => final(session)@
                    == session::rolled_back(old(session)@, true),
                (
                    Speculation::Verifying { drafts, hiddens, accepted, before },
                    Outcome::Done { logits, hidden },
                ) => verified_draft(
                    drafts@,
                    hiddens@,
                    accepted + 1,
                    before,
                    session::committed(old(session)@, logits@, hidden@),
                    r,
                    final(session)@,
                ),
                (Speculation::Verifying { .. }, Outcome::Failed) => final(session)@
                    == session::rolled_back(old(session)@, false),
                (
                    Speculation::Replaying { drafts, hiddens, accepted, next, before },
                    Outcome::Done { logits, hidden },
                ) => {
                    let v = session::committed(old(session)@, logits@, hidden@);
                    if next == accepted {
                        &&& r matches Ok(Speculation::Done { tokens, before: b })
                        &&& b == before
                        &&& tokens@ == drafts@.take(accepted as int)
                        &&& final(session)@ == aligned(
                            v,
                            hiddens@[accepted - 1]@,
                            (drafts@.len() - accepted) as nat,
                        )
                    } else {
                        &&& r == Ok::<Speculation, SessionError>(
                            Speculation::Replaying {
                                drafts,
                                hiddens,
                                accepted,
                                next: (next + 1) as usize,
                                before,
                            },
                        )
                        &&& final(session)@ == session::begun(v, drafts@[next as int], true)
                    }
                },
                (Speculation::Replaying { .. }, Outcome::Failed) => final(session)@
                    == session::rolled_back(old(session)@, true),
                _ => true,
            },
    {
        match self {
            Speculation::Single { token, before } => {
                match session.resume(Run::Eval { snap: true }, outcome) {
                    Run::Failed => Ok(Speculation::Failed),
                    _ => {
                        let mut tokens: Vec<u32> = Vec::new();
                        tokens.push(token);
                        assert(session@.tokens.skip(before as int) =~= tokens@);
                        assert(tokens@ =~= seq![token]);
                        Ok(Speculation::Done { tokens, before })
                    },
                }
            },
            Speculation::Verifying { drafts, hiddens, accepted, before } => {
                assert(drafts.len() == drafts@.len());
                match session.resume(Run::Eval { snap: false }, outcome) {
                    Run::Failed => Ok(Speculation::Failed),
                    _ => verify_next(session, drafts, hiddens, accepted + 1, before),
                }
            },
            Speculation::Replaying { drafts, hiddens, accepted, next, before } => {
                match session.resume(Run::Eval { snap: true }, outcome) {
                    Run::Failed => Ok(Speculation::Failed),
                    _ => {
                        if next == accepted {
                            return Ok(finish(session, drafts, hiddens, accepted, before));
                        }
                        let ghost v = session@;
                        match session.eval_token(drafts[next]) {
                            Ok(_) => {
                                proof {
                                    tokens_grow(v.tokens, before, drafts@, next);
                                }
                                Ok(
                                    Speculation::Replaying {
                                        drafts,
                                        hiddens,
                                        accepted,
                                        next: next + 1,
                                        before,
                                    },
                                )
                            },
                            Err(e) => {
                                assert(false);
                                Err(e)
                            },
                        }
                    },
                }
            },
            other => Ok(other),
        }
    }
}

/// What follows once the main model has evaluated the first `n` drafts and the
/// session holds `v`: the next draft if the main model agrees with it, the end
/// if there is none, and otherwise the accepted drafts once more, on the cache
/// as it was before.
pub open spec fn verified_draft(
    drafts: Seq<u32>,
    hiddens: Seq<Vec<Bits32>>,
    n: int,
    before: usize,
    v: SessionView,
    r: Result<Speculation, SessionError>,
    after: SessionView,
) -> bool {
    if n == drafts.len() {
        &&& r matches Ok(Speculation::Done { tokens, before: b })
        &&& b == before
        &&& tokens@ == drafts
        &&& after == aligned(v, hiddens[n - 1]@, 0)
    } else if float::has_no_best(v.logits, Seq::empty()) {
        &&& r matches Err(e)
        &&& e == SessionError::NoVerifyLogits
        &&& after == v
    } else if !float::is_best(v.logits, Seq::empty(), drafts[n] as int) {
        &&& r matches Ok(Speculation::Replaying { drafts: d, hiddens: h, accepted, next, before: b })
        &&& d@ == drafts
        &&& h@ == hiddens
        &&& b == before
        &&& accepted == n
        &&& next == 1
        &&& after == session::begun(undone(v, before), drafts[0], true)
    } else if v.tokens.len() >= v.ctx_size {
        &&& r matches Err(e)
        &&& e == full(v)
        &&& after == v
    } else {
        &&& r matches Ok(Speculation::Verifying { drafts: d, hiddens: h, accepted, before: b })
        &&& d@ == drafts
        &&& h@ == hiddens
        &&& b == before
        &&& accepted == n
        &&& after == session::begun(v, drafts[n], false)
    }
}

proof fn tokens_grow(tokens: Seq<u32>, before: usize, drafts: Seq<u32>, n: usize)
    requires
        before <= tokens.len(),
        tokens.skip(before as int) == drafts.take(n as int),
        n < drafts.len(),
    ensures
        tokens.push(drafts[n as int]).skip(before as int) == drafts.take(n + 1),
        tokens.push(drafts[n as int]).take(before as int) == tokens.take(before as int),
{
    let next = tokens.push(drafts[n as int]);
    assert(next.skip(before as int) =~= tokens.skip(before as int).push(drafts[n as int]));
    assert(drafts.take(n + 1) =~= drafts.take(n as int).push(drafts[n as int]));
    assert(next.take(before as int) =~= tokens.take(before as int));
}

/// Ends a step whose first `accepted` drafts were accepted.
fn finish(
    session: &mut Session,
    drafts: Vec<u32>,
    hiddens: Vec<Vec<Bits32>>,
    accepted: usize,
    before: usize,
) -> (r: Speculation)
    requires
        old(session).wf(),
        session::is_idle(old(session)@),
        1 <= accepted <= drafts@.len(),
        drafts@.len() == hiddens@.len(),
        hiddens_fit(hiddens@, old(session)@),
        before <= old(session)@.tokens.len(),
        old(session)@.tokens.skip(before as int) == drafts@.take(accepted as int),
    ensures
        final(session).wf(),
        r.fits(final(session)@),
        r.base(final(session)@) == old(session)@.tokens.take(before as int),
        r matches Speculation::Done { tokens, before: b } && b == before && tokens@ == drafts@.take(
            accepted as int,
        ),
        final(session)@ == aligned(
            old(session)@,
            hiddens@[accepted - 1]@,
            (drafts@.len() - accepted) as nat,
        ),
{
    let rejected: usize = drafts.len() - accepted;
    assert(hiddens@[accepted - 1]@.len() == session@.mtp->Some_0.prev_hidden.len());
    match session.mtp_state_mut() {
        Some(m) => {
            m.set_hidden(&hiddens[accepted - 1]);
            m.pop_rows(rejected);
        },
        None => {},
    }
    let mut tokens: Vec<u32> = drafts;
    tokens.truncate(accepted);
    assert(tokens@ =~= drafts@.take(accepted as int));
    Speculation::Done { tokens, before }
}

/// Goes on once the main model has evaluated the first `n` drafts.
fn verify_next(
    session: &mut Session,
    drafts: Vec<u32>,
    hiddens: Vec<Vec<Bits32>>,
    n: usize,
    before: usize,
) -> (r: Result<Speculation, SessionError>)
    requires
        old(session).wf(),
        session::is_idle(old(session)@),
        1 <= n <= drafts@.len(),
        drafts@.len() == hiddens@.len(),
        hiddens_fit(hiddens@, old(session)@),
        old(session)@.tokens.len() == before + n,
        old(session)@.tokens.skip(before as int) == drafts@.take(n as int),
    ensures
        final(session).wf(),
        match r {
            Ok(next) => !(next is Failed) && next.fits(final(session)@) && next.base(
                final(session)@,
            ) == old(session)@.tokens.take(before as int),
            Err(_) => true,
        },
        verified_draft(
            drafts@,
            hiddens@,
            n as int,
            before,
            old(session)@,
            r,
            final(session)@,
        ),
{
    let ghost v = session@;
    proof {
        session.wf_valid();
    }
    if n == drafts.len() {
        assert(drafts@.take(n as int) =~= drafts@);
        return Ok(finish(session, drafts, hiddens, n, before));
    }
    let best: u32 = match Session::argmax(session.logits()) {
        Some(t) => t,
        None => return Err(SessionError::NoVerifyLogits),
    };
    proof {
        if float::is_best(v.logits, Seq::empty(), drafts@[n as int] as int) {
            float::best_is_unique(v.logits, Seq::empty(), best as int, drafts@[n as int] as int);
        }
    }
    if best != drafts[n] {
        session.restore_kv();
        session.truncate_tokens(before);
        let ghost u = session@;
        assert(u =~= undone(v, before));
        match session.eval_token(drafts[0]) {
            Ok(_) => {},
            Err(_) => {
                assert(false);
            },
        }
        proof {
            assert(u.tokens.skip(before as int) =~= drafts@.take(0));
            tokens_grow(u.tokens, before, drafts@, 0);
            assert(u.tokens.take(before as int) =~= v.tokens.take(before as int));
        }
        return Ok(Speculation::Replaying { drafts, hiddens, accepted: n, next: 1, before });
    }
    match session.eval_token_no_snapshot(drafts[n]) {
        Ok(_) => {
            proof {
                tokens_grow(v.tokens, before, drafts@, n);
            }
            Ok(Speculation::Verifying { drafts, hiddens, accepted: n, before })
        },
        Err(e) => Err(e),
    }
}

/// Starts one step: `has_weights` says whether there are weights of a draft
/// model, `confident` whether the best score is far enough ahead of the second.
pub fn generate_speculative(
    session: &mut Session,
    has_weights: bool,
    confident: bool,
    spec_config: &SpecConfig,
    eos: u32,
) -> (r: Result<Speculation, SessionError>)
    requires
        old(session).wf(),
        session::is_idle(old(session)@),
        has_weights && old(session)@.mtp is Some && confident ==> old(session)@.tokens.len() + 16
            <= u32::MAX,
    ensures
        final(session).wf(),
        ({
            let v = old(session)@;
            let drafts = has_weights && v.mtp is Some && confident;
            match r {
                Ok(s) => {
                    &&& s.fits(final(session)@)
                    &&& s.base(final(session)@) == v.tokens
                    &&& float::is_best(v.logits, Seq::empty(), s.first() as int)
                    &&& s.most() <= most_accepted(spec_config.mtp_draft_tokens)
                    &&& if drafts {
                        &&& *final(session) == *old(session)
                        &&& s is Drafting
                        &&& float::is_best(v.logits, Seq::empty(), s->Drafting_main as int)
                        &&& s->Drafting_eos == eos
                        &&& s->Drafting_drafts@.len() == 0
                        &&& s->Drafting_max == if spec_config.mtp_draft_tokens < 16 {
                            spec_config.mtp_draft_tokens
                        } else {
                            16
                        }
                    } else {
                        &&& s is Single
                        &&& float::is_best(v.logits, Seq::empty(), s->Single_token as int)
                        &&& final(session)@ == session::begun(v, s->Single_token, true)
                    }
                },
                Err(e) => {
                    &&& *final(session) == *old(session)
                    &&& if float::has_no_best(v.logits, Seq::empty()) {
                        e == SessionError::NoLogits
                    } else {
                        !drafts && v.tokens.len() >= v.ctx_size && e == full(v)
                    }
                },
            }
        }),
{
    proof {
        session.wf_valid();
    }
    let main: u32 = match Session::argmax(session.logits()) {
        Some(t) => t,
        None => return Err(SessionError::NoLogits),
    };
    let before: usize = session.tokens().len();
    assert(session@.tokens.take(before as int) =~= session@.tokens);
    if !has_weights || !session.has_mtp() || !confident {
        return match session.eval_token(main) {
            Ok(_) => {
                assert(session@.tokens.take(before as int) =~= old(session)@.tokens);
                Ok(Speculation::Single { token: main, before })
            },
            Err(e) => Err(e),
        };
    }
    let max: usize = if spec_config.mtp_draft_tokens < MAX_DRAFT_TOKENS {
        spec_config.mtp_draft_tokens
    } else {
        MAX_DRAFT_TOKENS
    };
    Ok(
        Speculation::Drafting {
            main,
            eos,
            max,
            drafts: Vec::new(),
            hiddens: Vec::new(),
            before,
        },
    )
}

/// Beyond the first, a draft is kept only where it is the main model's own best
/// token; once the two differ, the session starts again from the cache as it was
/// copied, with the tokens from before the step.
pub proof fn only_agreed_drafts_are_kept(
    drafts: Seq<u32>,
    hiddens: Seq<Vec<Bits32>>,
    n: int,
    before: usize,
    v: SessionView,
    r: Result<Speculation, SessionError>,
    after: SessionView,
)
    requires
        verified_draft(drafts, hiddens, n, before, v, r, after),
    ensures
        r is Ok && r->Ok_0 is Verifying ==> {
            &&& float::is_best(v.logits, Seq::empty(), drafts[n] as int)
            &&& after.tokens == v.tokens.push(drafts[n])
            &&& after.kv == v.kv
        },
        r is Ok && r->Ok_0 is Replaying ==> {
            &&& !float::is_best(v.logits, Seq::empty(), drafts[n] as int)
            &&& r->Ok_0->Replaying_accepted == n
            &&& after.tokens == v.tokens.take(before as int).push(drafts[0])
            &&& after.kv == v.snapshot
        },
{
}

/// `steps` are what a step is from its start to its end.
pub open spec fn is_course(steps: Seq<Speculation>) -> bool {
    &&& steps.len() > 0
    &&& forall|i: int| #![trigger steps[i]]
        0 <= i < steps.len() - 1 ==> !(steps[i] is Failed) && steps[i].leads_to(steps[i + 1])
}

/// A step that started in a session with these scores and with a limit on its
/// drafts, and that is over, has accepted at least one token and at most as many
/// as the limit allows (one for a limit of zero, and never more than sixteen).
/// The first of them is the main model's best token.
pub proof fn a_step_keeps_to_its_limit(
    steps: Seq<Speculation>,
    logits: Seq<Bits32>,
    limit: usize,
    v: SessionView,
)
    requires
        is_course(steps),
        float::is_best(logits, Seq::empty(), steps[0].first() as int),
        steps[0].most() <= most_accepted(limit),
        steps.last() is Done,
        steps.last().fits(v),
    ensures
        1 <= steps.last()->Done_tokens@.len() <= most_accepted(limit),
        float::is_best(logits, Seq::empty(), steps.last()->Done_tokens@[0] as int),
{
    course_keeps(steps, steps.len() - 1);
}

proof fn course_keeps(steps: Seq<Speculation>, n: int)
    requires
        is_course(steps),
        0 <= n < steps.len(),
        !(steps.last() is Failed),
    ensures
        steps[n].first() == steps[0].first(),
        steps[n].most() <= steps[0].most(),
    decreases n,
{
    if n > 0 {
        course_keeps(steps, n - 1);
        assert(steps[n - 1].leads_to(steps[n - 1 + 1]));
        if n < steps.len() - 1 {
            assert(!(steps[n] is Failed));
        }
    }
}

/// A step that is over has added its accepted tokens to those before it, and
/// has accepted at least one.
pub proof fn accepted_tokens_are_appended(s: Speculation, v: SessionView)
    requires
        s is Done,
        s.fits(v),
    ensures
        v.tokens == s.base(v) + s->Done_tokens@,
        s->Done_tokens@.len() >= 1,
{
    assert(v.tokens =~= v.tokens.take(s->Done_before as int) + v.tokens.skip(
        s->Done_before as int,
    ));
}

/// Both of the top two are among the scores, at different places, or minus infinity.
pub proof fn top_two_are_scores(s: Seq<Bits32>) -> (r: (int, int))
    ensures
        ({
            let (a, b) = top_two_of(s);
            let (i, j) = r;
            &&& a == NEG_INFINITY || 0 <= i < s.len() && s[i] == a
            &&& b == NEG_INFINITY || 0 <= j < s.len() && s[j] == b
            &&& a != NEG_INFINITY && b != NEG_INFINITY ==> i != j
        }),
    decreases s.len(),
{
    if s.len() == 0 {
        (0, 0)
    } else {
        let (i, j) = top_two_are_scores(s.drop_last());
        let (a, b) = top_two_of(s.drop_last());
        let n = s.len() - 1;
        if float::gt(s.last(), a) {
            (n, i)
        } else if float::gt(s.last(), b) {
            (i, n)
        } else {
            (i, j)
        }
    }
}

/// A step accepts at least one token and at most sixteen, and between these as many
/// as its limit.
pub proof fn limits_are_held_between_one_and_sixteen(limit: usize)
    ensures
        most_accepted(0) == 1,
        1 <= limit <= 16 ==> most_accepted(limit) == limit,
        limit >= 16 ==> most_accepted(limit) == 16,
{
}

/// Drafting stops at the limit and behind the mark for the end.
pub proof fn drafting_stops_at_the_limit_or_the_end(drafts: Seq<u32>, max: usize, eos: u32)
    requires
        drafts.len() > 0,
    ensures
        drafts.len() >= max ==> !drafts_more(drafts, max, eos),
        drafts[drafts.len() - 1] == eos ==> !drafts_more(drafts, max, eos),
        drafts.len() < max && drafts[drafts.len() - 1] != eos ==> drafts_more(drafts, max, eos),
{
}

/// Behind a step the draft model has the hidden state of the last accepted draft,
/// and the rows of the rejected ones are gone; tokens and main cache stay.
pub proof fn the_draft_model_follows_the_accepted_drafts(
    v: SessionView,
    hidden: Seq<Bits32>,
    rejected: nat,
    il: int,
)
    requires
        v.mtp is Some,
        0 <= il < v.mtp->Some_0.kv.raw.len(),
        v.mtp->Some_0.kv.raw[il].len() % 512 == 0,
        512 * rejected <= v.mtp->Some_0.kv.raw[il].len(),
    ensures
        ({
            let w = aligned(v, hidden, rejected);
            let m = v.mtp->Some_0;
            &&& w.mtp matches Some(x) && x.prev_hidden == hidden && x.logits == m.logits
                && x.kv.raw[il].len() == m.kv.raw[il].len() - 512 * rejected
            &&& w.tokens == v.tokens
            &&& w.pos == v.pos
            &&& w.kv == v.kv
            &&& w.logits == v.logits
            &&& w.snapshot == v.snapshot
            &&& w.ctx_size == v.ctx_size
        }),
{
    mtp::the_newest_rows_are_dropped(v.mtp->Some_0.kv, rejected, il, 0);
}

/// Undoing a step goes back to the tokens before it and to the copied cache.
pub proof fn undoing_goes_back_to_the_copy(v: SessionView, before: usize, i: int)
    requires
        before <= v.tokens.len(),
    ensures
        ({
            let w = undone(v, before);
            &&& w.tokens.len() == before
            &&& 0 <= i < before ==> w.tokens[i] == v.tokens[i]
            &&& w.pos == before
            &&& w.kv == v.snapshot
            &&& w.ctx_size == v.ctx_size
            &&& w.mtp == v.mtp
            &&& session::is_idle(w)
        }),
{
}

/// A step ends once all drafts are evaluated, and has accepted them all; it never
/// ends before while the main model agrees.
pub proof fn a_step_ends_behind_its_last_draft(
    drafts: Seq<u32>,
    hiddens: Seq<Vec<Bits32>>,
    n: int,
    before: usize,
    v: SessionView,
    r: Result<Speculation, SessionError>,
    after: SessionView,
)
    requires
        verified_draft(drafts, hiddens, n, before, v, r, after),
        v.mtp is Some,
        0 < n <= drafts.len(),
    ensures
        r is Ok && r->Ok_0 is Done <==> n == drafts.len(),
        r is Ok && r->Ok_0 is Done ==> r->Ok_0->Done_tokens@ == drafts && after.tokens == v.tokens
            && after.mtp->Some_0.prev_hidden == hiddens[n - 1]@ && after.mtp->Some_0.kv
            == v.mtp->Some_0.kv,
        n < drafts.len() && r is Err ==> after == v,
{
}

/// The margin that is used where none is given is 3.
pub proof fn the_default_margin_is_three()
    ensures
        float::magnitude32(DEFAULT_MARGIN) == 3 * pow2(149),
{
    lemma2_to64();
    lemma_pow2_adds(127, 22);
    assert(0xC0_0000 * pow2(127) == 3 * pow2(149)) by (nonlinear_arith)
        requires
            pow2(149) == pow2(127) * 0x40_0000,
    ;
}

/// A hidden state is added behind the others.
pub proof fn hidden_states_are_added_last(
    hiddens: Seq<Vec<Bits32>>,
    before: Seq<Vec<Bits32>>,
    hidden: Seq<Bits32>,
    i: int,
)
    requires
        adds_hidden(hiddens, before, hidden),
    ensures
        hiddens.len() == before.len() + 1,
        hiddens[before.len() as int]@ == hidden,
        0 <= i < before.len() ==> hiddens[i] == before[i],
{
    if 0 <= i < before.len() {
        assert(hiddens.drop_last()[i] == hiddens[i]);
    }
}

/// A step waits for the main model, or for the draft model, or is over.
pub proof fn a_step_waits_for_one_model(s: Speculation)
    ensures
        s is Drafting ==> !s.evaluates(),
        s is Done || s is Failed ==> !s.evaluates(),
        !s.evaluates() && !(s is Drafting) ==> s is Done || s is Failed,
{
}

} // verus!
