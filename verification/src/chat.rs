//! What follows a chat request: the answer may be complete, may ask for a new token,
//! or may say that the page has changed.
use vstd::prelude::*;

use crate::err::Net;
use crate::session::{ChatOutcome, Session};
#[allow(unused_imports)]
use crate::text::{dec_u64, decimal, join2, own};

verus! {

/// [`ChatOutcome`] over plain texts.
pub enum OutcomeV {
    Finished,
    Challenge,
    Failed(Seq<char>),
}

impl View for ChatOutcome {
    type V = OutcomeV;

    open spec fn view(&self) -> OutcomeV {
        match *self {
            ChatOutcome::Finished => OutcomeV::Finished,
            ChatOutcome::Challenge => OutcomeV::Challenge,
            ChatOutcome::Failed(s) => OutcomeV::Failed(s@),
        }
    }
}

/// What is to be done next about a chat request.
pub enum Step {
    /// Read the page again; after that the challenge that came waits to be solved.
    Rebuild(Option<Vec<u8>>),
    /// Renew the token, the page having been read again.
    RenewAfterRebuild,
    /// Renew the token.
    Renew,
    /// Read the page again, since renewing the token failed.
    RebuildAfterFailure,
    /// Renew the token once more.
    RenewAgain,
    /// Renew the token for the next request.
    RenewNext,
    /// Nothing more.
    End(ChatOutcome),
}

/// [`Step`] over plain values.
pub enum StepV {
    Rebuild(Option<Vec<u8>>),
    RenewAfterRebuild,
    Renew,
    RebuildAfterFailure,
    RenewAgain,
    RenewNext,
    End(OutcomeV),
}

impl View for Step {
    type V = StepV;

    open spec fn view(&self) -> StepV {
        match *self {
            Step::Rebuild(c) => StepV::Rebuild(c),
            Step::RenewAfterRebuild => StepV::RenewAfterRebuild,
            Step::Renew => StepV::Renew,
            Step::RebuildAfterFailure => StepV::RebuildAfterFailure,
            Step::RenewAgain => StepV::RenewAgain,
            Step::RenewNext => StepV::RenewNext,
            Step::End(o) => StepV::End(o@),
        }
    }
}

/// The first step after an answer with a status and maybe a challenge, and the
/// challenge that waits meanwhile where `pending` waited before.
pub open spec fn first_step(
    status: u16,
    challenge: Option<Vec<u8>>,
    pending: Option<Vec<u8>>,
) -> (StepV, Option<Vec<u8>>) {
    if status == 410 {
        (StepV::Rebuild(challenge), pending)
    } else if status == 418 || status == 429 {
        (StepV::Renew, challenge)
    } else if status != 200 {
        (StepV::End(OutcomeV::Failed("duck статус "@ + decimal(status as nat))), pending)
    } else if challenge is Some {
        (StepV::RenewNext, challenge)
    } else {
        (StepV::End(OutcomeV::Finished), pending)
    }
}

/// The step after another one that went well or not, and the challenge that waits
/// meanwhile.
pub open spec fn next_step(s: StepV, ok: bool, pending: Option<Vec<u8>>) -> (
    StepV,
    Option<Vec<u8>>,
) {
    match s {
        StepV::Rebuild(c) => if ok {
            (StepV::RenewAfterRebuild, c)
        } else {
            (StepV::End(OutcomeV::Failed("410: пересборка фактов не удалась"@)), pending)
        },
        StepV::RenewAfterRebuild => if ok {
            (StepV::End(OutcomeV::Challenge), pending)
        } else {
            (
                StepV::End(
                    OutcomeV::Failed("410: jsa refresh после пересборки фактов не удался"@),
                ),
                pending,
            )
        },
        StepV::Renew => if ok {
            (StepV::End(OutcomeV::Challenge), pending)
        } else {
            (StepV::RebuildAfterFailure, pending)
        },
        StepV::RebuildAfterFailure => (StepV::RenewAgain, None),
        StepV::RenewAgain => if ok {
            (StepV::End(OutcomeV::Challenge), pending)
        } else {
            (StepV::End(OutcomeV::Failed("jsa refresh после 418/429 не удался"@)), pending)
        },
        StepV::RenewNext => (StepV::End(OutcomeV::Finished), pending),
        StepV::End(o) => (StepV::End(o), pending),
    }
}

impl Session {
    /// Takes the answer to a chat request.
    pub fn answered(&mut self, status: u16, challenge: Option<Vec<u8>>) -> (r: Step)
        ensures
            (r@, final(self).pending) == first_step(status, challenge, old(self).pending),
            *final(self) == (Session { pending: final(self).pending, ..*old(self) }),
    {
        if status == 410 {
            Step::Rebuild(challenge)
        } else if status == 418 || status == 429 {
            self.pending = challenge;
            Step::Renew
        } else if status != 200 {
            let n = dec_u64(status as u64);
            Step::End(ChatOutcome::Failed(join2("duck статус ", n.as_str())))
        } else if challenge.is_some() {
            self.pending = challenge;
            Step::RenewNext
        } else {
            Step::End(ChatOutcome::Finished)
        }
    }

    /// Takes the outcome of a step.
    pub fn advance(&mut self, step: Step, ok: bool) -> (r: Step)
        ensures
            (r@, final(self).pending) == next_step(step@, ok, old(self).pending),
            *final(self) == (Session { pending: final(self).pending, ..*old(self) }),
    {
        match step {
            Step::Rebuild(c) => if ok {
                self.pending = c;
                Step::RenewAfterRebuild
            } else {
                Step::End(ChatOutcome::Failed(own("410: пересборка фактов не удалась")))
            },
            Step::RenewAfterRebuild => if ok {
                Step::End(ChatOutcome::Challenge)
            } else {
                Step::End(
                    ChatOutcome::Failed(own("410: jsa refresh после пересборки фактов не удался")),
                )
            },
            Step::Renew => if ok {
                Step::End(ChatOutcome::Challenge)
            } else {
                Step::RebuildAfterFailure
            },
            Step::RebuildAfterFailure => {
                self.pending = None;
                Step::RenewAgain
            },
            Step::RenewAgain => if ok {
                Step::End(ChatOutcome::Challenge)
            } else {
                Step::End(ChatOutcome::Failed(own("jsa refresh после 418/429 не удался")))
            },
            Step::RenewNext => Step::End(ChatOutcome::Finished),
            Step::End(o) => Step::End(o),
        }
    }
}

/// How many steps may follow.
pub open spec fn steps_left(s: StepV) -> nat {
    match s {
        StepV::End(_) => 0,
        StepV::RenewAfterRebuild | StepV::RenewAgain | StepV::RenewNext => 1,
        StepV::Rebuild(_) | StepV::RebuildAfterFailure => 2,
        StepV::Renew => 3,
    }
}

/// However its steps go, a chat request comes to an end after three of them.
pub proof fn lemma_chat_ends(
    status: u16,
    challenge: Option<Vec<u8>>,
    pending: Option<Vec<u8>>,
    s: StepV,
    ok: bool,
)
    ensures
        steps_left(first_step(status, challenge, pending).0) <= 3,
        !(s is End) ==> steps_left(next_step(s, ok, pending).0) < steps_left(s),
{
}

/// The steps that can follow an answer with a status.
pub open spec fn belongs(status: u16, s: StepV) -> bool {
    match s {
        StepV::Rebuild(_) | StepV::RenewAfterRebuild => status == 410,
        StepV::Renew | StepV::RebuildAfterFailure | StepV::RenewAgain => status == 418 || status
            == 429,
        StepV::RenewNext => status == 200,
        StepV::End(OutcomeV::Finished) => status == 200,
        StepV::End(OutcomeV::Challenge) => status == 410 || status == 418 || status == 429,
        StepV::End(OutcomeV::Failed(_)) => status != 200,
    }
}

/// However its steps go, only an answer with the status 200 is taken as complete, and
/// it always is; only one that was refused for its token or for its page leads to a
/// repetition; and every other one fails.
pub proof fn lemma_chat_outcomes(
    status: u16,
    challenge: Option<Vec<u8>>,
    pending: Option<Vec<u8>>,
    s: StepV,
    ok: bool,
)
    ensures
        belongs(status, first_step(status, challenge, pending).0),
        belongs(status, s) ==> belongs(status, next_step(s, ok, pending).0),
{
}

/// What to do when no answer to a chat request came.
pub enum Silence {
    /// Send it again after so many milliseconds.
    Wait(u64),
    End(ChatOutcome),
}

/// A chat request is sent again, up to the third time, when its first byte did not
/// come in time.
pub fn unanswered(attempt: u32, e: Net) -> (r: Silence)
    ensures
        if e@ is FirstByte && attempt < 3 {
            r == Silence::Wait(500)
        } else {
            r matches Silence::End(o) && o@ == OutcomeV::Failed(e@.words())
        },
{
    match e {
        Net::FirstByte(n) => if attempt < 3 {
            Silence::Wait(500)
        } else {
            Silence::End(ChatOutcome::Failed(Net::FirstByte(n).text()))
        },
        e => Silence::End(ChatOutcome::Failed(e.text())),
    }
}

} // verus!
