//! A conversation: lines that are typed, requests that are sent, answers that are kept.
use vstd::prelude::*;

#[allow(unused_imports)]
use crate::chat::OutcomeV;
use crate::session::ChatOutcome;
#[allow(unused_imports)]
use crate::text::{chars_of, is_empty, own, string_of};
#[allow(unused_imports)]
use crate::wire::{strip_inline_markers, stripped, WireMsg};

verus! {

// -------------------------------------------------------------------------------- blanks

/// A character that counts as white space.
pub open spec fn white(c: char) -> bool {
    ||| '\u{9}' <= c <= '\u{d}'
    ||| c == ' '
    ||| c == '\u{85}'
    ||| c == '\u{a0}'
    ||| c == '\u{1680}'
    ||| '\u{2000}' <= c <= '\u{200a}'
    ||| c == '\u{2028}'
    ||| c == '\u{2029}'
    ||| c == '\u{202f}'
    ||| c == '\u{205f}'
    ||| c == '\u{3000}'
}

fn is_white(c: char) -> (r: bool)
    ensures
        r == white(c),
{
    ('\u{9}' <= c && c <= '\u{d}') || c == ' ' || c == '\u{85}' || c == '\u{a0}' || c == '\u{1680}'
        || ('\u{2000}' <= c && c <= '\u{200a}') || c == '\u{2028}' || c == '\u{2029}'
        || c == '\u{202f}' || c == '\u{205f}' || c == '\u{3000}'
}

/// A text without the white space at its end.
pub open spec fn trimmed_end(s: Seq<char>) -> Seq<char>
    decreases s.len(),
{
    if s.len() > 0 && white(s.last()) { trimmed_end(s.drop_last()) } else { s }
}

/// A text without the white space at both ends.
pub open spec fn trimmed(s: Seq<char>) -> Seq<char>
    decreases s.len(),
{
    if s.len() > 0 && white(s[0]) { trimmed(s.subrange(1, s.len() as int)) } else { trimmed_end(s) }
}

fn trim(s: &str) -> (r: String)
    ensures
        r@ == trimmed(s@),
{
    let v = chars_of(s);
    let mut from: usize = 0;
    assert(v@.subrange(0, v@.len() as int) =~= v@);
    while from < v.len() && is_white(v[from])
        invariant
            from <= v@.len(),
            trimmed(v@) == trimmed(v@.subrange(from as int, v@.len() as int)),
        decreases v@.len() - from,
    {
        proof {
            let t = v@.subrange(from as int, v@.len() as int);
            assert(t[0] == v@[from as int]);
            assert(t.subrange(1, t.len() as int) =~= v@.subrange(from + 1, v@.len() as int));
        }
        from += 1;
    }
    let ghost t = v@.subrange(from as int, v@.len() as int);
    assert(t.len() > 0 ==> t[0] == v@[from as int]);
    let mut to: usize = v.len();
    while to > from && is_white(v[to - 1])
        invariant
            from <= to <= v@.len(),
            trimmed_end(t) == trimmed_end(v@.subrange(from as int, to as int)),
        decreases to,
    {
        assert(v@.subrange(from as int, to as int).drop_last() =~= v@.subrange(from as int, to - 1));
        to -= 1;
    }
    string_of(v.as_slice(), from, to)
}

// ---------------------------------------------------------------------------- the turns

/// What happens in a conversation.
pub enum ChatEvent {
    /// A line was typed.
    Line(String),
    /// There are no more lines.
    InputEnded,
    /// A request ended, with the text that came; `repeated` where it had been sent
    /// before.
    Answered { outcome: ChatOutcome, answer: String, repeated: bool },
}

/// What is to be done next.
pub enum ChatAction {
    /// End the conversation.
    Leave,
    /// Log this message of the user and send the history.
    Send(String),
    /// Send the history once more.
    Repeat,
    /// Show and log this answer, and read the next line.
    Show(String),
    /// Say that the message has to be typed again, and read the next line.
    Renewed,
    /// Show and log this error, and read the next line.
    Report(String),
}

/// [`ChatEvent`] over plain texts.
pub enum EventV {
    Line(Seq<char>),
    InputEnded,
    Answered(OutcomeV, Seq<char>, bool),
}

impl View for ChatEvent {
    type V = EventV;

    open spec fn view(&self) -> EventV {
        match *self {
            ChatEvent::Line(s) => EventV::Line(s@),
            ChatEvent::InputEnded => EventV::InputEnded,
            ChatEvent::Answered { outcome, answer, repeated } => EventV::Answered(
                outcome@,
                answer@,
                repeated,
            ),
        }
    }
}

/// [`ChatAction`] over plain texts.
pub enum ActionV {
    Leave,
    Send(Seq<char>),
    Repeat,
    Show(Seq<char>),
    Renewed,
    Report(Seq<char>),
}

impl View for ChatAction {
    type V = ActionV;

    open spec fn view(&self) -> ActionV {
        match *self {
            ChatAction::Leave => ActionV::Leave,
            ChatAction::Send(s) => ActionV::Send(s@),
            ChatAction::Repeat => ActionV::Repeat,
            ChatAction::Show(s) => ActionV::Show(s@),
            ChatAction::Renewed => ActionV::Renewed,
            ChatAction::Report(s) => ActionV::Report(s@),
        }
    }
}

/// A message: who says it, and what it says.
pub struct Said {
    pub role: Seq<char>,
    pub text: Seq<char>,
}

/// What has been said.
pub open spec fn said(h: Seq<WireMsg>) -> Seq<Said> {
    Seq::new(h.len(), |i: int| Said { role: h[i].role@, text: h[i].text@ })
}

/// What has been said after an event, and what is to be done next. An empty line ends
/// the conversation. A request that brought a challenge is repeated once. An answer is
/// kept without its inline markers; a failure adds nothing.
pub open spec fn turn(h: Seq<Said>, e: EventV) -> (Seq<Said>, ActionV) {
    match e {
        EventV::InputEnded => (h, ActionV::Leave),
        EventV::Line(s) => {
            let text = trimmed(s);
            if text.len() == 0 {
                (h, ActionV::Leave)
            } else {
                (h.push(Said { role: "user"@, text }), ActionV::Send(text))
            }
        },
        EventV::Answered(OutcomeV::Finished, answer, _) => {
            let text = stripped(answer, 0);
            (h.push(Said { role: "assistant"@, text }), ActionV::Show(text))
        },
        EventV::Answered(OutcomeV::Challenge, _, repeated) => (
            h,
            if repeated { ActionV::Renewed } else { ActionV::Repeat },
        ),
        EventV::Answered(OutcomeV::Failed(e), _, _) => (h, ActionV::Report(e)),
    }
}

/// Takes an event of a conversation.
pub fn chat_step(history: &mut Vec<WireMsg>, event: ChatEvent) -> (r: ChatAction)
    ensures
        (said(final(history)@), r@) == turn(said(old(history)@), event@),
{
    let ghost before = said(history@);
    match event {
        ChatEvent::InputEnded => ChatAction::Leave,
        ChatEvent::Line(s) => {
            let text = trim(s.as_str());
            if is_empty(text.as_str()) {
                return ChatAction::Leave;
            }
            history.push(WireMsg { role: own("user"), text: own(text.as_str()) });
            assert(said(history@) =~= before.push(Said { role: "user"@, text: text@ }));
            ChatAction::Send(text)
        },
        ChatEvent::Answered { outcome, answer, repeated } => match outcome {
            ChatOutcome::Finished => {
                let mut text = String::new();
                strip_inline_markers(answer.as_str(), &mut text);
                history.push(WireMsg { role: own("assistant"), text: own(text.as_str()) });
                assert(said(history@) =~= before.push(Said { role: "assistant"@, text: text@ }));
                ChatAction::Show(text)
            },
            ChatOutcome::Challenge => if repeated {
                ChatAction::Renewed
            } else {
                ChatAction::Repeat
            },
            ChatOutcome::Failed(e) => ChatAction::Report(e),
        },
    }
}

/// The line that an action adds to the log.
pub open spec fn logged_by(a: ActionV) -> Option<Said> {
    match a {
        ActionV::Send(text) => Some(Said { role: "user"@, text }),
        ActionV::Show(text) => Some(Said { role: "assistant"@, text }),
        ActionV::Report(text) => Some(Said { role: "error"@, text }),
        _ => None,
    }
}

/// Who is named in the log for an action, and what is logged.
pub fn logged(a: &ChatAction) -> (r: Option<(&'static str, &str)>)
    ensures
        match logged_by(a@) {
            Some(l) => r matches Some((role, text)) && role@ == l.role && text@ == l.text,
            None => r is None,
        },
{
    match a {
        ChatAction::Send(s) => Some(("user", s.as_str())),
        ChatAction::Show(s) => Some(("assistant", s.as_str())),
        ChatAction::Report(s) => Some(("error", s.as_str())),
        _ => None,
    }
}

/// Nothing that was said is forgotten, one event adds at most one message, what it adds
/// is what the log gets, and a request is sent no more than twice.
pub proof fn lemma_history(h: Seq<Said>, e: EventV)
    ensures
        h.is_prefix_of(turn(h, e).0),
        turn(h, e).0.len() <= h.len() + 1,
        turn(h, e).0.len() > h.len() ==> logged_by(turn(h, e).1) == Some(turn(h, e).0.last()),
        e matches EventV::Answered(_, _, true) ==> turn(h, e).1 !is Repeat,
        turn(h, e).1 is Send ==> e is Line,
{
    assert(h.is_prefix_of(turn(h, e).0)) by {
        assert(turn(h, e).0.take(h.len() as int) =~= h);
    }
}

} // verus!
