//! What can go wrong around a session.
use vstd::prelude::*;

#[allow(unused_imports)]
use crate::text::{dec_u64, decimal, group_concat, join2, join3};

verus! {

/// A session failed.
#[derive(Debug)]
pub enum Failure {
    /// A fact about the page is missing.
    Metric(String),
    /// The session cannot go on.
    Session(String),
    /// The network failed.
    Net(Net),
}

/// The network failed.
#[derive(Debug)]
pub enum Net {
    /// The client reported an error.
    Wreq(String),
    /// The answer lacks what was asked for.
    Empty(String),
    /// The server answered with another status.
    Status { ctx: &'static str, status: u16 },
    /// The answer lacks a header.
    RespHeader(&'static str),
    /// The first byte of a stream did not come in time.
    FirstByte(u64),
    /// There is no entropy.
    Urandom(String),
}

/// [`Net`] over plain texts.
pub enum NetV {
    Wreq(Seq<char>),
    Empty(Seq<char>),
    Status { ctx: Seq<char>, status: u16 },
    RespHeader(Seq<char>),
    FirstByte(u64),
    Urandom(Seq<char>),
}

/// [`Failure`] over plain texts.
pub enum FailureV {
    Metric(Seq<char>),
    Session(Seq<char>),
    Net(NetV),
}

impl View for Net {
    type V = NetV;

    open spec fn view(&self) -> NetV {
        match *self {
            Net::Wreq(s) => NetV::Wreq(s@),
            Net::Empty(s) => NetV::Empty(s@),
            Net::Status { ctx, status } => NetV::Status { ctx: ctx@, status },
            Net::RespHeader(s) => NetV::RespHeader(s@),
            Net::FirstByte(n) => NetV::FirstByte(n),
            Net::Urandom(s) => NetV::Urandom(s@),
        }
    }
}

impl View for Failure {
    type V = FailureV;

    open spec fn view(&self) -> FailureV {
        match *self {
            Failure::Metric(s) => FailureV::Metric(s@),
            Failure::Session(s) => FailureV::Session(s@),
            Failure::Net(e) => FailureV::Net(e@),
        }
    }
}

impl NetV {
    /// The error in words.
    pub open spec fn words(self) -> Seq<char> {
        match self {
            NetV::Wreq(s) => "wreq: "@ + s,
            NetV::Empty(s) => "пустой ответ: "@ + s,
            NetV::Status { ctx, status } => "статус "@ + decimal(status as nat) + " на "@ + ctx,
            NetV::RespHeader(s) => "нет заголовка "@ + s + " в ответе"@,
            NetV::FirstByte(n) => "L7 hang: первый байт не пришёл за "@ + decimal(n as nat) + "с"@,
            NetV::Urandom(s) => "urandom: "@ + s,
        }
    }
}

impl FailureV {
    /// The error in words.
    pub open spec fn words(self) -> Seq<char> {
        match self {
            FailureV::Metric(s) => "метрика: "@ + s,
            FailureV::Session(s) => "сессия: "@ + s,
            FailureV::Net(e) => "сеть: "@ + e.words(),
        }
    }
}

impl Net {
    /// The error in words.
    pub fn text(&self) -> (s: String)
        ensures
            s@ == self@.words(),
    {
        broadcast use group_concat;

        match self {
            Net::Wreq(s) => join2("wreq: ", s.as_str()),
            Net::Empty(s) => join2("пустой ответ: ", s.as_str()),
            Net::Status { ctx, status } => {
                let n = dec_u64(*status as u64);
                let mut s = join3("статус ", n.as_str(), " на ");
                s.push_str(ctx);
                s
            },
            Net::RespHeader(s) => join3("нет заголовка ", s, " в ответе"),
            Net::FirstByte(n) => {
                let n = dec_u64(*n);
                join3("L7 hang: первый байт не пришёл за ", n.as_str(), "с")
            },
            Net::Urandom(s) => join2("urandom: ", s.as_str()),
        }
    }
}

impl Failure {
    /// The error in words.
    pub fn text(&self) -> (s: String)
        ensures
            s@ == self@.words(),
    {
        match self {
            Failure::Metric(s) => join2("метрика: ", s.as_str()),
            Failure::Session(s) => join2("сессия: ", s.as_str()),
            Failure::Net(e) => {
                let t = e.text();
                join2("сеть: ", t.as_str())
            },
        }
    }
}

impl From<Net> for Failure {
    fn from(e: Net) -> (r: Self) {
        Failure::Net(e)
    }
}

impl vstd::std_specs::convert::FromSpecImpl<Net> for Failure {
    open spec fn obeys_from_spec() -> bool {
        true
    }

    open spec fn from_spec(e: Net) -> Self {
        Failure::Net(e)
    }
}

} // verus!
