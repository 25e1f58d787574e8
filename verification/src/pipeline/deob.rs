//! A challenge as readable code.
use vstd::prelude::*;
use vstd::utf8::{decode_utf8, valid_utf8};

use crate::floats::{FloatOps, FloatsV};
use crate::pipeline::checks::{pair_texts, CtxV};
use crate::pipeline::flow::{run_outcome, FlowErr, FlowErrV, Model};
use crate::pipeline::mba::{node_views, simplifies, Math};
use crate::pipeline::ops::Program;
use crate::pipeline::probes::{Probe, Read};
use crate::pipeline::render::render_lines;
use crate::pipeline::sx::{models, texts};
use crate::text::{
    debug_str, debug_text, dec_usize, decimal, digits, group_concat, hex_padded, join3, own, utf8_str, zero_padded,
};

verus! {

/// The first `n` strings of a list as `Debug` writes them, with `", "` between
/// them.
pub open spec fn debug_items(v: Seq<Seq<char>>, n: int) -> Seq<char>
    decreases n,
{
    if n <= 0 || n > v.len() {
        seq![]
    } else {
        debug_items(v, n - 1) + (if n > 1 { ", "@ } else { seq![] }) + debug_text(v[n - 1])
    }
}

/// A list of strings as `Debug` writes it.
pub open spec fn debug_list(v: Seq<Seq<char>>) -> Seq<char> {
    "["@ + debug_items(v, v.len() as int) + "]"@
}

fn push_debug_list(v: &Vec<String>, out: &mut String)
    ensures
        final(out)@ == old(out)@ + debug_list(texts(v@)),
{
    broadcast use group_concat;

    let ghost start = out@ + "["@;
    let ghost m = texts(v@);
    out.push_str("[");
    let mut i: usize = 0;
    assert(out@ =~= start + debug_items(m, 0));
    while i < v.len()
        invariant
            i <= v@.len(),
            m == texts(v@),
            out@ == start + debug_items(m, i as int),
        decreases v@.len() - i,
    {
        if i > 0 {
            out.push_str(", ");
        }
        out.push_str(debug_str(v[i].as_str()).as_str());
        i += 1;
        assert(out@ =~= start + debug_items(m, i as int));
    }
    out.push_str("]");
}

impl FloatsV {
    /// A number that may be missing as `Debug` writes it.
    pub open spec fn debug_number(&self, n: Option<u64>) -> Seq<char> {
        match n {
            Some(b) => "Some("@ + (self.dumped)(b) + ")"@,
            None => "None"@,
        }
    }

    /// The lines for the first `n` things that a probe reads.
    pub open spec fn read_lines(&self, v: Seq<Read>, n: int) -> Seq<char>
        decreases n,
    {
        if n <= 0 || n > v.len() {
            seq![]
        } else {
            self.read_lines(v, n - 1) + match v[n - 1] {
                Read::NavUa => "//   navigator.userAgent -> <символ UA>\n"@,
                Read::Env { desc } => "//   "@ + desc@ + "\n"@,
            }
        }
    }

    /// The lines for the first `n` probes.
    pub open spec fn probe_lines(&self, v: Seq<Probe>, n: int) -> Seq<char>
        decreases n,
    {
        if n <= 0 || n > v.len() {
            seq![]
        } else {
            let p = v[n - 1];
            self.probe_lines(v, n - 1) + ("// probe["@ + decimal((n - 1) as nat) + "] base="@
                + self.debug_number(p.base) + " value="@ + self.debug_number(p.value) + "\n"@
                + self.read_lines(p.reads@, p.reads@.len() as int))
        }
    }

    /// What is said of a challenge before its code.
    pub open spec fn heading(&self, m: Model) -> Seq<char> {
        "// duckkit 13 — деобфускация (oxc → const-prop → slice → egg)\n"@ + "// family="@
            + m.egg.family@ + " template="@ + zero_padded(digits(m.egg.template_hash as nat, 16), 16)
            + " ops="@ + decimal(m.egg.canonical_ops as nat) + "/"@ + decimal(
            m.egg.raw_ops as nat,
        ) + " rotation="@ + decimal(m.rotation as nat) + (if m.rotate_left {
            " (left)"@
        } else {
            " (right)"@
        }) + " target="@ + (self.shown)(m.target) + "\n"@ + "// canonical: "@
            + m.egg.canonical_sexpr@ + "\n\n"@
    }

    /// The constants of a challenge.
    pub open spec fn constants(&self, m: Model) -> Seq<char> {
        "const STRINGS = "@ + debug_list(texts(m.strings@)) + ";\n"@ + "const key = "@ + debug_text(
            m.key@,
        ) + ";\n"@ + "const challenge_id = "@ + debug_text(m.challenge_id@) + ";\n"@
            + "const timestamp = "@ + debug_text(m.timestamp@) + ";\n"@ + "const server_hashes = "@
            + debug_list(texts(m.server_hashes@)) + ";\n\n"@
    }

    /// A challenge as readable code.
    pub open spec fn listing(&self, m: Model) -> Seq<char> {
        self.heading(m) + self.constants(m)
            + "// чтения проб (что именно дёргает каждая проба Promise.all):\n"@ + self.probe_lines(
            m.probes@,
            m.probes@.len() as int,
        ) + "\n"@
            + "// полное деобфусцированное тело (строки подставлены, константы свёрнуты):\n"@
            + self.lines(models(m.body@), m.body@.len() as int, 0)
    }
}

fn debug_opt<F: FloatOps>(n: Option<u64>, fl: &F) -> (s: String)
    requires
        fl.ok(),
    ensures
        s@ == fl.model().debug_number(n),
{
    match n {
        Some(b) => join3("Some(", fl.dump(b).as_str(), ")"),
        None => own("None"),
    }
}

fn push_reads<F: FloatOps>(v: &Vec<Read>, out: &mut String, fl: &F)
    requires
        fl.ok(),
    ensures
        final(out)@ == old(out)@ + fl.model().read_lines(v@, v@.len() as int),
{
    broadcast use group_concat;

    let ghost start = out@;
    let mut i: usize = 0;
    assert(out@ =~= start + fl.model().read_lines(v@, 0));
    while i < v.len()
        invariant
            i <= v@.len(),
            out@ == start + fl.model().read_lines(v@, i as int),
        decreases v@.len() - i,
    {
        match &v[i] {
            Read::NavUa => out.push_str("//   navigator.userAgent -> <символ UA>\n"),
            Read::Env { desc } => {
                out.push_str("//   ");
                out.push_str(desc.as_str());
                out.push_str("\n");
            },
        }
        i += 1;
        assert(out@ == start + fl.model().read_lines(v@, i as int));
    }
}

fn push_probes<F: FloatOps>(v: &Vec<Probe>, out: &mut String, fl: &F)
    requires
        fl.ok(),
    ensures
        final(out)@ == old(out)@ + fl.model().probe_lines(v@, v@.len() as int),
{
    broadcast use group_concat;

    let ghost start = out@;
    let mut i: usize = 0;
    assert(out@ =~= start + fl.model().probe_lines(v@, 0));
    while i < v.len()
        invariant
            fl.ok(),
            i <= v@.len(),
            out@ == start + fl.model().probe_lines(v@, i as int),
        decreases v@.len() - i,
    {
        out.push_str("// probe[");
        out.push_str(dec_usize(i).as_str());
        out.push_str("] base=");
        out.push_str(debug_opt(v[i].base, fl).as_str());
        out.push_str(" value=");
        out.push_str(debug_opt(v[i].value, fl).as_str());
        out.push_str("\n");
        push_reads(&v[i].reads, out, fl);
        i += 1;
        assert(out@ == start + fl.model().probe_lines(v@, i as int));
    }
}

fn push_heading<F: FloatOps>(m: &Model, out: &mut String, fl: &F)
    requires
        fl.ok(),
    ensures
        final(out)@ == old(out)@ + fl.model().heading(*m),
{
    broadcast use group_concat;

    out.push_str("// duckkit 13 — деобфускация (oxc → const-prop → slice → egg)\n");
    out.push_str("// family=");
    out.push_str(m.egg.family.as_str());
    out.push_str(" template=");
    out.push_str(hex_padded(m.egg.template_hash, 16).as_str());
    out.push_str(" ops=");
    out.push_str(dec_usize(m.egg.canonical_ops).as_str());
    out.push_str("/");
    out.push_str(dec_usize(m.egg.raw_ops).as_str());
    out.push_str(" rotation=");
    out.push_str(dec_usize(m.rotation).as_str());
    out.push_str(if m.rotate_left { " (left)" } else { " (right)" });
    out.push_str(" target=");
    out.push_str(fl.write(m.target).as_str());
    out.push_str("\n");
    out.push_str("// canonical: ");
    out.push_str(m.egg.canonical_sexpr.as_str());
    out.push_str("\n\n");
}

fn push_constants<F: FloatOps>(m: &Model, out: &mut String, fl: &F)
    requires
        fl.ok(),
    ensures
        final(out)@ == old(out)@ + fl.model().constants(*m),
{
    broadcast use group_concat;

    out.push_str("const STRINGS = ");
    push_debug_list(&m.strings, out);
    out.push_str(";\n");
    out.push_str("const key = ");
    out.push_str(debug_str(m.key.as_str()).as_str());
    out.push_str(";\n");
    out.push_str("const challenge_id = ");
    out.push_str(debug_str(m.challenge_id.as_str()).as_str());
    out.push_str(";\n");
    out.push_str("const timestamp = ");
    out.push_str(debug_str(m.timestamp.as_str()).as_str());
    out.push_str(";\n");
    out.push_str("const server_hashes = ");
    push_debug_list(&m.server_hashes, out);
    out.push_str(";\n\n");
}

/// Writes a challenge as readable code.
pub fn listing<F: FloatOps>(m: &Model, fl: &F) -> (s: String)
    requires
        fl.ok(),
    ensures
        s@ == fl.model().listing(*m),
{
    broadcast use group_concat;

    let mut out = String::new();
    push_heading(m, &mut out, fl);
    assert(out@ =~= fl.model().heading(*m));
    push_constants(m, &mut out, fl);
    out.push_str("// чтения проб (что именно дёргает каждая проба Promise.all):\n");
    push_probes(&m.probes, &mut out, fl);
    out.push_str("\n");
    out.push_str("// полное деобфусцированное тело (строки подставлены, константы свёрнуты):\n");
    render_lines(&m.body, &mut out, 0, fl);
    out
}

/// Reads a challenge and writes it as readable code.
pub fn run<F, S, N>(js: &[u8], fl: &F, simplifier: &S, native: &N) -> (r: Result<String, FlowErr>) where
    F: FloatOps,
    S: Fn(&Vec<Math>) -> (Vec<Math>, String),
    N: Fn(u64, &Program, &Vec<u64>) -> Option<u64>,

    requires
        fl.ok(),
        simplifies(*simplifier),
        crate::pipeline::flow::is_native(*native),
    ensures
        !valid_utf8(js@) ==> (r matches Err(e) && e@ == FlowErrV::Parse("не UTF-8"@)),
        valid_utf8(js@) ==> match fl.model().prepared_source(decode_utf8(js@)) {
            Err(e) => r matches Err(x) && x@ == e,
            Ok(p) => exists|v: &Vec<Math>, c: (Vec<Math>, String), m: Result<Model, FlowErr>|
                node_views(v@) == p.t.nodes && #[trigger] call_ensures(*simplifier, (v,), c)
                    && #[trigger] run_outcome(
                    fl.model(),
                    m,
                    p,
                    c,
                    *native,
                    CtxV { attached_styled: false, attrs: seq![], globals: seq![] },
                ) && match m {
                    Ok(m) => r matches Ok(s) && s@ == fl.model().listing(m),
                    Err(e) => r matches Err(x) && x@ == e@,
                },
        },
{
    let src = match utf8_str(js) {
        Some(s) => s,
        None => return Err(FlowErr::Parse(own("не UTF-8"))),
    };
    let attrs: Vec<(String, String)> = Vec::new();
    let globals: Vec<String> = Vec::new();
    assert(pair_texts(attrs@) =~= seq![]);
    assert(texts(globals@) =~= seq![]);
    match crate::pipeline::flow::run(
        src,
        attrs.as_slice(),
        globals.as_slice(),
        fl,
        simplifier,
        native,
    ) {
        Ok(m) => Ok(listing(&m, fl)),
        Err(e) => Err(e),
    }
}

} // verus!
