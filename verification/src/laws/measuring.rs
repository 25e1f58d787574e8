//! How a fragment of a page measures, tag by tag.
use vstd::prelude::*;

#[allow(unused_imports)]
use crate::pipeline::html::{
    end_tag, ends_name, ends_p, fold_case, formatting, in_scope, item_open, item_passes,
    lemma_length_by_element, made_room, measures, name_end, named, next_char, nothing, p_open, read,
    scope_stop, start_tag, tag, tag_name, pending, void, weight, Progress,
};
#[allow(unused_imports)]
use crate::text::utf16;

verus! {

/// A name of small ASCII letters and digits that begins with a letter.
pub open spec fn plain_name(nm: Seq<char>) -> bool {
    &&& nm.len() > 0
    &&& 'a' <= nm[0] <= 'z'
    &&& forall|i: int| 0 <= i < nm.len() ==> ('a' <= #[trigger] nm[i] <= 'z' || '0' <= nm[i] <= '9')
}

/// A tag with this between its angle brackets.
pub open spec fn bracketed(t: Seq<char>) -> Seq<char> {
    seq!['<'] + t + seq!['>']
}

proof fn lemma_next_behind(a: Seq<char>, b: Seq<char>, i: int, c: char)
    requires
        0 <= i,
    ensures
        next_char(a + b, a.len() + i, c) == a.len() + next_char(b, i, c),
    decreases b.len() - i,
{
    if i < b.len() {
        assert((a + b)[a.len() + i] == b[i]);
        if b[i] != c {
            lemma_next_behind(a, b, i + 1, c);
        }
    }
}

proof fn lemma_next_first(b: Seq<char>, i: int, j: int, c: char)
    requires
        0 <= i <= j <= b.len(),
        forall|k: int| i <= k < j ==> #[trigger] b[k] != c,
        j < b.len() ==> b[j] == c,
    ensures
        next_char(b, i, c) == j,
    decreases j - i,
{
    if i < j {
        assert(b[i] != c);
        lemma_next_first(b, i + 1, j, c);
    }
}

/// What stands before the place where reading starts does not matter.
proof fn lemma_read_behind(a: Seq<char>, b: Seq<char>, i: int, s: Progress)
    requires
        0 <= i <= b.len(),
    ensures
        read(a + b, a.len() + i, s) == read(b, i, s),
    decreases b.len() - i,
{
    let t = a + b;
    let n = a.len() as int;
    if i < b.len() {
        assert(t[n + i] == b[i]);
        if b[i] == '<' {
            lemma_next_behind(a, b, i + 1, '>');
            let j = next_char(b, i + 1, '>');
            if i < j < b.len() {
                assert(t.subrange(n + i + 1, n + j) =~= b.subrange(i + 1, j));
                lemma_read_behind(a, b, j + 1, tag(s, b.subrange(i + 1, j)));
            }
        } else {
            lemma_next_behind(a, b, i, '<');
            let j = next_char(b, i, '<');
            if i < j <= b.len() {
                let u = b.subrange(i, j);
                assert(t.subrange(n + i, n + j) =~= u);
                lemma_read_behind(
                    a,
                    b,
                    j,
                    Progress { len: s.len + utf16(u).len(), cnt: s.cnt, stack: s.stack },
                );
            }
        }
    }
}

/// A tag is read whole, up to its `>`, and what follows it after it.
pub proof fn lemma_read_tag(t: Seq<char>, rest: Seq<char>, s: Progress)
    requires
        forall|i: int| 0 <= i < t.len() ==> #[trigger] t[i] != '>',
    ensures
        read(bracketed(t) + rest, 0, s) == read(rest, 0, tag(s, t)),
{
    let b = bracketed(t) + rest;
    let j = t.len() + 1;
    assert(b[0] == '<');
    assert(b[j as int] == '>');
    assert forall|k: int| 1 <= k < j implies #[trigger] b[k] != '>' by {
        assert(b[k] == t[k - 1]);
    }
    lemma_next_first(b, 1, j as int, '>');
    assert(b.subrange(1, j as int) =~= t);
    lemma_read_behind(bracketed(t), rest, 0, tag(s, t));
}

/// A text is counted in UTF-16 units, and changes nothing else.
pub proof fn lemma_read_text(t: Seq<char>, rest: Seq<char>, s: Progress)
    requires
        forall|i: int| 0 <= i < t.len() ==> #[trigger] t[i] != '<',
        rest.len() > 0 ==> rest[0] == '<',
    ensures
        read(t + rest, 0, s) == read(
            rest,
            0,
            Progress { len: s.len + utf16(t).len(), cnt: s.cnt, stack: s.stack },
        ),
{
    let b = t + rest;
    if t.len() == 0 {
        assert(b =~= rest);
    } else {
        assert forall|k: int| 0 <= k < t.len() implies #[trigger] b[k] != '<' by {
            assert(b[k] == t[k]);
        }
        lemma_next_first(b, 0, t.len() as int, '<');
        assert(b.subrange(0, t.len() as int) =~= t);
        lemma_read_behind(
            t,
            rest,
            0,
            Progress { len: s.len + utf16(t).len(), cnt: s.cnt, stack: s.stack },
        );
    }
}

/// A tag that does not end is dropped, with all that follows it.
pub proof fn lemma_unfinished(t: Seq<char>, s: Progress)
    requires
        forall|i: int| 0 <= i < t.len() ==> #[trigger] t[i] != '>',
    ensures
        read(seq!['<'] + t, 0, s) == s,
{
    let b = seq!['<'] + t;
    assert(b[0] == '<');
    assert forall|k: int| 1 <= k < b.len() implies #[trigger] b[k] != '>' by {
        assert(b[k] == t[k - 1]);
    }
    lemma_next_first(b, 1, b.len() as int, '>');
}

proof fn lemma_plain_end(t: Seq<char>, i: int, n: int)
    requires
        0 <= i <= n <= t.len(),
        forall|k: int| i <= k < n ==> !ends_name(#[trigger] t[k]),
        n < t.len() ==> ends_name(t[n]),
    ensures
        name_end(t, i) == n,
    decreases n - i,
{
    if i < n {
        assert(!ends_name(t[i]));
        lemma_plain_end(t, i + 1, n);
    }
}

/// What stands behind a name in its tag does not matter: attributes are not counted.
pub proof fn lemma_attributes(s: Progress, nm: Seq<char>, more: Seq<char>)
    requires
        plain_name(nm),
        more.len() > 0 ==> more[0] == ' ' || more[0] == '/' || more[0] == '\n' || more[0] == '\t' || more[0]
            == '\r' || more[0] == '\u{c}',
    ensures
        tag(s, nm + more) == start_tag(s, nm),
        tag(s, seq!['/'] + nm + more) == end_tag(s, nm),
{
    let t = nm + more;
    assert forall|k: int| 0 <= k < nm.len() implies !ends_name(#[trigger] t[k]) by {
        assert(t[k] == nm[k]);
    }
    assert(t[0] == nm[0]);
    if more.len() > 0 {
        assert(t[nm.len() as int] == more[0]);
    }
    lemma_plain_end(t, 0, nm.len() as int);
    assert(t.take(nm.len() as int) =~= nm);
    let u = seq!['/'] + nm + more;
    assert(u[0] == '/');
    assert(u.subrange(1, u.len() as int) =~= t);
}

/// Comments, declarations and instructions are not counted.
pub proof fn lemma_not_counted(s: Progress, t: Seq<char>)
    ensures
        tag(s, seq!['!'] + t) == s,
        tag(s, seq!['?'] + t) == s,
        tag(s, seq![]) == s,
{
    assert((seq!['!'] + t)[0] == '!');
    assert((seq!['?'] + t)[0] == '?');
}

proof fn lemma_plain_units(nm: Seq<char>, n: int)
    requires
        0 <= n <= nm.len(),
        forall|i: int| 0 <= i < nm.len() ==> ((#[trigger] nm[i]) as u32) < 0x10000,
    ensures
        utf16(nm.take(n)).len() == n,
    decreases n,
{
    if n > 0 {
        lemma_plain_units(nm, n - 1);
        assert(nm.take(n).drop_last() =~= nm.take(n - 1));
        assert(nm.take(n).last() == nm[n - 1]);
    }
}

/// A plain name has as many units as characters, and is itself the name of its tag.
proof fn lemma_plain(nm: Seq<char>)
    requires
        plain_name(nm),
    ensures
        utf16(nm).len() == nm.len(),
        forall|i: int| 0 <= i < nm.len() ==> #[trigger] nm[i] != '>',
        forall|s: Progress| #[trigger] tag(s, nm) == start_tag(s, nm),
        forall|s: Progress| #[trigger] tag(s, seq!['/'] + nm) == end_tag(s, nm),
{
    lemma_plain_units(nm, nm.len() as int);
    assert(nm.take(nm.len() as int) =~= nm);
    assert(nm + Seq::<char>::empty() =~= nm);
    assert(seq!['/'] + nm + Seq::<char>::empty() =~= seq!['/'] + nm);
    assert forall|s: Progress| #[trigger] tag(s, nm) == start_tag(s, nm) by {
        lemma_attributes(s, nm, seq![]);
    }
    assert forall|s: Progress| #[trigger] tag(s, seq!['/'] + nm) == end_tag(s, nm) by {
        lemma_attributes(s, nm, seq![]);
    }
}

/// Plain names are the same only where they are equal.
proof fn lemma_same_plain(a: Seq<char>, b: Seq<char>)
    requires
        plain_name(a),
        plain_name(b),
    ensures
        named(a, b) <==> a == b,
{
    if named(a, b) {
        assert forall|i: int| 0 <= i < a.len() implies a[i] == b[i] by {
            assert(fold_case(a[i]) == fold_case(b[i]));
            assert(fold_case(b[i]) == b[i] as int);
        }
        assert(a =~= b);
    }
}

proof fn lemma_known_names()
    ensures
        plain_name("area"@),
        plain_name("base"@),
        plain_name("br"@),
        plain_name("col"@),
        plain_name("embed"@),
        plain_name("hr"@),
        plain_name("img"@),
        plain_name("input"@),
        plain_name("link"@),
        plain_name("meta"@),
        plain_name("param"@),
        plain_name("source"@),
        plain_name("track"@),
        plain_name("wbr"@),
        plain_name("address"@),
        plain_name("article"@),
        plain_name("aside"@),
        plain_name("blockquote"@),
        plain_name("details"@),
        plain_name("div"@),
        plain_name("dd"@),
        plain_name("dl"@),
        plain_name("dt"@),
        plain_name("fieldset"@),
        plain_name("figcaption"@),
        plain_name("figure"@),
        plain_name("footer"@),
        plain_name("form"@),
        plain_name("h1"@),
        plain_name("h2"@),
        plain_name("h3"@),
        plain_name("h4"@),
        plain_name("h5"@),
        plain_name("h6"@),
        plain_name("header"@),
        plain_name("hgroup"@),
        plain_name("li"@),
        plain_name("main"@),
        plain_name("menu"@),
        plain_name("nav"@),
        plain_name("ol"@),
        plain_name("p"@),
        plain_name("section"@),
        plain_name("table"@),
        plain_name("ul"@),
        plain_name("applet"@),
        plain_name("caption"@),
        plain_name("html"@),
        plain_name("td"@),
        plain_name("th"@),
        plain_name("marquee"@),
        plain_name("object"@),
        plain_name("template"@),
        plain_name("button"@),
        plain_name("a"@),
        plain_name("b"@),
        plain_name("big"@),
        plain_name("code"@),
        plain_name("em"@),
        plain_name("font"@),
        plain_name("i"@),
        plain_name("nobr"@),
        plain_name("s"@),
        plain_name("small"@),
        plain_name("strike"@),
        plain_name("strong"@),
        plain_name("tt"@),
        plain_name("u"@),
        plain_name("span"@),
        plain_name("label"@),
        plain_name("abbr"@),
        plain_name("cite"@),
        plain_name("q"@),
        plain_name("kbd"@),
        plain_name("samp"@),
        plain_name("var"@),
        plain_name("mark"@),
        plain_name("sub"@),
        plain_name("sup"@),
        plain_name("time"@),
        plain_name("dfn"@),
{
    reveal_strlit("area");
    reveal_strlit("base");
    reveal_strlit("br");
    reveal_strlit("col");
    reveal_strlit("embed");
    reveal_strlit("hr");
    reveal_strlit("img");
    reveal_strlit("input");
    reveal_strlit("link");
    reveal_strlit("meta");
    reveal_strlit("param");
    reveal_strlit("source");
    reveal_strlit("track");
    reveal_strlit("wbr");
    reveal_strlit("address");
    reveal_strlit("article");
    reveal_strlit("aside");
    reveal_strlit("blockquote");
    reveal_strlit("details");
    reveal_strlit("div");
    reveal_strlit("dd");
    reveal_strlit("dl");
    reveal_strlit("dt");
    reveal_strlit("fieldset");
    reveal_strlit("figcaption");
    reveal_strlit("figure");
    reveal_strlit("footer");
    reveal_strlit("form");
    reveal_strlit("h1");
    reveal_strlit("h2");
    reveal_strlit("h3");
    reveal_strlit("h4");
    reveal_strlit("h5");
    reveal_strlit("h6");
    reveal_strlit("header");
    reveal_strlit("hgroup");
    reveal_strlit("li");
    reveal_strlit("main");
    reveal_strlit("menu");
    reveal_strlit("nav");
    reveal_strlit("ol");
    reveal_strlit("p");
    reveal_strlit("section");
    reveal_strlit("table");
    reveal_strlit("ul");
    reveal_strlit("applet");
    reveal_strlit("caption");
    reveal_strlit("html");
    reveal_strlit("td");
    reveal_strlit("th");
    reveal_strlit("marquee");
    reveal_strlit("object");
    reveal_strlit("template");
    reveal_strlit("button");
    reveal_strlit("a");
    reveal_strlit("b");
    reveal_strlit("big");
    reveal_strlit("code");
    reveal_strlit("em");
    reveal_strlit("font");
    reveal_strlit("i");
    reveal_strlit("nobr");
    reveal_strlit("s");
    reveal_strlit("small");
    reveal_strlit("strike");
    reveal_strlit("strong");
    reveal_strlit("tt");
    reveal_strlit("u");
    reveal_strlit("span");
    reveal_strlit("label");
    reveal_strlit("abbr");
    reveal_strlit("cite");
    reveal_strlit("q");
    reveal_strlit("kbd");
    reveal_strlit("samp");
    reveal_strlit("var");
    reveal_strlit("mark");
    reveal_strlit("sub");
    reveal_strlit("sup");
    reveal_strlit("time");
    reveal_strlit("dfn");
}

/// The names of the elements without content.
proof fn lemma_is_void(nm: Seq<char>)
    requires
        plain_name(nm),
    ensures
        void(nm) <==> (
            nm == "area"@ || nm == "base"@ || nm == "br"@ || nm == "col"@ || nm == "embed"@ ||
                nm == "hr"@ || nm == "img"@ || nm == "input"@ || nm == "link"@ ||
                nm == "meta"@ || nm == "param"@ || nm == "source"@ || nm == "track"@ ||
                nm == "wbr"@),
{
    lemma_known_names();
    lemma_same_plain(nm, "area"@);
    lemma_same_plain(nm, "base"@);
    lemma_same_plain(nm, "br"@);
    lemma_same_plain(nm, "col"@);
    lemma_same_plain(nm, "embed"@);
    lemma_same_plain(nm, "hr"@);
    lemma_same_plain(nm, "img"@);
    lemma_same_plain(nm, "input"@);
    lemma_same_plain(nm, "link"@);
    lemma_same_plain(nm, "meta"@);
    lemma_same_plain(nm, "param"@);
    lemma_same_plain(nm, "source"@);
    lemma_same_plain(nm, "track"@);
    lemma_same_plain(nm, "wbr"@);
}

/// The names of the elements that end a paragraph.
proof fn lemma_is_ends_p(nm: Seq<char>)
    requires
        plain_name(nm),
    ensures
        ends_p(nm) <==> (
            nm == "address"@ || nm == "article"@ || nm == "aside"@ || nm == "blockquote"@ ||
                nm == "details"@ || nm == "div"@ || nm == "dd"@ || nm == "dl"@ ||
                nm == "dt"@ || nm == "fieldset"@ || nm == "figcaption"@ || nm == "figure"@ ||
                nm == "footer"@ || nm == "form"@ || nm == "h1"@ || nm == "h2"@ ||
                nm == "h3"@ || nm == "h4"@ || nm == "h5"@ || nm == "h6"@ || nm == "header"@ ||
                nm == "hgroup"@ || nm == "hr"@ || nm == "li"@ || nm == "main"@ ||
                nm == "menu"@ || nm == "nav"@ || nm == "ol"@ || nm == "p"@ ||
                nm == "section"@ || nm == "table"@ || nm == "ul"@),
{
    lemma_known_names();
    lemma_same_plain(nm, "address"@);
    lemma_same_plain(nm, "article"@);
    lemma_same_plain(nm, "aside"@);
    lemma_same_plain(nm, "blockquote"@);
    lemma_same_plain(nm, "details"@);
    lemma_same_plain(nm, "div"@);
    lemma_same_plain(nm, "dd"@);
    lemma_same_plain(nm, "dl"@);
    lemma_same_plain(nm, "dt"@);
    lemma_same_plain(nm, "fieldset"@);
    lemma_same_plain(nm, "figcaption"@);
    lemma_same_plain(nm, "figure"@);
    lemma_same_plain(nm, "footer"@);
    lemma_same_plain(nm, "form"@);
    lemma_same_plain(nm, "h1"@);
    lemma_same_plain(nm, "h2"@);
    lemma_same_plain(nm, "h3"@);
    lemma_same_plain(nm, "h4"@);
    lemma_same_plain(nm, "h5"@);
    lemma_same_plain(nm, "h6"@);
    lemma_same_plain(nm, "header"@);
    lemma_same_plain(nm, "hgroup"@);
    lemma_same_plain(nm, "hr"@);
    lemma_same_plain(nm, "li"@);
    lemma_same_plain(nm, "main"@);
    lemma_same_plain(nm, "menu"@);
    lemma_same_plain(nm, "nav"@);
    lemma_same_plain(nm, "ol"@);
    lemma_same_plain(nm, "p"@);
    lemma_same_plain(nm, "section"@);
    lemma_same_plain(nm, "table"@);
    lemma_same_plain(nm, "ul"@);
}

/// The names that a search for an open element does not pass.
proof fn lemma_is_scope_stop(nm: Seq<char>)
    requires
        plain_name(nm),
    ensures
        scope_stop(nm) <==> (
            nm == "applet"@ || nm == "caption"@ || nm == "html"@ || nm == "td"@ ||
                nm == "th"@ || nm == "marquee"@ || nm == "object"@ || nm == "template"@ ||
                nm == "button"@),
{
    lemma_known_names();
    lemma_same_plain(nm, "applet"@);
    lemma_same_plain(nm, "caption"@);
    lemma_same_plain(nm, "html"@);
    lemma_same_plain(nm, "td"@);
    lemma_same_plain(nm, "th"@);
    lemma_same_plain(nm, "marquee"@);
    lemma_same_plain(nm, "object"@);
    lemma_same_plain(nm, "template"@);
    lemma_same_plain(nm, "button"@);
}

/// The names of the elements of running text.
proof fn lemma_is_formatting(nm: Seq<char>)
    requires
        plain_name(nm),
    ensures
        formatting(nm) <==> (
            nm == "a"@ || nm == "b"@ || nm == "big"@ || nm == "code"@ || nm == "em"@ ||
                nm == "font"@ || nm == "i"@ || nm == "nobr"@ || nm == "s"@ || nm == "small"@ ||
                nm == "strike"@ || nm == "strong"@ || nm == "tt"@ || nm == "u"@ ||
                nm == "span"@ || nm == "label"@ || nm == "abbr"@ || nm == "cite"@ ||
                nm == "q"@ || nm == "kbd"@ || nm == "samp"@ || nm == "var"@ || nm == "mark"@ ||
                nm == "sub"@ || nm == "sup"@ || nm == "time"@ || nm == "dfn"@),
{
    lemma_known_names();
    lemma_same_plain(nm, "a"@);
    lemma_same_plain(nm, "b"@);
    lemma_same_plain(nm, "big"@);
    lemma_same_plain(nm, "code"@);
    lemma_same_plain(nm, "em"@);
    lemma_same_plain(nm, "font"@);
    lemma_same_plain(nm, "i"@);
    lemma_same_plain(nm, "nobr"@);
    lemma_same_plain(nm, "s"@);
    lemma_same_plain(nm, "small"@);
    lemma_same_plain(nm, "strike"@);
    lemma_same_plain(nm, "strong"@);
    lemma_same_plain(nm, "tt"@);
    lemma_same_plain(nm, "u"@);
    lemma_same_plain(nm, "span"@);
    lemma_same_plain(nm, "label"@);
    lemma_same_plain(nm, "abbr"@);
    lemma_same_plain(nm, "cite"@);
    lemma_same_plain(nm, "q"@);
    lemma_same_plain(nm, "kbd"@);
    lemma_same_plain(nm, "samp"@);
    lemma_same_plain(nm, "var"@);
    lemma_same_plain(nm, "mark"@);
    lemma_same_plain(nm, "sub"@);
    lemma_same_plain(nm, "sup"@);
    lemma_same_plain(nm, "time"@);
    lemma_same_plain(nm, "dfn"@);
}

/// The names that a search for an open item passes.
proof fn lemma_is_item_passes(nm: Seq<char>)
    requires
        plain_name(nm),
    ensures
        item_passes(nm) <==> (
            nm == "address"@ || nm == "div"@ || nm == "p"@),
{
    lemma_known_names();
    lemma_same_plain(nm, "address"@);
    lemma_same_plain(nm, "div"@);
    lemma_same_plain(nm, "p"@);
}

proof fn lemma_distinct_names()
    ensures
        "p"@ != "br"@,
        "li"@ != "p"@,
        "li"@ != "br"@,
        "br"@.len() == 2,
        "p"@.len() == 1,
        "p"@ != "hr"@,
        "li"@ != "hr"@,
{
    reveal_strlit("p");
    reveal_strlit("br");
    reveal_strlit("li");
    reveal_strlit("hr");
    assert("li"@[0] == 'l' && "br"@[0] == 'b' && "hr"@[0] == 'h');
}

proof fn lemma_alone(s: Progress, nm: Seq<char>)
    requires
        plain_name(nm),
        s.stack.len() == 0,
    ensures
        start_tag(s, nm) == s.opened(nm),
{
}

/// An element alone: one without content is written as its start tag, every other one as
/// its two tags.
pub proof fn lemma_one_element(nm: Seq<char>)
    requires
        plain_name(nm),
    ensures
        ({
            let without_content =
                nm == "area"@ || nm == "base"@ || nm == "br"@ || nm == "col"@ ||
                    nm == "embed"@ || nm == "hr"@ || nm == "img"@ || nm == "input"@ ||
                    nm == "link"@ || nm == "meta"@ || nm == "param"@ || nm == "source"@ ||
                    nm == "track"@ || nm == "wbr"@;
            &&& without_content ==> measures(bracketed(nm)) == (nm.len() + 2, 1nat)
            &&& !without_content ==> measures(bracketed(nm)) == (2 * nm.len() + 5, 1nat)
        }),
{
    lemma_plain(nm);
    lemma_is_void(nm);
    assert(bracketed(nm) + Seq::<char>::empty() =~= bracketed(nm));
    lemma_read_tag(nm, seq![], nothing());
    lemma_alone(nothing(), nm);
    let end = nothing().opened(nm);
    lemma_length_by_element(nothing(), nm, nm);
    lemma_length_by_element(end, nm, nm);
}

/// Elements of other letters, between text: the image of a paragraph has no end tag.
pub proof fn lemma_text_around(a: Seq<char>, nm: Seq<char>, b: Seq<char>)
    requires
        plain_name(nm),
        forall|i: int| 0 <= i < a.len() ==> #[trigger] a[i] != '<',
        forall|i: int| 0 <= i < b.len() ==> #[trigger] b[i] != '<',
    ensures
        measures(a + (bracketed(nm) + b)) == (
            utf16(a).len() + measures(bracketed(nm)).0 + utf16(b).len(),
            1nat,
        ),
{
    lemma_plain(nm);
    let s0 = nothing();
    let s1 = Progress { len: s0.len + utf16(a).len(), cnt: 0, stack: s0.stack };
    assert((bracketed(nm) + b)[0] == '<');
    lemma_read_text(a, bracketed(nm) + b, s0);
    lemma_read_tag(nm, b, s1);
    lemma_alone(s1, nm);
    let s2 = s1.opened(nm);
    assert(b + Seq::<char>::empty() =~= b);
    lemma_read_text(b, seq![], s2);
    let s3 = Progress { len: s2.len + utf16(b).len(), cnt: s2.cnt, stack: s2.stack };
    lemma_length_by_element(s3, nm, nm);
    assert(bracketed(nm) + Seq::<char>::empty() =~= bracketed(nm));
    lemma_read_tag(nm, seq![], s0);
    lemma_alone(s0, nm);
    lemma_length_by_element(s0.opened(nm), nm, nm);
}

proof fn lemma_p_pushed()
    ensures
        start_tag(nothing(), "p"@) == (Progress { len: 3, cnt: 1, stack: seq!["p"@] }),
        p_open(Progress { len: 3, cnt: 1, stack: seq!["p"@] }),
        !void("p"@),
        utf16("p"@).len() == 1,
{
    lemma_known_names();
    lemma_plain("p"@);
    lemma_is_void("p"@);
    lemma_distinct_names();
    reveal_strlit("p");
    reveal_strlit("area");
    reveal_strlit("base");
    lemma_short("p"@);
    lemma_alone(nothing(), "p"@);
    assert(nothing().stack.push("p"@) =~= seq!["p"@]);
    lemma_same_plain("p"@, "p"@);
}

/// A name of one letter is none of those without content.
proof fn lemma_short(nm: Seq<char>)
    requires
        plain_name(nm),
        nm.len() == 1,
    ensures
        !void(nm),
        !scope_stop(nm),
{
    lemma_is_void(nm);
    lemma_is_scope_stop(nm);
    reveal_strlit("area");
    reveal_strlit("base");
    reveal_strlit("br");
    reveal_strlit("col");
    reveal_strlit("embed");
    reveal_strlit("hr");
    reveal_strlit("img");
    reveal_strlit("input");
    reveal_strlit("link");
    reveal_strlit("meta");
    reveal_strlit("param");
    reveal_strlit("source");
    reveal_strlit("track");
    reveal_strlit("wbr");
    reveal_strlit("applet");
    reveal_strlit("caption");
    reveal_strlit("html");
    reveal_strlit("td");
    reveal_strlit("th");
    reveal_strlit("marquee");
    reveal_strlit("object");
    reveal_strlit("template");
    reveal_strlit("button");
}

/// Which elements end an open paragraph, and which shut it off: after one of them an end
/// tag of a paragraph finds none, and makes an empty one of its own. After every other
/// element it closes the paragraph that is open.
#[verifier::rlimit(80)]
pub proof fn lemma_paragraphs(nm: Seq<char>)
    requires
        plain_name(nm),
        nm != "p"@,
    ensures
        ({
            let ends =
                nm == "address"@ || nm == "article"@ || nm == "aside"@ ||
                    nm == "blockquote"@ || nm == "details"@ || nm == "div"@ || nm == "dd"@ ||
                    nm == "dl"@ || nm == "dt"@ || nm == "fieldset"@ || nm == "figcaption"@ ||
                    nm == "figure"@ || nm == "footer"@ || nm == "form"@ || nm == "h1"@ ||
                    nm == "h2"@ || nm == "h3"@ || nm == "h4"@ || nm == "h5"@ || nm == "h6"@ ||
                    nm == "header"@ || nm == "hgroup"@ || nm == "li"@ || nm == "main"@ ||
                    nm == "menu"@ || nm == "nav"@ || nm == "ol"@ || nm == "section"@ ||
                    nm == "table"@ || nm == "ul"@;
            let shuts =
                nm == "applet"@ || nm == "caption"@ || nm == "html"@ || nm == "td"@ ||
                    nm == "th"@ || nm == "marquee"@ || nm == "object"@ || nm == "template"@ ||
                    nm == "button"@;
            let m = measures(bracketed("p"@) + (bracketed(nm) + bracketed("/p"@)));
            &&& ends || shuts ==> m.1 == 3 && m.0 == 2 * nm.len() + 5 + 14
            &&& !ends && !shuts ==> m.1 == 2
        }),
{
    lemma_known_names();
    lemma_plain(nm);
    lemma_plain("p"@);
    lemma_distinct_names();
    lemma_p_pushed();
    lemma_is_void(nm);
    lemma_is_ends_p(nm);
    lemma_is_scope_stop(nm);
    lemma_is_formatting(nm);
    lemma_lists_apart(nm);
    reveal_strlit("/p");
    reveal_strlit("p");
    assert("/p"@ =~= seq!['/'] + "p"@);
    let s1 = Progress { len: 3, cnt: 1, stack: seq!["p"@] };
    let tail = bracketed(nm) + bracketed("/p"@);
    lemma_read_tag("p"@, tail, nothing());
    lemma_read_tag(nm, bracketed("/p"@), s1);
    let s2 = start_tag(s1, nm);
    assert(bracketed("/p"@) + Seq::<char>::empty() =~= bracketed("/p"@));
    lemma_read_tag("/p"@, seq![], s2);
    let s3 = end_tag(s2, "p"@);
    lemma_after_p(nm);
    lemma_same_plain("p"@, "p"@);
    lemma_same_plain("p"@, "br"@);
    lemma_length_by_element(s3, nm, "p"@);
    lemma_end_p(s2);
    lemma_same_plain(nm, "p"@);
    assert(in_scope(seq![nm], 0, "p"@) == false);
    assert(seq![nm][0] == nm && seq!["p"@, nm][1] == nm && seq!["p"@, nm][0] == "p"@ && seq!["p"@][0] == "p"@);
    assert(in_scope(seq!["p"@], 1, "p"@));
    assert(in_scope(seq!["p"@, nm], 1, "p"@));
    assert(p_open(s2) <==> !(ends_p(nm) && !void(nm)) && !scope_stop(nm));
    assert(weight(s1) == 7) by {
        assert(s1.stack.drop_last() =~= seq![]);
        assert(s1.stack.last() == "p"@);
        assert(pending(Seq::<Seq<char>>::empty()) == 0);
    }
    lemma_length_by_element(s1, nm, "p"@);
    lemma_length_by_element(s1.popped_until("p"@), nm, "li"@);
    lemma_length_by_element(s1, nm, "li"@);
    lemma_length_by_element(made_room(s1, nm), nm, "li"@);
    lemma_length_by_element(s2, "p"@, "p"@);
    lemma_length_by_element(s2.opened("p"@), "p"@, "p"@);
}

/// No name is both one of running text and one that ends a paragraph, and none without
/// content but `hr` ends one.
proof fn lemma_lists_apart(nm: Seq<char>)
    requires
        plain_name(nm),
    ensures
        formatting(nm) ==> !ends_p(nm) && !void(nm) && !scope_stop(nm),
        void(nm) && ends_p(nm) ==> nm == "hr"@,
        void(nm) ==> !scope_stop(nm),
        ends_p(nm) ==> !scope_stop(nm),
        nm == "hr"@ ==> void(nm),
        nm == "hr"@ ==> !(
            nm == "address"@ || nm == "article"@ || nm == "aside"@ || nm == "blockquote"@ ||
                nm == "details"@ || nm == "div"@ || nm == "dd"@ || nm == "dl"@ ||
                nm == "dt"@ || nm == "fieldset"@ || nm == "figcaption"@ || nm == "figure"@ ||
                nm == "footer"@ || nm == "form"@ || nm == "h1"@ || nm == "h2"@ ||
                nm == "h3"@ || nm == "h4"@ || nm == "h5"@ || nm == "h6"@ || nm == "header"@ ||
                nm == "hgroup"@ || nm == "li"@ || nm == "main"@ || nm == "menu"@ ||
                nm == "nav"@ || nm == "ol"@ || nm == "section"@ || nm == "table"@ || nm == "ul"@),
{
    lemma_is_void(nm);
    lemma_is_ends_p(nm);
    lemma_is_scope_stop(nm);
    lemma_is_formatting(nm);
    reveal_strlit("area");
    reveal_strlit("base");
    reveal_strlit("br");
    reveal_strlit("col");
    reveal_strlit("embed");
    reveal_strlit("hr");
    reveal_strlit("img");
    reveal_strlit("input");
    reveal_strlit("link");
    reveal_strlit("meta");
    reveal_strlit("param");
    reveal_strlit("source");
    reveal_strlit("track");
    reveal_strlit("wbr");
    reveal_strlit("address");
    reveal_strlit("article");
    reveal_strlit("aside");
    reveal_strlit("blockquote");
    reveal_strlit("details");
    reveal_strlit("div");
    reveal_strlit("dd");
    reveal_strlit("dl");
    reveal_strlit("dt");
    reveal_strlit("fieldset");
    reveal_strlit("figcaption");
    reveal_strlit("figure");
    reveal_strlit("footer");
    reveal_strlit("form");
    reveal_strlit("h1");
    reveal_strlit("h2");
    reveal_strlit("h3");
    reveal_strlit("h4");
    reveal_strlit("h5");
    reveal_strlit("h6");
    reveal_strlit("header");
    reveal_strlit("hgroup");
    reveal_strlit("li");
    reveal_strlit("main");
    reveal_strlit("menu");
    reveal_strlit("nav");
    reveal_strlit("ol");
    reveal_strlit("p");
    reveal_strlit("section");
    reveal_strlit("table");
    reveal_strlit("ul");
    reveal_strlit("applet");
    reveal_strlit("caption");
    reveal_strlit("html");
    reveal_strlit("td");
    reveal_strlit("th");
    reveal_strlit("marquee");
    reveal_strlit("object");
    reveal_strlit("template");
    reveal_strlit("button");
    reveal_strlit("a");
    reveal_strlit("b");
    reveal_strlit("big");
    reveal_strlit("code");
    reveal_strlit("em");
    reveal_strlit("font");
    reveal_strlit("i");
    reveal_strlit("nobr");
    reveal_strlit("s");
    reveal_strlit("small");
    reveal_strlit("strike");
    reveal_strlit("strong");
    reveal_strlit("tt");
    reveal_strlit("u");
    reveal_strlit("span");
    reveal_strlit("label");
    reveal_strlit("abbr");
    reveal_strlit("cite");
    reveal_strlit("q");
    reveal_strlit("kbd");
    reveal_strlit("samp");
    reveal_strlit("var");
    reveal_strlit("mark");
    reveal_strlit("sub");
    reveal_strlit("sup");
    reveal_strlit("time");
    reveal_strlit("dfn");
    assert("area"@.len() == 4 && "area"@[0] == 'a' && "area"@[1] == 'r' && "area"@[2] == 'e' && "area"@[3] == 'a');
    assert("base"@.len() == 4 && "base"@[0] == 'b' && "base"@[1] == 'a' && "base"@[2] == 's' && "base"@[3] == 'e');
    assert("br"@.len() == 2 && "br"@[0] == 'b' && "br"@[1] == 'r');
    assert("col"@.len() == 3 && "col"@[0] == 'c' && "col"@[1] == 'o' && "col"@[2] == 'l');
    assert("embed"@.len() == 5 && "embed"@[0] == 'e' && "embed"@[1] == 'm' && "embed"@[2] == 'b' && "embed"@[3] == 'e' && "embed"@[4] == 'd');
    assert("hr"@.len() == 2 && "hr"@[0] == 'h' && "hr"@[1] == 'r');
    assert("img"@.len() == 3 && "img"@[0] == 'i' && "img"@[1] == 'm' && "img"@[2] == 'g');
    assert("input"@.len() == 5 && "input"@[0] == 'i' && "input"@[1] == 'n' && "input"@[2] == 'p' && "input"@[3] == 'u' && "input"@[4] == 't');
    assert("link"@.len() == 4 && "link"@[0] == 'l' && "link"@[1] == 'i' && "link"@[2] == 'n' && "link"@[3] == 'k');
    assert("meta"@.len() == 4 && "meta"@[0] == 'm' && "meta"@[1] == 'e' && "meta"@[2] == 't' && "meta"@[3] == 'a');
    assert("param"@.len() == 5 && "param"@[0] == 'p' && "param"@[1] == 'a' && "param"@[2] == 'r' && "param"@[3] == 'a' && "param"@[4] == 'm');
    assert("source"@.len() == 6 && "source"@[0] == 's' && "source"@[1] == 'o' && "source"@[2] == 'u' && "source"@[3] == 'r' && "source"@[4] == 'c' && "source"@[5] == 'e');
    assert("track"@.len() == 5 && "track"@[0] == 't' && "track"@[1] == 'r' && "track"@[2] == 'a' && "track"@[3] == 'c' && "track"@[4] == 'k');
    assert("wbr"@.len() == 3 && "wbr"@[0] == 'w' && "wbr"@[1] == 'b' && "wbr"@[2] == 'r');
    assert("address"@.len() == 7 && "address"@[0] == 'a' && "address"@[1] == 'd' && "address"@[2] == 'd' && "address"@[3] == 'r' && "address"@[4] == 'e' && "address"@[5] == 's' && "address"@[6] == 's');
    assert("article"@.len() == 7 && "article"@[0] == 'a' && "article"@[1] == 'r' && "article"@[2] == 't' && "article"@[3] == 'i' && "article"@[4] == 'c' && "article"@[5] == 'l' && "article"@[6] == 'e');
    assert("aside"@.len() == 5 && "aside"@[0] == 'a' && "aside"@[1] == 's' && "aside"@[2] == 'i' && "aside"@[3] == 'd' && "aside"@[4] == 'e');
    assert("blockquote"@.len() == 10 && "blockquote"@[0] == 'b' && "blockquote"@[1] == 'l' && "blockquote"@[2] == 'o' && "blockquote"@[3] == 'c' && "blockquote"@[4] == 'k' && "blockquote"@[5] == 'q' && "blockquote"@[6] == 'u' && "blockquote"@[7] == 'o' && "blockquote"@[8] == 't' && "blockquote"@[9] == 'e');
    assert("details"@.len() == 7 && "details"@[0] == 'd' && "details"@[1] == 'e' && "details"@[2] == 't' && "details"@[3] == 'a' && "details"@[4] == 'i' && "details"@[5] == 'l' && "details"@[6] == 's');
    assert("div"@.len() == 3 && "div"@[0] == 'd' && "div"@[1] == 'i' && "div"@[2] == 'v');
    assert("dd"@.len() == 2 && "dd"@[0] == 'd' && "dd"@[1] == 'd');
    assert("dl"@.len() == 2 && "dl"@[0] == 'd' && "dl"@[1] == 'l');
    assert("dt"@.len() == 2 && "dt"@[0] == 'd' && "dt"@[1] == 't');
    assert("fieldset"@.len() == 8 && "fieldset"@[0] == 'f' && "fieldset"@[1] == 'i' && "fieldset"@[2] == 'e' && "fieldset"@[3] == 'l' && "fieldset"@[4] == 'd' && "fieldset"@[5] == 's' && "fieldset"@[6] == 'e' && "fieldset"@[7] == 't');
    assert("figcaption"@.len() == 10 && "figcaption"@[0] == 'f' && "figcaption"@[1] == 'i' && "figcaption"@[2] == 'g' && "figcaption"@[3] == 'c' && "figcaption"@[4] == 'a' && "figcaption"@[5] == 'p' && "figcaption"@[6] == 't' && "figcaption"@[7] == 'i' && "figcaption"@[8] == 'o' && "figcaption"@[9] == 'n');
    assert("figure"@.len() == 6 && "figure"@[0] == 'f' && "figure"@[1] == 'i' && "figure"@[2] == 'g' && "figure"@[3] == 'u' && "figure"@[4] == 'r' && "figure"@[5] == 'e');
    assert("footer"@.len() == 6 && "footer"@[0] == 'f' && "footer"@[1] == 'o' && "footer"@[2] == 'o' && "footer"@[3] == 't' && "footer"@[4] == 'e' && "footer"@[5] == 'r');
    assert("form"@.len() == 4 && "form"@[0] == 'f' && "form"@[1] == 'o' && "form"@[2] == 'r' && "form"@[3] == 'm');
    assert("h1"@.len() == 2 && "h1"@[0] == 'h' && "h1"@[1] == '1');
    assert("h2"@.len() == 2 && "h2"@[0] == 'h' && "h2"@[1] == '2');
    assert("h3"@.len() == 2 && "h3"@[0] == 'h' && "h3"@[1] == '3');
    assert("h4"@.len() == 2 && "h4"@[0] == 'h' && "h4"@[1] == '4');
    assert("h5"@.len() == 2 && "h5"@[0] == 'h' && "h5"@[1] == '5');
    assert("h6"@.len() == 2 && "h6"@[0] == 'h' && "h6"@[1] == '6');
    assert("header"@.len() == 6 && "header"@[0] == 'h' && "header"@[1] == 'e' && "header"@[2] == 'a' && "header"@[3] == 'd' && "header"@[4] == 'e' && "header"@[5] == 'r');
    assert("hgroup"@.len() == 6 && "hgroup"@[0] == 'h' && "hgroup"@[1] == 'g' && "hgroup"@[2] == 'r' && "hgroup"@[3] == 'o' && "hgroup"@[4] == 'u' && "hgroup"@[5] == 'p');
    assert("li"@.len() == 2 && "li"@[0] == 'l' && "li"@[1] == 'i');
    assert("main"@.len() == 4 && "main"@[0] == 'm' && "main"@[1] == 'a' && "main"@[2] == 'i' && "main"@[3] == 'n');
    assert("menu"@.len() == 4 && "menu"@[0] == 'm' && "menu"@[1] == 'e' && "menu"@[2] == 'n' && "menu"@[3] == 'u');
    assert("nav"@.len() == 3 && "nav"@[0] == 'n' && "nav"@[1] == 'a' && "nav"@[2] == 'v');
    assert("ol"@.len() == 2 && "ol"@[0] == 'o' && "ol"@[1] == 'l');
    assert("p"@.len() == 1 && "p"@[0] == 'p');
    assert("section"@.len() == 7 && "section"@[0] == 's' && "section"@[1] == 'e' && "section"@[2] == 'c' && "section"@[3] == 't' && "section"@[4] == 'i' && "section"@[5] == 'o' && "section"@[6] == 'n');
    assert("table"@.len() == 5 && "table"@[0] == 't' && "table"@[1] == 'a' && "table"@[2] == 'b' && "table"@[3] == 'l' && "table"@[4] == 'e');
    assert("ul"@.len() == 2 && "ul"@[0] == 'u' && "ul"@[1] == 'l');
    assert("applet"@.len() == 6 && "applet"@[0] == 'a' && "applet"@[1] == 'p' && "applet"@[2] == 'p' && "applet"@[3] == 'l' && "applet"@[4] == 'e' && "applet"@[5] == 't');
    assert("caption"@.len() == 7 && "caption"@[0] == 'c' && "caption"@[1] == 'a' && "caption"@[2] == 'p' && "caption"@[3] == 't' && "caption"@[4] == 'i' && "caption"@[5] == 'o' && "caption"@[6] == 'n');
    assert("html"@.len() == 4 && "html"@[0] == 'h' && "html"@[1] == 't' && "html"@[2] == 'm' && "html"@[3] == 'l');
    assert("td"@.len() == 2 && "td"@[0] == 't' && "td"@[1] == 'd');
    assert("th"@.len() == 2 && "th"@[0] == 't' && "th"@[1] == 'h');
    assert("marquee"@.len() == 7 && "marquee"@[0] == 'm' && "marquee"@[1] == 'a' && "marquee"@[2] == 'r' && "marquee"@[3] == 'q' && "marquee"@[4] == 'u' && "marquee"@[5] == 'e' && "marquee"@[6] == 'e');
    assert("object"@.len() == 6 && "object"@[0] == 'o' && "object"@[1] == 'b' && "object"@[2] == 'j' && "object"@[3] == 'e' && "object"@[4] == 'c' && "object"@[5] == 't');
    assert("template"@.len() == 8 && "template"@[0] == 't' && "template"@[1] == 'e' && "template"@[2] == 'm' && "template"@[3] == 'p' && "template"@[4] == 'l' && "template"@[5] == 'a' && "template"@[6] == 't' && "template"@[7] == 'e');
    assert("button"@.len() == 6 && "button"@[0] == 'b' && "button"@[1] == 'u' && "button"@[2] == 't' && "button"@[3] == 't' && "button"@[4] == 'o' && "button"@[5] == 'n');
    assert("a"@.len() == 1 && "a"@[0] == 'a');
    assert("b"@.len() == 1 && "b"@[0] == 'b');
    assert("big"@.len() == 3 && "big"@[0] == 'b' && "big"@[1] == 'i' && "big"@[2] == 'g');
    assert("code"@.len() == 4 && "code"@[0] == 'c' && "code"@[1] == 'o' && "code"@[2] == 'd' && "code"@[3] == 'e');
    assert("em"@.len() == 2 && "em"@[0] == 'e' && "em"@[1] == 'm');
    assert("font"@.len() == 4 && "font"@[0] == 'f' && "font"@[1] == 'o' && "font"@[2] == 'n' && "font"@[3] == 't');
    assert("i"@.len() == 1 && "i"@[0] == 'i');
    assert("nobr"@.len() == 4 && "nobr"@[0] == 'n' && "nobr"@[1] == 'o' && "nobr"@[2] == 'b' && "nobr"@[3] == 'r');
    assert("s"@.len() == 1 && "s"@[0] == 's');
    assert("small"@.len() == 5 && "small"@[0] == 's' && "small"@[1] == 'm' && "small"@[2] == 'a' && "small"@[3] == 'l' && "small"@[4] == 'l');
    assert("strike"@.len() == 6 && "strike"@[0] == 's' && "strike"@[1] == 't' && "strike"@[2] == 'r' && "strike"@[3] == 'i' && "strike"@[4] == 'k' && "strike"@[5] == 'e');
    assert("strong"@.len() == 6 && "strong"@[0] == 's' && "strong"@[1] == 't' && "strong"@[2] == 'r' && "strong"@[3] == 'o' && "strong"@[4] == 'n' && "strong"@[5] == 'g');
    assert("tt"@.len() == 2 && "tt"@[0] == 't' && "tt"@[1] == 't');
    assert("u"@.len() == 1 && "u"@[0] == 'u');
    assert("span"@.len() == 4 && "span"@[0] == 's' && "span"@[1] == 'p' && "span"@[2] == 'a' && "span"@[3] == 'n');
    assert("label"@.len() == 5 && "label"@[0] == 'l' && "label"@[1] == 'a' && "label"@[2] == 'b' && "label"@[3] == 'e' && "label"@[4] == 'l');
    assert("abbr"@.len() == 4 && "abbr"@[0] == 'a' && "abbr"@[1] == 'b' && "abbr"@[2] == 'b' && "abbr"@[3] == 'r');
    assert("cite"@.len() == 4 && "cite"@[0] == 'c' && "cite"@[1] == 'i' && "cite"@[2] == 't' && "cite"@[3] == 'e');
    assert("q"@.len() == 1 && "q"@[0] == 'q');
    assert("kbd"@.len() == 3 && "kbd"@[0] == 'k' && "kbd"@[1] == 'b' && "kbd"@[2] == 'd');
    assert("samp"@.len() == 4 && "samp"@[0] == 's' && "samp"@[1] == 'a' && "samp"@[2] == 'm' && "samp"@[3] == 'p');
    assert("var"@.len() == 3 && "var"@[0] == 'v' && "var"@[1] == 'a' && "var"@[2] == 'r');
    assert("mark"@.len() == 4 && "mark"@[0] == 'm' && "mark"@[1] == 'a' && "mark"@[2] == 'r' && "mark"@[3] == 'k');
    assert("sub"@.len() == 3 && "sub"@[0] == 's' && "sub"@[1] == 'u' && "sub"@[2] == 'b');
    assert("sup"@.len() == 3 && "sup"@[0] == 's' && "sup"@[1] == 'u' && "sup"@[2] == 'p');
    assert("time"@.len() == 4 && "time"@[0] == 't' && "time"@[1] == 'i' && "time"@[2] == 'm' && "time"@[3] == 'e');
    assert("dfn"@.len() == 3 && "dfn"@[0] == 'd' && "dfn"@[1] == 'f' && "dfn"@[2] == 'n');
}

/// The open elements after a paragraph and another start tag.
proof fn lemma_after_p(nm: Seq<char>)
    requires
        plain_name(nm),
        nm != "p"@,
    ensures
        ({
            let s1 = Progress { len: 3, cnt: 1, stack: seq!["p"@] };
            let s2 = start_tag(s1, nm);
            let ends = ends_p(nm) && !void(nm);
            &&& s2.cnt == 2
            &&& ends ==> s2.stack == seq![nm]
            &&& !ends && void(nm) ==> s2.stack == seq!["p"@]
            &&& !ends && !void(nm) ==> s2.stack == seq!["p"@, nm]
        }),
{
    lemma_p_pushed();
    lemma_known_names();
    lemma_lists_apart(nm);
    let s1 = Progress { len: 3, cnt: 1, stack: seq!["p"@] };
    lemma_same_plain("p"@, "p"@);
    lemma_same_plain("p"@, "li"@);
    lemma_same_plain(nm, "li"@);
    lemma_distinct_names();
    let empty = s1.popped();
    assert(s1.stack.last() == "p"@);
    assert(s1.popped_until("p"@) == empty);
    assert(empty.stack =~= seq![]);
    if ends_p(nm) && !void(nm) {
        assert(!formatting(nm));
        assert(made_room(s1, nm) == empty);
        assert(empty.stack.push(nm) =~= seq![nm]);
    } else {
        assert(!named(nm, "li"@)) by {
            if nm == "li"@ {
                lemma_is_ends_p(nm);
                lemma_is_void(nm);
            }
        }
        assert(made_room(s1, nm) == s1);
        assert(s1.stack.push(nm) =~= seq!["p"@, nm]);
    }
}

/// What an end tag of a paragraph does: it closes an open one, or writes an empty one.
pub proof fn lemma_end_p(s: Progress)
    ensures
        p_open(s) ==> end_tag(s, "p"@).cnt == s.cnt,
        !p_open(s) ==> end_tag(s, "p"@).cnt == s.cnt + 1,
{
    lemma_known_names();
    lemma_distinct_names();
    lemma_same_plain("p"@, "p"@);
    lemma_same_plain("p"@, "br"@);
    lemma_length_by_element(s, "p"@, "p"@);
    lemma_length_by_element(s.opened("p"@), "p"@, "p"@);
    lemma_count_kept(s, "p"@);
    lemma_count_kept(s.opened("p"@), "p"@);
}

proof fn lemma_count_kept(s: Progress, nm: Seq<char>)
    ensures
        s.popped_until(nm).cnt == s.cnt,
    decreases s.stack.len(),
{
    if s.stack.len() > 0 && !named(s.stack.last(), nm) {
        lemma_count_kept(s.popped(), nm);
    }
}

/// An end tag of a line break writes a line break.
pub proof fn lemma_end_br(s: Progress)
    ensures
        end_tag(s, "br"@) == (Progress { len: s.len + 4, cnt: s.cnt + 1, stack: s.stack }),
{
    lemma_known_names();
    lemma_plain("br"@);
    lemma_same_plain("br"@, "br"@);
    lemma_is_void("br"@);
    reveal_strlit("br");
}

/// An end tag closes the element of its name that was opened last, and adds the end tag
/// to the length.
pub proof fn lemma_closes(s: Progress, nm: Seq<char>)
    requires
        plain_name(nm),
        nm != "p"@,
        nm != "br"@,
    ensures
        end_tag(Progress { len: s.len, cnt: s.cnt, stack: s.stack.push(nm) }, nm) == (Progress {
            len: s.len + nm.len() + 3,
            cnt: s.cnt,
            stack: s.stack,
        }),
{
    lemma_known_names();
    lemma_plain(nm);
    lemma_same_plain(nm, "p"@);
    lemma_same_plain(nm, "br"@);
    lemma_same_plain(nm, nm);
    let t = Progress { len: s.len, cnt: s.cnt, stack: s.stack.push(nm) };
    assert(t.stack.last() == nm);
    assert(t.stack.drop_last() =~= s.stack);
    assert(t.stack[t.stack.len() - 1] == nm);
}

/// An end tag without an open element of its name does nothing.
pub proof fn lemma_closes_nothing(s: Progress, nm: Seq<char>)
    requires
        plain_name(nm),
        nm != "p"@,
        nm != "br"@,
        forall|i: int| 0 <= i < s.stack.len() ==> !named(#[trigger] s.stack[i], nm),
    ensures
        end_tag(s, nm) == s,
{
    lemma_known_names();
    lemma_same_plain(nm, "p"@);
    lemma_same_plain(nm, "br"@);
    lemma_out_of_scope(s.stack, s.stack.len() as int, nm);
}

proof fn lemma_out_of_scope(stack: Seq<Seq<char>>, k: int, nm: Seq<char>)
    requires
        0 <= k <= stack.len(),
        forall|i: int| 0 <= i < stack.len() ==> !named(#[trigger] stack[i], nm),
    ensures
        !in_scope(stack, k, nm),
    decreases k,
{
    if k > 0 {
        assert(!named(stack[k - 1], nm));
        lemma_out_of_scope(stack, k - 1, nm);
    }
}

/// The item of a list closes the one before it, directly or through an address or a
/// division, and through nothing else that can be open.
pub proof fn lemma_items(nm: Seq<char>)
    requires
        plain_name(nm),
        nm != "p"@,
        nm != "li"@,
    ensures
        ({
            let s = Progress { len: 0, cnt: 0, stack: seq!["li"@, nm] };
            let passes = nm == "address"@ || nm == "div"@;
            &&& passes ==> start_tag(s, "li"@).stack == seq!["li"@]
            &&& !passes ==> start_tag(s, "li"@).stack == seq!["li"@, nm, "li"@]
        }),
        start_tag(Progress { len: 0, cnt: 0, stack: seq!["li"@] }, "li"@).stack == seq!["li"@],
{
    lemma_known_names();
    lemma_distinct_names();
    lemma_is_item_passes(nm);
    lemma_is_void("li"@);
    lemma_lists_apart("li"@);
    lemma_is_ends_p("li"@);
    lemma_same_plain("li"@, "li"@);
    lemma_same_plain(nm, "li"@);
    lemma_same_plain(nm, "p"@);
    lemma_same_plain("li"@, "p"@);
    let st = seq!["li"@, nm];
    let s = Progress { len: 0, cnt: 0, stack: st };
    assert(st[0] == "li"@ && st[1] == nm && st.len() == 2);
    assert(!in_scope(st, 0, "p"@));
    assert(!in_scope(st, 1, "p"@));
    assert(!p_open(s));
    assert(item_open(st, 1));
    let one = seq!["li"@];
    assert(one[0] == "li"@ && one.len() == 1);
    assert(!in_scope(one, 0, "p"@));
    let t = Progress { len: 0, cnt: 0, stack: one };
    assert(!p_open(t));
    assert(st.last() == nm && one.last() == "li"@);
    assert(st.drop_last() =~= one);
    assert(one.drop_last() =~= seq![]);
    assert(Seq::<Seq<char>>::empty().push("li"@) =~= one);
    assert(st.push("li"@) =~= seq!["li"@, nm, "li"@]);
    assert(s.popped().popped_until("li"@) == s.popped().popped());
}

/// A tag has a name where it starts with a letter of ASCII, of either case; the name runs to
/// the first blank or slash.
pub proof fn lemma_tag_names(t: Seq<char>)
    ensures
        t.len() > 0 && ('a' <= t[0] <= 'z' || 'A' <= t[0] <= 'Z') ==> tag_name(t) == t.take(
            name_end(t, 0),
        ),
        t.len() == 0 || !('a' <= t[0] <= 'z' || 'A' <= t[0] <= 'Z') ==> tag_name(t) == Seq::<
            char,
        >::empty(),
{
}

} // verus!
