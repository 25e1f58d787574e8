//! Two measures of an HTML fragment: the length of its serialised content and
//! the number of its elements.
//!
//! The fragment is read in one pass. A tag name starts with an ASCII letter and
//! runs to a blank, a `/` or the end of the tag. An element is written as its
//! name in two tags, without attributes; a text is written as it stands. Lengths
//! are counted in UTF-16 code units.
use vstd::prelude::*;

#[allow(unused_imports)]
use crate::text::{chars_of, utf16};

verus! {

/// The code of a character, that of an ASCII capital being that of its small letter.
pub open spec fn fold_case(c: char) -> int {
    if 'A' <= c <= 'Z' { c as int + 32 } else { c as int }
}

/// Two names that differ at most in the case of their ASCII letters.
pub open spec fn named(a: Seq<char>, b: Seq<char>) -> bool {
    a.len() == b.len() && forall|i: int| 0 <= i < a.len() ==> #[trigger] fold_case(a[i]) == fold_case(b[i])
}

fn folded(c: char) -> (r: u32)
    ensures
        r == fold_case(c),
{
    if 'A' <= c && c <= 'Z' { c as u32 + 32 } else { c as u32 }
}

fn is_same(a: &Vec<char>, b: &Vec<char>) -> (r: bool)
    ensures
        r == named(a@, b@),
{
    if a.len() != b.len() {
        return false;
    }
    let mut i: usize = 0;
    while i < a.len()
        invariant
            a@.len() == b@.len(),
            i <= a@.len(),
            forall|k: int| 0 <= k < i ==> #[trigger] fold_case(a@[k]) == fold_case(b@[k]),
        decreases a@.len() - i,
    {
        if folded(a[i]) != folded(b[i]) {
            return false;
        }
        i += 1;
    }
    true
}

fn is_named(nm: &Vec<char>, s: &str) -> (r: bool)
    ensures
        r == named(nm@, s@),
{
    is_same(nm, &chars_of(s))
}

/// An element without content.
pub open spec fn void(nm: Seq<char>) -> bool {
    ||| named(nm, "area"@)
    ||| named(nm, "base"@)
    ||| named(nm, "br"@)
    ||| named(nm, "col"@)
    ||| named(nm, "embed"@)
    ||| named(nm, "hr"@)
    ||| named(nm, "img"@)
    ||| named(nm, "input"@)
    ||| named(nm, "link"@)
    ||| named(nm, "meta"@)
    ||| named(nm, "param"@)
    ||| named(nm, "source"@)
    ||| named(nm, "track"@)
    ||| named(nm, "wbr"@)
}

fn is_void(nm: &Vec<char>) -> (r: bool)
    ensures
        r == void(nm@),
{
    is_named(nm, "area")
        || is_named(nm, "base")
        || is_named(nm, "br")
        || is_named(nm, "col")
        || is_named(nm, "embed")
        || is_named(nm, "hr")
        || is_named(nm, "img")
        || is_named(nm, "input")
        || is_named(nm, "link")
        || is_named(nm, "meta")
        || is_named(nm, "param")
        || is_named(nm, "source")
        || is_named(nm, "track")
        || is_named(nm, "wbr")
}

/// An element of running text.
pub open spec fn formatting(nm: Seq<char>) -> bool {
    ||| named(nm, "a"@)
    ||| named(nm, "b"@)
    ||| named(nm, "big"@)
    ||| named(nm, "code"@)
    ||| named(nm, "em"@)
    ||| named(nm, "font"@)
    ||| named(nm, "i"@)
    ||| named(nm, "nobr"@)
    ||| named(nm, "s"@)
    ||| named(nm, "small"@)
    ||| named(nm, "strike"@)
    ||| named(nm, "strong"@)
    ||| named(nm, "tt"@)
    ||| named(nm, "u"@)
    ||| named(nm, "span"@)
    ||| named(nm, "label"@)
    ||| named(nm, "abbr"@)
    ||| named(nm, "cite"@)
    ||| named(nm, "q"@)
    ||| named(nm, "kbd"@)
    ||| named(nm, "samp"@)
    ||| named(nm, "var"@)
    ||| named(nm, "mark"@)
    ||| named(nm, "sub"@)
    ||| named(nm, "sup"@)
    ||| named(nm, "time"@)
    ||| named(nm, "dfn"@)
}

fn is_formatting(nm: &Vec<char>) -> (r: bool)
    ensures
        r == formatting(nm@),
{
    is_named(nm, "a")
        || is_named(nm, "b")
        || is_named(nm, "big")
        || is_named(nm, "code")
        || is_named(nm, "em")
        || is_named(nm, "font")
        || is_named(nm, "i")
        || is_named(nm, "nobr")
        || is_named(nm, "s")
        || is_named(nm, "small")
        || is_named(nm, "strike")
        || is_named(nm, "strong")
        || is_named(nm, "tt")
        || is_named(nm, "u")
        || is_named(nm, "span")
        || is_named(nm, "label")
        || is_named(nm, "abbr")
        || is_named(nm, "cite")
        || is_named(nm, "q")
        || is_named(nm, "kbd")
        || is_named(nm, "samp")
        || is_named(nm, "var")
        || is_named(nm, "mark")
        || is_named(nm, "sub")
        || is_named(nm, "sup")
        || is_named(nm, "time")
        || is_named(nm, "dfn")
}

/// An element that ends an open paragraph.
pub open spec fn ends_p(nm: Seq<char>) -> bool {
    ||| named(nm, "address"@)
    ||| named(nm, "article"@)
    ||| named(nm, "aside"@)
    ||| named(nm, "blockquote"@)
    ||| named(nm, "details"@)
    ||| named(nm, "div"@)
    ||| named(nm, "dd"@)
    ||| named(nm, "dl"@)
    ||| named(nm, "dt"@)
    ||| named(nm, "fieldset"@)
    ||| named(nm, "figcaption"@)
    ||| named(nm, "figure"@)
    ||| named(nm, "footer"@)
    ||| named(nm, "form"@)
    ||| named(nm, "h1"@)
    ||| named(nm, "h2"@)
    ||| named(nm, "h3"@)
    ||| named(nm, "h4"@)
    ||| named(nm, "h5"@)
    ||| named(nm, "h6"@)
    ||| named(nm, "header"@)
    ||| named(nm, "hgroup"@)
    ||| named(nm, "hr"@)
    ||| named(nm, "li"@)
    ||| named(nm, "main"@)
    ||| named(nm, "menu"@)
    ||| named(nm, "nav"@)
    ||| named(nm, "ol"@)
    ||| named(nm, "p"@)
    ||| named(nm, "section"@)
    ||| named(nm, "table"@)
    ||| named(nm, "ul"@)
}

fn does_end_p(nm: &Vec<char>) -> (r: bool)
    ensures
        r == ends_p(nm@),
{
    is_named(nm, "address")
        || is_named(nm, "article")
        || is_named(nm, "aside")
        || is_named(nm, "blockquote")
        || is_named(nm, "details")
        || is_named(nm, "div")
        || is_named(nm, "dd")
        || is_named(nm, "dl")
        || is_named(nm, "dt")
        || is_named(nm, "fieldset")
        || is_named(nm, "figcaption")
        || is_named(nm, "figure")
        || is_named(nm, "footer")
        || is_named(nm, "form")
        || is_named(nm, "h1")
        || is_named(nm, "h2")
        || is_named(nm, "h3")
        || is_named(nm, "h4")
        || is_named(nm, "h5")
        || is_named(nm, "h6")
        || is_named(nm, "header")
        || is_named(nm, "hgroup")
        || is_named(nm, "hr")
        || is_named(nm, "li")
        || is_named(nm, "main")
        || is_named(nm, "menu")
        || is_named(nm, "nav")
        || is_named(nm, "ol")
        || is_named(nm, "p")
        || is_named(nm, "section")
        || is_named(nm, "table")
        || is_named(nm, "ul")
}

/// An element that a search for an open element does not pass.
pub open spec fn scope_stop(nm: Seq<char>) -> bool {
    ||| named(nm, "applet"@)
    ||| named(nm, "caption"@)
    ||| named(nm, "html"@)
    ||| named(nm, "td"@)
    ||| named(nm, "th"@)
    ||| named(nm, "marquee"@)
    ||| named(nm, "object"@)
    ||| named(nm, "template"@)
    ||| named(nm, "button"@)
}

fn is_scope_stop(nm: &Vec<char>) -> (r: bool)
    ensures
        r == scope_stop(nm@),
{
    is_named(nm, "applet")
        || is_named(nm, "caption")
        || is_named(nm, "html")
        || is_named(nm, "td")
        || is_named(nm, "th")
        || is_named(nm, "marquee")
        || is_named(nm, "object")
        || is_named(nm, "template")
        || is_named(nm, "button")
}

/// An element that a search for an open list item passes.
pub open spec fn item_passes(nm: Seq<char>) -> bool {
    ||| named(nm, "address"@)
    ||| named(nm, "div"@)
    ||| named(nm, "p"@)
}

fn does_pass_item(nm: &Vec<char>) -> (r: bool)
    ensures
        r == item_passes(nm@),
{
    is_named(nm, "address")
        || is_named(nm, "div")
        || is_named(nm, "p")
}

/// An ASCII letter.
pub open spec fn letter(c: char) -> bool {
    'A' <= c <= 'Z' || 'a' <= c <= 'z'
}

/// A character that ends a tag name.
pub open spec fn ends_name(c: char) -> bool {
    c == '\t' || c == '\n' || c == '\u{c}' || c == '\r' || c == ' ' || c == '/'
}

/// The first place at or after `i` where a tag name ends, or the length.
pub open spec fn name_end(t: Seq<char>, i: int) -> int
    decreases t.len() - i,
{
    if 0 <= i < t.len() && !ends_name(t[i]) { name_end(t, i + 1) } else { i }
}

/// The name that a tag begins with; it is empty where no letter stands first.
pub open spec fn tag_name(t: Seq<char>) -> Seq<char> {
    if t.len() > 0 && letter(t[0]) { t.take(name_end(t, 0)) } else { seq![] }
}

proof fn lemma_name_end(t: Seq<char>, i: int)
    requires
        0 <= i <= t.len(),
    ensures
        i <= name_end(t, i) <= t.len(),
    decreases t.len() - i,
{
    if i < t.len() && !ends_name(t[i]) {
        lemma_name_end(t, i + 1);
    }
}

/// The name that `v[from..to]` begins with.
fn name_at(v: &Vec<char>, from: usize, to: usize) -> (nm: Vec<char>)
    requires
        from <= to <= v@.len(),
    ensures
        nm@ == tag_name(v@.subrange(from as int, to as int)),
{
    let ghost t = v@.subrange(from as int, to as int);
    let mut nm: Vec<char> = Vec::new();
    if from == to || !(('A' <= v[from] && v[from] <= 'Z') || ('a' <= v[from] && v[from] <= 'z')) {
        assert(nm@ =~= tag_name(t));
        return nm;
    }
    let mut i: usize = from;
    assert(nm@ =~= t.take(0));
    while i < to && !(v[i] == '\t' || v[i] == '\n' || v[i] == '\u{c}' || v[i] == '\r' || v[i] == ' ' || v[i] == '/')
        invariant
            from <= i <= to <= v@.len(),
            t == v@.subrange(from as int, to as int),
            name_end(t, 0) == name_end(t, i - from),
            nm@ == t.take(i - from),
        decreases to - i,
    {
        assert(t[i - from] == v@[i as int]);
        nm.push(v[i]);
        i += 1;
        assert(nm@ =~= t.take(i - from));
    }
    assert(i < to ==> t[i - from] == v@[i as int]);
    assert(t[0] == v@[from as int]);
    nm
}

proof fn lemma_units(s: Seq<char>)
    ensures
        s.len() <= utf16(s).len() <= 2 * s.len(),
    decreases s.len(),
{
    if s.len() > 0 {
        lemma_units(s.drop_last());
    }
}

/// The UTF-16 length of `v[from..to]`.
fn units(v: &Vec<char>, from: usize, to: usize) -> (r: u128)
    requires
        from <= to <= v@.len(),
    ensures
        r == utf16(v@.subrange(from as int, to as int)).len(),
        r <= 2 * (to - from),
{
    let mut r: u128 = 0;
    let mut i: usize = from;
    while i < to
        invariant
            from <= i <= to <= v@.len(),
            r == utf16(v@.subrange(from as int, i as int)).len(),
            r <= 2 * (i - from),
        decreases to - i,
    {
        proof {
            let s = v@.subrange(from as int, i + 1);
            assert(s.drop_last() =~= v@.subrange(from as int, i as int));
            assert(s.last() == v@[i as int]);
        }
        r = r + (if (v[i] as u32) < 0x10000 { 1 } else { 2 });
        i += 1;
    }
    r
}

/// What has been counted, and the names of the open elements.
pub struct Progress {
    pub len: nat,
    pub cnt: nat,
    pub stack: Seq<Seq<char>>,
}

impl Progress {
    /// `<nm>` has been written.
    pub open spec fn opened(self, nm: Seq<char>) -> Progress {
        Progress {
            len: self.len + utf16(nm).len() + 2,
            cnt: self.cnt + 1,
            stack: if void(nm) { self.stack } else { self.stack.push(nm) },
        }
    }

    /// The last open element has been closed.
    pub open spec fn popped(self) -> Progress {
        Progress {
            len: self.len + utf16(self.stack.last()).len() + 3,
            cnt: self.cnt,
            stack: self.stack.drop_last(),
        }
    }

    /// The open elements have been closed down to the last one named `nm`, or all
    /// of them.
    pub open spec fn popped_until(self, nm: Seq<char>) -> Progress
        decreases self.stack.len(),
    {
        if self.stack.len() == 0 {
            self
        } else if named(self.stack.last(), nm) {
            self.popped()
        } else {
            self.popped().popped_until(nm)
        }
    }

    /// All open elements have been closed.
    pub open spec fn closed(self) -> Progress
        decreases self.stack.len(),
    {
        if self.stack.len() == 0 { self } else { self.popped().closed() }
    }
}

/// Among the first `k` open elements the last that counts is one named `nm`.
pub open spec fn in_scope(stack: Seq<Seq<char>>, k: int, nm: Seq<char>) -> bool
    decreases k,
{
    if k <= 0 || k > stack.len() {
        false
    } else if named(stack[k - 1], nm) {
        true
    } else if scope_stop(stack[k - 1]) {
        false
    } else {
        in_scope(stack, k - 1, nm)
    }
}

/// Among the first `k` open elements a list item is reached through elements
/// that such a search passes.
pub open spec fn item_open(stack: Seq<Seq<char>>, k: int) -> bool
    decreases k,
{
    if k <= 0 || k > stack.len() {
        false
    } else if named(stack[k - 1], "li"@) {
        true
    } else if !item_passes(stack[k - 1]) {
        false
    } else {
        item_open(stack, k - 1)
    }
}

/// A paragraph is open.
pub open spec fn p_open(s: Progress) -> bool {
    in_scope(s.stack, s.stack.len() as int, "p"@)
}

/// What an end tag of the name `nm` does.
pub open spec fn end_tag(s: Progress, nm: Seq<char>) -> Progress {
    if nm.len() == 0 {
        s
    } else if named(nm, "br"@) {
        s.opened(nm)
    } else if named(nm, "p"@) {
        if p_open(s) { s.popped_until("p"@) } else { s.opened(nm).popped_until("p"@) }
    } else if in_scope(s.stack, s.stack.len() as int, nm) {
        s.popped_until(nm)
    } else {
        s
    }
}

/// What a start tag closes before its element opens: a paragraph that it ends, then
/// a list item that it follows.
pub open spec fn made_room(s: Progress, nm: Seq<char>) -> Progress {
    let a = if !formatting(nm) && !void(nm) && ends_p(nm) && p_open(s) {
        s.popped_until("p"@)
    } else {
        s
    };
    if named(nm, "li"@) && item_open(a.stack, a.stack.len() as int) {
        a.popped_until("li"@)
    } else {
        a
    }
}

/// What a start tag of the name `nm` does.
pub open spec fn start_tag(s: Progress, nm: Seq<char>) -> Progress {
    if nm.len() == 0 { s } else { made_room(s, nm).opened(nm) }
}

/// What a tag does, given without its angle brackets.
pub open spec fn tag(s: Progress, t: Seq<char>) -> Progress {
    if t.len() > 0 && t[0] == '/' {
        end_tag(s, tag_name(t.subrange(1, t.len() as int)))
    } else if t.len() == 0 || t[0] == '!' || t[0] == '?' {
        s
    } else {
        start_tag(s, tag_name(t))
    }
}

/// The first place at or after `i` where `c` stands, or the length.
pub open spec fn next_char(b: Seq<char>, i: int, c: char) -> int
    decreases b.len() - i,
{
    if 0 <= i < b.len() && b[i] != c { next_char(b, i + 1, c) } else { i }
}

/// What the fragment does from place `i` on; a tag that does not end is dropped
/// with all that follows.
pub open spec fn read(b: Seq<char>, i: int, s: Progress) -> Progress
    decreases b.len() - i,
    when 0 <= i
{
    if i >= b.len() {
        s
    } else if b[i] == '<' {
        let j = next_char(b, i + 1, '>');
        if i < j < b.len() {
            read(b, j + 1, tag(s, b.subrange(i + 1, j)))
        } else {
            s
        }
    } else {
        let j = next_char(b, i, '<');
        if i < j <= b.len() {
            read(
                b,
                j,
                Progress { len: s.len + utf16(b.subrange(i, j)).len(), cnt: s.cnt, stack: s.stack },
            )
        } else {
            s
        }
    }
}

/// Nothing has been read.
pub open spec fn nothing() -> Progress {
    Progress { len: 0, cnt: 0, stack: seq![] }
}

/// The two measures of a fragment.
pub open spec fn measures(frag: Seq<char>) -> (nat, nat) {
    let end = read(frag, 0, nothing()).closed();
    (end.len, end.cnt)
}

// ----------------------------------------------------------------- the weight

/// What closing all open elements will add.
pub open spec fn pending(stack: Seq<Seq<char>>) -> nat
    decreases stack.len(),
{
    if stack.len() == 0 { 0 } else { pending(stack.drop_last()) + utf16(stack.last()).len() + 3 }
}

/// What has been counted, with what closing all open elements will add.
pub open spec fn weight(s: Progress) -> nat {
    s.len + pending(s.stack)
}

proof fn lemma_opened(s: Progress, nm: Seq<char>)
    ensures
        weight(s.opened(nm)) <= weight(s) + 4 * nm.len() + 5,
        s.opened(nm).cnt == s.cnt + 1,
{
    lemma_units(nm);
    assert(s.stack.push(nm).drop_last() =~= s.stack);
}

proof fn lemma_popped_until(s: Progress, nm: Seq<char>)
    ensures
        weight(s.popped_until(nm)) == weight(s),
        s.popped_until(nm).cnt == s.cnt,
    decreases s.stack.len(),
{
    if s.stack.len() > 0 && !named(s.stack.last(), nm) {
        lemma_popped_until(s.popped(), nm);
    }
}

proof fn lemma_tag_name(t: Seq<char>)
    ensures
        tag_name(t).len() <= t.len(),
{
    lemma_name_end(t, 0);
}

proof fn lemma_made_room(s: Progress, nm: Seq<char>)
    ensures
        weight(made_room(s, nm)) == weight(s),
        made_room(s, nm).cnt == s.cnt,
{
    lemma_popped_until(s, "p"@);
    lemma_popped_until(s, "li"@);
    lemma_popped_until(s.popped_until("p"@), "li"@);
}

proof fn lemma_tag(s: Progress, t: Seq<char>)
    ensures
        weight(tag(s, t)) <= weight(s) + 4 * t.len() + 5,
        tag(s, t).cnt <= s.cnt + 1,
{
    let rest = t.subrange(1, t.len() as int);
    if t.len() > 0 && t[0] == '/' {
        let nm = tag_name(rest);
        lemma_tag_name(rest);
        lemma_opened(s, nm);
        lemma_popped_until(s, "p"@);
        lemma_popped_until(s.opened(nm), "p"@);
        lemma_popped_until(s, nm);
    } else if t.len() > 0 {
        let nm = tag_name(t);
        lemma_tag_name(t);
        lemma_made_room(s, nm);
        lemma_opened(made_room(s, nm), nm);
    }
}

/// The length of a fragment does not depend on how deep its elements lie or when
/// they are closed: an element that can be open adds its two tags as soon as it
/// opens, one that is void adds its start tag, and closing adds nothing to the
/// total.
pub proof fn lemma_length_by_element(s: Progress, nm: Seq<char>, until: Seq<char>)
    ensures
        s.closed().len == weight(s),
        s.closed().cnt == s.cnt,
        weight(s.popped_until(until)) == weight(s),
        void(nm) ==> weight(s.opened(nm)) == weight(s) + utf16(nm).len() + 2,
        !void(nm) ==> weight(s.opened(nm)) == weight(s) + 2 * utf16(nm).len() + 5,
{
    lemma_closed(s);
    lemma_popped_until(s, until);
    assert(s.stack.push(nm).drop_last() =~= s.stack);
}

proof fn lemma_closed(s: Progress)
    ensures
        s.closed().len == weight(s),
        s.closed().cnt == s.cnt,
    decreases s.stack.len(),
{
    if s.stack.len() > 0 {
        lemma_closed(s.popped());
    }
}

proof fn lemma_read_bound(b: Seq<char>, i: int, s: Progress)
    requires
        0 <= i <= b.len(),
        weight(s) <= 5 * i,
        s.cnt <= i,
    ensures
        weight(read(b, i, s)) <= 5 * b.len(),
        read(b, i, s).cnt <= b.len(),
    decreases b.len() - i,
{
    if i < b.len() {
        if b[i] == '<' {
            let j = next_char(b, i + 1, '>');
            if i < j < b.len() {
                let t = b.subrange(i + 1, j);
                lemma_next_char(b, i + 1, '>');
                lemma_tag(s, t);
                lemma_read_bound(b, j + 1, tag(s, t));
            }
        } else {
            let j = next_char(b, i, '<');
            if i < j <= b.len() {
                let t = b.subrange(i, j);
                lemma_units(t);
                lemma_read_bound(
                    b,
                    j,
                    Progress { len: s.len + utf16(t).len(), cnt: s.cnt, stack: s.stack },
                );
            }
        }
    }
}

proof fn lemma_next_char(b: Seq<char>, i: int, c: char)
    requires
        0 <= i <= b.len(),
    ensures
        i <= next_char(b, i, c) <= b.len(),
    decreases b.len() - i,
{
    if i < b.len() && b[i] != c {
        lemma_next_char(b, i + 1, c);
    }
}

/// A fragment has at most as many elements as characters, and its length is at most
/// five times their number.
pub proof fn lemma_bound(frag: Seq<char>)
    ensures
        measures(frag).0 <= 5 * frag.len(),
        measures(frag).1 <= frag.len(),
{
    lemma_read_bound(frag, 0, nothing());
    lemma_closed(read(frag, 0, nothing()));
}

/// A fragment without a `<` is one text: its length is that of the text, and it has
/// no element.
pub proof fn lemma_plain_text(frag: Seq<char>)
    requires
        !frag.contains('<'),
    ensures
        measures(frag) == (utf16(frag).len(), 0nat),
{
    if frag.len() > 0 {
        lemma_no_tag(frag, 0);
        let end = Progress { len: utf16(frag).len(), cnt: 0, stack: seq![] };
        assert(frag.contains(frag[0]));
        assert(frag.subrange(0, frag.len() as int) =~= frag);
        assert(read(frag, frag.len() as int, end) == end);
        assert(read(frag, 0, nothing()) == end);
    }
}

proof fn lemma_no_tag(b: Seq<char>, i: int)
    requires
        !b.contains('<'),
        0 <= i <= b.len(),
    ensures
        next_char(b, i, '<') == b.len(),
    decreases b.len() - i,
{
    if i < b.len() {
        assert(b.contains(b[i]));
        lemma_no_tag(b, i + 1);
    }
}

// ------------------------------------------------------------------ upper and lower case

/// A character, an ASCII capital made small.
pub open spec fn small(c: char) -> char {
    if 'A' <= c <= 'Z' { (c as int + 32) as char } else { c }
}

/// A text with its ASCII capitals made small.
pub open spec fn lowered(s: Seq<char>) -> Seq<char> {
    Seq::new(s.len(), |i: int| small(s[i]))
}

impl Progress {
    spec fn lower(self) -> Progress {
        Progress {
            len: self.len,
            cnt: self.cnt,
            stack: Seq::new(self.stack.len(), |i: int| lowered(self.stack[i])),
        }
    }
}

proof fn lemma_lowered_named(a: Seq<char>, b: Seq<char>)
    ensures
        named(lowered(a), b) == named(a, b),
        named(a, lowered(b)) == named(a, b),
        named(lowered(a), lowered(b)) == named(a, b),
{
    assert forall|i: int| 0 <= i < a.len() implies #[trigger] fold_case(lowered(a)[i]) == fold_case(a[i]) by {}
    assert forall|i: int| 0 <= i < b.len() implies #[trigger] fold_case(lowered(b)[i]) == fold_case(b[i]) by {}
    if named(a, b) {
        assert forall|i: int| 0 <= i < a.len() implies #[trigger] fold_case(lowered(a)[i]) == fold_case(b[i]) by {
            assert(fold_case(a[i]) == fold_case(b[i]));
        }
        assert forall|i: int| 0 <= i < a.len() implies #[trigger] fold_case(a[i]) == fold_case(lowered(b)[i]) by {}
        assert forall|i: int| 0 <= i < a.len() implies #[trigger] fold_case(lowered(a)[i]) == fold_case(lowered(b)[i]) by {
            assert(fold_case(a[i]) == fold_case(b[i]));
        }
    } else if a.len() == b.len() {
        let i = choose|i: int| 0 <= i < a.len() && #[trigger] fold_case(a[i]) != fold_case(b[i]);
        assert(fold_case(lowered(a)[i]) != fold_case(b[i]));
        assert(fold_case(a[i]) != fold_case(lowered(b)[i]));
        assert(fold_case(lowered(a)[i]) != fold_case(lowered(b)[i]));
    }
}

proof fn lemma_lowered_kind(nm: Seq<char>)
    ensures
        void(lowered(nm)) == void(nm),
        formatting(lowered(nm)) == formatting(nm),
        ends_p(lowered(nm)) == ends_p(nm),
        scope_stop(lowered(nm)) == scope_stop(nm),
        item_passes(lowered(nm)) == item_passes(nm),
{
    assert forall|b: Seq<char>| #[trigger] named(lowered(nm), b) == named(nm, b) by {
        lemma_lowered_named(nm, b);
    }
}

proof fn lemma_lowered_units(s: Seq<char>)
    ensures
        utf16(lowered(s)).len() == utf16(s).len(),
    decreases s.len(),
{
    if s.len() > 0 {
        lemma_lowered_units(s.drop_last());
        assert(lowered(s).drop_last() =~= lowered(s.drop_last()));
        assert(lowered(s).last() == small(s.last()));
    }
}

proof fn lemma_lowered_opened(s: Progress, nm: Seq<char>)
    ensures
        s.lower().opened(lowered(nm)) == s.opened(nm).lower(),
{
    lemma_lowered_kind(nm);
    lemma_lowered_units(nm);
    assert(s.lower().opened(lowered(nm)).stack =~= s.opened(nm).lower().stack);
}

proof fn lemma_lowered_popped(s: Progress)
    requires
        s.stack.len() > 0,
    ensures
        s.lower().popped() == s.popped().lower(),
{
    lemma_lowered_units(s.stack.last());
    assert(s.lower().popped().stack =~= s.popped().lower().stack);
}

proof fn lemma_lowered_popped_until(s: Progress, nm: Seq<char>)
    ensures
        s.lower().popped_until(nm) == s.popped_until(nm).lower(),
        s.lower().popped_until(lowered(nm)) == s.popped_until(nm).lower(),
    decreases s.stack.len(),
{
    if s.stack.len() > 0 {
        lemma_lowered_named(s.stack.last(), nm);
        lemma_lowered_popped(s);
        lemma_lowered_popped_until(s.popped(), nm);
    }
}

proof fn lemma_lowered_scope(s: Progress, k: int, nm: Seq<char>)
    ensures
        in_scope(s.lower().stack, k, nm) == in_scope(s.stack, k, nm),
        in_scope(s.lower().stack, k, lowered(nm)) == in_scope(s.stack, k, nm),
    decreases k,
{
    if 0 < k <= s.stack.len() {
        lemma_lowered_named(s.stack[k - 1], nm);
        lemma_lowered_kind(s.stack[k - 1]);
        lemma_lowered_scope(s, k - 1, nm);
    }
}

proof fn lemma_lowered_item(s: Progress, k: int)
    ensures
        item_open(s.lower().stack, k) == item_open(s.stack, k),
    decreases k,
{
    if 0 < k <= s.stack.len() {
        lemma_lowered_named(s.stack[k - 1], "li"@);
        lemma_lowered_kind(s.stack[k - 1]);
        lemma_lowered_item(s, k - 1);
    }
}

proof fn lemma_lowered_end(s: Progress, nm: Seq<char>)
    ensures
        end_tag(s.lower(), lowered(nm)) == end_tag(s, nm).lower(),
{
    lemma_lowered_named(nm, "br"@);
    lemma_lowered_named(nm, "p"@);
    lemma_lowered_opened(s, nm);
    lemma_lowered_scope(s, s.stack.len() as int, "p"@);
    lemma_lowered_scope(s, s.stack.len() as int, nm);
    lemma_lowered_popped_until(s, "p"@);
    lemma_lowered_popped_until(s.opened(nm), "p"@);
    lemma_lowered_popped_until(s, nm);
}

proof fn lemma_lowered_start(s: Progress, nm: Seq<char>)
    ensures
        start_tag(s.lower(), lowered(nm)) == start_tag(s, nm).lower(),
{
    let a = if !formatting(nm) && !void(nm) && ends_p(nm) && p_open(s) {
        s.popped_until("p"@)
    } else {
        s
    };
    lemma_lowered_kind(nm);
    lemma_lowered_named(nm, "li"@);
    lemma_lowered_scope(s, s.stack.len() as int, "p"@);
    lemma_lowered_popped_until(s, "p"@);
    lemma_lowered_item(a, a.stack.len() as int);
    lemma_lowered_popped_until(a, "li"@);
    assert(made_room(s.lower(), lowered(nm)) == made_room(s, nm).lower());
    lemma_lowered_opened(made_room(s, nm), nm);
}

proof fn lemma_lowered_name_end(t: Seq<char>, i: int)
    ensures
        name_end(lowered(t), i) == name_end(t, i),
    decreases t.len() - i,
{
    if 0 <= i < t.len() {
        lemma_lowered_name_end(t, i + 1);
    }
}

proof fn lemma_lowered_tag(s: Progress, t: Seq<char>)
    ensures
        tag(s.lower(), lowered(t)) == tag(s, t).lower(),
{
    let rest = t.subrange(1, t.len() as int);
    if t.len() > 0 {
        assert(lowered(t)[0] == small(t[0]));
        assert(lowered(t).subrange(1, t.len() as int) =~= lowered(rest));
        lemma_lowered_name(t);
        lemma_lowered_name(rest);
        lemma_lowered_end(s, tag_name(rest));
        lemma_lowered_start(s, tag_name(t));
    }
}

proof fn lemma_lowered_name(t: Seq<char>)
    ensures
        tag_name(lowered(t)) == lowered(tag_name(t)),
{
    lemma_name_end(t, 0);
    lemma_lowered_name_end(t, 0);
    if t.len() > 0 {
        assert(letter(lowered(t)[0]) == letter(t[0]));
    }
    assert(tag_name(lowered(t)) =~= lowered(tag_name(t)));
}

proof fn lemma_lowered_next(b: Seq<char>, i: int, c: char)
    requires
        c == '<' || c == '>',
    ensures
        next_char(lowered(b), i, c) == next_char(b, i, c),
    decreases b.len() - i,
{
    if 0 <= i < b.len() {
        lemma_lowered_next(b, i + 1, c);
    }
}

proof fn lemma_lowered_read(b: Seq<char>, i: int, s: Progress)
    requires
        0 <= i,
    ensures
        read(lowered(b), i, s.lower()) == read(b, i, s).lower(),
    decreases b.len() - i,
{
    if i < b.len() {
        if b[i] == '<' {
            lemma_lowered_next(b, i + 1, '>');
            let j = next_char(b, i + 1, '>');
            if i < j < b.len() {
                let t = b.subrange(i + 1, j);
                assert(lowered(b).subrange(i + 1, j) =~= lowered(t));
                lemma_lowered_tag(s, t);
                lemma_lowered_read(b, j + 1, tag(s, t));
            }
        } else {
            lemma_lowered_next(b, i, '<');
            let j = next_char(b, i, '<');
            if i < j <= b.len() {
                let t = b.subrange(i, j);
                assert(lowered(b).subrange(i, j) =~= lowered(t));
                lemma_lowered_units(t);
                let n = Progress { len: s.len + utf16(t).len(), cnt: s.cnt, stack: s.stack };
                assert(n.lower().stack == s.lower().stack);
                lemma_lowered_read(b, j, n);
            }
        }
    }
}

proof fn lemma_lowered_closed(s: Progress)
    ensures
        s.lower().closed() == s.closed().lower(),
    decreases s.stack.len(),
{
    if s.stack.len() > 0 {
        lemma_lowered_popped(s);
        lemma_lowered_closed(s.popped());
    }
}

/// The case of the ASCII letters of a fragment does not matter: with its capitals
/// made small it measures the same.
pub proof fn lemma_case(frag: Seq<char>)
    ensures
        measures(lowered(frag)) == measures(frag),
{
    let end = read(frag, 0, nothing());
    assert(nothing().lower().stack =~= nothing().stack);
    lemma_lowered_read(frag, 0, nothing());
    lemma_lowered_closed(end);
}

// -------------------------------------------------------------------- the pass

struct Counter {
    len: u128,
    cnt: u128,
    stack: Vec<Vec<char>>,
}

/// More than any fragment weighs.
const ROOM: u128 = 0x1000_0000_0000_0000_0000;

impl Counter {
    spec fn at(&self) -> Progress {
        Progress {
            len: self.len as nat,
            cnt: self.cnt as nat,
            stack: Seq::new(self.stack@.len(), |i: int| self.stack@[i]@),
        }
    }

    fn open(&mut self, nm: Vec<char>)
        requires
            weight(old(self).at()) <= ROOM,
            old(self).cnt <= ROOM,
        ensures
            final(self).at() == old(self).at().opened(nm@),
    {
        let ghost before = self.at();
        assert(nm@.subrange(0, nm@.len() as int) =~= nm@);
        self.len = self.len + units(&nm, 0, nm.len()) + 2;
        self.cnt = self.cnt + 1;
        if !is_void(&nm) {
            self.stack.push(nm);
        }
        assert(self.at().stack =~= before.opened(nm@).stack);
    }

    fn pop(&mut self)
        requires
            old(self).stack@.len() > 0,
            weight(old(self).at()) <= 2 * ROOM,
        ensures
            final(self).at() == old(self).at().popped(),
            final(self).stack@.len() == old(self).stack@.len() - 1,
            weight(final(self).at()) == weight(old(self).at()),
    {
        let ghost before = self.at();
        let top: Option<Vec<char>> = self.stack.pop();
        if let Some(top) = top {
            assert(top@ == before.stack.last());
            assert(top@.subrange(0, top@.len() as int) =~= top@);
            self.len = self.len + units(&top, 0, top.len()) + 3;
        }
        assert(self.at().stack =~= before.popped().stack);
    }

    fn pop_until(&mut self, nm: &Vec<char>)
        requires
            weight(old(self).at()) <= 2 * ROOM,
        ensures
            final(self).at() == old(self).at().popped_until(nm@),
    {
        let ghost start = self.at();
        while self.stack.len() > 0
            invariant
                start == old(self).at(),
                weight(self.at()) <= 2 * ROOM,
                start.popped_until(nm@) == self.at().popped_until(nm@),
            decreases self.stack@.len(),
        {
            let last: usize = self.stack.len() - 1;
            assert(self.at().stack.last() == self.stack@[last as int]@);
            let hit: bool = is_same(&self.stack[last], nm);
            self.pop();
            if hit {
                return;
            }
        }
    }

    fn scoped(&self, nm: &Vec<char>) -> (r: bool)
        ensures
            r == in_scope(self.at().stack, self.stack@.len() as int, nm@),
    {
        let mut k: usize = self.stack.len();
        while k > 0
            invariant
                k <= self.stack@.len(),
                in_scope(self.at().stack, self.stack@.len() as int, nm@) == in_scope(
                    self.at().stack,
                    k as int,
                    nm@,
                ),
            decreases k,
        {
            k -= 1;
            assert(self.at().stack[k as int] == self.stack@[k as int]@);
            if is_same(&self.stack[k], nm) {
                return true;
            }
            if is_scope_stop(&self.stack[k]) {
                return false;
            }
        }
        false
    }

    fn item(&self) -> (r: bool)
        ensures
            r == item_open(self.at().stack, self.stack@.len() as int),
    {
        let mut k: usize = self.stack.len();
        while k > 0
            invariant
                k <= self.stack@.len(),
                item_open(self.at().stack, self.stack@.len() as int) == item_open(
                    self.at().stack,
                    k as int,
                ),
            decreases k,
        {
            k -= 1;
            assert(self.at().stack[k as int] == self.stack@[k as int]@);
            if is_named(&self.stack[k], "li") {
                return true;
            }
            if !does_pass_item(&self.stack[k]) {
                return false;
            }
        }
        false
    }

    fn end_tag(&mut self, nm: Vec<char>)
        requires
            weight(old(self).at()) <= ROOM,
            old(self).cnt <= ROOM,
        ensures
            final(self).at() == end_tag(old(self).at(), nm@),
    {
        proof {
            lemma_opened(self.at(), nm@);
        }
        if nm.len() == 0 {
            return;
        }
        let p = chars_of("p");
        if is_named(&nm, "br") {
            self.open(nm);
        } else if is_named(&nm, "p") {
            if !self.scoped(&p) {
                self.open(nm);
            }
            self.pop_until(&p);
        } else if self.scoped(&nm) {
            self.pop_until(&nm);
        }
    }

    fn start_tag(&mut self, nm: Vec<char>)
        requires
            weight(old(self).at()) <= ROOM,
            old(self).cnt <= ROOM,
        ensures
            final(self).at() == start_tag(old(self).at(), nm@),
    {
        if nm.len() == 0 {
            return;
        }
        proof {
            lemma_made_room(self.at(), nm@);
            lemma_popped_until(self.at(), "p"@);
        }
        let p = chars_of("p");
        if !is_formatting(&nm) && !is_void(&nm) && does_end_p(&nm) && self.scoped(&p) {
            self.pop_until(&p);
        }
        if is_named(&nm, "li") && self.item() {
            self.pop_until(&chars_of("li"));
        }
        self.open(nm);
    }

    /// Reads the tag `v[from..to]`.
    fn tag(&mut self, v: &Vec<char>, from: usize, to: usize)
        requires
            from <= to <= v@.len(),
            weight(old(self).at()) <= ROOM,
            old(self).cnt <= ROOM,
        ensures
            final(self).at() == tag(old(self).at(), v@.subrange(from as int, to as int)),
    {
        let ghost t = v@.subrange(from as int, to as int);
        if from == to {
            return;
        }
        assert(t[0] == v@[from as int]);
        if v[from] == '/' {
            assert(t.subrange(1, t.len() as int) =~= v@.subrange(from + 1, to as int));
            self.end_tag(name_at(v, from + 1, to));
        } else if v[from] != '!' && v[from] != '?' {
            self.start_tag(name_at(v, from, to));
        }
    }
}

fn find_char(b: &Vec<char>, from: usize, c: char) -> (j: usize)
    requires
        from <= b@.len(),
    ensures
        j == next_char(b@, from as int, c),
        from <= j <= b@.len(),
        from < b@.len() && b@[from as int] != c ==> from < j,
{
    let mut j: usize = from;
    while j < b.len() && b[j] != c
        invariant
            from <= j <= b@.len(),
            next_char(b@, from as int, c) == next_char(b@, j as int, c),
        decreases b@.len() - j,
    {
        j += 1;
    }
    j
}

/// Both measures of a fragment, however long it is.
fn measured(frag: &str) -> (r: (u128, u128))
    ensures
        (r.0 as nat, r.1 as nat) == measures(frag@),
{
    let b = chars_of(frag);
    let mut p = Counter { len: 0, cnt: 0, stack: Vec::new() };
    let mut i: usize = 0;
    assert(p.at().stack =~= seq![]);
    while i < b.len()
        invariant
            i <= b@.len(),
            weight(p.at()) <= 5 * i,
            p.cnt <= i,
            read(b@, 0, nothing()) == read(b@, i as int, p.at()),
        ensures
            read(b@, 0, nothing()) == p.at(),
            weight(p.at()) <= 5 * b@.len(),
        decreases b@.len() - i,
    {
        if b[i] == '<' {
            let j: usize = find_char(&b, i + 1, '>');
            if j >= b.len() {
                break;
            }
            proof {
                lemma_tag(p.at(), b@.subrange(i + 1, j as int));
            }
            p.tag(&b, i + 1, j);
            i = j + 1;
        } else {
            let j: usize = find_char(&b, i, '<');
            p.len = p.len + units(&b, i, j);
            i = j;
        }
    }
    let ghost end = p.at();
    while p.stack.len() > 0
        invariant
            weight(p.at()) <= 2 * ROOM,
            end.closed() == p.at().closed(),
        decreases p.stack@.len(),
    {
        p.pop();
    }
    (p.len, p.cnt)
}

/// The length of the serialised content of a fragment, and the number of its
/// elements.
pub fn metrics(frag: &str) -> (r: (usize, usize))
    requires
        measures(frag@).0 <= usize::MAX,
        measures(frag@).1 <= usize::MAX,
    ensures
        (r.0 as nat, r.1 as nat) == measures(frag@),
{
    let (len, cnt) = measured(frag);
    (len as usize, cnt as usize)
}

/// The measures of a fragment, where both of them can be held.
pub fn try_metrics(frag: &str) -> (r: Option<(usize, usize)>)
    ensures
        match r {
            Some(m) => (m.0 as nat, m.1 as nat) == measures(frag@),
            None => measures(frag@).0 > usize::MAX || measures(frag@).1 > usize::MAX,
        },
{
    let (len, cnt) = measured(frag);
    if len > usize::MAX as u128 || cnt > usize::MAX as u128 {
        return None;
    }
    Some((len as usize, cnt as usize))
}

} // verus!
