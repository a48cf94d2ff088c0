//! Code blocks: escaping, the language of a block, and the line structure of
//! the highlighted HTML. Every line is wrapped in `<span class="line">` for
//! the hanging indent in print; spans that cross a line end are closed there
//! and opened again on the next line.

use syntect::highlighting::ThemeSet;
use syntect::html::ClassedHTMLGenerator;
use syntect::parsing::SyntaxSet;
use vstd::prelude::*;

use crate::images::has_prefix;
use crate::text::{
    append, find_from, find_from_exec, from_chars, is_ws, lemma_find_from, push_all, push_range,
    repeat, slice_chars, to_chars, ws,
};

verus! {

pub open spec fn escape_char(c: char) -> Seq<char> {
    if c == '&' {
        "&amp;"@
    } else if c == '<' {
        "&lt;"@
    } else if c == '>' {
        "&gt;"@
    } else {
        seq![c]
    }
}

/// `&`, `<` and `>` written as entities.
pub open spec fn escape_html_spec(s: Seq<char>) -> Seq<char>
    decreases s.len(),
{
    if s.len() == 0 {
        Seq::empty()
    } else {
        escape_html_spec(s.drop_last()) + escape_char(s.last())
    }
}

/// Appends the characters of `t`.
fn extend_str(out: &mut Vec<char>, t: &str)
    ensures
        final(out)@ == old(out)@ + t@,
{
    let v = to_chars(t);
    push_all(out, v.as_slice());
}

pub fn escape_html(s: &str) -> (r: String)
    ensures
        r@ == escape_html_spec(s@),
{
    let v = to_chars(s);
    let mut out: Vec<char> = Vec::new();
    let mut i: usize = 0;
    while i < v.len()
        invariant
            i <= v.len(),
            out@ == escape_html_spec(v@.take(i as int)),
        decreases v.len() - i,
    {
        let c = v[i];
        assert(v@.take(i + 1).drop_last() == v@.take(i as int));
        if c == '&' {
            extend_str(&mut out, "&amp;");
        } else if c == '<' {
            extend_str(&mut out, "&lt;");
        } else if c == '>' {
            extend_str(&mut out, "&gt;");
        } else {
            out.push(c);
        }
        i = i + 1;
    }
    assert(v@.take(v.len() as int) == v@);
    from_chars(&out)
}

/// The text of a `<span class="line">` line.
pub open spec fn line_html(body: Seq<char>) -> Seq<char> {
    "<span class=\"line\">"@ + body + "</span>\n"@
}

/// The open tags written one after the other.
pub open spec fn concat_tags(open: Seq<Seq<char>>) -> Seq<char>
    decreases open.len(),
{
    if open.len() == 0 {
        Seq::empty()
    } else {
        concat_tags(open.drop_last()) + open.last()
    }
}

/// One `</span>` for each open tag.
pub open spec fn close_all(open: Seq<Seq<char>>) -> Seq<char> {
    repeat("</span>"@, open.len())
}

/// Where a tag that starts at `i` ends: one past its `>`, or the end of the
/// text.
pub open spec fn tag_end(s: Seq<char>, i: int) -> int {
    let g = find_from(s, '>', i);
    if g < s.len() {
        g + 1
    } else {
        s.len() as int
    }
}

/// Where a run of text that starts at `i` ends: at the next `<` or line
/// end, or the end of the text.
pub open spec fn text_end(s: Seq<char>, i: int) -> int
    decreases s.len() - i,
{
    if i < 0 || i >= s.len() {
        s.len() as int
    } else if s[i] == '<' || s[i] == '\n' {
        i
    } else {
        text_end(s, i + 1)
    }
}

pub proof fn lemma_text_end(s: Seq<char>, i: int)
    requires
        0 <= i <= s.len(),
    ensures
        i <= text_end(s, i) <= s.len(),
        forall|t: int| i <= t < text_end(s, i) ==> s[t] != '<' && s[t] != '\n',
    decreases s.len() - i,
{
    if i < s.len() && s[i] != '<' && s[i] != '\n' {
        lemma_text_end(s, i + 1);
    }
}

/// The state while lines are cut: the lines written so far, the tags open
/// at this point, the current line, and whether it holds text.
pub type WrapState = (Seq<char>, Seq<Seq<char>>, Seq<char>, bool);

/// One step at position `i`: a tag, a line end, or a run of text. Gives the
/// next position and the next state.
pub open spec fn wrap_step(s: Seq<char>, i: int, st: WrapState) -> (int, WrapState) {
    let (out, open, buf, has_text) = st;
    if s[i] == '<' {
        let e = tag_end(s, i);
        let tag = s.subrange(i, e);
        let open2 = if has_prefix(tag, "</"@) {
            if open.len() > 0 {
                open.drop_last()
            } else {
                open
            }
        } else {
            open.push(tag)
        };
        (e, (out, open2, buf + tag, has_text))
    } else if s[i] == '\n' {
        (i + 1, (out + line_html(buf + close_all(open)), open, concat_tags(open), false))
    } else {
        let e = text_end(s, i);
        (e, (out, open, buf + s.subrange(i, e), true))
    }
}

pub proof fn lemma_wrap_step_advances(s: Seq<char>, i: int, st: WrapState)
    requires
        0 <= i < s.len(),
    ensures
        i < wrap_step(s, i, st).0 <= s.len(),
{
    lemma_find_from(s, '>', i);
    if s[i] != '<' && s[i] != '\n' {
        lemma_text_end(s, i + 1);
        assert(text_end(s, i) == text_end(s, i + 1));
    }
}

/// All steps from position `i` on.
pub open spec fn wrap_from(s: Seq<char>, i: int, st: WrapState) -> WrapState
    decreases s.len() - i,
{
    if i < 0 || i >= s.len() {
        st
    } else {
        proof {
            lemma_wrap_step_advances(s, i, st);
        }
        let (j, st2) = wrap_step(s, i, st);
        wrap_from(s, j, st2)
    }
}

/// Every line of the highlighted HTML wrapped in `<span class="line">`; the
/// rest after the last line end counts only when it holds text.
pub open spec fn wrap_lines_spec(s: Seq<char>) -> Seq<char> {
    let (out, open, buf, has_text) = wrap_from(s, 0, (Seq::empty(), Seq::empty(), Seq::empty(), false));
    if has_text {
        out + line_html(buf + close_all(open))
    } else {
        out
    }
}

pub open spec fn tag_views(v: Seq<Vec<char>>) -> Seq<Seq<char>> {
    Seq::new(v.len(), |i: int| v[i]@)
}

fn push_close_all(buf: &mut Vec<char>, k: usize)
    ensures
        final(buf)@ == old(buf)@ + repeat("</span>"@, k as nat),
{
    let mut i: usize = 0;
    while i < k
        invariant
            i <= k,
            buf@ == old(buf)@ + repeat("</span>"@, i as nat),
        decreases k - i,
    {
        extend_str(buf, "</span>");
        i = i + 1;
    }
}

fn concat_open(open: &Vec<Vec<char>>) -> (r: Vec<char>)
    ensures
        r@ == concat_tags(tag_views(open@)),
{
    let mut r: Vec<char> = Vec::new();
    let mut i: usize = 0;
    while i < open.len()
        invariant
            i <= open.len(),
            r@ == concat_tags(tag_views(open@).take(i as int)),
        decreases open.len() - i,
    {
        push_all(&mut r, open[i].as_slice());
        assert(tag_views(open@).take(i + 1).drop_last() == tag_views(open@).take(i as int));
        i = i + 1;
    }
    assert(tag_views(open@).take(open.len() as int) == tag_views(open@));
    r
}

fn push_line(out: &mut Vec<char>, buf: &Vec<char>)
    ensures
        final(out)@ == old(out)@ + line_html(buf@),
{
    extend_str(out, "<span class=\"line\">");
    push_all(out, buf.as_slice());
    extend_str(out, "</span>\n");
}

pub fn wrap_lines(html: &str) -> (r: String)
    ensures
        r@ == wrap_lines_spec(html@),
{
    let v = to_chars(html);
    let n = v.len();
    let mut out: Vec<char> = Vec::new();
    let mut open: Vec<Vec<char>> = Vec::new();
    let mut buf: Vec<char> = Vec::new();
    let mut has_text = false;
    let mut i: usize = 0;
    let ghost init: WrapState = (Seq::empty(), Seq::empty(), Seq::empty(), false);
    assert(tag_views(open@) =~= Seq::<Seq<char>>::empty());
    while i < n
        invariant
            i <= n == v@.len(),
            v@ == html@,
            wrap_from(v@, i as int, (out@, tag_views(open@), buf@, has_text)) == wrap_from(
                v@,
                0,
                init,
            ),
        decreases n - i,
    {
        let ghost st: WrapState = (out@, tag_views(open@), buf@, has_text);
        proof {
            lemma_wrap_step_advances(v@, i as int, st);
        }
        let ghost next = wrap_step(v@, i as int, st);
        assert(wrap_from(v@, i as int, st) == wrap_from(v@, next.0, next.1));
        if v[i] == '<' {
            let g = find_from_exec(&v, '>', i);
            let e = if g < n {
                g + 1
            } else {
                n
            };
            let tag = slice_chars(&v, i, e);
            let closing = tag.len() >= 2 && tag[0] == '<' && tag[1] == '/';
            proof {
                reveal_strlit("</");
                if closing {
                    assert(tag@.subrange(0, 2) =~= "</"@);
                } else if tag@.len() >= 2 {
                    assert(tag@.subrange(0, 2) != "</"@) by {
                        if tag@.subrange(0, 2) == "</"@ {
                            assert(tag@.subrange(0, 2)[0] == tag@[0]);
                            assert(tag@.subrange(0, 2)[1] == tag@[1]);
                        }
                    }
                }
            }
            let ghost before = open@;
            if closing {
                if open.len() > 0 {
                    open.pop();
                    assert(tag_views(open@) =~= tag_views(before).drop_last());
                }
            } else {
                open.push(slice_chars(&v, i, e));
                assert(tag_views(open@) =~= tag_views(before).push(tag@));
            }
            push_range(&mut buf, &v, i, e);
            i = e;
        } else if v[i] == '\n' {
            push_close_all(&mut buf, open.len());
            push_line(&mut out, &buf);
            buf = concat_open(&open);
            has_text = false;
            i = i + 1;
        } else {
            proof {
                lemma_text_end(v@, i as int);
            }
            let mut e = i;
            while e < n && v[e] != '<' && v[e] != '\n'
                invariant
                    i <= e <= n == v@.len(),
                    text_end(v@, e as int) == text_end(v@, i as int),
                decreases n - e,
            {
                e = e + 1;
            }
            push_range(&mut buf, &v, i, e);
            has_text = true;
            i = e;
        }
        assert((out@, tag_views(open@), buf@, has_text) == next.1);
    }
    if has_text {
        push_close_all(&mut buf, open.len());
        push_line(&mut out, &buf);
    }
    from_chars(&out)
}

// ---------------------------------------------------------------------------
// Balance of the lines

/// What the first character of `s` does to the open tags: a `<` followed by
/// `/` closes one, any other `<` opens one.
pub open spec fn tag_mark(s: Seq<char>) -> int {
    if s.len() > 0 && s[0] == '<' {
        if s.len() > 1 && s[1] == '/' {
            -1
        } else {
            1
        }
    } else {
        0
    }
}

/// Tags opened minus tags closed in `s`.
pub open spec fn tag_balance(s: Seq<char>) -> int
    decreases s.len(),
{
    if s.len() == 0 {
        0
    } else {
        tag_mark(s) + tag_balance(s.drop_first())
    }
}

/// `s` does not end in the middle of a tag's `<`.
pub open spec fn ends_ok(s: Seq<char>) -> bool {
    s.len() == 0 || s.last() != '<'
}

/// Every `<` of `s` starts a tag: a `>` follows it before any other `<`.
pub open spec fn tags_closed(s: Seq<char>) -> bool {
    forall|i: int|
        0 <= i < s.len() && s[i] == '<' ==> #[trigger] find_from(s, '>', i) < s.len() && forall|
            t: int,
        |
            i < t < find_from(s, '>', i) ==> s[t] != '<'
}

/// No tag of `s` is closed that was not opened before it.
pub open spec fn never_overclosed(s: Seq<char>) -> bool {
    forall|i: int|
        0 <= i < s.len() - 1 && s[i] == '<' && s[i + 1] == '/' ==> tag_balance(
            #[trigger] s.take(i),
        ) >= 1
}

/// An opening tag: `<`, not followed by `/`, and no other `<`.
pub open spec fn is_open_tag(t: Seq<char>) -> bool {
    &&& t.len() >= 2
    &&& t[0] == '<'
    &&& t[1] != '/'
    &&& forall|k: int| 1 <= k < t.len() ==> t[k] != '<'
}

/// The lines with their bodies, one after the other.
pub open spec fn lines_text(bodies: Seq<Seq<char>>) -> Seq<char>
    decreases bodies.len(),
{
    if bodies.len() == 0 {
        Seq::empty()
    } else {
        lines_text(bodies.drop_last()) + line_html(bodies.last())
    }
}

pub proof fn lemma_tag_balance_add(a: Seq<char>, b: Seq<char>)
    requires
        ends_ok(a),
    ensures
        tag_balance(a + b) == tag_balance(a) + tag_balance(b),
    decreases a.len(),
{
    if a.len() == 0 {
        assert(a + b =~= b);
    } else {
        assert((a + b).drop_first() =~= a.drop_first() + b);
        if a.len() == 1 {
            assert(a.drop_first() =~= Seq::<char>::empty());
            assert(a[0] == a.last());
        } else {
            assert(a.drop_first().last() == a.last());
            assert((a + b)[1] == a[1]);
        }
        lemma_tag_balance_add(a.drop_first(), b);
    }
}

proof fn lemma_no_tags(s: Seq<char>)
    requires
        forall|k: int| 0 <= k < s.len() ==> s[k] != '<',
    ensures
        tag_balance(s) == 0,
    decreases s.len(),
{
    if s.len() > 0 {
        assert forall|k: int| 0 <= k < s.drop_first().len() implies s.drop_first()[k] != '<' by {
            assert(s.drop_first()[k] == s[k + 1]);
        }
        lemma_no_tags(s.drop_first());
    }
}

proof fn lemma_one_tag(t: Seq<char>)
    requires
        t.len() >= 2,
        t[0] == '<',
        forall|k: int| 1 <= k < t.len() ==> t[k] != '<',
    ensures
        tag_balance(t) == if t[1] == '/' {
            -1
        } else {
            1
        },
        ends_ok(t),
{
    assert forall|k: int| 0 <= k < t.drop_first().len() implies t.drop_first()[k] != '<' by {
        assert(t.drop_first()[k] == t[k + 1]);
    }
    lemma_no_tags(t.drop_first());
    assert(t.last() == t[t.len() - 1]);
}

proof fn lemma_close_tag()
    ensures
        tag_balance("</span>"@) == -1,
        ends_ok("</span>"@),
        "</span>"@.len() > 0,
{
    reveal_strlit("</span>");
    lemma_one_tag("</span>"@);
}

proof fn lemma_close_all(k: nat)
    ensures
        tag_balance(repeat("</span>"@, k)) == -(k as int),
        ends_ok(repeat("</span>"@, k)),
    decreases k,
{
    lemma_close_tag();
    if k > 0 {
        lemma_close_all((k - 1) as nat);
        lemma_tag_balance_add(repeat("</span>"@, (k - 1) as nat), "</span>"@);
    }
}

proof fn lemma_concat_open(open: Seq<Seq<char>>)
    requires
        forall|j: int| 0 <= j < open.len() ==> is_open_tag(#[trigger] open[j]),
    ensures
        tag_balance(concat_tags(open)) == open.len(),
        ends_ok(concat_tags(open)),
    decreases open.len(),
{
    if open.len() > 0 {
        let p = open.drop_last();
        assert forall|j: int| 0 <= j < p.len() implies is_open_tag(#[trigger] p[j]) by {
            assert(p[j] == open[j]);
        }
        lemma_concat_open(p);
        let t = open.last();
        assert(is_open_tag(open[open.len() - 1]));
        lemma_one_tag(t);
        lemma_tag_balance_add(concat_tags(p), t);
    }
}

proof fn lemma_line_html(body: Seq<char>)
    requires
        ends_ok(body),
    ensures
        tag_balance(line_html(body)) == tag_balance(body),
        ends_ok(line_html(body)),
{
    let head = "<span class=\"line\">"@;
    let tail = "</span>\n"@;
    reveal_strlit("<span class=\"line\">");
    reveal_strlit("</span>\n");
    lemma_one_tag(head);
    lemma_close_tag();
    lemma_tag_balance_add("</span>"@, "\n"@);
    reveal_strlit("</span>");
    reveal_strlit("\n");
    assert(tail =~= "</span>"@ + "\n"@);
    lemma_no_tags("\n"@);
    lemma_tag_balance_add(head, body);
    lemma_tag_balance_add(head + body, tail);
    assert(line_html(body) == head + body + tail);
    assert(line_html(body).last() == '\n');
}

proof fn lemma_lines_text(bodies: Seq<Seq<char>>)
    requires
        forall|j: int| 0 <= j < bodies.len() ==> tag_balance(#[trigger] bodies[j]) == 0 && ends_ok(
            bodies[j],
        ),
    ensures
        tag_balance(lines_text(bodies)) == 0,
        ends_ok(lines_text(bodies)),
    decreases bodies.len(),
{
    if bodies.len() > 0 {
        let p = bodies.drop_last();
        assert forall|j: int| 0 <= j < p.len() implies tag_balance(#[trigger] p[j]) == 0 && ends_ok(
            p[j],
        ) by {
            assert(p[j] == bodies[j]);
        }
        lemma_lines_text(p);
        assert(tag_balance(bodies[bodies.len() - 1]) == 0 && ends_ok(bodies[bodies.len() - 1]));
        lemma_line_html(bodies.last());
        lemma_tag_balance_add(lines_text(p), line_html(bodies.last()));
    }
}

/// What holds after each step: the lines so far are balanced, the open tags
/// are opening tags, the current line and the text read so far hold as many
/// open tags as the stack.
pub open spec fn wrap_inv(s: Seq<char>, i: int, st: WrapState, bodies: Seq<Seq<char>>) -> bool {
    let (out, open, buf, has_text) = st;
    &&& out == lines_text(bodies)
    &&& forall|j: int|
        0 <= j < bodies.len() ==> tag_balance(#[trigger] bodies[j]) == 0 && ends_ok(bodies[j])
    &&& forall|j: int| 0 <= j < open.len() ==> is_open_tag(#[trigger] open[j])
    &&& tag_balance(buf) == open.len()
    &&& ends_ok(buf)
    &&& tag_balance(s.take(i)) == open.len()
    &&& ends_ok(s.take(i))
}

proof fn lemma_wrap_step_inv(s: Seq<char>, i: int, st: WrapState, bodies: Seq<Seq<char>>) -> (next:
    Seq<Seq<char>>)
    requires
        tags_closed(s),
        never_overclosed(s),
        0 <= i < s.len(),
        wrap_inv(s, i, st, bodies),
    ensures
        wrap_inv(s, wrap_step(s, i, st).0, wrap_step(s, i, st).1, next),
{
    let (out, open, buf, has_text) = st;
    lemma_wrap_step_advances(s, i, st);
    let (j, st2) = wrap_step(s, i, st);
    let piece = s.subrange(i, j);
    assert(s.take(j) =~= s.take(i) + piece);
    if s[i] == '<' {
        lemma_find_from(s, '>', i);
        let g = find_from(s, '>', i);
        assert(g < s.len());
        assert(j == g + 1);
        assert forall|k: int| 1 <= k < piece.len() implies piece[k] != '<' by {
            assert(piece[k] == s[i + k]);
        }
        lemma_one_tag(piece);
        lemma_tag_balance_add(s.take(i), piece);
        lemma_tag_balance_add(buf, piece);
        reveal_strlit("</");
        if piece[1] == '/' {
            assert(has_prefix(piece, "</"@)) by {
                assert(piece.subrange(0, 2) =~= "</"@);
            }
            assert(s.take(i) =~= s.take(i));
            assert(tag_balance(s.take(i)) >= 1) by {
                assert(s[i + 1] == piece[1]);
            }
            assert(st2.1 == open.drop_last());
            assert forall|k: int| 0 <= k < st2.1.len() implies is_open_tag(#[trigger] st2.1[k]) by {
                assert(st2.1[k] == open[k]);
            }
        } else {
            assert(!has_prefix(piece, "</"@)) by {
                if has_prefix(piece, "</"@) {
                    assert(piece.subrange(0, 2)[1] == piece[1]);
                }
            }
            assert(st2.1 == open.push(piece));
            assert forall|k: int| 0 <= k < st2.1.len() implies is_open_tag(#[trigger] st2.1[k]) by {
                if k < open.len() {
                    assert(st2.1[k] == open[k]);
                }
            }
        }
        bodies
    } else if s[i] == '\n' {
        lemma_close_all(open.len());
        lemma_tag_balance_add(buf, close_all(open));
        let body = buf + close_all(open);
        assert(ends_ok(body)) by {
            if close_all(open).len() == 0 {
                assert(body =~= buf);
            } else {
                assert(body.last() == close_all(open).last());
            }
        }
        lemma_concat_open(open);
        lemma_no_tags(piece);
        lemma_tag_balance_add(s.take(i), piece);
        let nb = bodies.push(body);
        assert(nb.drop_last() =~= bodies);
        assert(out + line_html(body) == lines_text(nb));
        assert forall|k: int| 0 <= k < nb.len() implies tag_balance(#[trigger] nb[k]) == 0 && ends_ok(
            nb[k],
        ) by {
            if k < bodies.len() {
                assert(nb[k] == bodies[k]);
            }
        }
        nb
    } else {
        lemma_text_end(s, i);
        assert forall|k: int| 0 <= k < piece.len() implies piece[k] != '<' by {
            assert(piece[k] == s[i + k]);
        }
        lemma_no_tags(piece);
        lemma_tag_balance_add(s.take(i), piece);
        lemma_tag_balance_add(buf, piece);
        assert(piece.last() == s[j - 1]);
        assert((buf + piece).last() == piece.last());
        bodies
    }
}

proof fn lemma_wrap_from_inv(s: Seq<char>, i: int, st: WrapState, bodies: Seq<Seq<char>>) -> (last:
    Seq<Seq<char>>)
    requires
        tags_closed(s),
        never_overclosed(s),
        0 <= i <= s.len(),
        wrap_inv(s, i, st, bodies),
    ensures
        wrap_inv(s, s.len() as int, wrap_from(s, i, st), last),
    decreases s.len() - i,
{
    if i >= s.len() {
        bodies
    } else {
        lemma_wrap_step_advances(s, i, st);
        let (j, st2) = wrap_step(s, i, st);
        let next = lemma_wrap_step_inv(s, i, st, bodies);
        lemma_wrap_from_inv(s, j, st2, next)
    }
}

/// When every `<` of the highlighted HTML starts a tag and no tag is
/// closed that was not opened, each line that `wrap_lines` writes closes
/// every span it opens, and so does the whole block.
pub proof fn lemma_wrap_lines_balanced(s: Seq<char>)
    requires
        tags_closed(s),
        never_overclosed(s),
    ensures
        exists|bodies: Seq<Seq<char>>|
            wrap_lines_spec(s) == lines_text(bodies) && forall|j: int|
                0 <= j < bodies.len() ==> tag_balance(#[trigger] bodies[j]) == 0,
        tag_balance(wrap_lines_spec(s)) == 0,
{
    let init: WrapState = (Seq::empty(), Seq::empty(), Seq::empty(), false);
    assert(s.take(0) =~= Seq::<char>::empty());
    assert(lines_text(Seq::<Seq<char>>::empty()) == Seq::<char>::empty());
    let bodies = lemma_wrap_from_inv(s, 0, init, Seq::empty());
    let (out, open, buf, has_text) = wrap_from(s, 0, init);
    if has_text {
        lemma_close_all(open.len());
        lemma_tag_balance_add(buf, close_all(open));
        let body = buf + close_all(open);
        assert(ends_ok(body)) by {
            if close_all(open).len() == 0 {
                assert(body =~= buf);
            } else {
                assert(body.last() == close_all(open).last());
            }
        }
        let nb = bodies.push(body);
        assert(nb.drop_last() =~= bodies);
        assert forall|k: int| 0 <= k < nb.len() implies tag_balance(#[trigger] nb[k]) == 0 && ends_ok(
            nb[k],
        ) by {
            if k < bodies.len() {
                assert(nb[k] == bodies[k]);
            }
        }
        assert(wrap_lines_spec(s) == lines_text(nb));
        lemma_lines_text(nb);
    } else {
        assert(wrap_lines_spec(s) == lines_text(bodies));
        lemma_lines_text(bodies);
    }
}

// ---------------------------------------------------------------------------
// The text of the lines

/// The characters of `s` that stand outside tags (a tag runs from `<` to
/// the next `>`), and whether `s` ends inside a tag.
pub open spec fn text_of(s: Seq<char>) -> (Seq<char>, bool)
    decreases s.len(),
{
    if s.len() == 0 {
        (Seq::empty(), false)
    } else {
        let (t, inside) = text_of(s.drop_last());
        let c = s.last();
        if inside {
            (t, c != '>')
        } else if c == '<' {
            (t, true)
        } else {
            (t.push(c), false)
        }
    }
}

/// A whole tag: `<`, then no `>` up to its last character, which is `>`.
pub open spec fn is_whole_tag(t: Seq<char>) -> bool {
    &&& t.len() >= 2
    &&& t[0] == '<'
    &&& t.last() == '>'
    &&& forall|k: int| 0 <= k < t.len() - 1 ==> t[k] != '>'
}

proof fn lemma_text_of_add(a: Seq<char>, b: Seq<char>)
    requires
        !text_of(a).1,
    ensures
        text_of(a + b).0 == text_of(a).0 + text_of(b).0,
        text_of(a + b).1 == text_of(b).1,
    decreases b.len(),
{
    if b.len() == 0 {
        assert(a + b =~= a);
        assert(text_of(a).0 + text_of(b).0 =~= text_of(a).0);
    } else {
        lemma_text_of_add(a, b.drop_last());
        assert((a + b).drop_last() =~= a + b.drop_last());
        assert((a + b).last() == b.last());
        let ta = text_of(a).0;
        let tb = text_of(b.drop_last()).0;
        assert((ta + tb).push(b.last()) =~= ta + tb.push(b.last()));
    }
}

proof fn lemma_whole_tag_text(t: Seq<char>)
    requires
        is_whole_tag(t),
    ensures
        text_of(t) == (Seq::<char>::empty(), false),
{
    assert forall|k: int| 1 <= k <= t.len() - 1 implies #[trigger] text_of(t.take(k)) == (
        Seq::<char>::empty(),
        true,
    ) by {
        lemma_whole_tag_prefix(t, k);
    }
    assert(t.take(t.len() - 1) == t.drop_last());
    assert(text_of(t.drop_last()) == (Seq::<char>::empty(), true));
}

proof fn lemma_whole_tag_prefix(t: Seq<char>, k: int)
    requires
        is_whole_tag(t),
        1 <= k <= t.len() - 1,
    ensures
        text_of(t.take(k)) == (Seq::<char>::empty(), true),
    decreases k,
{
    if k == 1 {
        assert(t.take(1).drop_last() =~= Seq::<char>::empty());
        assert(text_of(t.take(1).drop_last()) == (Seq::<char>::empty(), false));
        assert(t.take(1).last() == t[0]);
        assert(t.take(1).len() == 1);
    } else {
        lemma_whole_tag_prefix(t, k - 1);
        assert(t.take(k).drop_last() =~= t.take(k - 1));
        assert(t.take(k).last() == t[k - 1]);
    }
}

/// A run with no `<` is all text.
proof fn lemma_run_text(r: Seq<char>)
    requires
        forall|k: int| 0 <= k < r.len() ==> r[k] != '<',
    ensures
        text_of(r) == (r, false),
    decreases r.len(),
{
    if r.len() > 0 {
        lemma_run_text(r.drop_last());
        assert(r.drop_last().push(r.last()) =~= r);
    }
}

proof fn lemma_close_all_text(k: nat)
    ensures
        text_of(repeat("</span>"@, k)) == (Seq::<char>::empty(), false),
    decreases k,
{
    if k > 0 {
        lemma_close_all_text((k - 1) as nat);
        lemma_span_close_whole();
        lemma_whole_tag_text("</span>"@);
        lemma_text_of_add(repeat("</span>"@, (k - 1) as nat), "</span>"@);
        assert(Seq::<char>::empty() + Seq::<char>::empty() =~= Seq::<char>::empty());
    }
}

proof fn lemma_span_close_whole()
    ensures
        is_whole_tag("</span>"@),
{
    reveal_strlit("</span>");
    let t = "</span>"@;
    assert forall|k: int| 0 <= k < t.len() - 1 implies t[k] != '>' by {
        assert(0 <= k < 6);
    }
}

proof fn lemma_concat_tags_text(open: Seq<Seq<char>>)
    requires
        forall|j: int| 0 <= j < open.len() ==> is_whole_tag(#[trigger] open[j]),
    ensures
        text_of(concat_tags(open)) == (Seq::<char>::empty(), false),
    decreases open.len(),
{
    if open.len() > 0 {
        lemma_concat_tags_text(open.drop_last());
        lemma_whole_tag_text(open.last());
        lemma_text_of_add(concat_tags(open.drop_last()), open.last());
        assert(Seq::<char>::empty() + Seq::<char>::empty() =~= Seq::<char>::empty());
    }
}

/// The text of a line is its body's text and a line end.
proof fn lemma_line_html_text(body: Seq<char>)
    requires
        !text_of(body).1,
    ensures
        text_of(line_html(body)).0 == text_of(body).0.push('\n'),
        !text_of(line_html(body)).1,
{
    reveal_strlit("<span class=\"line\">");
    reveal_strlit("</span>\n");
    reveal_strlit("</span>");
    reveal_strlit("\n");
    let open = "<span class=\"line\">"@;
    assert forall|k: int| 0 <= k < open.len() - 1 implies open[k] != '>' by {
        assert(0 <= k < 19);
    }
    lemma_whole_tag_text(open);
    lemma_span_close_whole();
    lemma_whole_tag_text("</span>"@);
    let nl = "\n"@;
    assert("</span>\n"@ =~= "</span>"@ + nl);
    assert(nl.drop_last() =~= Seq::<char>::empty());
    assert(nl.len() == 1 && nl[0] == '\n');
    assert(text_of(nl.drop_last()) == (Seq::<char>::empty(), false));
    assert(Seq::<char>::empty().push('\n') =~= seq!['\n']);
    assert(text_of(nl) == (seq!['\n'], false));
    lemma_text_of_add("</span>"@, nl);
    lemma_text_of_add(open, body);
    lemma_text_of_add(open + body, "</span>\n"@);
    assert(Seq::<char>::empty() + text_of(body).0 =~= text_of(body).0);
    assert(Seq::<char>::empty() + seq!['\n'] =~= seq!['\n']);
    assert(text_of(body).0 + seq!['\n'] =~= text_of(body).0.push('\n'));
}

/// What holds of the text after each step: what is read so far ends
/// outside a tag, and its text is the text of the lines written and of the
/// current line; the lines' text ends at a line end, the current line's
/// holds none and is there exactly when the line has text.
pub open spec fn text_inv(s: Seq<char>, i: int, st: WrapState) -> bool {
    let (out, open, buf, has_text) = st;
    &&& !text_of(s.take(i)).1
    &&& !text_of(out).1
    &&& !text_of(buf).1
    &&& text_of(out).0 + text_of(buf).0 == text_of(s.take(i)).0
    &&& text_of(out).0.len() == 0 || text_of(out).0.last() == '\n'
    &&& forall|k: int| 0 <= k < text_of(buf).0.len() ==> text_of(buf).0[k] != '\n'
    &&& has_text <==> text_of(buf).0.len() > 0
    &&& forall|j: int| 0 <= j < open.len() ==> is_whole_tag(#[trigger] open[j])
}

proof fn lemma_text_step(s: Seq<char>, i: int, st: WrapState)
    requires
        tags_closed(s),
        0 <= i < s.len(),
        text_inv(s, i, st),
    ensures
        text_inv(s, wrap_step(s, i, st).0, wrap_step(s, i, st).1),
{
    let (out, open, buf, has_text) = st;
    lemma_wrap_step_advances(s, i, st);
    let (j, st2) = wrap_step(s, i, st);
    let piece = s.subrange(i, j);
    assert(s.take(j) =~= s.take(i) + piece);
    let to = text_of(out).0;
    let tb = text_of(buf).0;
    if s[i] == '<' {
        lemma_find_from(s, '>', i);
        let g = find_from(s, '>', i);
        assert(j == g + 1);
        assert(is_whole_tag(piece)) by {
            assert(piece[0] == s[i]);
            assert(piece.last() == s[g]);
            assert forall|k: int| 0 <= k < piece.len() - 1 implies piece[k] != '>' by {
                assert(piece[k] == s[i + k]);
            }
        }
        lemma_whole_tag_text(piece);
        lemma_text_of_add(s.take(i), piece);
        lemma_text_of_add(buf, piece);
        assert(tb + Seq::<char>::empty() =~= tb);
        assert(text_of(s.take(i)).0 + Seq::<char>::empty() =~= text_of(s.take(i)).0);
        let open2 = st2.1;
        assert forall|k: int| 0 <= k < open2.len() implies is_whole_tag(#[trigger] open2[k]) by {
            if k < open.len() && (open2 == open.push(piece) || open2 == open.drop_last()
                || open2 == open) {
                assert(open2[k] == open[k]);
            }
        }
    } else if s[i] == '\n' {
        lemma_close_all_text(open.len());
        lemma_text_of_add(buf, close_all(open));
        let body = buf + close_all(open);
        assert(tb + Seq::<char>::empty() =~= tb);
        lemma_line_html_text(body);
        lemma_text_of_add(out, line_html(body));
        lemma_concat_tags_text(open);
        let nl = piece;
        assert(nl =~= seq!['\n']);
        assert(nl.drop_last() =~= Seq::<char>::empty());
        assert(text_of(nl.drop_last()) == (Seq::<char>::empty(), false));
        assert(Seq::<char>::empty().push('\n') =~= seq!['\n']);
        assert(text_of(nl) == (seq!['\n'], false));
        lemma_text_of_add(s.take(i), nl);
        assert(to + tb.push('\n') =~= (to + tb) + seq!['\n']);
        assert(Seq::<char>::empty() + seq!['\n'] =~= seq!['\n']);
        assert(to + tb.push('\n') + Seq::<char>::empty() =~= to + tb.push('\n'));
    } else {
        lemma_text_end(s, i);
        assert forall|k: int| 0 <= k < piece.len() implies piece[k] != '<' && piece[k] != '\n' by {
            assert(piece[k] == s[i + k]);
        }
        lemma_run_text(piece);
        lemma_text_of_add(s.take(i), piece);
        lemma_text_of_add(buf, piece);
        assert(to + (tb + piece) =~= (to + tb) + piece);
        assert forall|k: int| 0 <= k < (tb + piece).len() implies (tb + piece)[k] != '\n' by {
            if k >= tb.len() {
                assert((tb + piece)[k] == piece[k - tb.len()]);
            } else {
                assert((tb + piece)[k] == tb[k]);
            }
        }
    }
}

proof fn lemma_text_from(s: Seq<char>, i: int, st: WrapState)
    requires
        tags_closed(s),
        0 <= i <= s.len(),
        text_inv(s, i, st),
    ensures
        text_inv(s, s.len() as int, wrap_from(s, i, st)),
    decreases s.len() - i,
{
    if i < s.len() {
        lemma_wrap_step_advances(s, i, st);
        let (j, st2) = wrap_step(s, i, st);
        lemma_text_step(s, i, st);
        lemma_text_from(s, j, st2);
    }
}

/// The text of `s`, with a line end after the last line where it has none.
pub open spec fn text_in_lines(t: Seq<char>) -> Seq<char> {
    if t.len() > 0 && t.last() != '\n' {
        t.push('\n')
    } else {
        t
    }
}

/// Cutting into lines keeps the text: outside its tags, what `wrap_lines`
/// writes is the text of the highlighted HTML, every line ending at its
/// line end, whenever every `<` of that HTML starts a tag.
pub proof fn lemma_wrap_lines_keeps_text(s: Seq<char>)
    requires
        tags_closed(s),
    ensures
        text_of(wrap_lines_spec(s)).0 == text_in_lines(text_of(s).0),
{
    let init: WrapState = (Seq::empty(), Seq::empty(), Seq::empty(), false);
    assert(s.take(0) =~= Seq::<char>::empty());
    assert(Seq::<char>::empty() + Seq::<char>::empty() =~= Seq::<char>::empty());
    assert(text_inv(s, 0, init));
    lemma_text_from(s, 0, init);
    assert(s.take(s.len() as int) =~= s);
    let (out, open, buf, has_text) = wrap_from(s, 0, init);
    let to = text_of(out).0;
    let tb = text_of(buf).0;
    if has_text {
        lemma_close_all_text(open.len());
        lemma_text_of_add(buf, close_all(open));
        let body = buf + close_all(open);
        assert(tb + Seq::<char>::empty() =~= tb);
        lemma_line_html_text(body);
        lemma_text_of_add(out, line_html(body));
        assert(to + tb.push('\n') =~= (to + tb).push('\n'));
        assert((to + tb).last() == tb.last());
        assert(tb.last() == tb[tb.len() - 1]);
    } else {
        assert(to + tb =~= to);
    }
}

proof fn lemma_escape_has_no_lt(s: Seq<char>)
    ensures
        forall|k: int| 0 <= k < escape_html_spec(s).len() ==> escape_html_spec(s)[k] != '<',
    decreases s.len(),
{
    if s.len() > 0 {
        lemma_escape_has_no_lt(s.drop_last());
        reveal_strlit("&amp;");
        reveal_strlit("&lt;");
        reveal_strlit("&gt;");
        let a = escape_html_spec(s.drop_last());
        let b = escape_char(s.last());
        assert forall|k: int| 0 <= k < (a + b).len() implies (a + b)[k] != '<' by {
            if k >= a.len() {
                assert((a + b)[k] == b[k - a.len()]);
            }
        }
    }
}

/// A block in a language that is not known is always balanced line by
/// line: its escaped text holds no tag at all.
pub proof fn lemma_plain_block_balanced(code: Seq<char>)
    ensures
        exists|bodies: Seq<Seq<char>>|
            wrap_lines_spec(escape_html_spec(code)) == lines_text(bodies) && forall|j: int|
                0 <= j < bodies.len() ==> tag_balance(#[trigger] bodies[j]) == 0,
{
    let e = escape_html_spec(code);
    lemma_escape_has_no_lt(code);
    assert(tags_closed(e));
    assert(never_overclosed(e));
    lemma_wrap_lines_balanced(e);
}

/// The language of a fenced block: the first word of its info string.
pub open spec fn info_lang_spec(info: Seq<char>) -> Seq<char> {
    let t = crate::text::trim_start(info);
    t.take(first_ws(t))
}

/// Index of the first white space in `s`, or its length.
pub open spec fn first_ws(s: Seq<char>) -> int
    decreases s.len(),
{
    if s.len() == 0 {
        0
    } else if is_ws(s[0]) {
        0
    } else {
        1 + first_ws(s.drop_first())
    }
}

proof fn lemma_first_ws(s: Seq<char>)
    ensures
        0 <= first_ws(s) <= s.len(),
    decreases s.len(),
{
    if s.len() > 0 && !is_ws(s[0]) {
        lemma_first_ws(s.drop_first());
    }
}

pub fn info_lang(info: &str) -> (r: String)
    ensures
        r@ == info_lang_spec(info@),
{
    let v = to_chars(info);
    let n = v.len();
    let start = crate::text::trim_start_chars(&v, 0, n);
    assert(v@.subrange(0, n as int) == v@);
    let ghost t = v@.subrange(start as int, n as int);
    proof {
        lemma_first_ws(t);
    }
    let mut e = start;
    assert(t.skip(0) == t);
    while e < n && !ws(v[e])
        invariant
            start <= e <= n == v@.len(),
            t == v@.subrange(start as int, n as int),
            (e - start) + first_ws(t.skip(e - start)) == first_ws(t),
        decreases n - e,
    {
        assert(t.skip(e - start).drop_first() == t.skip(e - start + 1));
        e = e + 1;
    }
    assert(t.take(e - start) == v@.subrange(start as int, e as int));
    from_chars(&slice_chars(&v, start, e))
}

/// The `class` attribute of a block whose language is `lang` (none when it
/// has no language).
pub open spec fn lang_class(lang: Seq<char>) -> Seq<char> {
    if lang.len() == 0 {
        Seq::empty()
    } else {
        " class=\"language-"@ + lang + "\""@
    }
}

pub open spec fn code_block_html_spec(lang: Seq<char>, body: Seq<char>) -> Seq<char> {
    "<pre><code"@ + lang_class(lang) + ">"@ + body + "</code></pre>\n"@
}

/// The HTML of a code block whose lines (already wrapped) are `body`.
pub fn code_block_html(lang: &str, body: &str) -> (r: String)
    ensures
        r@ == code_block_html_spec(lang@, body@),
{
    let mut s = String::new();
    append(&mut s, "<pre><code");
    if !lang.is_empty() {
        append(&mut s, " class=\"language-");
        append(&mut s, lang);
        append(&mut s, "\"");
    }
    append(&mut s, ">");
    append(&mut s, body);
    append(&mut s, "</code></pre>\n");
    s
}

/// A block in a language that is not known: its text escaped, cut into
/// lines the same way.
pub fn plain_block_html(lang: &str, code: &str) -> (r: String)
    ensures
        r@ == code_block_html_spec(lang@, wrap_lines_spec(escape_html_spec(code@))),
{
    let escaped = escape_html(code);
    let body = wrap_lines(escaped.as_str());
    code_block_html(lang, body.as_str())
}

#[verifier::external_type_specification]
#[verifier::external_body]
pub struct ExSyntaxSet(SyntaxSet);

#[verifier::external_type_specification]
#[verifier::external_body]
pub struct ExClassedHtmlGenerator<'a>(ClassedHTMLGenerator<'a>);

#[verifier::external_type_specification]
#[verifier::external_body]
pub struct ExThemeSet(ThemeSet);

/// The lines of `s` from position `k` on, each with its line end; a last
/// piece without one counts when it is not empty (syntect's
/// `LinesWithEndings`).
pub open spec fn lines_from(s: Seq<char>, k: int) -> Seq<Seq<char>>
    decreases s.len() - k,
{
    if k < 0 || k >= s.len() {
        Seq::empty()
    } else {
        proof {
            lemma_find_from(s, '\n', k);
        }
        let e = find_from(s, '\n', k);
        let end = if e < s.len() {
            e + 1
        } else {
            s.len() as int
        };
        seq![s.subrange(k, end)] + lines_from(s, end)
    }
}

/// The lines of a code block as syntect is fed them.
pub open spec fn lines_with_endings(s: Seq<char>) -> Seq<Seq<char>> {
    lines_from(s, 0)
}

/// A line of a code block as syntect takes it: not empty, a line end only
/// as its last character, and one there unless it is the block's last line.
pub open spec fn is_fed_line(l: Seq<char>, last: bool) -> bool {
    &&& l.len() > 0
    &&& forall|j: int| 0 <= j < l.len() - 1 ==> l[j] != '\n'
    &&& !last ==> l.last() == '\n'
}

proof fn lemma_lines_from(s: Seq<char>, k: int)
    requires
        0 <= k <= s.len(),
    ensures
        lines_from(s, k).flatten() == s.subrange(k, s.len() as int),
        forall|i: int|
            0 <= i < lines_from(s, k).len() ==> is_fed_line(
                #[trigger] lines_from(s, k)[i],
                i == lines_from(s, k).len() - 1,
            ),
    decreases s.len() - k,
{
    if k < s.len() {
        lemma_find_from(s, '\n', k);
        let e = find_from(s, '\n', k);
        let end = if e < s.len() {
            e + 1
        } else {
            s.len() as int
        };
        lemma_lines_from(s, end);
        let l = s.subrange(k, end);
        let rest = lines_from(s, end);
        let all = lines_from(s, k);
        assert(all == seq![l] + rest);
        assert(all.drop_first() == rest);
        assert(all.first() == l);
        assert(s.subrange(k, s.len() as int) == l + s.subrange(end, s.len() as int));
        if end == s.len() {
            assert(rest.len() == 0);
        }
        assert(is_fed_line(l, 0 == all.len() - 1));
        assert forall|i: int| 0 <= i < all.len() implies is_fed_line(
            #[trigger] all[i],
            i == all.len() - 1,
        ) by {
            if i > 0 {
                assert(all[i] == rest[i - 1]);
            }
        }
    } else {
        assert(lines_from(s, k).len() == 0);
        assert(s.subrange(k, s.len() as int).len() == 0);
    }
}

/// The lines a code block is fed to syntect in are the block itself, cut
/// after each line end: joined they give the code back, none is empty, and
/// each ends at its line end (the last one may have none).
pub proof fn lemma_lines_cover_code(s: Seq<char>)
    ensures
        lines_with_endings(s).flatten() == s,
        forall|i: int|
            0 <= i < lines_with_endings(s).len() ==> is_fed_line(
                #[trigger] lines_with_endings(s)[i],
                i == lines_with_endings(s).len() - 1,
            ),
{
    lemma_lines_from(s, 0);
    assert(s.subrange(0, s.len() as int) == s);
}

/// A successful outcome of highlighting: the finished HTML.
pub open spec fn html_outcome(html: Seq<char>) -> Result<Seq<char>, Seq<char>> {
    Ok(html)
}

/// Whether syntect's default syntaxes have a syntax for this token (a file
/// extension or a syntax name).
pub uninterp spec fn default_syntax_known(token: Seq<char>) -> bool;

/// What syntect's default syntaxes make of these lines in the syntax found
/// for this token: the lines are fed in order, with space-separated
/// classes; the first line that fails gives `Err` with syntect's message,
/// else the finished HTML.
pub uninterp spec fn default_highlight(token: Seq<char>, lines: Seq<Seq<char>>) -> Result<
    Seq<char>,
    Seq<char>,
>;

/// What a syntax set holds, as its lookup by token reads it: the tokens
/// (file extensions and syntax names) for which it has a syntax.
pub uninterp spec fn syntax_tokens(set: SyntaxSet) -> Set<Seq<char>>;

/// What a syntax set makes of a token and lines, as `default_highlight`
/// says of the default set.
pub uninterp spec fn syntax_highlight(set: SyntaxSet) -> Map<
    (Seq<char>, Seq<Seq<char>>),
    Result<Seq<char>, Seq<char>>,
>;

/// The lines a generator has been fed so far.
pub uninterp spec fn generator_lines(g: ClassedHTMLGenerator) -> Seq<Seq<char>>;

/// What a generator makes of the whole sequence of lines it is fed from
/// its start.
pub uninterp spec fn generator_outcomes(g: ClassedHTMLGenerator) -> Map<
    Seq<Seq<char>>,
    Result<Seq<char>, Seq<char>>,
>;

/// `SyntaxSet::load_defaults_newlines`: the syntaxes that syntect ships,
/// a fixed embedded dump. Its tokens and what it makes of lines are those
/// of the default syntaxes.
#[verifier::external_body]
fn default_syntaxes() -> (r: SyntaxSet)
    ensures
        forall|t: Seq<char>| #[trigger] syntax_tokens(r).contains(t) <==> default_syntax_known(t),
        forall|t: Seq<char>, ls: Seq<Seq<char>>|
            #[trigger] syntax_highlight(r)[(t, ls)] == default_highlight(t, ls),
{
    SyntaxSet::load_defaults_newlines()
}

/// `SyntaxSet::find_syntax_by_token` (which tries the file extensions
/// first, then the names) and, on a syntax found,
/// `ClassedHTMLGenerator::new_with_class_style` with space-separated
/// classes. `None` exactly when the set has no syntax for the token; a new
/// generator has been fed nothing, and what it makes of lines is what the
/// set makes of them for that token.
#[verifier::external_body]
fn generator_for<'a>(set: &'a SyntaxSet, token: &str) -> (r: Option<ClassedHTMLGenerator<'a>>)
    ensures
        r is Some <==> syntax_tokens(*set).contains(token@),
        r matches Some(g) ==> generator_lines(g) == Seq::<Seq<char>>::empty(),
        r matches Some(g) ==> forall|ls: Seq<Seq<char>>|
            #[trigger] generator_outcomes(g)[ls] == syntax_highlight(*set)[(token@, ls)],
{
    match set.find_syntax_by_token(token) {
        Some(syntax) => Some(
            ClassedHTMLGenerator::new_with_class_style(
                syntax,
                set,
                syntect::html::ClassStyle::Spaced,
            ),
        ),
        None => None,
    }
}

/// `ClassedHTMLGenerator::parse_html_for_line_which_includes_newline`:
/// on success the generator has been fed one more line; on failure the
/// message (syntect's `Display` of its error) is what feeding any lines
/// that begin with those fed so far and this one comes to.
#[verifier::external_body]
fn feed_line<'a>(g: ClassedHTMLGenerator<'a>, line: &str) -> (r: Result<ClassedHTMLGenerator<'a>, String>)
    ensures
        r matches Ok(g2) ==> generator_lines(g2) == generator_lines(g).push(line@),
        r matches Ok(g2) ==> generator_outcomes(g2) == generator_outcomes(g),
        r matches Err(m) ==> forall|rest: Seq<Seq<char>>|
            (#[trigger] generator_outcomes(g)[generator_lines(g).push(line@) + rest]) matches Err(
                e,
            ) && e == m@,
{
    let mut g = g;
    match g.parse_html_for_line_which_includes_newline(line) {
        Ok(()) => Ok(g),
        Err(e) => Err(e.to_string()),
    }
}

/// `ClassedHTMLGenerator::finalize`: the HTML of the lines fed, every span
/// closed; this is what the generator makes of them.
#[verifier::external_body]
fn finish(g: ClassedHTMLGenerator) -> (r: String)
    ensures
        generator_outcomes(g)[generator_lines(g)] == html_outcome(r@),
{
    g.finalize()
}

/// What a theme set holds: for each theme name, the CSS that syntect
/// writes for that theme with space-separated classes.
pub uninterp spec fn theme_css_map(set: ThemeSet) -> Map<Seq<char>, Seq<char>>;

/// The CSS that syntect writes, with space-separated classes, for the
/// theme of that name among its default themes.
pub uninterp spec fn default_theme_css(name: Seq<char>) -> Seq<char>;

/// `ThemeSet::load_defaults`: the themes that syntect ships. The contract
/// claims that they include `InspiredGitHub` (the function's documentation
/// lists it among the keys), and that the CSS of each is the named CSS of
/// that default theme.
#[verifier::external_body]
fn default_themes() -> (r: ThemeSet)
    ensures
        theme_css_map(r).dom().contains("InspiredGitHub"@),
        forall|n: Seq<char>|
            #[trigger] theme_css_map(r).dom().contains(n) ==> theme_css_map(r)[n]
                == default_theme_css(n),
{
    ThemeSet::load_defaults()
}

/// `css_for_theme_with_class_style` with space-separated classes, for the
/// theme of that name in the set (`themes.get`): `None` exactly when the
/// set holds no such theme; with that class style the function always
/// returns `Ok`, as its source shows.
#[verifier::external_body]
fn theme_css(set: &ThemeSet, name: &str) -> (r: Option<String>)
    ensures
        r is Some <==> theme_css_map(*set).dom().contains(name@),
        r matches Some(c) ==> c@ == theme_css_map(*set)[name@],
{
    match set.themes.get(name) {
        Some(theme) => syntect::html::css_for_theme_with_class_style(
            theme,
            syntect::html::ClassStyle::Spaced,
        ).ok(),
        None => None,
    }
}

/// The theme whose classes the code blocks use: a light one that also suits
/// print.
pub const THEME: &'static str = "InspiredGitHub";

pub open spec fn highlight_failed_text(line: nat) -> Seq<char> {
    "zvýraznění kódu selhalo (řádek "@ + crate::text::decimal(line) + ")"@
}

/// The message when a code block starting on `line` cannot be highlighted.
pub fn highlight_failed_message(line: usize) -> (r: String)
    ensures
        r@ == highlight_failed_text(line as nat),
{
    let mut s = String::new();
    append(&mut s, "zvýraznění kódu selhalo (řádek ");
    let n = from_chars(&crate::text::decimal_chars(line as u64));
    append(&mut s, n.as_str());
    append(&mut s, ")");
    s
}

/// The HTML of a code block from syntect's highlighted HTML: cut into lines
/// and put in `<pre><code>`.
pub fn highlighted_block_html(lang: &str, html: &str) -> (r: String)
    ensures
        r@ == code_block_html_spec(lang@, wrap_lines_spec(html@)),
{
    let body = wrap_lines(html);
    code_block_html(lang, body.as_str())
}

/// What `render_block` gives: the highlighted block where the language is
/// given and syntect knows it, else the escaped text in lines.
pub open spec fn render_block_spec(lang: Seq<char>, code: Seq<char>) -> Result<
    Seq<char>,
    Seq<char>,
> {
    if lang.len() > 0 && default_syntax_known(lang) {
        match default_highlight(lang, lines_with_endings(code)) {
            Ok(h) => Ok(code_block_html_spec(lang, wrap_lines_spec(h))),
            Err(m) => Err(m),
        }
    } else {
        Ok(code_block_html_spec(lang, wrap_lines_spec(escape_html_spec(code))))
    }
}

/// Highlights code blocks with syntect's default syntaxes.
pub struct Highlighter {
    syntaxes: SyntaxSet,
}

impl Highlighter {
    /// The syntaxes are syntect's default ones.
    #[verifier::type_invariant]
    spec fn holds_defaults(self) -> bool {
        &&& forall|t: Seq<char>|
            #[trigger] syntax_tokens(self.syntaxes).contains(t) <==> default_syntax_known(t)
        &&& forall|t: Seq<char>, ls: Seq<Seq<char>>|
            #[trigger] syntax_highlight(self.syntaxes)[(t, ls)] == default_highlight(t, ls)
    }

    pub fn new() -> (r: Highlighter) {
        Highlighter { syntaxes: default_syntaxes() }
    }

    /// The CSS of the highlighting classes.
    pub fn css() -> (r: Result<String, String>)
        ensures
            r matches Ok(c) && c@ == default_theme_css("InspiredGitHub"@),
    {
        let themes = default_themes();
        proof {
            reveal_strlit("InspiredGitHub");
        }
        match theme_css(&themes, THEME) {
            Some(css) => Ok(css),
            None => {
                let mut m = String::new();
                append(&mut m, "téma InspiredGitHub není v syntect defaults");
                Err(m)
            },
        }
    }

    /// The HTML of one code block: highlighted when syntect knows the
    /// language, else the escaped text; either way cut into lines. `Err`
    /// carries syntect's message.
    pub fn render_block(&self, lang: &str, code: &str) -> (r: Result<String, String>)
        ensures
            match render_block_spec(lang@, code@) {
                Ok(h) => r matches Ok(x) && x@ == h,
                Err(m) => r matches Err(x) && x@ == m,
            },
    {
        proof {
            use_type_invariant(self);
        }
        if lang.is_empty() {
            return Ok(plain_block_html(lang, code));
        }
        let generator = match generator_for(&self.syntaxes, lang) {
            Some(g) => g,
            None => {
                return Ok(plain_block_html(lang, code));
            },
        };
        let v = to_chars(code);
        let n = v.len();
        let ghost all = lines_from(v@, 0);
        let mut gen = generator;
        let mut start: usize = 0;
        while start < n
            invariant
                start <= n == v@.len(),
                v@ == code@,
                all == lines_from(v@, 0),
                lang@.len() > 0,
                default_syntax_known(lang@),
                generator_lines(gen) + lines_from(v@, start as int) == all,
                forall|ls: Seq<Seq<char>>|
                    #[trigger] generator_outcomes(gen)[ls] == default_highlight(lang@, ls),
            decreases n - start,
        {
            let e = find_from_exec(&v, '\n', start);
            proof {
                lemma_find_from(v@, '\n', start as int);
            }
            let end = if e < n {
                e + 1
            } else {
                n
            };
            let line = from_chars(&slice_chars(&v, start, end));
            let ghost before = generator_lines(gen);
            let ghost rest = lines_from(v@, end as int);
            assert(lines_from(v@, start as int) == seq![line@] + rest);
            assert(before + lines_from(v@, start as int) == before.push(line@) + rest);
            match feed_line(gen, line.as_str()) {
                Ok(g2) => {
                    gen = g2;
                },
                Err(m) => {
                    assert(generator_outcomes(gen)[before.push(line@) + rest] == Err::<
                        Seq<char>,
                        Seq<char>,
                    >(m@));
                    assert(before.push(line@) + rest == all);
                    assert(default_highlight(lang@, all) == Err::<Seq<char>, Seq<char>>(m@));
                    return Err(m);
                },
            }
            start = end;
        }
        assert(generator_lines(gen) == all);
        let html = finish(gen);
        assert(generator_outcomes(gen)[all] == default_highlight(lang@, all));
        Ok(highlighted_block_html(lang, html.as_str()))
    }
}

} // verus!
