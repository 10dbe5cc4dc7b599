//! Rendering of a device UI dump (an XML hierarchy) as a nested HTML list.
use vstd::prelude::*;
use crate::text::{chars_of, copy_range, is_ascii_whitespace_char, is_ascii_ws, push_str, string_of, trim_range, trimmed};

verus! {

/// The style sheet placed before the rendered list.
pub const CSS_SNIPPET: &'static str = "\
\t<style>\n\tbody{\n\t\tfont-family: Arial, sans-serif;\n\t\tline-height: 1.6;\n\t\tcolor: #333;\n\t\tbackground-color: #f4f4f4;\n\t\tpadding: 20px;\n\t}\n\t\n\tul {\n\t\tlist-style-type: none;\n\t\tpadding-left:0;\n\t}\n\t\n\tul li {\n\t\tmargin: 5px 0;\n\t\tposition: relative;\n\t\tpadding: 5px;\n\t\tborder: 2px solid #ddd;\n\t\tbackground-color:#fffff;\n\t}\n\t\n\tul li ul {\n\t\tmargin-left: 20px;\n\t\tpadding-left: 20px;\n\t\tborder-left:1.2px dashed #888;\n\t}\n\t\n\tul li:before{\n\t\tcontent: '➡️';\n\t\tposition: absolute;\n\t\tleft:-15px;\n\t\tcolor: #888;\n\t}\n\t\n\t.attributes {\n\t\tcolor: #0000FF;\n\t\tfont-style: italic ;\n\t}\n\t\n\t.text {\n\t\tcolor: #008000;\n\t}\n\t</style>\n\t";

/// What one character becomes in HTML text.
pub open spec fn escape_char(c: char) -> Seq<char> {
    if c == '&' {
        "&amp;"@
    } else if c == '<' {
        "&lt;"@
    } else if c == '>' {
        "&gt;"@
    } else if c == '"' {
        "&quot;"@
    } else if c == '\'' {
        "&#39;"@
    } else {
        seq![c]
    }
}

/// `s` with each character replaced by its HTML escape.
pub open spec fn escaped(s: Seq<char>) -> Seq<char>
    decreases s.len(),
{
    if s.len() == 0 {
        Seq::empty()
    } else {
        escaped(s.drop_last()) + escape_char(s.last())
    }
}

/// Appends the escape of `s[lo..hi]` to `out`.
pub fn escape_into(out: &mut Vec<char>, s: &Vec<char>, lo: usize, hi: usize)
    requires
        lo <= hi <= s@.len(),
    ensures
        final(out)@ == old(out)@ + escaped(s@.subrange(lo as int, hi as int)),
{
    let mut i: usize = lo;
    assert(s@.subrange(lo as int, lo as int) =~= Seq::<char>::empty());
    assert(out@ =~= old(out)@ + escaped(s@.subrange(lo as int, lo as int)));
    while i < hi
        invariant
            lo <= i <= hi <= s@.len(),
            out@ == old(out)@ + escaped(s@.subrange(lo as int, i as int)),
        decreases hi - i,
    {
        let ghost before = out@;
        let ch = s[i];
        if ch == '&' {
            push_str(out, "&amp;");
        } else if ch == '<' {
            push_str(out, "&lt;");
        } else if ch == '>' {
            push_str(out, "&gt;");
        } else if ch == '"' {
            push_str(out, "&quot;");
        } else if ch == '\'' {
            push_str(out, "&#39;");
        } else {
            out.push(ch);
            assert(out@ =~= before + seq![ch]);
        }
        proof {
            let next = s@.subrange(lo as int, i + 1);
            assert(next.drop_last() =~= s@.subrange(lo as int, i as int));
            assert(out@ =~= old(out)@ + escaped(next));
        }
        i = i + 1;
    }
}

/// Escapes `&`, `<`, `>`, `"` and `'` for use in HTML text and attribute values.
pub fn escape_html(input: &str) -> (r: String)
    ensures
        r@ == escaped(input@),
{
    let chars = chars_of(input);
    let mut out: Vec<char> = Vec::new();
    escape_into(&mut out, &chars, 0, chars.len());
    assert(chars@.subrange(0, chars@.len() as int) =~= input@);
    assert(out@ =~= escaped(input@));
    string_of(&out)
}

/// What comes before the rendered elements: the style sheet and the opening of the list.
pub open spec fn page_head() -> Seq<char> {
    CSS_SNIPPET@ + "<ul>"@
}

/// Whether `s` holds no `<`, so that no element starts in it.
pub open spec fn has_no_tag(s: Seq<char>) -> bool {
    forall|j: int| 0 <= j < s.len() ==> s[j] != '<'
}

/// The characters at which a scan of the dump stops.
#[derive(Clone, Copy)]
pub enum Stop {
    /// The end of a tag name: `/`, `>` or ASCII whitespace.
    TagNameEnd,
    /// Anything but ASCII whitespace.
    NonSpace,
    /// The end of an attribute name: `=` or ASCII whitespace.
    AttrNameEnd,
    /// This character.
    Char(char),
}

pub open spec fn stops_at(stop: Stop, c: char) -> bool {
    match stop {
        Stop::TagNameEnd => c == '/' || c == '>' || is_ascii_ws(c),
        Stop::NonSpace => !is_ascii_ws(c),
        Stop::AttrNameEnd => c == '=' || is_ascii_ws(c),
        Stop::Char(q) => c == q,
    }
}

/// The first position from `i` on where `stop` holds, or the end of `s`.
pub open spec fn scan_from(s: Seq<char>, i: int, stop: Stop) -> int
    decreases s.len() - i,
{
    if 0 <= i < s.len() {
        if stops_at(stop, s[i]) {
            i
        } else {
            scan_from(s, i + 1, stop)
        }
    } else {
        s.len() as int
    }
}

/// Where a comment whose body starts at `i` ends: just after the first `-->`,
/// or the end of `s`.
pub open spec fn comment_end(s: Seq<char>, i: int) -> int
    decreases s.len() - i,
{
    if i + 2 >= s.len() {
        s.len() as int
    } else if s[i] == '-' && s[i + 1] == '-' && s[i + 2] == '>' {
        i + 3
    } else {
        comment_end(s, i + 1)
    }
}

/// Where a processing instruction whose body starts at `i` ends: just after
/// the first `?>`, or the end of `s`.
pub open spec fn instruction_end(s: Seq<char>, i: int) -> int
    decreases s.len() - i,
{
    if i + 1 >= s.len() {
        s.len() as int
    } else if s[i] == '?' && s[i + 1] == '>' {
        i + 2
    } else {
        instruction_end(s, i + 1)
    }
}

/// The attributes of a start tag, whether it closes itself, and where it ends.
pub struct AttrScan {
    pub attrs: Seq<(Seq<char>, Seq<char>)>,
    pub self_closing: bool,
    pub end: int,
}

/// Reads the attributes of a start tag from `ac` on: `name = "value"` or
/// `name = 'value'` pairs separated by whitespace, up to `>`, `/>` or the end.
pub open spec fn scan_attrs(s: Seq<char>, ac: int) -> Result<AttrScan, Seq<char>>
    decreases s.len() - ac,
{
    let n = s.len() as int;
    let a = scan_from(s, ac, Stop::NonSpace);
    if a >= n {
        Ok(AttrScan { attrs: Seq::empty(), self_closing: false, end: a })
    } else if s[a] == '>' {
        Ok(AttrScan { attrs: Seq::empty(), self_closing: false, end: a + 1 })
    } else if s[a] == '/' {
        Ok(
            AttrScan {
                attrs: Seq::empty(),
                self_closing: true,
                end: if a + 1 < n && s[a + 1] == '>' {
                    a + 2
                } else {
                    a + 1
                },
            },
        )
    } else {
        let ne = scan_from(s, a, Stop::AttrNameEnd);
        let e = scan_from(s, ne, Stop::NonSpace);
        let v = scan_from(s, e + 1, Stop::NonSpace);
        let ve = scan_from(s, v + 1, Stop::Char(s[v]));
        if ne >= n {
            Err("Malformed attribute"@)
        } else if e >= n || s[e] != '=' {
            Err("Malformed attribute assignment"@)
        } else if v >= n {
            Err("Missing attribute value"@)
        } else if s[v] != '"' && s[v] != '\'' {
            Err("Attribute value must be quoted"@)
        } else if ve >= n {
            Err("Unterminated attribute value"@)
        } else if ac < ve + 1 {
            let attr = (trimmed(s.subrange(a, ne)), s.subrange(v + 1, ve));
            match scan_attrs(s, ve + 1) {
                Ok(rest) => Ok(AttrScan { attrs: seq![attr] + rest.attrs, ..rest }),
                Err(m) => Err(m),
            }
        } else {
            Err(Seq::empty())
        }
    }
}

/// One attribute as rendered: `name="value"`, each part escaped and in its span.
pub open spec fn attr_span(a: (Seq<char>, Seq<char>)) -> Seq<char> {
    "<span class=\"attributes\">"@ + escaped(a.0) + "</span>=<span class=\"text\">"@ + "\""@
        + escaped(a.1) + "\""@ + "</span>"@
}

/// The attributes as rendered, separated by `, `.
pub open spec fn attr_list(attrs: Seq<(Seq<char>, Seq<char>)>) -> Seq<char>
    decreases attrs.len(),
{
    if attrs.len() == 0 {
        Seq::empty()
    } else if attrs.len() == 1 {
        attr_span(attrs[0])
    } else {
        attr_list(attrs.drop_last()) + ", "@ + attr_span(attrs.last())
    }
}

/// The opening of the item of an element: its escaped name, then its
/// attributes in brackets when it has any.
pub open spec fn item_text(tag: Seq<char>, attrs: Seq<(Seq<char>, Seq<char>)>) -> Seq<char> {
    "<li>"@ + escaped(tag) + if attrs.len() > 0 {
        " ["@ + attr_list(attrs) + "] "@
    } else {
        Seq::empty()
    }
}

/// Closes the innermost open item, if any; `stack` says of each open item
/// whether it has a list of children.
pub open spec fn close_item(stack: Seq<bool>, body: Seq<char>) -> (Seq<bool>, Seq<char>) {
    if stack.len() == 0 {
        (stack, body)
    } else {
        (
            stack.drop_last(),
            body + (if stack.last() {
                "</ul>"@
            } else {
                Seq::empty()
            }) + "</li>"@,
        )
    }
}

/// Closes every open item.
pub open spec fn close_all(stack: Seq<bool>, body: Seq<char>) -> Seq<char>
    decreases stack.len(),
{
    if stack.len() == 0 {
        body
    } else {
        close_all(
            stack.drop_last(),
            body + (if stack.last() {
                "</ul>"@
            } else {
                Seq::empty()
            }) + "</li>"@,
        )
    }
}

/// Opens the list of children of the innermost open item, unless it has one.
pub open spec fn open_child(stack: Seq<bool>, body: Seq<char>) -> (Seq<bool>, Seq<char>) {
    if stack.len() > 0 && !stack.last() {
        (stack.update(stack.len() - 1, true), body + "<ul>"@)
    } else {
        (stack, body)
    }
}

/// Renders `s` from position `i` on, with `stack` open and `body` written so far.
pub open spec fn render_from(s: Seq<char>, i: int, stack: Seq<bool>, body: Seq<char>) -> Result<
    Seq<char>,
    Seq<char>,
>
    decreases s.len() - i,
{
    let n = s.len() as int;
    if i < 0 || i >= n {
        Ok(close_all(stack, body))
    } else if s[i] != '<' {
        render_from(s, i + 1, stack, body)
    } else if i + 1 >= n {
        Ok(close_all(stack, body))
    } else if s[i + 1] == '/' {
        let g = scan_from(s, i + 2, Stop::Char('>'));
        let j = if g < n {
            g + 1
        } else {
            g
        };
        let (st, b) = close_item(stack, body);
        if i < j <= n {
            render_from(s, j, st, b)
        } else {
            Err(Seq::empty())
        }
    } else if s[i + 1] == '!' {
        let j = comment_end(s, i + 2);
        if i < j <= n {
            render_from(s, j, stack, body)
        } else {
            Err(Seq::empty())
        }
    } else if s[i + 1] == '?' {
        let j = instruction_end(s, i + 2);
        if i < j <= n {
            render_from(s, j, stack, body)
        } else {
            Err(Seq::empty())
        }
    } else {
        let ne = scan_from(s, i + 1, Stop::TagNameEnd);
        match scan_attrs(s, ne) {
            Err(m) => Err(m),
            Ok(x) => {
                let (st, b) = open_child(stack, body);
                let b2 = b + item_text(s.subrange(i + 1, ne), x.attrs);
                if i < x.end <= n {
                    if x.self_closing {
                        render_from(s, x.end, st, b2 + "</li>"@)
                    } else {
                        render_from(s, x.end, st.push(false), b2)
                    }
                } else {
                    Err(Seq::empty())
                }
            },
        }
    }
}

/// The page for a device UI dump, or the message that rejects it.
pub open spec fn rendered(xml: Seq<char>) -> Result<Seq<char>, Seq<char>> {
    match render_from(xml, 0, Seq::empty(), Seq::empty()) {
        Ok(b) => Ok(page_head() + b + "</ul>"@),
        Err(m) => Err(m),
    }
}

pub open spec fn pairs_view(v: Seq<(Vec<char>, Vec<char>)>) -> Seq<(Seq<char>, Seq<char>)> {
    v.map_values(|p: (Vec<char>, Vec<char>)| (p.0@, p.1@))
}

fn stop_test(stop: Stop, c: char) -> (r: bool)
    ensures
        r == stops_at(stop, c),
{
    match stop {
        Stop::TagNameEnd => c == '/' || c == '>' || is_ascii_whitespace_char(c),
        Stop::NonSpace => !is_ascii_whitespace_char(c),
        Stop::AttrNameEnd => c == '=' || is_ascii_whitespace_char(c),
        Stop::Char(q) => c == q,
    }
}

fn scan(s: &Vec<char>, i: usize, stop: Stop) -> (r: usize)
    requires
        i <= s@.len(),
    ensures
        i <= r <= s@.len(),
        r == scan_from(s@, i as int, stop),
{
    let mut j: usize = i;
    while j < s.len() && !stop_test(stop, s[j])
        invariant
            i <= j <= s@.len(),
            scan_from(s@, i as int, stop) == scan_from(s@, j as int, stop),
        decreases s@.len() - j,
    {
        j = j + 1;
    }
    j
}

fn comment_close(s: &Vec<char>, i: usize) -> (r: usize)
    requires
        i <= s@.len(),
    ensures
        i <= r <= s@.len(),
        r == comment_end(s@, i as int),
{
    let n = s.len();
    let mut j: usize = i;
    while n - j > 2 && !(s[j] == '-' && s[j + 1] == '-' && s[j + 2] == '>')
        invariant
            n == s@.len(),
            i <= j <= n,
            comment_end(s@, i as int) == comment_end(s@, j as int),
        decreases n - j,
    {
        j = j + 1;
    }
    if n - j > 2 {
        j + 3
    } else {
        n
    }
}

fn instruction_close(s: &Vec<char>, i: usize) -> (r: usize)
    requires
        i <= s@.len(),
    ensures
        i <= r <= s@.len(),
        r == instruction_end(s@, i as int),
{
    let n = s.len();
    let mut j: usize = i;
    while n - j > 1 && !(s[j] == '?' && s[j + 1] == '>')
        invariant
            n == s@.len(),
            i <= j <= n,
            instruction_end(s@, i as int) == instruction_end(s@, j as int),
        decreases n - j,
    {
        j = j + 1;
    }
    if n - j > 1 {
        j + 2
    } else {
        n
    }
}

/// The attributes `p` read before the rest of a scan.
pub open spec fn prepend(p: Seq<(Seq<char>, Seq<char>)>, r: Result<AttrScan, Seq<char>>) -> Result<
    AttrScan,
    Seq<char>,
> {
    match r {
        Ok(x) => Ok(AttrScan { attrs: p + x.attrs, ..x }),
        Err(m) => Err(m),
    }
}

fn scan_attributes(s: &Vec<char>, from: usize) -> (r: Result<
    (Vec<(Vec<char>, Vec<char>)>, bool, usize),
    String,
>)
    requires
        from <= s@.len(),
    ensures
        match (r, scan_attrs(s@, from as int)) {
            (Ok((attrs, sc, end)), Ok(x)) => pairs_view(attrs@) == x.attrs && sc == x.self_closing
                && end == x.end && from <= end <= s@.len(),
            (Err(m), Err(x)) => m@ == x,
            _ => false,
        },
{
    let n = s.len();
    let mut attrs: Vec<(Vec<char>, Vec<char>)> = Vec::new();
    let mut ac: usize = from;
    assert(pairs_view(attrs@) =~= Seq::<(Seq<char>, Seq<char>)>::empty());
    assert(prepend(pairs_view(attrs@), scan_attrs(s@, from as int)) =~= scan_attrs(
        s@,
        from as int,
    )) by {
        match scan_attrs(s@, from as int) {
            Ok(x) => {
                assert(Seq::<(Seq<char>, Seq<char>)>::empty() + x.attrs =~= x.attrs);
            },
            Err(_) => {},
        }
    }
    loop
        invariant
            n == s@.len(),
            from <= ac <= n,
            scan_attrs(s@, from as int) == prepend(pairs_view(attrs@), scan_attrs(s@, ac as int)),
        decreases n - ac,
    {
        let ghost p = pairs_view(attrs@);
        assert(p + Seq::<(Seq<char>, Seq<char>)>::empty() =~= p);
        let a = scan(s, ac, Stop::NonSpace);
        if a >= n {
            return Ok((attrs, false, a));
        }
        if s[a] == '>' {
            return Ok((attrs, false, a + 1));
        }
        if s[a] == '/' {
            let end = if n - a > 1 && s[a + 1] == '>' {
                a + 2
            } else {
                a + 1
            };
            return Ok((attrs, true, end));
        }
        let ne = scan(s, a, Stop::AttrNameEnd);
        if ne >= n {
            return Err(String::from_str("Malformed attribute"));
        }
        let e = scan(s, ne, Stop::NonSpace);
        if e >= n || s[e] != '=' {
            return Err(String::from_str("Malformed attribute assignment"));
        }
        let v = scan(s, e + 1, Stop::NonSpace);
        if v >= n {
            return Err(String::from_str("Missing attribute value"));
        }
        let quote = s[v];
        if quote != '"' && quote != '\'' {
            return Err(String::from_str("Attribute value must be quoted"));
        }
        let ve = scan(s, v + 1, Stop::Char(quote));
        if ve >= n {
            return Err(String::from_str("Unterminated attribute value"));
        }
        let name = trim_range(s, a, ne);
        let value = copy_range(s, v + 1, ve);
        let ghost attr = (name@, value@);
        let ghost before = attrs@;
        attrs.push((name, value));
        proof {
            assert(pairs_view(attrs@) =~= p.push(attr));
            match scan_attrs(s@, ve + 1) {
                Ok(rest) => {
                    assert(p + (seq![attr] + rest.attrs) =~= p.push(attr) + rest.attrs);
                },
                Err(_) => {},
            }
        }
        ac = ve + 1;
    }
}

fn push_item(
    body: &mut Vec<char>,
    s: &Vec<char>,
    start: usize,
    ne: usize,
    attrs: &Vec<(Vec<char>, Vec<char>)>,
)
    requires
        start <= ne <= s@.len(),
    ensures
        final(body)@ == old(body)@ + item_text(
            s@.subrange(start as int, ne as int),
            pairs_view(attrs@),
        ),
{
    let ghost tag = s@.subrange(start as int, ne as int);
    let ghost pv = pairs_view(attrs@);
    push_str(body, "<li>");
    escape_into(body, s, start, ne);
    if attrs.len() > 0 {
        push_str(body, " [");
        let ghost pre = body@;
        let mut k: usize = 0;
        assert(pv.subrange(0, 0) =~= Seq::<(Seq<char>, Seq<char>)>::empty());
        assert(body@ =~= pre + attr_list(pv.subrange(0, 0)));
        while k < attrs.len()
            invariant
                k <= attrs@.len(),
                pv == pairs_view(attrs@),
                body@ == pre + attr_list(pv.subrange(0, k as int)),
            decreases attrs@.len() - k,
        {
            let ghost mid = body@;
            let ghost sep = if k > 0 {
                ", "@
            } else {
                Seq::<char>::empty()
            };
            if k > 0 {
                push_str(body, ", ");
            }
            assert(body@ =~= mid + sep);
            let ghost after_sep = body@;
            let name = &attrs[k].0;
            let value = &attrs[k].1;
            push_str(body, "<span class=\"attributes\">");
            escape_into(body, name, 0, name.len());
            push_str(body, "</span>=<span class=\"text\">");
            push_str(body, "\"");
            escape_into(body, value, 0, value.len());
            push_str(body, "\"");
            push_str(body, "</span>");
            proof {
                assert(name@.subrange(0, name@.len() as int) =~= name@);
                assert(value@.subrange(0, value@.len() as int) =~= value@);
                assert(pv[k as int] == (name@, value@));
                assert(body@ =~= after_sep + attr_span(pv[k as int]));
                let next = pv.subrange(0, k + 1);
                assert(next.drop_last() =~= pv.subrange(0, k as int));
                assert(next.last() == pv[k as int]);
                if k == 0 {
                    assert(attr_list(next) == attr_span(pv[0]));
                    assert(body@ =~= pre + attr_list(next));
                } else {
                    assert(body@ =~= pre + attr_list(next));
                }
            }
            k = k + 1;
        }
        assert(pv.subrange(0, k as int) =~= pv);
        push_str(body, "] ");
        assert(body@ =~= old(body)@ + item_text(tag, pv));
    } else {
        assert(body@ =~= old(body)@ + item_text(tag, pv));
    }
}

proof fn lemma_no_tag_renders_nothing(s: Seq<char>, i: int)
    requires
        has_no_tag(s),
        0 <= i <= s.len(),
    ensures
        render_from(s, i, Seq::empty(), Seq::empty()) == Ok::<Seq<char>, Seq<char>>(
            Seq::empty(),
        ),
    decreases s.len() - i,
{
    if i < s.len() {
        lemma_no_tag_renders_nothing(s, i + 1);
    }
}

/// Renders a device UI dump (an XML hierarchy) as nested `<ul>`/`<li>` lists.
///
/// Each element becomes an item holding its escaped tag name and, when it has
/// attributes, a bracketed list of `name="value"` spans; the children of an
/// element form a list inside its item. Closing tags end the innermost open
/// item; comments and processing instructions are skipped; text between tags
/// is dropped. Items still open at the end are closed. An attribute that is
/// not `name="value"` or `name='value'` rejects the dump with a message.
pub fn render_device_ui_html(xml: &str) -> (r: Result<String, String>)
    ensures
        match (r, rendered(xml@)) {
            (Ok(html), Ok(page)) => html@ == page,
            (Err(m), Err(msg)) => m@ == msg,
            _ => false,
        },
        has_no_tag(xml@) ==> r is Ok && r->Ok_0@ == page_head() + "</ul>"@,
{
    proof {
        if has_no_tag(xml@) {
            lemma_no_tag_renders_nothing(xml@, 0);
        }
    }
    let bytes = chars_of(xml);
    let n = bytes.len();
    let mut body: Vec<char> = Vec::new();
    let mut stack: Vec<bool> = Vec::new();
    let mut index: usize = 0;
    assert(body@ =~= Seq::<char>::empty());
    assert(stack@ =~= Seq::<bool>::empty());
    while index < n
        invariant
            index <= n == bytes@.len(),
            bytes@ == xml@,
            render_from(xml@, 0, Seq::empty(), Seq::empty()) == render_from(
                xml@,
                index as int,
                stack@,
                body@,
            ),
        decreases n - index,
    {
        let ghost st = stack@;
        let ghost b = body@;
        if bytes[index] != '<' {
            index = index + 1;
        } else if n - index <= 1 {
            index = n;
        } else {
            let next = bytes[index + 1];
            if next == '/' {
                let g = scan(&bytes, index + 2, Stop::Char('>'));
                let j = if g < n {
                    g + 1
                } else {
                    g
                };
                match stack.pop() {
                    Some(has_children) => {
                        if has_children {
                            push_str(&mut body, "</ul>");
                        }
                        push_str(&mut body, "</li>");
                    },
                    None => {},
                }
                proof {
                    let (st2, b2) = close_item(st, b);
                    if st.len() > 0 {
                        assert(body@ =~= b2);
                        assert(stack@ =~= st2);
                    }
                }
                index = j;
            } else if next == '!' {
                index = comment_close(&bytes, index + 2);
            } else if next == '?' {
                index = instruction_close(&bytes, index + 2);
            } else {
                let start = index + 1;
                let ne = scan(&bytes, start, Stop::TagNameEnd);
                let (attrs, self_closing, end) = match scan_attributes(&bytes, ne) {
                    Ok(found) => found,
                    Err(m) => {
                        return Err(m);
                    },
                };
                let depth = stack.len();
                if depth > 0 && !stack[depth - 1] {
                    stack.set(depth - 1, true);
                    push_str(&mut body, "<ul>");
                }
                proof {
                    let (st1, b1) = open_child(st, b);
                    assert(stack@ =~= st1);
                    assert(body@ =~= b1);
                }
                push_item(&mut body, &bytes, start, ne, &attrs);
                if self_closing {
                    push_str(&mut body, "</li>");
                } else {
                    stack.push(false);
                }
                index = end;
            }
        }
    }
    let ghost closed = close_all(stack@, body@);
    while stack.len() > 0
        invariant
            close_all(stack@, body@) == closed,
        decreases stack@.len(),
    {
        let ghost st = stack@;
        let ghost b = body@;
        match stack.pop() {
            Some(has_children) => {
                if has_children {
                    push_str(&mut body, "</ul>");
                }
                push_str(&mut body, "</li>");
                assert(body@ =~= b + (if has_children {
                    "</ul>"@
                } else {
                    Seq::<char>::empty()
                }) + "</li>"@);
            },
            None => {},
        }
    }
    let ghost inner = body@;
    let mut out = chars_of(CSS_SNIPPET);
    push_str(&mut out, "<ul>");
    out.append(&mut body);
    push_str(&mut out, "</ul>");
    assert(out@ =~= page_head() + inner + "</ul>"@);
    Ok(string_of(&out))
}

} // verus!
