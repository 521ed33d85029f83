use vstd::prelude::*;

verus! {

/// Appends one character to a `String`.
/// Trusted: calls std's `String::push`, which appends the char at the end.
#[verifier::external_body]
pub(crate) fn push_char(s: &mut String, c: char)
    ensures
        final(s)@ == old(s)@.push(c),
{
    s.push(c);
}

/// The characters of `s`, in order.
pub fn chars_of(s: &str) -> (v: Vec<char>)
    ensures
        v@ == s@,
{
    let mut v: Vec<char> = Vec::new();
    for c in it: s.chars()
        invariant
            v@ == it.seq().take(it.index() as int),
            it.seq() == s@,
    {
        v.push(c);
    }
    v
}

/// Appends every char of `cs` to `out`.
pub(crate) fn push_all(out: &mut String, cs: &Vec<char>)
    ensures
        final(out)@ == old(out)@ + cs@,
{
    let ghost start = out@;
    for i in 0..cs.len()
        invariant
            out@ == start + cs@.take(i as int),
    {
        assert(cs@.take(i + 1) == cs@.take(i as int).push(cs@[i as int]));
        push_char(out, cs[i]);
    }
    assert(cs@.take(cs.len() as int) == cs@);
}

/// Appends the chars of `s` to `out`.
pub(crate) fn push_str(out: &mut String, s: &str)
    ensures
        final(out)@ == old(out)@ + s@,
{
    let cs = chars_of(s);
    push_all(out, &cs);
}

/// A `String` holding the chars of `cs`.
pub fn string_of(cs: &Vec<char>) -> (s: String)
    ensures
        s@ == cs@,
{
    let mut s = String::new();
    push_all(&mut s, cs);
    s
}

/// Whether two char lists are equal.
pub fn same_chars(x: &Vec<char>, y: &Vec<char>) -> (r: bool)
    ensures
        r == (x@ == y@),
{
    if x.len() != y.len() {
        return false;
    }
    for i in 0..x.len()
        invariant
            x.len() == y.len(),
            forall|j: int| 0 <= j < i ==> x@[j] == y@[j],
    {
        if x[i] != y[i] {
            return false;
        }
    }
    assert(x@ =~= y@);
    true
}

/// Whether two strings hold the same chars.
pub fn same_text(a: &str, b: &str) -> (r: bool)
    ensures
        r == (a@ == b@),
{
    let x = chars_of(a);
    let y = chars_of(b);
    same_chars(&x, &y)
}

// ---------------------------------------------------------------- HTML escaping

/// What one char becomes in escaped HTML text.
pub open spec fn escape_char(c: char) -> Seq<char> {
    if c == '&' {
        seq!['&', 'a', 'm', 'p', ';']
    } else if c == '<' {
        seq!['&', 'l', 't', ';']
    } else if c == '>' {
        seq!['&', 'g', 't', ';']
    } else if c == '"' {
        seq!['&', 'q', 'u', 'o', 't', ';']
    } else if c == '\'' {
        seq!['&', '#', '3', '9', ';']
    } else {
        seq![c]
    }
}

/// Text escaped for HTML: each char replaced by its escape.
pub open spec fn escape_html(s: Seq<char>) -> Seq<char>
    decreases s.len(),
{
    if s.len() == 0 {
        Seq::empty()
    } else {
        escape_html(s.drop_last()) + escape_char(s.last())
    }
}

fn push_escaped(out: &mut String, c: char)
    ensures
        final(out)@ == old(out)@ + escape_char(c),
{
    let ghost start = out@;
    if c == '&' {
        push_char(out, '&');
        push_char(out, 'a');
        push_char(out, 'm');
        push_char(out, 'p');
        push_char(out, ';');
    } else if c == '<' {
        push_char(out, '&');
        push_char(out, 'l');
        push_char(out, 't');
        push_char(out, ';');
    } else if c == '>' {
        push_char(out, '&');
        push_char(out, 'g');
        push_char(out, 't');
        push_char(out, ';');
    } else if c == '"' {
        push_char(out, '&');
        push_char(out, 'q');
        push_char(out, 'u');
        push_char(out, 'o');
        push_char(out, 't');
        push_char(out, ';');
    } else if c == '\'' {
        push_char(out, '&');
        push_char(out, '#');
        push_char(out, '3');
        push_char(out, '9');
        push_char(out, ';');
    } else {
        push_char(out, c);
    }
    assert(out@ =~= start + escape_char(c));
}

/// Escapes `&`, `<`, `>`, `"` and `'` as HTML entities; every other char stays.
pub fn encode_text(s: &str) -> (r: String)
    ensures
        r@ == escape_html(s@),
{
    let cs = chars_of(s);
    let mut out = String::new();
    for i in 0..cs.len()
        invariant
            cs@ == s@,
            out@ == escape_html(cs@.take(i as int)),
    {
        assert(cs@.take(i + 1).drop_last() == cs@.take(i as int));
        push_escaped(&mut out, cs[i]);
    }
    assert(cs@.take(cs.len() as int) == cs@);
    out
}


// ---------------------------------------------------------------- line handling

/// Every `"\r\n"` replaced by `"\n"`, scanning from the front.
pub open spec fn crlf_to_lf(s: Seq<char>) -> Seq<char>
    decreases s.len(),
{
    if s.len() == 0 {
        Seq::empty()
    } else if s.len() >= 2 && s[0] == '\r' && s[1] == '\n' {
        seq!['\n'] + crlf_to_lf(s.skip(2))
    } else {
        seq![s[0]] + crlf_to_lf(s.skip(1))
    }
}

/// Replaces each `"\r\n"` by `"\n"`.
pub fn normalize_newlines(cs: &Vec<char>) -> (r: Vec<char>)
    ensures
        r@ == crlf_to_lf(cs@),
{
    let mut out: Vec<char> = Vec::new();
    let mut i: usize = 0;
    assert(cs@.skip(0) == cs@);
    while i < cs.len()
        invariant
            i <= cs.len(),
            crlf_to_lf(cs@) == out@ + crlf_to_lf(cs@.skip(i as int)),
        decreases cs.len() - i,
    {
        let ghost rest = cs@.skip(i as int);
        if i + 1 < cs.len() && cs[i] == '\r' && cs[i + 1] == '\n' {
            assert(rest.skip(2) == cs@.skip(i + 2));
            out.push('\n');
            i = i + 2;
        } else {
            assert(rest.skip(1) == cs@.skip(i + 1));
            out.push(cs[i]);
            i = i + 1;
        }
    }
    out
}

/// The pieces of `s` between `'\n'` chars, in order (an empty text gives one empty piece).
pub open spec fn split_lines(s: Seq<char>) -> Seq<Seq<char>>
    decreases s.len(),
{
    if s.len() == 0 {
        seq![Seq::empty()]
    } else {
        let rest = split_lines(s.drop_last());
        if s.last() == '\n' {
            rest.push(Seq::empty())
        } else {
            rest.update(rest.len() - 1, rest.last().push(s.last()))
        }
    }
}

proof fn lemma_split_lines_nonempty(s: Seq<char>)
    ensures
        split_lines(s).len() >= 1,
    decreases s.len(),
{
    if s.len() > 0 {
        lemma_split_lines_nonempty(s.drop_last());
    }
}

/// Splits `cs` at each `'\n'`.
pub fn split_on_newlines(cs: &Vec<char>) -> (lines: Vec<Vec<char>>)
    ensures
        lines@.len() == split_lines(cs@).len(),
        forall|i: int| 0 <= i < lines@.len() ==> #[trigger] lines@[i]@ == split_lines(cs@)[i],
{
    let mut done: Vec<Vec<char>> = Vec::new();
    let mut cur: Vec<char> = Vec::new();
    for i in 0..cs.len()
        invariant
            done@.len() + 1 == split_lines(cs@.take(i as int)).len(),
            forall|j: int| 0 <= j < done@.len() ==> #[trigger] done@[j]@ == split_lines(cs@.take(i as int))[j],
            cur@ == split_lines(cs@.take(i as int)).last(),
    {
        proof {
            assert(cs@.take(i + 1).drop_last() == cs@.take(i as int));
            lemma_split_lines_nonempty(cs@.take(i as int));
        }
        if cs[i] == '\n' {
            let finished = cur;
            done.push(finished);
            cur = Vec::new();
        } else {
            cur.push(cs[i]);
        }
    }
    assert(cs@.take(cs.len() as int) == cs@);
    let last = cur;
    done.push(last);
    done
}

/// The opening tag that marks a greentext line.
pub open spec fn green_open() -> Seq<char> {
    seq!['<', 's', 'p', 'a', 'n', ' ', 'c', 'l', 'a', 's', 's', '=', '"', 'g', 'r', 'e', 'e', 'n', 't', 'e', 'x', 't', '"', '>']
}

/// The closing tag of a greentext line.
pub open spec fn green_close() -> Seq<char> {
    seq!['<', '/', 's', 'p', 'a', 'n', '>']
}

/// A line as shown: wrapped in a greentext span when it starts with `'>'`.
pub open spec fn greentext(line: Seq<char>) -> Seq<char> {
    if line.len() > 0 && line[0] == '>' {
        green_open() + line + green_close()
    } else {
        line
    }
}

/// The separator put between lines.
pub open spec fn line_break() -> Seq<char> {
    seq!['<', 'b', 'r', '>']
}

/// The pieces of `lines` with `sep` between each two neighbours.
pub open spec fn join_with(lines: Seq<Seq<char>>, sep: Seq<char>) -> Seq<char>
    decreases lines.len(),
{
    if lines.len() == 0 {
        Seq::empty()
    } else if lines.len() == 1 {
        lines[0]
    } else {
        join_with(lines.drop_last(), sep) + sep + lines.last()
    }
}

/// Text split into lines, each line shown as `greentext` says, joined with `<br>`.
pub open spec fn format_lines(s: Seq<char>) -> Seq<char> {
    join_with(split_lines(s).map_values(|l: Seq<char>| greentext(l)), line_break())
}

fn push_green_line(out: &mut String, line: &Vec<char>)
    ensures
        final(out)@ == old(out)@ + greentext(line@),
{
    let ghost start = out@;
    if line.len() > 0 && line[0] == '>' {
        let open: Vec<char> = vec!['<', 's', 'p', 'a', 'n', ' ', 'c', 'l', 'a', 's', 's', '=', '"', 'g', 'r', 'e', 'e', 'n', 't', 'e', 'x', 't', '"', '>'];
        let close: Vec<char> = vec!['<', '/', 's', 'p', 'a', 'n', '>'];
        assert(open@ == green_open());
        assert(close@ == green_close());
        push_all(out, &open);
        push_all(out, line);
        push_all(out, &close);
        assert(out@ =~= start + greentext(line@));
    } else {
        push_all(out, line);
    }
}

/// Shows each line with `greentext` and joins the lines with `<br>`.
pub fn join_lines(lines: &Vec<Vec<char>>) -> (r: String)
    ensures
        r@ == join_with(lines@.map_values(|l: Vec<char>| greentext(l@)), line_break()),
{
    let ghost shown = lines@.map_values(|l: Vec<char>| greentext(l@));
    let br: Vec<char> = vec!['<', 'b', 'r', '>'];
    assert(br@ == line_break());
    let mut out = String::new();
    for i in 0..lines.len()
        invariant
            shown == lines@.map_values(|l: Vec<char>| greentext(l@)),
            br@ == line_break(),
            out@ == join_with(shown.take(i as int), line_break()),
    {
        assert(shown.take(i + 1).drop_last() == shown.take(i as int));
        if i > 0 {
            push_all(&mut out, &br);
        }
        push_green_line(&mut out, &lines[i]);
    }
    assert(shown.take(lines.len() as int) == shown);
    out
}

/// Splits `cs` into lines, shows each with `greentext`, and joins them with `<br>`.
pub fn format_line_breaks(cs: &Vec<char>) -> (r: String)
    ensures
        r@ == format_lines(cs@),
{
    let lines = split_on_newlines(cs);
    let r = join_lines(&lines);
    assert(lines@.map_values(|l: Vec<char>| greentext(l@)) =~= split_lines(cs@).map_values(|l: Seq<char>| greentext(l)));
    r
}

/// Escaped HTML text holds no `'>'`.
pub proof fn lemma_escaped_has_no_gt(s: Seq<char>)
    ensures
        forall|i: int| 0 <= i < escape_html(s).len() ==> escape_html(s)[i] != '>',
    decreases s.len(),
{
    if s.len() > 0 {
        lemma_escaped_has_no_gt(s.drop_last());
        let a = escape_html(s.drop_last());
        let b = escape_char(s.last());
        assert(forall|j: int| 0 <= j < b.len() ==> b[j] != '>');
        assert forall|i: int| 0 <= i < escape_html(s).len() implies escape_html(s)[i] != '>' by {
            if i < a.len() {
                assert(escape_html(s)[i] == a[i]);
            } else {
                assert(escape_html(s)[i] == b[i - a.len()]);
            }
        }
    }
}


// ---------------------------------------------------------------- quote links

/// The pattern of a reference to another post in escaped text: `>>` and a number.
pub const QUOTE_PATTERN: &'static str = "&gt;&gt;(\\d+)";

/// What a reference to post `$1` becomes: a link to that post.
pub const QUOTE_LINK: &'static str = "<a href=\"#p$1\" class=\"quote-link\">&gt;&gt;$1</a>";

/// What the `regex` crate gives when `pattern` is compiled and every match of it in
/// `haystack` is replaced by `replacement` (with `$n` standing for capture group `n`);
/// `None` where `pattern` does not compile.
pub uninterp spec fn regex_replace_all(pattern: Seq<char>, haystack: Seq<char>, replacement: Seq<char>) -> Option<Seq<char>>;

/// Trusted: compiles `pattern` with `regex::Regex::new` and, where that succeeds, calls
/// `Regex::replace_all` on `haystack` with `replacement`. The contract only names the result
/// (`regex_replace_all`); the regex crate's matching rules are not restated here.
#[verifier::external_body]
fn replace_all_matches(pattern: &str, haystack: &str, replacement: &str) -> (r: Option<String>)
    ensures
        opt_text(&r) == regex_replace_all(pattern@, haystack@, replacement@),
{
    match regex::Regex::new(pattern) {
        Ok(re) => Some(re.replace_all(haystack, replacement).into_owned()),
        Err(_) => None,
    }
}

/// The text an optional `String` holds.
pub open spec fn opt_text(o: &Option<String>) -> Option<Seq<char>> {
    match o {
        Some(s) => Some(s@),
        None => None,
    }
}

/// The HTML shown for a post's content, before quote references become links:
/// escaped, with `\r\n` made `\n`, lines shown by `greentext` and joined by `<br>`.
pub open spec fn content_lines_html(content: Seq<char>) -> Seq<char> {
    format_lines(crlf_to_lf(escape_html(content)))
}

/// The HTML shown for a post's content: `content_lines_html` with every quote reference
/// (`QUOTE_PATTERN`) replaced by `QUOTE_LINK`. `None` only if the pattern does not compile.
pub fn format_content(content: &str) -> (r: Option<String>)
    ensures
        opt_text(&r) == regex_replace_all(QUOTE_PATTERN@, content_lines_html(content@), QUOTE_LINK@),
{
    let html = format_content_lines(content);
    replace_all_matches(QUOTE_PATTERN, html.as_str(), QUOTE_LINK)
}

/// `content_lines_html` of `content`: the content's HTML before quote references become links.
pub fn format_content_lines(content: &str) -> (r: String)
    ensures
        r@ == content_lines_html(content@),
{
    let escaped = encode_text(content);
    let cs = chars_of(escaped.as_str());
    let normalized = normalize_newlines(&cs);
    format_line_breaks(&normalized)
}


// ---------------------------------------------------------------- small text rules

/// A char with the Unicode `White_Space` property (what `char::is_whitespace` tests).
pub open spec fn is_white_space(c: char) -> bool {
    let u = c as u32;
    (0x9 <= u && u <= 0xD) || u == 0x20 || u == 0x85 || u == 0xA0 || u == 0x1680 || (0x2000
        <= u && u <= 0x200A) || u == 0x2028 || u == 0x2029 || u == 0x202F || u == 0x205F || u
        == 0x3000
}

/// Decides `is_white_space(c)`.
pub fn white_space(c: char) -> (r: bool)
    ensures
        r == is_white_space(c),
{
    let u = c as u32;
    (0x9 <= u && u <= 0xD) || u == 0x20 || u == 0x85 || u == 0xA0 || u == 0x1680 || (0x2000
        <= u && u <= 0x200A) || u == 0x2028 || u == 0x2029 || u == 0x202F || u == 0x205F || u
        == 0x3000
}

/// Text that is empty once trimmed: every char is white space.
pub open spec fn is_blank_text(s: Seq<char>) -> bool {
    forall|i: int| 0 <= i < s.len() ==> is_white_space(#[trigger] s[i])
}

/// Whether `s.trim()` is empty.
pub fn is_blank(s: &str) -> (r: bool)
    ensures
        r == is_blank_text(s@),
{
    let cs = chars_of(s);
    for i in 0..cs.len()
        invariant
            cs@ == s@,
            forall|j: int| 0 <= j < i ==> is_white_space(#[trigger] cs@[j]),
    {
        if !white_space(cs[i]) {
            return false;
        }
    }
    true
}

/// `needle` occurs in `hay` at position `i`.
pub open spec fn occurs_at(hay: Seq<char>, needle: Seq<char>, i: int) -> bool {
    0 <= i && i + needle.len() <= hay.len() && hay.subrange(i, i + needle.len()) == needle
}

/// `needle` occurs somewhere in `hay`.
pub open spec fn contains_text(hay: Seq<char>, needle: Seq<char>) -> bool {
    exists|i: int| occurs_at(hay, needle, i)
}

pub(crate) fn occurs_at_exec(hay: &Vec<char>, needle: &Vec<char>, i: usize) -> (r: bool)
    requires
        i + needle@.len() <= hay@.len(),
    ensures
        r == occurs_at(hay@, needle@, i as int),
{
    for j in 0..needle.len()
        invariant
            i + needle@.len() <= hay@.len(),
            forall|k: int| 0 <= k < j ==> hay@[i + k] == needle@[k],
    {
        assert(i + j < hay.len());
        let at = i + j;
        if hay[at] != needle[j] {
            assert(hay@.subrange(i as int, i + needle@.len())[j as int] != needle@[j as int]);
            return false;
        }
    }
    assert(hay@.subrange(i as int, i + needle@.len()) =~= needle@);
    true
}

/// Whether `needle` occurs in `hay` (what `str::contains` answers).
pub fn contains(hay: &str, needle: &str) -> (r: bool)
    ensures
        r == contains_text(hay@, needle@),
{
    let h = chars_of(hay);
    let n = chars_of(needle);
    if n.len() > h.len() {
        assert forall|i: int| !occurs_at(h@, n@, i) by {}
        return false;
    }
    let last = h.len() - n.len();
    for i in 0..h.len()
        invariant
            h@ == hay@,
            n@ == needle@,
            n.len() <= h.len(),
            last == h.len() - n.len(),
            forall|k: int| 0 <= k < i && k <= last ==> !occurs_at(h@, n@, k),
    {
        if i <= last && occurs_at_exec(&h, &n, i) {
            return true;
        }
    }
    if n.len() == 0 {
        assert(occurs_at(h@, n@, h.len() as int)) by {
            assert(h@.subrange(h.len() as int, h.len() as int) =~= n@);
        }
        return true;
    }
    assert forall|k: int| !occurs_at(h@, n@, k) by {
        if 0 <= k <= last {
        }
    }
    false
}

/// The decimal digit char for `d` (below 10).
pub open spec fn digit_char(d: int) -> char {
    seq!['0', '1', '2', '3', '4', '5', '6', '7', '8', '9'][d]
}

/// The decimal digits of `n`, most significant first, no leading zeros.
pub open spec fn digits(n: nat) -> Seq<char>
    decreases n,
{
    if n < 10 {
        seq![digit_char(n as int)]
    } else {
        digits(n / 10).push(digit_char((n % 10) as int))
    }
}

/// An integer written in decimal, with `-` before a negative one.
pub open spec fn decimal(n: int) -> Seq<char> {
    if n < 0 {
        seq!['-'] + digits((-n) as nat)
    } else {
        digits(n as nat)
    }
}

fn push_digits(out: &mut String, n: u64)
    ensures
        final(out)@ == old(out)@ + digits(n as nat),
    decreases n,
{
    let ghost start = out@;
    if n >= 10 {
        push_digits(out, n / 10);
    }
    let d = (n % 10) as usize;
    let table: Vec<char> = vec!['0', '1', '2', '3', '4', '5', '6', '7', '8', '9'];
    assert(table@ == seq!['0', '1', '2', '3', '4', '5', '6', '7', '8', '9']);
    push_char(out, table[d]);
    assert(out@ =~= start + digits(n as nat));
}

/// `n` in decimal, as `format!("{}", n)` writes it.
pub fn decimal_string(n: i64) -> (r: String)
    ensures
        r@ == decimal(n as int),
{
    let mut out = String::new();
    if n < 0 {
        push_char(&mut out, '-');
        let m: u64 = ((-(n + 1)) as u64) + 1;
        push_digits(&mut out, m);
    } else {
        push_digits(&mut out, n as u64);
    }
    out
}


// ---------------------------------------------------------------- text order

/// `a` sorts before `b`: compared char by char (chars by code point), a proper prefix first.
/// This is the order of the UTF-8 bytes, which SQLite's default collation compares.
pub open spec fn text_lt(a: Seq<char>, b: Seq<char>) -> bool
    decreases a.len(),
{
    if a.len() == 0 {
        b.len() > 0
    } else if b.len() == 0 {
        false
    } else if a[0] != b[0] {
        a[0] < b[0]
    } else {
        text_lt(a.drop_first(), b.drop_first())
    }
}

/// `text_lt` is irreflexive.
pub proof fn lemma_text_lt_irreflexive(a: Seq<char>)
    ensures
        !text_lt(a, a),
    decreases a.len(),
{
    if a.len() > 0 {
        lemma_text_lt_irreflexive(a.drop_first());
    }
}

/// `text_lt` is transitive.
pub proof fn lemma_text_lt_transitive(a: Seq<char>, b: Seq<char>, c: Seq<char>)
    requires
        text_lt(a, b),
        text_lt(b, c),
    ensures
        text_lt(a, c),
    decreases a.len(),
{
    if a.len() > 0 && b.len() > 0 && c.len() > 0 {
        if a[0] == b[0] && b[0] == c[0] {
            lemma_text_lt_transitive(a.drop_first(), b.drop_first(), c.drop_first());
        }
    }
}

/// Two different texts are ordered one way or the other.
pub proof fn lemma_text_lt_total(a: Seq<char>, b: Seq<char>)
    requires
        a != b,
    ensures
        text_lt(a, b) || text_lt(b, a),
    decreases a.len(),
{
    if a.len() > 0 && b.len() > 0 {
        if a[0] == b[0] {
            if a.drop_first() =~= b.drop_first() {
                assert(a =~= seq![a[0]] + a.drop_first());
                assert(b =~= seq![b[0]] + b.drop_first());
                assert(a =~= b);
            } else {
                lemma_text_lt_total(a.drop_first(), b.drop_first());
            }
        }
    } else if a.len() == 0 && b.len() == 0 {
        assert(a =~= b);
    }
}

/// Decides `text_lt(a@, b@)`.
pub fn text_less(a: &Vec<char>, b: &Vec<char>) -> (r: bool)
    ensures
        r == text_lt(a@, b@),
{
    let mut i: usize = 0;
    assert(a@.skip(0) == a@);
    assert(b@.skip(0) == b@);
    while i < a.len() && i < b.len()
        invariant
            i <= a.len(),
            i <= b.len(),
            text_lt(a@, b@) == text_lt(a@.skip(i as int), b@.skip(i as int)),
        decreases a.len() - i,
    {
        let ghost x = a@.skip(i as int);
        let ghost y = b@.skip(i as int);
        assert(x[0] == a@[i as int]);
        assert(y[0] == b@[i as int]);
        if a[i] != b[i] {
            return a[i] < b[i];
        }
        assert(x.drop_first() == a@.skip(i + 1));
        assert(y.drop_first() == b@.skip(i + 1));
        i = i + 1;
    }
    let ghost x = a@.skip(i as int);
    let ghost y = b@.skip(i as int);
    assert(x.len() == 0 || y.len() == 0);
    i == a.len() && i < b.len()
}


// ---------------------------------------------------------------- template filter

/// Where the `str_slice` filter cuts a text of `len` UTF-8 bytes: at `end`, but no further
/// than the end of the text; a negative `end` (a huge size once cast) or none means the end.
pub open spec fn slice_end(len: nat, end: Option<i64>) -> nat {
    match end {
        Some(e) => if e < 0 || e >= len {
            len
        } else {
            e as nat
        },
        None => len,
    }
}

/// The `str_slice` template filter: the first `slice_end` bytes of `s` (`s.len()` counts bytes). `None` where that
/// cut falls inside a char (slicing a `str` there panics).
pub fn str_slice(s: &str, end: Option<i64>) -> (r: Option<String>)
    ensures
        r is Some <==> vstd::utf8::is_char_boundary(vstd::utf8::encode_utf8(s@), slice_end(s.len() as nat, end) as int),
        match r {
            Some(t) => vstd::utf8::encode_utf8(t@) == vstd::utf8::encode_utf8(s@).subrange(
                0,
                slice_end(s.len() as nat, end) as int,
            ),
            None => true,
        },
{
    let len = s.len();
    let e: usize = match end {
        Some(v) => if v < 0 || (v as u64) >= (len as u64) {
            len
        } else {
            v as usize
        },
        None => len,
    };
    if !s.is_char_boundary(e) {
        return None;
    }
    let (head, _rest) = s.split_at(e);
    let t = String::from_str(head);
    Some(t)
}

} // verus!
