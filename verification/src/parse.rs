//! Parsing of `.env`-style file contents into ordered `(name, value)` pairs.
//!
//! A file is a sequence of `'\n'`-separated lines. Blank lines and lines
//! whose first non-blank character is `'#'` are ignored. A well-formed line
//! is `NAME=VALUE`: the name is what stands before the first `'='`, blanks
//! trimmed, and must be non-empty; the value is what follows, blanks
//! trimmed, optionally wrapped in single or double quotes. Double quotes
//! strip backslash escapes; single quotes take their contents literally.
//! A malformed line (no `'='`, empty name, broken quoting) is skipped
//! silently: it yields no pair and no error.

use vstd::prelude::*;
use vstd::seq_lib::lemma_concat_associative;
use vstd::string::*;

verus! {

/// The blank characters that are trimmed around names, values and lines:
/// space, tab, and the carriage return that ends a `"\r\n"` line.
pub open spec fn is_blank(c: char) -> bool {
    c == ' ' || c == '\t' || c == '\r'
}

/// `s` without its leading blanks.
pub open spec fn trim_start(s: Seq<char>) -> Seq<char>
    decreases s.len(),
{
    if s.len() > 0 && is_blank(s[0]) {
        trim_start(s.drop_first())
    } else {
        s
    }
}

/// `s` without its trailing blanks.
pub open spec fn trim_end(s: Seq<char>) -> Seq<char>
    decreases s.len(),
{
    if s.len() > 0 && is_blank(s.last()) {
        trim_end(s.drop_last())
    } else {
        s
    }
}

/// `s` without leading and trailing blanks.
pub open spec fn trim(s: Seq<char>) -> Seq<char> {
    trim_end(trim_start(s))
}

/// The position of the first occurrence of `c` in `s`, if any.
pub open spec fn find_char(s: Seq<char>, c: char) -> Option<int>
    decreases s.len(),
{
    if s.len() == 0 {
        None
    } else if s[0] == c {
        Some(0)
    } else {
        match find_char(s.drop_first(), c) {
            Some(i) => Some(i + 1),
            None => None,
        }
    }
}

proof fn lemma_trim_start_skip(s: Seq<char>, i: int)
    requires
        0 <= i <= s.len(),
        forall|k: int| 0 <= k < i ==> is_blank(s[k]),
        i == s.len() || !is_blank(s[i]),
    ensures
        trim_start(s) == s.skip(i),
    decreases i,
{
    if i == 0 {
        assert(s.skip(0) =~= s);
    } else {
        lemma_trim_start_skip(s.drop_first(), i - 1);
        assert(s.drop_first().skip(i - 1) =~= s.skip(i));
    }
}

proof fn lemma_trim_end_take(s: Seq<char>, j: int)
    requires
        0 <= j <= s.len(),
        forall|k: int| j <= k < s.len() ==> is_blank(s[k]),
        j == 0 || !is_blank(s[j - 1]),
    ensures
        trim_end(s) == s.take(j),
    decreases s.len(),
{
    if s.len() == j {
        assert(s.take(j) =~= s);
    } else {
        lemma_trim_end_take(s.drop_last(), j);
        assert(s.drop_last().take(j) =~= s.take(j));
    }
}

proof fn lemma_find_char_from_scan(s: Seq<char>, c: char, m: int)
    requires
        0 <= m <= s.len(),
        forall|k: int| 0 <= k < m ==> s[k] != c,
        m == s.len() || s[m] == c,
    ensures
        find_char(s, c) == if m == s.len() {
            None::<int>
        } else {
            Some(m)
        },
    decreases m,
{
    if s.len() == 0 {
    } else if m == 0 {
    } else {
        lemma_find_char_from_scan(s.drop_first(), c, m - 1);
    }
}

/// A copy of `s[from..to]`.
fn copy_range(s: &Vec<char>, from: usize, to: usize) -> (r: Vec<char>)
    requires
        from <= to <= s@.len(),
    ensures
        r@ == s@.subrange(from as int, to as int),
{
    let mut r: Vec<char> = Vec::new();
    let mut k = from;
    while k < to
        invariant
            from <= k <= to <= s@.len(),
            r@ == s@.subrange(from as int, k as int),
        decreases to - k,
    {
        r.push(s[k]);
        assert(r@ =~= s@.subrange(from as int, k + 1 as int));
        k = k + 1;
    }
    r
}

fn is_blank_char(c: char) -> (r: bool)
    ensures
        r == is_blank(c),
{
    c == ' ' || c == '\t' || c == '\r'
}

/// A copy of `s` with leading and trailing blanks removed.
fn trim_copy(s: &Vec<char>) -> (r: Vec<char>)
    ensures
        r@ == trim(s@),
{
    let n = s.len();
    let mut lo: usize = 0;
    loop
        invariant
            lo <= n,
            n == s@.len(),
            forall|k: int| 0 <= k < lo ==> is_blank(s@[k]),
        ensures
            lo <= n,
            forall|k: int| 0 <= k < lo ==> is_blank(s@[k]),
            lo == n || !is_blank(s@[lo as int]),
        decreases n - lo,
    {
        if lo == n {
            break;
        }
        if !is_blank_char(s[lo]) {
            break;
        }
        lo = lo + 1;
    }
    let mut hi: usize = n;
    loop
        invariant
            lo <= hi <= n,
            n == s@.len(),
            forall|k: int| hi <= k < n ==> is_blank(s@[k]),
        ensures
            lo <= hi <= n,
            forall|k: int| hi <= k < n ==> is_blank(s@[k]),
            hi == lo || !is_blank(s@[hi - 1]),
        decreases hi,
    {
        if hi == lo {
            break;
        }
        if !is_blank_char(s[hi - 1]) {
            break;
        }
        hi = hi - 1;
    }
    proof {
        lemma_trim_start_skip(s@, lo as int);
        let t = s@.skip(lo as int);
        lemma_trim_end_take(t, hi - lo as int);
        assert(t.take(hi - lo as int) =~= s@.subrange(lo as int, hi as int));
    }
    copy_range(s, lo, hi)
}

/// The position of the first occurrence of `c` in `s`, if any.
fn find_char_in(s: &Vec<char>, c: char) -> (r: Option<usize>)
    ensures
        match r {
            Some(i) => find_char(s@, c) == Some(i as int) && i < s@.len() && s@[i as int] == c,
            None => find_char(s@, c) is None,
        },
{
    let n = s.len();
    let mut m: usize = 0;
    loop
        invariant
            m <= n,
            n == s@.len(),
            forall|k: int| 0 <= k < m ==> s@[k] != c,
        ensures
            m <= n,
            forall|k: int| 0 <= k < m ==> s@[k] != c,
            m == n || s@[m as int] == c,
        decreases n - m,
    {
        if m == n {
            break;
        }
        if s[m] == c {
            break;
        }
        m = m + 1;
    }
    proof {
        lemma_find_char_from_scan(s@, c, m as int);
    }
    if m == n {
        None
    } else {
        Some(m)
    }
}

/// What a backslash escape inside a double-quoted value stands for:
/// `\n` and `\t` become the control characters, any other escaped
/// character stands for itself.
pub open spec fn unescape_char(c: char) -> char {
    if c == 'n' {
        '\n'
    } else if c == 't' {
        '\t'
    } else {
        c
    }
}

/// The contents of a double-quoted value with its escapes resolved, or
/// `None` when the quoting is broken: a trailing lone backslash, or an
/// unescaped `'"'` before the end.
pub open spec fn unescape(s: Seq<char>) -> Option<Seq<char>>
    decreases s.len(),
{
    if s.len() == 0 {
        Some(Seq::empty())
    } else if s[0] == '\\' {
        if s.len() < 2 {
            None
        } else {
            match unescape(s.skip(2)) {
                Some(r) => Some(seq![unescape_char(s[1])] + r),
                None => None,
            }
        }
    } else if s[0] == '"' {
        None
    } else {
        match unescape(s.drop_first()) {
            Some(r) => Some(seq![s[0]] + r),
            None => None,
        }
    }
}

fn unescape_char_exec(c: char) -> (r: char)
    ensures
        r == unescape_char(c),
{
    if c == 'n' {
        '\n'
    } else if c == 't' {
        '\t'
    } else {
        c
    }
}

/// Resolve the escapes of a double-quoted value's contents, or report the
/// quoting as broken.
fn unescape_copy(s: &Vec<char>) -> (r: Option<Vec<char>>)
    ensures
        match r {
            Some(v) => unescape(s@) == Some(v@),
            None => unescape(s@) is None,
        },
{
    let n = s.len();
    let mut acc: Vec<char> = Vec::new();
    let mut k: usize = 0;
    proof {
        assert(s@.skip(0) =~= s@);
        match unescape(s@) {
            Some(r) => {
                assert(Seq::<char>::empty() + r =~= r);
            },
            None => {},
        }
    }
    loop
        invariant
            k <= n,
            n == s@.len(),
            unescape(s@) == (match unescape(s@.skip(k as int)) {
                Some(rest) => Some(acc@ + rest),
                None => None::<Seq<char>>,
            }),
        ensures
            k == n,
            unescape(s@) == (match unescape(s@.skip(k as int)) {
                Some(rest) => Some(acc@ + rest),
                None => None::<Seq<char>>,
            }),
        decreases n - k,
    {
        if k == n {
            break;
        }
        let c = s[k];
        let ghost t = s@.skip(k as int);
        proof {
            assert(t.len() == n - k);
            assert(t[0] == s@[k as int]);
        }
        if c == '\\' {
            if k + 1 == n {
                return None;
            }
            let u = unescape_char_exec(s[k + 1]);
            let ghost acc0 = acc@;
            acc.push(u);
            proof {
                assert(t[1] == s@[k + 1]);
                assert(t.skip(2) =~= s@.skip(k + 2));
                match unescape(s@.skip(k + 2)) {
                    Some(r) => {
                        assert(acc@ =~= acc0 + seq![unescape_char(t[1])]);
                        lemma_concat_associative(acc0, seq![unescape_char(t[1])], r);
                    },
                    None => {},
                }
            }
            k = k + 2;
        } else if c == '"' {
            return None;
        } else {
            let ghost acc0 = acc@;
            acc.push(c);
            proof {
                assert(t.drop_first() =~= s@.skip(k + 1));
                match unescape(s@.skip(k + 1)) {
                    Some(r) => {
                        assert(acc@ =~= acc0 + seq![t[0]]);
                        lemma_concat_associative(acc0, seq![t[0]], r);
                    },
                    None => {},
                }
            }
            k = k + 1;
        }
    }
    proof {
        assert(s@.skip(n as int) =~= Seq::<char>::empty());
        assert(acc@ + Seq::<char>::empty() =~= acc@);
    }
    Some(acc)
}

/// The value of a line's right-hand side, after trimming: unquoted text
/// stands for itself; double quotes are stripped and their escapes
/// resolved; single quotes are stripped and their contents taken
/// literally. `None` is broken quoting and makes the line malformed.
pub open spec fn parse_value(v: Seq<char>) -> Option<Seq<char>> {
    if v.len() > 0 && v[0] == '"' {
        if v.len() >= 2 && v.last() == '"' {
            unescape(v.subrange(1, v.len() - 1))
        } else {
            None
        }
    } else if v.len() > 0 && v[0] == '\'' {
        if v.len() >= 2 && v.last() == '\'' && (forall|k: int|
            1 <= k < v.len() - 1 ==> v[k] != '\'') {
            Some(v.subrange(1, v.len() - 1))
        } else {
            None
        }
    } else {
        Some(v)
    }
}

fn parse_value_copy(v: &Vec<char>) -> (r: Option<Vec<char>>)
    ensures
        match r {
            Some(out) => parse_value(v@) == Some(out@),
            None => parse_value(v@) is None,
        },
{
    let n = v.len();
    if n > 0 && v[0] == '"' {
        if n >= 2 && v[n - 1] == '"' {
            let inside = copy_range(v, 1, n - 1);
            unescape_copy(&inside)
        } else {
            None
        }
    } else if n > 0 && v[0] == '\'' {
        if n >= 2 && v[n - 1] == '\'' {
            let mut k: usize = 1;
            loop
                invariant
                    1 <= k <= n - 1,
                    n == v@.len(),
                    n >= 2,
                    forall|j: int| 1 <= j < k ==> v@[j] != '\'',
                ensures
                    1 <= k <= n - 1,
                    forall|j: int| 1 <= j < k ==> v@[j] != '\'',
                    k == n - 1 || v@[k as int] == '\'',
                decreases n - k,
            {
                if k == n - 1 {
                    break;
                }
                if v[k] == '\'' {
                    break;
                }
                k = k + 1;
            }
            if k == n - 1 {
                Some(copy_range(v, 1, n - 1))
            } else {
                None
            }
        } else {
            None
        }
    } else {
        let r = copy_range(v, 0, n);
        proof {
            assert(r@ =~= v@);
        }
        Some(r)
    }
}

/// One successfully parsed `NAME=VALUE` pair.
#[derive(Clone, Debug, PartialEq, Eq)]
pub struct EnvEntry {
    pub name: String,
    pub value: String,
}

/// The mathematical content of an `EnvEntry`.
pub ghost struct EnvEntryView {
    pub name: Seq<char>,
    pub value: Seq<char>,
}

impl View for EnvEntry {
    type V = EnvEntryView;

    open spec fn view(&self) -> EnvEntryView {
        EnvEntryView { name: self.name@, value: self.value@ }
    }
}

/// What one line contributes: `None` both for the ignored lines (blank,
/// comment) and for the malformed ones (no `'='`, empty name, broken
/// quoting), which are skipped silently.
pub open spec fn parse_line(line: Seq<char>) -> Option<EnvEntryView> {
    let t = trim(line);
    if t.len() == 0 {
        None
    } else if t[0] == '#' {
        None
    } else {
        match find_char(t, '=') {
            None => None,
            Some(i) => {
                let name = trim(t.take(i));
                if name.len() == 0 {
                    None
                } else {
                    match parse_value(trim(t.skip(i + 1))) {
                        Some(v) => Some(EnvEntryView { name, value: v }),
                        None => None,
                    }
                }
            },
        }
    }
}

/// Relies on `String`'s `FromIterator` over `char`: collecting the
/// characters of `v` yields a string of exactly those characters.
#[verifier::external_body]
fn chars_to_string(v: Vec<char>) -> (r: String)
    ensures
        r@ == v@,
{
    v.into_iter().collect()
}

/// Parse one line of an environment file.
pub fn parse_env_line(line: &Vec<char>) -> (r: Option<EnvEntry>)
    ensures
        match r {
            Some(e) => parse_line(line@) == Some(e@),
            None => parse_line(line@) is None,
        },
{
    let t = trim_copy(line);
    let n = t.len();
    if n == 0 {
        return None;
    }
    if t[0] == '#' {
        return None;
    }
    match find_char_in(&t, '=') {
        None => None,
        Some(i) => {
            let name_part = copy_range(&t, 0, i);
            proof {
                assert(name_part@ =~= t@.take(i as int));
            }
            let name_chars = trim_copy(&name_part);
            if name_chars.len() == 0 {
                return None;
            }
            let value_part = copy_range(&t, i + 1, n);
            proof {
                assert(value_part@ =~= t@.skip(i + 1));
            }
            let value_raw = trim_copy(&value_part);
            match parse_value_copy(&value_raw) {
                Some(v) => Some(
                    EnvEntry { name: chars_to_string(name_chars), value: chars_to_string(v) },
                ),
                None => None,
            }
        },
    }
}

/// The lines of `s`: the segments between `'\n'` separators, in order. A
/// contents of `n` newlines has `n + 1` lines; the empty contents has one
/// empty line.
pub open spec fn split_lines(s: Seq<char>) -> Seq<Seq<char>>
    decreases s.len(),
{
    match find_char(s, '\n') {
        Some(i) => if 0 <= i < s.len() {
            seq![s.take(i)] + split_lines(s.skip(i + 1))
        } else {
            seq![s]
        },
        None => seq![s],
    }
}

/// The pairs that a sequence of lines yields, in line order; skipped lines
/// contribute nothing.
pub open spec fn parse_lines(lines: Seq<Seq<char>>) -> Seq<EnvEntryView>
    decreases lines.len(),
{
    if lines.len() == 0 {
        Seq::empty()
    } else {
        match parse_line(lines[0]) {
            Some(e) => seq![e] + parse_lines(lines.drop_first()),
            None => parse_lines(lines.drop_first()),
        }
    }
}

/// The ordered pairs that a whole file's contents yield.
pub open spec fn parse_content(s: Seq<char>) -> Seq<EnvEntryView> {
    parse_lines(split_lines(s))
}

/// The entries of a parse result, as their mathematical contents.
pub open spec fn entries_view(es: Seq<EnvEntry>) -> Seq<EnvEntryView> {
    es.map_values(|e: EnvEntry| e@)
}

fn str_to_chars(s: &str) -> (v: Vec<char>)
    ensures
        v@ == s@,
{
    let n = s.unicode_len();
    let mut v: Vec<char> = Vec::new();
    let mut i: usize = 0;
    while i < n
        invariant
            i <= n,
            n as nat == s@.len(),
            v@ == s@.take(i as int),
        decreases n - i,
    {
        let c = s.get_char(i);
        v.push(c);
        proof {
            assert(v@ =~= s@.take(i + 1));
        }
        i = i + 1;
    }
    proof {
        assert(s@.take(n as int) =~= s@);
    }
    v
}

/// Parse a whole environment file's contents into its ordered `(name,
/// value)` pairs. Ignored and malformed lines yield nothing; they neither
/// abort the parse nor surface as an error.
pub fn parse_env_file(content: &str) -> (entries: Vec<EnvEntry>)
    ensures
        entries_view(entries@) == parse_content(content@),
{
    let chars = str_to_chars(content);
    let n = chars.len();
    let mut out: Vec<EnvEntry> = Vec::new();
    let mut pos: usize = 0;
    proof {
        assert(chars@.skip(0) =~= chars@);
        assert(entries_view(out@) =~= Seq::<EnvEntryView>::empty());
        assert(entries_view(out@) + parse_lines(split_lines(chars@)) =~= parse_lines(
            split_lines(chars@),
        ));
    }
    loop
        invariant_except_break
            parse_content(content@) == entries_view(out@) + parse_lines(
                split_lines(chars@.skip(pos as int)),
            ),
        invariant
            pos <= n,
            n == chars@.len(),
            chars@ == content@,
        ensures
            parse_content(content@) == entries_view(out@),
        decreases n - pos,
    {
        let mut j = pos;
        loop
            invariant
                pos <= j <= n,
                n == chars@.len(),
                forall|k: int| pos <= k < j ==> chars@[k] != '\n',
            ensures
                pos <= j <= n,
                forall|k: int| pos <= k < j ==> chars@[k] != '\n',
                j == n || chars@[j as int] == '\n',
            decreases n - j,
        {
            if j == n {
                break;
            }
            if chars[j] == '\n' {
                break;
            }
            j = j + 1;
        }
        let line = copy_range(&chars, pos, j);
        let ghost rest = chars@.skip(pos as int);
        proof {
            assert(forall|k: int| 0 <= k < j - pos ==> rest[k] != '\n');
            if j < n {
                assert(rest[j - pos] == chars@[j as int]);
            }
            lemma_find_char_from_scan(rest, '\n', j - pos);
            assert(line@ =~= rest.take(j - pos));
        }
        let r = parse_env_line(&line);
        let ghost out0 = out@;
        match r {
            Some(e) => {
                out.push(e);
                proof {
                    assert(entries_view(out@) =~= entries_view(out0) + seq![e@]);
                }
            },
            None => {},
        }
        if j == n {
            proof {
                assert(rest.take(j - pos) =~= rest);
                assert(split_lines(rest) == seq![rest]);
                let lines = seq![rest];
                assert(lines[0] == rest);
                assert(lines.drop_first() =~= Seq::<Seq<char>>::empty());
                assert(parse_lines(Seq::<Seq<char>>::empty()) == Seq::<EnvEntryView>::empty());
                match parse_line(rest) {
                    Some(e) => {
                        assert(parse_lines(lines) =~= seq![e]);
                        assert(entries_view(out0) + seq![e] =~= entries_view(out@));
                    },
                    None => {
                        assert(parse_lines(lines) =~= Seq::<EnvEntryView>::empty());
                        assert(entries_view(out0) + Seq::<EnvEntryView>::empty() =~= entries_view(
                            out@,
                        ));
                    },
                }
            }
            break;
        }
        proof {
            let lrest = chars@.skip(j + 1);
            assert(rest.skip(j - pos + 1) =~= lrest);
            let lines = seq![rest.take(j - pos)] + split_lines(lrest);
            assert(split_lines(rest) == lines);
            assert(lines[0] == rest.take(j - pos));
            assert(lines.drop_first() =~= split_lines(lrest));
            match parse_line(rest.take(j - pos)) {
                Some(e) => {
                    assert(parse_lines(lines) == seq![e] + parse_lines(split_lines(lrest)));
                    lemma_concat_associative(entries_view(out0), seq![e], parse_lines(
                        split_lines(lrest),
                    ));
                },
                None => {
                    assert(parse_lines(lines) == parse_lines(split_lines(lrest)));
                },
            }
        }
        pos = j + 1;
    }
    out
}

/// Law: parsing is a function of the file's characters alone, so parsing
/// the same contents a second time yields the same ordered sequence of
/// pairs.
pub proof fn lemma_parse_deterministic(c1: Seq<char>, c2: Seq<char>)
    requires
        c1 == c2,
    ensures
        parse_content(c1) == parse_content(c2),
{
}

proof fn lemma_parse_lines_concat(l1: Seq<Seq<char>>, l2: Seq<Seq<char>>)
    ensures
        parse_lines(l1 + l2) == parse_lines(l1) + parse_lines(l2),
    decreases l1.len(),
{
    if l1.len() == 0 {
        assert(l1 + l2 =~= l2);
        assert(Seq::<EnvEntryView>::empty() + parse_lines(l2) =~= parse_lines(l2));
    } else {
        assert((l1 + l2)[0] == l1[0]);
        assert((l1 + l2).drop_first() =~= l1.drop_first() + l2);
        lemma_parse_lines_concat(l1.drop_first(), l2);
        match parse_line(l1[0]) {
            Some(e) => {
                lemma_concat_associative(seq![e], parse_lines(l1.drop_first()), parse_lines(l2));
            },
            None => {},
        }
    }
}

proof fn lemma_split_lines_concat(a: Seq<char>, b: Seq<char>)
    ensures
        split_lines(a + seq!['\n'] + b) == split_lines(a) + split_lines(b),
    decreases a.len(),
{
    let c = a + seq!['\n'] + b;
    match find_char(a, '\n') {
        None => {
            lemma_find_char_none(a, '\n');
            assert(c[a.len() as int] == '\n');
            lemma_find_char_from_scan(c, '\n', a.len() as int);
            assert(c.take(a.len() as int) =~= a);
            assert(c.skip(a.len() as int + 1) =~= b);
            assert(split_lines(a) == seq![a]);
            assert(seq![a] + split_lines(b) =~= split_lines(a) + split_lines(b));
        },
        Some(i) => {
            lemma_find_char_some(a, '\n');
            assert(forall|k: int| 0 <= k < i ==> c[k] == a[k] && a[k] != '\n');
            assert(c[i] == a[i]);
            lemma_find_char_from_scan(c, '\n', i);
            assert(c.take(i) =~= a.take(i));
            assert(c.skip(i + 1) =~= a.skip(i + 1) + seq!['\n'] + b);
            lemma_split_lines_concat(a.skip(i + 1), b);
            lemma_concat_associative(
                seq![a.take(i)],
                split_lines(a.skip(i + 1)),
                split_lines(b),
            );
        },
    }
}

proof fn lemma_find_char_none(s: Seq<char>, c: char)
    requires
        find_char(s, c) is None,
    ensures
        forall|k: int| 0 <= k < s.len() ==> s[k] != c,
    decreases s.len(),
{
    if s.len() > 0 {
        lemma_find_char_none(s.drop_first(), c);
        assert(forall|k: int| 1 <= k < s.len() ==> s[k] == s.drop_first()[k - 1]);
    }
}

proof fn lemma_find_char_some(s: Seq<char>, c: char)
    requires
        find_char(s, c) is Some,
    ensures
        0 <= find_char(s, c)->Some_0 < s.len(),
        s[find_char(s, c)->Some_0] == c,
        forall|k: int| 0 <= k < find_char(s, c)->Some_0 ==> s[k] != c,
    decreases s.len(),
{
    if s.len() > 0 && s[0] != c {
        lemma_find_char_some(s.drop_first(), c);
        assert(forall|k: int| 1 <= k < s.len() ==> s[k] == s.drop_first()[k - 1]);
    }
}

/// Law: parsing preserves file order across concatenation: the pairs of
/// `a + "\n" + b` are exactly the pairs of `a` followed by the pairs of
/// `b`, each side in its own file order.
pub proof fn lemma_parse_order_preserving(a: Seq<char>, b: Seq<char>)
    ensures
        parse_content(a + seq!['\n'] + b) == parse_content(a) + parse_content(b),
{
    lemma_split_lines_concat(a, b);
    lemma_parse_lines_concat(split_lines(a), split_lines(b));
}

} // verus!
