use vstd::prelude::*;
use crate::args::Args;
use crate::constants::{InstructionType, OpType, Token, TokenType};
use crate::text::{chars_of, is_uint_literal, parse_uint};

verus! {

/// Whether `c` has the Unicode `White_Space` property.
pub open spec fn is_ws(c: char) -> bool {
    c == '\t' || c == '\n' || c == '\u{B}' || c == '\u{C}' || c == '\r' || c == ' ' || c == '\u{85}'
        || c == '\u{A0}' || c == '\u{1680}' || ('\u{2000}' <= c && c <= '\u{200A}') || c
        == '\u{2028}' || c == '\u{2029}' || c == '\u{202F}' || c == '\u{205F}' || c == '\u{3000}'
}

pub fn is_space(c: char) -> (r: bool)
    ensures
        r == is_ws(c),
{
    c == '\t' || c == '\n' || c == '\u{B}' || c == '\u{C}' || c == '\r' || c == ' ' || c == '\u{85}'
        || c == '\u{A0}' || c == '\u{1680}' || ('\u{2000}' <= c && c <= '\u{200A}') || c
        == '\u{2028}' || c == '\u{2029}' || c == '\u{202F}' || c == '\u{205F}' || c == '\u{3000}'
}

/// The first index from `k` on that holds no whitespace (or `k` past the
/// end).
pub open spec fn skip_ws(t: Seq<char>, k: int) -> int
    decreases t.len() - k,
{
    if k < 0 || k >= t.len() {
        k
    } else if is_ws(t[k]) {
        skip_ws(t, k + 1)
    } else {
        k
    }
}

/// The first index from `k` on that holds whitespace (or `k` past the end).
pub open spec fn to_ws(t: Seq<char>, k: int) -> int
    decreases t.len() - k,
{
    if k < 0 || k >= t.len() {
        k
    } else if is_ws(t[k]) {
        k
    } else {
        to_ws(t, k + 1)
    }
}

/// The first index from `k` on that holds the quote `q` not preceded by a
/// backslash; `last` is the character before `k` (none at a token's start).
pub open spec fn to_close(t: Seq<char>, k: int, q: char, last: char) -> int
    decreases t.len() - k,
{
    if k < 0 || k >= t.len() {
        k
    } else if t[k] == q && last != '\\' {
        k
    } else {
        to_close(t, k + 1, q, t[k])
    }
}

/// `s` with every non-overlapping `a b`, read from the left, replaced by `r`.
pub open spec fn replaced(s: Seq<char>, a: char, b: char, r: Seq<char>) -> Seq<char>
    decreases s.len(),
{
    if s.len() < 2 {
        s
    } else if s[0] == a && s[1] == b {
        r + replaced(s.subrange(2, s.len() as int), a, b, r)
    } else {
        seq![s[0]] + replaced(s.subrange(1, s.len() as int), a, b, r)
    }
}

/// The text of a quoted token with its escapes (`\n`, `\t`, `\r`, `\'`,
/// `\"`, `\0`) read, one kind after another.
pub open spec fn unescaped(s: Seq<char>) -> Seq<char> {
    replaced(
        replaced(
            replaced(
                replaced(
                    replaced(replaced(s, '\\', 'n', "\n"@), '\\', 't', "\t"@),
                    '\\',
                    'r',
                    "\r"@,
                ),
                '\\',
                '\'',
                "'"@,
            ),
            '\\',
            '"',
            "\""@,
        ),
        '\\',
        '0',
        "\0"@,
    )
}

/// The tokens of one line, from column `col` on, after `acc`: quoted
/// strings and characters, and words separated by whitespace; a `//` word
/// ends the line. Each token is its column, text and kind.
pub open spec fn lex_scan(
    t: Seq<char>,
    col: int,
    col_end: int,
    acc: Seq<(usize, Seq<char>, TokenType)>,
) -> Seq<(usize, Seq<char>, TokenType)>
    decreases t.len() + 1 - col,
{
    if !(col_end < t.len()) || col < 0 || col >= t.len() {
        acc
    } else if t[col] == '"' || t[col] == '\'' {
        let kind = if t[col] == '"' {
            TokenType::String
        } else {
            TokenType::Char
        };
        let e = to_close(t, col + 1, t[col], '\0');
        let tx = unescaped(t.subrange(col + 1, e));
        let acc2 = if tx.len() > 0 {
            acc.push((col as usize, tx, kind))
        } else {
            acc
        };
        let c2 = skip_ws(t, e + 1);
        if col < c2 <= t.len() {
            lex_scan(t, c2, e, acc2)
        } else {
            acc2
        }
    } else {
        let e = to_ws(t, col);
        let w = t.subrange(col, e);
        if w == "//"@ {
            acc
        } else {
            let acc2 = if w.len() > 0 {
                acc.push((col as usize, w, TokenType::Word))
            } else {
                acc
            };
            let c2 = skip_ws(t, e);
            if col < c2 <= t.len() {
                lex_scan(t, c2, e, acc2)
            } else {
                acc2
            }
        }
    }
}

/// The tokens of one line.
pub open spec fn line_tokens(t: Seq<char>) -> Seq<(usize, Seq<char>, TokenType)> {
    lex_scan(t, skip_ws(t, 0), 0, Seq::empty())
}

pub open spec fn lexed_view(v: Seq<(usize, String, TokenType)>) -> Seq<(usize, Seq<char>, TokenType)> {
    v.map_values(|e: (usize, String, TokenType)| (e.0, e.1@, e.2))
}

/// The character before index `k` as a scan from `col` sees it: none at
/// `col` itself.
pub open spec fn prev_char(t: Seq<char>, col: int, k: int) -> char {
    if k == col {
        '\0'
    } else {
        t[k - 1]
    }
}

/// Moves `col` on while `predicate` (of the character there and the one
/// before it) does not hold; gives where it holds, or the end.
pub fn find_col<F>(text: &str, col: usize, predicate: F) -> (r: usize)
    where
        F: Fn(char, char) -> bool,
    requires
        forall|a: char, b: char| predicate.requires((a, b)),
    ensures
        r >= col,
        col <= text@.len() ==> r <= text@.len(),
        r < text@.len() ==> predicate.ensures((text@[r as int], prev_char(text@, col as int, r as int)), true),
        forall|k: int|
            col <= k < r ==> #[trigger] predicate.ensures((text@[k], prev_char(text@, col as int, k)), false),
{
    let cs = chars_of(text);
    let mut last = '\0';
    let mut c = col;
    while c < cs.len()
        invariant
            cs@ == text@,
            col <= c,
            col <= text@.len() ==> c <= text@.len(),
            last == prev_char(text@, col as int, c as int),
            forall|a: char, b: char| predicate.requires((a, b)),
            forall|k: int|
                col <= k < c ==> #[trigger] predicate.ensures((text@[k], prev_char(text@, col as int, k)), false),
        decreases cs.len() - c,
    {
        let x = cs[c];
        let hit = predicate(x, last);
        if hit {
            return c;
        }
        last = x;
        c = c + 1;
    }
    c
}

/// Replaces every non-overlapping `a b` of `s`, read from the left, by `rep`.
pub fn replace_pair(s: &str, a: char, b: char, rep: &str) -> (r: String)
    ensures
        r@ == replaced(s@, a, b, rep@),
{
    let cs = chars_of(s);
    let n = cs.len();
    let mut out = String::new();
    let mut seg: usize = 0;
    let mut i: usize = 0;
    assert(s@.subrange(0, n as int) =~= s@);
    assert(out@ + s@.subrange(0, 0) =~= Seq::<char>::empty());
    while i < n
        invariant
            cs@ == s@,
            n == s@.len(),
            seg <= i <= n,
            out@ + s@.subrange(seg as int, i as int) + replaced(s@.subrange(i as int, n as int), a, b, rep@)
                == replaced(s@, a, b, rep@),
        decreases n - i,
    {
        let ghost tail = s@.subrange(i as int, n as int);
        let ghost before = out@ + s@.subrange(seg as int, i as int);
        if i + 1 < n && cs[i] == a && cs[i + 1] == b {
            assert(tail.subrange(2, tail.len() as int) =~= s@.subrange(i + 2, n as int));
            let piece = s.substring_char(seg, i);
            out.append(piece);
            out.append(rep);
            i = i + 2;
            seg = i;
            assert(s@.subrange(seg as int, i as int) =~= Seq::<char>::empty());
            assert(out@ + s@.subrange(seg as int, i as int) =~= before + rep@);
        } else {
            proof {
                if tail.len() >= 2 {
                    assert(tail.subrange(1, tail.len() as int) =~= s@.subrange(i + 1, n as int));
                } else {
                    assert(tail =~= seq![s@[i as int]]);
                    assert(s@.subrange(i + 1, n as int) =~= Seq::<char>::empty());
                }
            }
            assert(s@.subrange(seg as int, i + 1) =~= s@.subrange(seg as int, i as int).push(s@[i as int]));
            i = i + 1;
        }
    }
    let rest = s.substring_char(seg, n);
    out.append(rest);
    assert(s@.subrange(n as int, n as int) =~= Seq::<char>::empty());
    assert(out@ =~= replaced(s@, a, b, rep@));
    out
}

/// Reads the escapes of a quoted token's text.
pub fn unescape(s: &str) -> (r: String)
    ensures
        r@ == unescaped(s@),
{
    let t1 = replace_pair(s, '\\', 'n', "\n");
    let t2 = replace_pair(t1.as_str(), '\\', 't', "\t");
    let t3 = replace_pair(t2.as_str(), '\\', 'r', "\r");
    let t4 = replace_pair(t3.as_str(), '\\', '\'', "'");
    let t5 = replace_pair(t4.as_str(), '\\', '"', "\"");
    replace_pair(t5.as_str(), '\\', '0', "\0")
}

fn skip_ws_exec(cs: &Vec<char>, k: usize) -> (r: usize)
    ensures
        r as int == skip_ws(cs@, k as int),
{
    let mut i = k;
    while i < cs.len() && is_space(cs[i])
        invariant
            k <= i,
            skip_ws(cs@, k as int) == skip_ws(cs@, i as int),
        decreases cs.len() - i,
    {
        i = i + 1;
    }
    i
}

fn to_ws_exec(cs: &Vec<char>, k: usize) -> (r: usize)
    ensures
        r as int == to_ws(cs@, k as int),
{
    let mut i = k;
    while i < cs.len() && !is_space(cs[i])
        invariant
            k <= i,
            to_ws(cs@, k as int) == to_ws(cs@, i as int),
        decreases cs.len() - i,
    {
        i = i + 1;
    }
    i
}

fn to_close_exec(cs: &Vec<char>, k: usize, q: char) -> (r: usize)
    ensures
        r as int == to_close(cs@, k as int, q, '\0'),
{
    let mut i = k;
    let mut last = '\0';
    while i < cs.len() && !(cs[i] == q && last != '\\')
        invariant
            k <= i,
            to_close(cs@, k as int, q, '\0') == to_close(cs@, i as int, q, last),
        decreases cs.len() - i,
    {
        last = cs[i];
        i = i + 1;
    }
    i
}

proof fn lemma_scan_bounds(t: Seq<char>, k: int)
    requires
        0 <= k,
    ensures
        k <= skip_ws(t, k),
        k <= t.len() ==> skip_ws(t, k) <= t.len(),
        k <= to_ws(t, k),
        k <= t.len() ==> to_ws(t, k) <= t.len(),
    decreases t.len() - k,
{
    if k < t.len() {
        lemma_scan_bounds(t, k + 1);
    }
}

proof fn lemma_close_bounds(t: Seq<char>, k: int, q: char, last: char)
    requires
        0 <= k <= t.len(),
    ensures
        k <= to_close(t, k, q, last) <= t.len(),
    decreases t.len() - k,
{
    if k < t.len() {
        lemma_close_bounds(t, k + 1, q, t[k]);
    }
}

/// The tokens of one line: column, text and kind of each.
pub fn lex_line(text: &str) -> (r: Vec<(usize, String, TokenType)>)
    ensures
        lexed_view(r@) == line_tokens(text@),
{
    let cs = chars_of(text);
    let n = cs.len();
    let mut tokens: Vec<(usize, String, TokenType)> = Vec::new();
    let mut col = skip_ws_exec(&cs, 0);
    let mut col_end: usize = 0;
    proof {
        lemma_scan_bounds(cs@, 0);
        assert(lexed_view(tokens@) =~= Seq::<(usize, Seq<char>, TokenType)>::empty());
    }
    while col_end < n
        invariant
            cs@ == text@,
            n == text@.len(),
            col <= n,
            line_tokens(text@) == lex_scan(text@, col as int, col_end as int, lexed_view(tokens@)),
        decreases n + 1 - col,
    {
        let ghost acc = lexed_view(tokens@);
        if n - col < 1 {
            return tokens;
        }
        let c = cs[col];
        if c == '"' || c == '\'' {
            let kind = if c == '"' {
                TokenType::String
            } else {
                TokenType::Char
            };
            let e = to_close_exec(&cs, col + 1, c);
            proof {
                lemma_close_bounds(cs@, col + 1, c, '\0');
            }
            let piece = text.substring_char(col + 1, e);
            let t = unescape(piece);
            if t.as_str().unicode_len() > 0 {
                tokens.push((col, t, kind));
                assert(lexed_view(tokens@) =~= acc.push((col, unescaped(text@.subrange(col + 1, e as int)), kind)));
            }
            if e >= n {
                return tokens;
            }
            let c2 = skip_ws_exec(&cs, e + 1);
            proof {
                lemma_scan_bounds(cs@, e + 1);
            }
            if !(col < c2 && c2 <= n) {
                return tokens;
            }
            col = c2;
            col_end = e;
        } else {
            let e = to_ws_exec(&cs, col);
            proof {
                lemma_scan_bounds(cs@, col as int);
            }
            let w = text.substring_char(col, e);
            if str_is_comment(w) {
                return tokens;
            }
            if w.unicode_len() > 0 {
                tokens.push((col, String::from_str(w), TokenType::Word));
                assert(lexed_view(tokens@) =~= acc.push((col, text@.subrange(col as int, e as int), TokenType::Word)));
            }
            let c2 = skip_ws_exec(&cs, e);
            proof {
                lemma_scan_bounds(cs@, e as int);
            }
            if !(col < c2 && c2 <= n) {
                return tokens;
            }
            col = c2;
            col_end = e;
        }
    }
    tokens
}

fn str_is_comment(w: &str) -> (r: bool)
    ensures
        r == (w@ == "//"@),
{
    crate::text::str_eq(w, "//")
}

/// The kind a lexed word ends with: a word that reads as an unsigned
/// number is an integer.
pub open spec fn lexed_kind(s: Seq<char>, tok_type: TokenType) -> TokenType {
    if tok_type == TokenType::Word && is_uint_literal(s) {
        TokenType::Int
    } else {
        tok_type
    }
}

fn lex_word(s: String, tok_type: TokenType) -> (r: (TokenType, String))
    ensures
        r.0 == lexed_kind(s@, tok_type),
        r.1 == s,
{
    if tok_type == TokenType::Word && parse_uint(s.as_str()).is_some() {
        (TokenType::Int, s)
    } else {
        (tok_type, s)
    }
}

pub open spec fn is_line_break(c: char) -> bool {
    c == '\n' || c == '\r'
}

/// The lines of `t` from `start`, scanning at `k`, after `acc`: every `\n`
/// and every `\r` ends one.
pub open spec fn split_from(t: Seq<char>, start: int, k: int, acc: Seq<Seq<char>>) -> Seq<Seq<char>>
    decreases t.len() - k,
{
    if k < start || start < 0 || k >= t.len() {
        acc.push(t.subrange(start, t.len() as int))
    } else if is_line_break(t[k]) {
        split_from(t, k + 1, k + 1, acc.push(t.subrange(start, k)))
    } else {
        split_from(t, start, k + 1, acc)
    }
}

pub open spec fn lines_of(t: Seq<char>) -> Seq<Seq<char>> {
    split_from(t, 0, 0, Seq::empty())
}

/// What a token is, seen as its line, column, text and kind.
pub open spec fn token_view(t: Token) -> (usize, usize, Seq<char>, TokenType) {
    (t.line, t.col, t.text@, t.typ)
}

/// The tokens of the lines from row `r` on, after `acc`; lines count from 1.
pub open spec fn lex_rows(
    lines: Seq<Seq<char>>,
    r: int,
    acc: Seq<(usize, usize, Seq<char>, TokenType)>,
) -> Seq<(usize, usize, Seq<char>, TokenType)>
    decreases lines.len() - r,
{
    if r < 0 || r >= lines.len() {
        acc
    } else {
        lex_rows(
            lines,
            r + 1,
            acc + line_tokens(lines[r]).map_values(
                |e: (usize, Seq<char>, TokenType)| ((r + 1) as usize, e.0, e.1, lexed_kind(e.1, e.2)),
            ),
        )
    }
}

/// Splits source text into tokens, each with its file, line and column.
pub fn lex(code: &str, file: &str, _args: &Args) -> (r: Vec<Token>)
    requires
        code@.len() < usize::MAX,
    ensures
        r@.map_values(|t: Token| token_view(t)) == lex_rows(lines_of(code@), 0, Seq::empty()),
        forall|i: int|
            0 <= i < r@.len() ==> (#[trigger] r@[i]).file@ == file@ && r@[i].value is None
                && r@[i].addr is None && r@[i].op_typ == OpType::Instruction(InstructionType::Unresolved),
{
    let cs = chars_of(code);
    let n = cs.len();
    // line bounds
    let mut bounds: Vec<(usize, usize)> = Vec::new();
    let mut start: usize = 0;
    let mut k: usize = 0;
    assert(bounds@.map_values(|b: (usize, usize)| code@.subrange(b.0 as int, b.1 as int)) =~= Seq::<Seq<char>>::empty());
    while k < n
        invariant
            cs@ == code@,
            n == code@.len(),
            start <= k <= n,
            bounds@.len() <= k,
            forall|j: int| 0 <= j < bounds@.len() ==> (#[trigger] bounds@[j]).0 <= bounds@[j].1 <= n,
            lines_of(code@) == split_from(
                code@,
                start as int,
                k as int,
                bounds@.map_values(|b: (usize, usize)| code@.subrange(b.0 as int, b.1 as int)),
            ),
        decreases n - k,
    {
        if cs[k] == '\n' || cs[k] == '\r' {
            let ghost old_b = bounds@;
            bounds.push((start, k));
            assert(bounds@.map_values(|b: (usize, usize)| code@.subrange(b.0 as int, b.1 as int))
                =~= old_b.map_values(|b: (usize, usize)| code@.subrange(b.0 as int, b.1 as int)).push(
                code@.subrange(start as int, k as int),
            ));
            start = k + 1;
        }
        k = k + 1;
    }
    let ghost old_b = bounds@;
    bounds.push((start, n));
    let ghost lines = bounds@.map_values(|b: (usize, usize)| code@.subrange(b.0 as int, b.1 as int));
    assert(lines =~= old_b.map_values(|b: (usize, usize)| code@.subrange(b.0 as int, b.1 as int)).push(
        code@.subrange(start as int, n as int),
    ));
    assert(lines == lines_of(code@));
    let mut tokens: Vec<Token> = Vec::new();
    let mut row: usize = 0;
    while row < bounds.len()
        invariant
            cs@ == code@,
            n == code@.len(),
            n < usize::MAX,
            bounds@.len() <= n + 1,
            row <= bounds@.len(),
            forall|j: int| 0 <= j < bounds@.len() ==> (#[trigger] bounds@[j]).0 <= bounds@[j].1 <= n,
            lines == bounds@.map_values(|b: (usize, usize)| code@.subrange(b.0 as int, b.1 as int)),
            lines == lines_of(code@),
            lex_rows(lines, 0, Seq::empty()) == lex_rows(lines, row as int, tokens@.map_values(|t: Token| token_view(t))),
            forall|i: int|
                0 <= i < tokens@.len() ==> (#[trigger] tokens@[i]).file@ == file@ && tokens@[i].value is None
                    && tokens@[i].addr is None && tokens@[i].op_typ == OpType::Instruction(InstructionType::Unresolved),
        decreases bounds.len() - row,
    {
        let (s0, e0) = bounds[row];
        let line = code.substring_char(s0, e0);
        assert(line@ == lines[row as int]);
        let lt = lex_line(line);
        let ghost before = tokens@.map_values(|t: Token| token_view(t));
        let ghost add = line_tokens(lines[row as int]).map_values(
            |e: (usize, Seq<char>, TokenType)| ((row + 1) as usize, e.0, e.1, lexed_kind(e.1, e.2)),
        );
        let mut j: usize = 0;
        while j < lt.len()
            invariant
                j <= lt@.len(),
                lexed_view(lt@) == line_tokens(lines[row as int]),
                row < bounds@.len() <= n + 1,
                n < usize::MAX,
                tokens@.map_values(|t: Token| token_view(t)) == before + add.subrange(0, j as int),
                add.len() == lt@.len(),
                add == line_tokens(lines[row as int]).map_values(
                    |e: (usize, Seq<char>, TokenType)| ((row + 1) as usize, e.0, e.1, lexed_kind(e.1, e.2)),
                ),
                forall|i: int|
                    0 <= i < tokens@.len() ==> (#[trigger] tokens@[i]).file@ == file@ && tokens@[i].value is None
                        && tokens@[i].addr is None && tokens@[i].op_typ == OpType::Instruction(InstructionType::Unresolved),
            decreases lt.len() - j,
        {
            let (col, tok, tok_type) = (lt[j].0, lt[j].1.clone(), lt[j].2);
            assert(lexed_view(lt@)[j as int] == (lt@[j as int].0, lt@[j as int].1@, lt@[j as int].2));
            let (tok_type, tok) = lex_word(tok, tok_type);
            let t = Token {
                file: String::from_str(file),
                line: row + 1,
                col,
                text: tok,
                typ: tok_type,
                value: None,
                addr: None,
                op_typ: OpType::Instruction(InstructionType::Unresolved),
            };
            let ghost tv = token_view(t);
            assert(add[j as int] == tv);
            let ghost prev = tokens@;
            tokens.push(t);
            assert(tokens@.map_values(|t: Token| token_view(t)) =~= prev.map_values(|t: Token| token_view(t)).push(tv));
            assert(tokens@.map_values(|t: Token| token_view(t)) =~= before + add.subrange(0, j + 1));
            j = j + 1;
        }
        assert(add.subrange(0, add.len() as int) =~= add);
        row = row + 1;
    }
    tokens
}

} // verus!
