use vstd::prelude::*;

verus! {

/// Whether `c` is an ASCII decimal digit.
pub open spec fn is_digit(c: char) -> bool {
    '0' <= c && c <= '9'
}

/// The value of a string of decimal digits.
pub open spec fn digits_value(d: Seq<char>) -> nat
    decreases d.len(),
{
    if d.len() == 0 {
        0
    } else {
        digits_value(d.drop_last()) * 10 + (d.last() as nat - '0' as nat) as nat
    }
}

/// The digits of an unsigned literal: an optional leading `+` is dropped.
pub open spec fn literal_digits(s: Seq<char>) -> Seq<char> {
    if s.len() > 0 && s[0] == '+' {
        s.drop_first()
    } else {
        s
    }
}

/// Whether `s` reads as an unsigned machine-word literal: an optional `+`,
/// then one or more decimal digits whose value fits in `usize`.
pub open spec fn is_uint_literal(s: Seq<char>) -> bool {
    let d = literal_digits(s);
    &&& d.len() > 0
    &&& forall|i: int| 0 <= i < d.len() ==> is_digit(#[trigger] d[i])
    &&& digits_value(d) <= usize::MAX
}

/// Character-wise equality of two strings.
pub fn str_eq(a: &str, b: &str) -> (r: bool)
    ensures
        r == (a@ == b@),
{
    let n = a.unicode_len();
    if n != b.unicode_len() {
        return false;
    }
    let mut i: usize = 0;
    while i < n
        invariant
            n == a@.len(),
            n == b@.len(),
            i <= n,
            forall|k: int| 0 <= k < i ==> a@[k] == b@[k],
        decreases n - i,
    {
        if a.get_char(i) != b.get_char(i) {
            return false;
        }
        i = i + 1;
    }
    assert(a@ =~= b@);
    true
}

proof fn lemma_digits_value_bound(d: Seq<char>, k: int)
    requires
        0 <= k <= d.len(),
        forall|i: int| 0 <= i < d.len() ==> is_digit(#[trigger] d[i]),
    ensures
        digits_value(d.subrange(0, k)) <= digits_value(d),
    decreases d.len() - k,
{
    if k < d.len() {
        lemma_digits_value_bound(d, k + 1);
        assert(d.subrange(0, k + 1).drop_last() =~= d.subrange(0, k));
        assert(is_digit(d.subrange(0, k + 1).last()));
    } else {
        assert(d.subrange(0, k) =~= d);
    }
}

/// Reads an unsigned literal; `None` where `s` is not one.
pub fn parse_uint(s: &str) -> (r: Option<usize>)
    ensures
        r is Some <==> is_uint_literal(s@),
        r matches Some(v) ==> v as nat == digits_value(literal_digits(s@)),
{
    let n = s.unicode_len();
    let mut i: usize = 0;
    if n > 0 && s.get_char(0) == '+' {
        i = 1;
    }
    let ghost d = literal_digits(s@);
    let ghost start = i as int;
    assert(d =~= s@.subrange(start, n as int));
    if i == n {
        return None;
    }
    let mut value: usize = 0;
    while i < n
        invariant
            n == s@.len(),
            0 <= start <= 1,
            start <= i <= n,
            start < n,
            d == s@.subrange(start, n as int),
            d == literal_digits(s@),
            forall|k: int| start <= k < i ==> is_digit(#[trigger] s@[k]),
            value as nat == digits_value(s@.subrange(start, i as int)),
        decreases n - i,
    {
        let c = s.get_char(i);
        if !('0' <= c && c <= '9') {
            assert(!is_digit(d[i - start]));
            return None;
        }
        let dv = (c as u32 - '0' as u32) as usize;
        assert(s@.subrange(start, i + 1).drop_last() =~= s@.subrange(start, i as int));
        match value.checked_mul(10) {
            Some(m) => match m.checked_add(dv) {
                Some(v) => {
                    value = v;
                },
                None => {
                    proof {
                        let k = i + 1 - start;
                        assert(d.subrange(0, k) =~= s@.subrange(start, i + 1));
                        if forall|j: int| 0 <= j < d.len() ==> is_digit(#[trigger] d[j]) {
                            lemma_digits_value_bound(d, k);
                        }
                    }
                    return None;
                },
            },
            None => {
                proof {
                    let k = i + 1 - start;
                    assert(d.subrange(0, k) =~= s@.subrange(start, i + 1));
                    if forall|j: int| 0 <= j < d.len() ==> is_digit(#[trigger] d[j]) {
                        lemma_digits_value_bound(d, k);
                    }
                }
                return None;
            },
        }
        i = i + 1;
    }
    assert(s@.subrange(start, n as int) =~= d);
    Some(value)
}

} // verus!

verus! {

/// What a name becomes once its parentheses are spelled out.
pub open spec fn paren_piece(c: char) -> Seq<char> {
    if c == '(' {
        "__OP_PAREN__"@
    } else if c == ')' {
        "__CL_PAREN__"@
    } else {
        seq![c]
    }
}

/// A name with every `(` and `)` rewritten to an identifier-safe piece.
pub open spec fn mangled(s: Seq<char>) -> Seq<char>
    decreases s.len(),
{
    if s.len() == 0 {
        Seq::empty()
    } else {
        mangled(s.drop_last()) + paren_piece(s.last())
    }
}

/// Rewrites `(` and `)` in a name so that it can stand as an identifier.
pub fn mangle(s: &str) -> (r: String)
    ensures
        r@ == mangled(s@),
{
    let n = s.unicode_len();
    let mut out = String::new();
    let mut seg: usize = 0;
    let mut i: usize = 0;
    assert(s@.subrange(0, 0) =~= Seq::<char>::empty());
    assert(out@ + s@.subrange(0, 0) =~= Seq::<char>::empty());
    while i < n
        invariant
            n == s@.len(),
            seg <= i <= n,
            out@ + s@.subrange(seg as int, i as int) == mangled(s@.subrange(0, i as int)),
        decreases n - i,
    {
        let c = s.get_char(i);
        let ghost before = out@ + s@.subrange(seg as int, i as int);
        assert(s@.subrange(0, i + 1).drop_last() =~= s@.subrange(0, i as int));
        if c == '(' || c == ')' {
            let piece = s.substring_char(seg, i);
            out.append(piece);
            if c == '(' {
                out.append("__OP_PAREN__");
            } else {
                out.append("__CL_PAREN__");
            }
            seg = i + 1;
            assert(s@.subrange(seg as int, i + 1) =~= Seq::<char>::empty());
            assert(out@ + s@.subrange(seg as int, i + 1) =~= before + paren_piece(c));
        } else {
            assert(s@.subrange(seg as int, i + 1) =~= s@.subrange(seg as int, i as int).push(c));
            assert(out@ + s@.subrange(seg as int, i + 1) =~= before + paren_piece(c));
        }
        i = i + 1;
    }
    let rest = s.substring_char(seg, n);
    out.append(rest);
    assert(s@.subrange(0, n as int) =~= s@);
    out
}

/// Whether `c` may stand in a defined name: a letter, a digit, `-`, `_`,
/// or a parenthesis (which is rewritten).
pub open spec fn is_name_char(c: char) -> bool {
    ('a' <= c && c <= 'z') || ('A' <= c && c <= 'Z') || is_digit(c) || c == '-' || c == '_' || c
        == '(' || c == ')'
}

/// The first character of `s` that may not stand in a name.
pub open spec fn first_bad_char(s: Seq<char>) -> Option<int> {
    if exists|i: int| 0 <= i < s.len() && !is_name_char(s[i]) {
        Some(
            choose|i: int|
                0 <= i < s.len() && !is_name_char(s[i]) && forall|j: int|
                    0 <= j < i ==> is_name_char(s[j]),
        )
    } else {
        None
    }
}

/// Finds the first character that may not stand in a name.
pub fn find_bad_char(s: &str) -> (r: Option<usize>)
    ensures
        r matches Some(i) ==> Some(i as int) == first_bad_char(s@) && i < s@.len(),
        r is None ==> first_bad_char(s@) is None,
{
    let n = s.unicode_len();
    let mut i: usize = 0;
    while i < n
        invariant
            n == s@.len(),
            i <= n,
            forall|j: int| 0 <= j < i ==> is_name_char(s@[j]),
        decreases n - i,
    {
        let c = s.get_char(i);
        if !(('a' <= c && c <= 'z') || ('A' <= c && c <= 'Z') || ('0' <= c && c <= '9') || c == '-'
            || c == '_' || c == '(' || c == ')') {
            proof {
                let k = choose|k: int|
                    0 <= k < s@.len() && !is_name_char(s@[k]) && forall|j: int|
                        0 <= j < k ==> is_name_char(s@[j]);
                assert(0 <= k < s@.len() && !is_name_char(s@[k]));
                if k < i {
                    assert(is_name_char(s@[k]));
                } else if k > i {
                    assert(is_name_char(s@[i as int]));
                }
            }
            return Some(i);
        }
        i = i + 1;
    }
    None
}

} // verus!

verus! {

/// The characters of `s`, in order.
pub fn chars_of(s: &str) -> (r: Vec<char>)
    ensures
        r@ == s@,
{
    broadcast use vstd::string::group_string_axioms;

    let mut out: Vec<char> = Vec::new();
    for c in it: s.chars()
        invariant
            out@ == it.seq().subrange(0, it.index() as int),
    {
        out.push(c);
    }
    out
}

} // verus!
