use vstd::prelude::*;
use crate::constants::{copy_loc, KeywordType, Loc, OpType, Operator};

verus! {

/// Why cross-referencing rejected a stream; each carries the location of
/// the operator at fault.
#[derive(Debug, Clone)]
pub enum CrossRefError {
    /// `else` with no open block.
    ElseWithoutIf(Loc),
    /// `else` whose open block is not an `if`.
    ElseClosesNonIf(Loc),
    /// `end` with no open block.
    EndWithoutBlock(Loc),
    /// `end` directly after a `while` with no `do`.
    EndClosesBadBlock(Loc),
    /// `do` with no open block.
    DoWithoutWhile(Loc),
    /// `do` whose open block is not a `while`.
    DoClosesNonWhile(Loc),
    /// A block still open at the end of the stream; the oldest one.
    UnclosedBlock(Loc),
}

pub open spec fn with_jmp(o: Operator, j: int) -> Operator {
    Operator { jmp: j as usize, ..o }
}

/// One operator of the cross-referencing pass: `p` is the stream so far,
/// `ip` the index of the operator read, `s` the stack of open blocks.
pub open spec fn xref_step(p: Seq<Operator>, ip: int, s: Seq<usize>) -> Result<
    (Seq<Operator>, Seq<usize>),
    CrossRefError,
> {
    let op = p[ip];
    match op.typ {
        OpType::Keyword(KeywordType::If) | OpType::Keyword(KeywordType::While) => Ok(
            (p, s.push(ip as usize)),
        ),
        OpType::Keyword(KeywordType::Else) => {
            if s.len() == 0 {
                Err(CrossRefError::ElseWithoutIf(op.loc))
            } else {
                let b = s.last() as int;
                if p[b].typ != OpType::Keyword(KeywordType::If) {
                    Err(CrossRefError::ElseClosesNonIf(op.loc))
                } else {
                    Ok((p.update(b, with_jmp(p[b], ip + 1)), s.drop_last().push(ip as usize)))
                }
            }
        },
        OpType::Keyword(KeywordType::End) => {
            if s.len() == 0 {
                Err(CrossRefError::EndWithoutBlock(op.loc))
            } else {
                let b = s.last() as int;
                let s2 = s.drop_last();
                match p[b].typ {
                    OpType::Keyword(KeywordType::If) | OpType::Keyword(KeywordType::Else) => Ok(
                        (p.update(b, with_jmp(p[b], ip)).update(ip, with_jmp(op, ip + 1)), s2),
                    ),
                    OpType::Keyword(KeywordType::Do) => Ok(
                        (p.update(ip, with_jmp(op, p[b].jmp as int)).update(b, with_jmp(p[b], ip + 1)), s2),
                    ),
                    OpType::Keyword(KeywordType::Memory) | OpType::Keyword(KeywordType::Constant) => Ok(
                        (p, s2),
                    ),
                    _ => Err(CrossRefError::EndClosesBadBlock(op.loc)),
                }
            }
        },
        OpType::Keyword(KeywordType::Do) => {
            if s.len() == 0 {
                Err(CrossRefError::DoWithoutWhile(op.loc))
            } else {
                let b = s.last() as int;
                if p[b].typ != OpType::Keyword(KeywordType::While) {
                    Err(CrossRefError::DoClosesNonWhile(op.loc))
                } else {
                    Ok((p.update(ip, with_jmp(op, b)), s.drop_last().push(ip as usize)))
                }
            }
        },
        _ => Ok((p, s)),
    }
}

/// The pass from index `i` to the end of the stream, with its final stream
/// and stack of blocks left open.
pub open spec fn xref_loop(p: Seq<Operator>, i: int, s: Seq<usize>) -> Result<
    (Seq<Operator>, Seq<usize>),
    CrossRefError,
>
    decreases p.len() - i,
{
    if i < 0 || i >= p.len() {
        Ok((p, s))
    } else {
        match xref_step(p, i, s) {
            Ok((p2, s2)) => if p2.len() == p.len() {
                xref_loop(p2, i + 1, s2)
            } else {
                Ok((p2, s2))
            },
            Err(e) => Err(e),
        }
    }
}

/// Cross-referencing of a whole stream: the patched stream, or the first
/// error; a block left open is an error at the oldest open block.
pub open spec fn xref_spec(p: Seq<Operator>) -> Result<Seq<Operator>, CrossRefError> {
    match xref_loop(p, 0, Seq::empty()) {
        Ok((q, s)) => if s.len() == 0 {
            Ok(q)
        } else {
            Err(CrossRefError::UnclosedBlock(q[s[0] as int].loc))
        },
        Err(e) => Err(e),
    }
}

/// What the jump target of the operator at `j` must satisfy once the
/// stream is cross-referenced: an `if` jumps just past its `else` or to its
/// `end`, an `else` to its `end`, a `do` just past its `end`.
pub open spec fn jump_well_formed(q: Seq<Operator>, j: int) -> bool {
    let t = q[j].jmp as int;
    match q[j].typ {
        OpType::Keyword(KeywordType::If) => j < t <= q.len() && (q[t - 1].typ == OpType::Keyword(
            KeywordType::Else,
        ) || (t < q.len() && q[t].typ == OpType::Keyword(KeywordType::End))),
        OpType::Keyword(KeywordType::Else) => j < t < q.len() && q[t].typ == OpType::Keyword(
            KeywordType::End,
        ),
        OpType::Keyword(KeywordType::Do) => j < t <= q.len() && q[t - 1].typ == OpType::Keyword(
            KeywordType::End,
        ),
        _ => true,
    }
}

pub open spec fn is_opener(t: OpType) -> bool {
    t == OpType::Keyword(KeywordType::If) || t == OpType::Keyword(KeywordType::While) || t
        == OpType::Keyword(KeywordType::Else) || t == OpType::Keyword(KeywordType::Do)
}

/// What holds of the pass's state at index `i` of a stream of `init`.
pub open spec fn xref_inv(init: Seq<Operator>, p: Seq<Operator>, i: int, s: Seq<usize>) -> bool {
    &&& p.len() == init.len()
    &&& 0 <= i <= p.len()
    &&& forall|k: int| 0 <= k < p.len() ==> (#[trigger] p[k]).typ == init[k].typ
    &&& forall|a: int, b: int| 0 <= a < b < s.len() ==> s[a] < s[b]
    &&& forall|k: int| 0 <= k < s.len() ==> (#[trigger] s[k]) < i && is_opener(p[s[k] as int].typ)
    &&& forall|j: int|
        0 <= j < i && !s.contains(j as usize) ==> #[trigger] jump_well_formed(p, j)
}

proof fn lemma_step_inv(init: Seq<Operator>, p: Seq<Operator>, i: int, s: Seq<usize>)
    requires
        xref_inv(init, p, i, s),
        i < p.len(),
        i + 1 <= usize::MAX,
    ensures
        xref_step(p, i, s) matches Ok((p2, s2)) ==> xref_inv(init, p2, i + 1, s2),
{
    if let Ok((p2, s2)) = xref_step(p, i, s) {
        let op = p[i];
        assert(p2.len() == p.len());
        assert forall|k: int| 0 <= k < p2.len() implies (#[trigger] p2[k]).typ == init[k].typ by {
            assert(p2[k].typ == p[k].typ);
        }
        // indices that were open before and stay open
        let kept: int = if op.typ == OpType::Keyword(KeywordType::Else) || op.typ == OpType::Keyword(
            KeywordType::End,
        ) || op.typ == OpType::Keyword(KeywordType::Do) {
            s.len() - 1
        } else {
            s.len() as int
        };
        let pushed = is_opener(op.typ);
        assert(s2.len() == kept + if pushed { 1int } else { 0int });
        assert forall|k: int| 0 <= k < kept implies s2[k] == s[k] by {}
        assert(pushed ==> s2[kept] == i as usize);
        if kept < s.len() {
            let b = s.last() as int;
            assert forall|k: int| 0 <= k < kept implies s[k] != b as usize by {
                assert(s[k] < s[s.len() - 1]);
            }
            assert(jump_well_formed(p2, b));
        }
        assert forall|j: int| 0 <= j < i + 1 && !s2.contains(j as usize) implies #[trigger] jump_well_formed(p2, j) by {
            if j < i && !s.contains(j as usize) {
                assert(jump_well_formed(p, j));
                if kept < s.len() {
                    assert(j != s.last());
                }
                assert(p2[j] == p[j]);
                let t = p[j].jmp as int;
                if 0 <= t < p.len() {
                    assert(p2[t].typ == p[t].typ);
                }
                if 0 <= t - 1 < p.len() {
                    assert(p2[t - 1].typ == p[t - 1].typ);
                }
            } else if j < i {
                let k = choose|k: int| 0 <= k < s.len() && s[k] == j as usize;
                if k < kept {
                    assert(s2[k] == j as usize);
                    assert(s2.contains(j as usize));
                }
            } else if pushed {
                assert(s2.contains(i as usize));
            }
        }
        assert forall|k: int| 0 <= k < s2.len() implies (#[trigger] s2[k]) < i + 1 && is_opener(
            p2[s2[k] as int].typ,
        ) by {
            if k < kept {
                assert(s2[k] == s[k]);
                assert(s[k] < i && is_opener(p[s[k] as int].typ));
            }
        }
        assert forall|a: int, b: int| 0 <= a < b < s2.len() implies s2[a] < s2[b] by {
            assert(s2[a] == s[a]);
            if b < kept {
                assert(s2[b] == s[b]);
            }
        }
    }
}

proof fn lemma_loop_inv(init: Seq<Operator>, p: Seq<Operator>, i: int, s: Seq<usize>)
    requires
        xref_inv(init, p, i, s),
        p.len() <= usize::MAX,
    ensures
        xref_loop(p, i, s) matches Ok((q, s2)) ==> xref_inv(init, q, p.len() as int, s2),
    decreases p.len() - i,
{
    if i < p.len() {
        lemma_step_inv(init, p, i, s);
        if let Ok((p2, s2)) = xref_step(p, i, s) {
            lemma_loop_inv(init, p2, i + 1, s2);
        }
    }
}

/// Every `if`, `else` and `do` of a cross-referenced stream jumps inside
/// the stream, to the place its matching `else` or `end` decides.
pub proof fn lemma_jumps_well_formed(p: Seq<Operator>)
    requires
        xref_spec(p) is Ok,
        p.len() <= usize::MAX,
    ensures
        xref_spec(p)->Ok_0.len() == p.len(),
        forall|j: int|
            0 <= j < p.len() ==> #[trigger] jump_well_formed(xref_spec(p)->Ok_0, j),
{
    let e: Seq<usize> = Seq::empty();
    assert(xref_inv(p, p, 0, e));
    lemma_loop_inv(p, p, 0, e);
    let q = xref_spec(p)->Ok_0;
    assert forall|j: int| 0 <= j < p.len() implies #[trigger] jump_well_formed(q, j) by {
        assert(!xref_loop(p, 0, e)->Ok_0.1.contains(j as usize));
    }
}

proof fn lemma_step_push(q: Seq<Operator>, i: int, s: Seq<usize>, x: Operator)
    requires
        0 <= i < q.len(),
        forall|k: int| 0 <= k < s.len() ==> (#[trigger] s[k]) < i,
    ensures
        match xref_step(q, i, s) {
            Ok((p2, s2)) => {
                &&& xref_step(q.push(x), i, s) == Ok::<(Seq<Operator>, Seq<usize>), CrossRefError>(
                    (p2.push(x), s2),
                )
                &&& p2.len() == q.len()
                &&& forall|k: int| 0 <= k < s2.len() ==> (#[trigger] s2[k]) < i + 1
            },
            Err(e) => xref_step(q.push(x), i, s) == Err::<
                (Seq<Operator>, Seq<usize>),
                CrossRefError,
            >(e),
        },
{
    let qx = q.push(x);
    assert(qx[i] == q[i]);
    if s.len() > 0 {
        let b = s.last() as int;
        assert(s[s.len() - 1] < i);
        assert(qx[b] == q[b]);
        assert forall|v: Operator| #[trigger] qx.update(b, v) =~= q.update(b, v).push(x) by {}
        assert forall|v: Operator| #[trigger] qx.update(i, v) =~= q.update(i, v).push(x) by {}
        assert forall|v: Operator, w: Operator|
            #[trigger] qx.update(b, v).update(i, w) =~= q.update(b, v).update(i, w).push(x) by {}
        assert forall|v: Operator, w: Operator|
            #[trigger] qx.update(i, v).update(b, w) =~= q.update(i, v).update(b, w).push(x) by {}
    } else {
        assert forall|v: Operator| #[trigger] qx.update(i, v) =~= q.update(i, v).push(x) by {}
    }
    if let Ok((p2, s2)) = xref_step(q, i, s) {
        assert forall|k: int| 0 <= k < s2.len() implies (#[trigger] s2[k]) < i + 1 by {
            if k < s.len() && s2[k] != i as usize {
                assert(s2[k] == s[k]);
            }
        }
    }
}

proof fn lemma_loop_push(q: Seq<Operator>, i: int, s: Seq<usize>, x: Operator)
    requires
        0 <= i <= q.len(),
        forall|k: int| 0 <= k < s.len() ==> (#[trigger] s[k]) < i,
    ensures
        match xref_loop(q, i, s) {
            Ok((q2, s2)) => {
                &&& xref_loop(q.push(x), i, s) == xref_loop(q2.push(x), q.len() as int, s2)
                &&& q2.len() == q.len()
            },
            Err(e) => xref_loop(q.push(x), i, s) == Err::<
                (Seq<Operator>, Seq<usize>),
                CrossRefError,
            >(e),
        },
    decreases q.len() - i,
{
    if i < q.len() {
        lemma_step_push(q, i, s, x);
        if let Ok((p2, s2)) = xref_step(q, i, s) {
            lemma_loop_push(p2, i + 1, s2, x);
        }
    }
}

/// Appending a block opener (`if` or `while`) to a stream that
/// cross-references makes it fail with an unclosed block.
pub proof fn lemma_extra_opener_unclosed(p: Seq<Operator>, x: Operator)
    requires
        xref_spec(p) is Ok,
        x.typ == OpType::Keyword(KeywordType::If) || x.typ == OpType::Keyword(KeywordType::While),
    ensures
        xref_spec(p.push(x)) is Err,
        xref_spec(p.push(x))->Err_0 is UnclosedBlock,
{
    let e: Seq<usize> = Seq::empty();
    lemma_loop_push(p, 0, e, x);
    let q = xref_loop(p, 0, e)->Ok_0.0;
    let n = p.len() as int;
    let qx = q.push(x);
    assert(xref_loop(p, 0, e)->Ok_0.1.len() == 0);
    assert(xref_loop(p, 0, e)->Ok_0.1 =~= e);
    assert(qx[n] == x);
    let s1 = e.push(n as usize);
    assert(xref_step(qx, n, e) == Ok::<(Seq<Operator>, Seq<usize>), CrossRefError>((qx, s1)));
    assert(xref_loop(qx, n + 1, s1) == Ok::<(Seq<Operator>, Seq<usize>), CrossRefError>((qx, s1)));
    assert(xref_loop(qx, n, e) == Ok::<(Seq<Operator>, Seq<usize>), CrossRefError>((qx, s1)));
}

/// Appending an `end` to a stream that cross-references makes it fail with
/// the closer error, at that `end`.
pub proof fn lemma_extra_closer_rejected(p: Seq<Operator>, x: Operator)
    requires
        xref_spec(p) is Ok,
        x.typ == OpType::Keyword(KeywordType::End),
    ensures
        xref_spec(p.push(x)) == Err::<Seq<Operator>, CrossRefError>(
            CrossRefError::EndWithoutBlock(x.loc),
        ),
{
    let e: Seq<usize> = Seq::empty();
    lemma_loop_push(p, 0, e, x);
    let q = xref_loop(p, 0, e)->Ok_0.0;
    let n = p.len() as int;
    assert(q.push(x)[n] == x);
}

/// One keyword of block structure, on the stack `s` of open block kinds:
/// `if` and `while` open, `else` turns an `if` into an `else`, `do` turns
/// a `while` into a `do`, `end` closes any block but a bare `while`.
pub open spec fn nest_step(t: OpType, s: Seq<OpType>) -> Option<Seq<OpType>> {
    match t {
        OpType::Keyword(KeywordType::If) | OpType::Keyword(KeywordType::While) => Some(s.push(t)),
        OpType::Keyword(KeywordType::Else) => if s.len() > 0 && s.last() == OpType::Keyword(
            KeywordType::If,
        ) {
            Some(s.drop_last().push(t))
        } else {
            None
        },
        OpType::Keyword(KeywordType::Do) => if s.len() > 0 && s.last() == OpType::Keyword(
            KeywordType::While,
        ) {
            Some(s.drop_last().push(t))
        } else {
            None
        },
        OpType::Keyword(KeywordType::End) => if s.len() > 0 && (s.last() == OpType::Keyword(
            KeywordType::If,
        ) || s.last() == OpType::Keyword(KeywordType::Else) || s.last() == OpType::Keyword(
            KeywordType::Do,
        ) || s.last() == OpType::Keyword(KeywordType::Memory) || s.last() == OpType::Keyword(
            KeywordType::Constant,
        )) {
            Some(s.drop_last())
        } else {
            None
        },
        _ => Some(s),
    }
}

pub open spec fn nest_from(ts: Seq<OpType>, i: int, s: Seq<OpType>) -> Option<Seq<OpType>>
    decreases ts.len() - i,
{
    if i < 0 || i >= ts.len() {
        Some(s)
    } else {
        match nest_step(ts[i], s) {
            Some(s2) => nest_from(ts, i + 1, s2),
            None => None,
        }
    }
}

/// Whether the block keywords among `ts` are correctly nested: every
/// closer matches an open block and no block is left open.
pub open spec fn well_nested(ts: Seq<OpType>) -> bool {
    nest_from(ts, 0, Seq::empty()) == Some(Seq::<OpType>::empty())
}

pub open spec fn kinds(p: Seq<Operator>, s: Seq<usize>) -> Seq<OpType> {
    s.map_values(|x: usize| p[x as int].typ)
}

pub open spec fn sim_inv(init: Seq<Operator>, p: Seq<Operator>, i: int, s: Seq<usize>) -> bool {
    &&& p.len() == init.len()
    &&& 0 <= i <= p.len()
    &&& forall|k: int| 0 <= k < p.len() ==> (#[trigger] p[k]).typ == init[k].typ
    &&& forall|k: int| 0 <= k < s.len() ==> (#[trigger] s[k]) < i
}

proof fn lemma_step_sim(init: Seq<Operator>, p: Seq<Operator>, i: int, s: Seq<usize>)
    requires
        sim_inv(init, p, i, s),
        i < p.len(),
        i + 1 <= usize::MAX,
    ensures
        (xref_step(p, i, s) is Ok) == (nest_step(init[i].typ, kinds(p, s)) is Some),
        xref_step(p, i, s) matches Ok((p2, s2)) ==> sim_inv(init, p2, i + 1, s2) && nest_step(
            init[i].typ,
            kinds(p, s),
        ) == Some(kinds(p2, s2)),
{
    let k = kinds(p, s);
    if s.len() > 0 {
        assert(k.last() == p[s.last() as int].typ);
        assert(s[s.len() - 1] < i);
    }
    if let Ok((p2, s2)) = xref_step(p, i, s) {
        assert forall|j: int| 0 <= j < p2.len() implies (#[trigger] p2[j]).typ == init[j].typ by {
            assert(p2[j].typ == p[j].typ);
        }
        assert forall|j: int| 0 <= j < s2.len() implies (#[trigger] s2[j]) < i + 1 by {
            if j < s.len() && s2[j] != i as usize {
                assert(s2[j] == s[j]);
            }
        }
        let k2 = kinds(p2, s2);
        let t = init[i].typ;
        if t == OpType::Keyword(KeywordType::If) || t == OpType::Keyword(KeywordType::While) {
            assert(k2 =~= k.push(t));
        } else if t == OpType::Keyword(KeywordType::Else) || t == OpType::Keyword(KeywordType::Do) {
            assert(k2 =~= k.drop_last().push(t));
        } else if t == OpType::Keyword(KeywordType::End) {
            assert(k2 =~= k.drop_last());
        } else {
            assert(k2 =~= k);
        }
    }
}

proof fn lemma_loop_sim(init: Seq<Operator>, p: Seq<Operator>, i: int, s: Seq<usize>)
    requires
        sim_inv(init, p, i, s),
        p.len() <= usize::MAX,
    ensures
        (xref_loop(p, i, s) is Ok) == (nest_from(init.map_values(|o: Operator| o.typ), i, kinds(p, s)) is Some),
        xref_loop(p, i, s) matches Ok((q, sf)) ==> nest_from(
            init.map_values(|o: Operator| o.typ),
            i,
            kinds(p, s),
        )->Some_0.len() == sf.len(),
    decreases p.len() - i,
{
    let ts = init.map_values(|o: Operator| o.typ);
    if i < p.len() {
        lemma_step_sim(init, p, i, s);
        assert(ts[i] == init[i].typ);
        if let Ok((p2, s2)) = xref_step(p, i, s) {
            lemma_loop_sim(init, p2, i + 1, s2);
        }
    }
}

/// Cross-referencing succeeds exactly on streams whose block keywords are
/// correctly nested; a stream that is not fails.
pub proof fn lemma_balanced_blocks(p: Seq<Operator>)
    requires
        p.len() <= usize::MAX,
    ensures
        xref_spec(p) is Ok <==> well_nested(p.map_values(|o: Operator| o.typ)),
{
    let e: Seq<usize> = Seq::empty();
    assert(kinds(p, e) =~= Seq::<OpType>::empty());
    lemma_loop_sim(p, p, 0, e);
    let ts = p.map_values(|o: Operator| o.typ);
    let r = nest_from(ts, 0, Seq::empty());
    if let Ok((q, sf)) = xref_loop(p, 0, e) {
        assert(r is Some);
        if sf.len() == 0 {
            assert(r->Some_0 =~= Seq::<OpType>::empty());
        }
    }
}

fn set_jmp(p: &mut Vec<Operator>, i: usize, j: usize)
    requires
        i < old(p).len(),
    ensures
        final(p)@ == old(p)@.update(i as int, with_jmp(old(p)@[i as int], j as int)),
{
    let mut o = p[i].duplicate();
    o.jmp = j;
    p.set(i, o);
}

/// Patches every block keyword with its absolute jump target, using one
/// stack of open blocks.
pub fn cross_ref(program: Vec<Operator>) -> (r: Result<Vec<Operator>, CrossRefError>)
    ensures
        r is Ok <==> xref_spec(program@) is Ok,
        r matches Ok(v) ==> xref_spec(program@) == Ok::<Seq<Operator>, CrossRefError>(v@),
        r matches Err(e) ==> xref_spec(program@) == Err::<Seq<Operator>, CrossRefError>(e),
{
    let ghost init = program@;
    let mut p = program;
    let mut stack: Vec<usize> = Vec::new();
    let n = p.len();
    let mut ip: usize = 0;
    while ip < n
        invariant
            n == p.len(),
            n == init.len(),
            init == program@,
            ip <= n,
            forall|k: int| 0 <= k < stack.len() ==> stack@[k] < ip,
            xref_loop(init, 0, Seq::empty()) == xref_loop(p@, ip as int, stack@),
        decreases n - ip,
    {
        let ghost p0 = p@;
        let ghost s0 = stack@;
        assert(xref_loop(p0, ip as int, s0) == match xref_step(p0, ip as int, s0) {
            Ok((p2, s2)) => if p2.len() == p0.len() {
                xref_loop(p2, ip + 1, s2)
            } else {
                Ok((p2, s2))
            },
            Err(e) => Err(e),
        });
        let typ = p[ip].typ;
        match typ {
            OpType::Keyword(KeywordType::If) | OpType::Keyword(KeywordType::While) => {
                stack.push(ip);
            },
            OpType::Keyword(KeywordType::Else) => {
                if stack.len() == 0 {
                    return Err(CrossRefError::ElseWithoutIf(copy_loc(&p[ip].loc)));
                }
                let b = stack.pop().unwrap();
                if p[b].typ != OpType::Keyword(KeywordType::If) {
                    return Err(CrossRefError::ElseClosesNonIf(copy_loc(&p[ip].loc)));
                }
                set_jmp(&mut p, b, ip + 1);
                stack.push(ip);
            },
            OpType::Keyword(KeywordType::End) => {
                if stack.len() == 0 {
                    return Err(CrossRefError::EndWithoutBlock(copy_loc(&p[ip].loc)));
                }
                let b = stack.pop().unwrap();
                match p[b].typ {
                    OpType::Keyword(KeywordType::If) | OpType::Keyword(KeywordType::Else) => {
                        set_jmp(&mut p, b, ip);
                        set_jmp(&mut p, ip, ip + 1);
                    },
                    OpType::Keyword(KeywordType::Do) => {
                        let back = p[b].jmp;
                        set_jmp(&mut p, ip, back);
                        set_jmp(&mut p, b, ip + 1);
                    },
                    OpType::Keyword(KeywordType::Memory) | OpType::Keyword(KeywordType::Constant) => {},
                    _ => {
                        return Err(CrossRefError::EndClosesBadBlock(copy_loc(&p[ip].loc)));
                    },
                }
            },
            OpType::Keyword(KeywordType::Do) => {
                if stack.len() == 0 {
                    return Err(CrossRefError::DoWithoutWhile(copy_loc(&p[ip].loc)));
                }
                let b = stack.pop().unwrap();
                if p[b].typ != OpType::Keyword(KeywordType::While) {
                    return Err(CrossRefError::DoClosesNonWhile(copy_loc(&p[ip].loc)));
                }
                set_jmp(&mut p, ip, b);
                stack.push(ip);
            },
            _ => {},
        }
        ip = ip + 1;
    }
    if stack.len() > 0 {
        return Err(CrossRefError::UnclosedBlock(copy_loc(&p[stack[0]].loc)));
    }
    Ok(p)
}

} // verus!
