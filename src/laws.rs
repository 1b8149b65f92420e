use vstd::prelude::*;

use crate::hygiene::{gen_name, lemma_gen_name_injective};
use crate::processor::{
    hyg_name, is_stray_lead, lemma_body_next, lookup_assoc, prepend, rewrite_body, rewrite_line,
    rewrite_tokens, run_from, Hyg, MacroV,
};
use crate::token::Tok;

verus! {

/// Tokens that belong to the macro language: definitions, invocations,
/// parameter references, placeholders and block delimiters.
pub open spec fn is_macro_construct(t: Tok) -> bool {
    t is MacroDef || t is MacroExpand || is_stray_lead(t)
}

/// A document in which no token belongs to the macro language.
pub open spec fn is_plain(src: Seq<Seq<Tok>>) -> bool {
    forall|k: int, q: int| 0 <= k < src.len() && 0 <= q < src[k].len() ==> !is_macro_construct(#[trigger] src[k][q])
}

/// A line that a successful run may leave in its output: it does not start
/// with macro syntax.
pub open spec fn is_resolved_line(l: Seq<Tok>) -> bool {
    l.len() > 0 ==> !is_macro_construct(l[0])
}

/// Expanding a document that holds no macro construct gives the document
/// back unchanged, with the table and the counter untouched.
pub proof fn lemma_plain_is_identity(
    depth: nat,
    src: Seq<Seq<Tok>>,
    i: int,
    tab: Seq<(Seq<char>, MacroV)>,
    count: nat,
)
    requires
        is_plain(src),
        0 <= i <= src.len(),
    ensures
        run_from(depth, src, i, tab, count) == Ok::<_, crate::processor::ErrV>((src.subrange(i, src.len() as int), tab, count)),
    decreases src.len() - i,
{
    if i < src.len() {
        lemma_plain_is_identity(depth, src, i + 1, tab, count);
        if src[i].len() > 0 {
            assert(!is_macro_construct(src[i][0]));
        }
        assert(seq![src[i]] + src.subrange(i + 1, src.len() as int) =~= src.subrange(i, src.len() as int));
    } else {
        assert(src.subrange(i, src.len() as int) =~= seq![]);
    }
}

/// Every line of a successful run's output is fully resolved: no output line
/// starts with a definition, an invocation, or other macro syntax, however
/// deeply the expansions nested.
pub proof fn lemma_output_resolved(
    depth: nat,
    src: Seq<Seq<Tok>>,
    i: int,
    tab: Seq<(Seq<char>, MacroV)>,
    count: nat,
)
    ensures
        run_from(depth, src, i, tab, count) matches Ok((out, _t, _c)) ==> forall|k: int|
            0 <= k < out.len() ==> is_resolved_line(#[trigger] out[k]),
    decreases depth, crate::processor::lines_left(src.len(), i),
{
    if 0 <= i < src.len() {
        let line = src[i];
        if line.len() == 0 {
            lemma_output_resolved(depth, src, i + 1, tab, count);
            lemma_prepend_resolved(seq![line], run_from(depth, src, i + 1, tab, count));
        } else {
            match line[0] {
                Tok::MacroDef(name) => match crate::processor::def_len(src, i + 1) {
                    None => {},
                    Some(n) => {
                        lemma_output_resolved(
                            depth,
                            src,
                            i + 2 + n,
                            tab.push(
                                (name, MacroV { params: line.skip(1), body: src.subrange(i + 1, i + 1 + n) }),
                            ),
                            count,
                        );
                    },
                },
                Tok::MacroExpand(_) => match crate::processor::prepare(src, line, i + 1, tab, count) {
                    Err(e) => {},
                    Ok((body, span, c1)) => {
                        if depth > 0 {
                            lemma_output_resolved((depth - 1) as nat, body, 0, tab, c1);
                            match run_from((depth - 1) as nat, body, 0, tab, c1) {
                                Err(e) => {},
                                Ok((out, _t, c2)) => {
                                    lemma_output_resolved(depth, src, i + 1 + span, tab, c2);
                                    lemma_prepend_resolved(out, run_from(depth, src, i + 1 + span, tab, c2));
                                },
                            }
                        }
                    },
                },
                _ => {
                    lemma_output_resolved(depth, src, i + 1, tab, count);
                    if !is_stray_lead(line[0]) {
                        assert(is_resolved_line(seq![line][0]));
                        lemma_prepend_resolved(seq![line], run_from(depth, src, i + 1, tab, count));
                    }
                },
            }
        }
    }
}

proof fn lemma_prepend_resolved(
    pre: Seq<Seq<Tok>>,
    r: Result<(Seq<Seq<Tok>>, Seq<(Seq<char>, MacroV)>, nat), crate::processor::ErrV>,
)
    requires
        forall|k: int| 0 <= k < pre.len() ==> is_resolved_line(#[trigger] pre[k]),
        r matches Ok((out, _t, _c)) ==> forall|k: int| 0 <= k < out.len() ==> is_resolved_line(#[trigger] out[k]),
    ensures
        prepend(pre, r) matches Ok((out, _t, _c)) ==> forall|k: int|
            0 <= k < out.len() ==> is_resolved_line(#[trigger] out[k]),
{
    if let Ok((o, t, c)) = r {
        assert forall|k: int| 0 <= k < (pre + o).len() implies is_resolved_line(#[trigger] (pre + o)[k]) by {
            if k < pre.len() {
                assert((pre + o)[k] == pre[k]);
            } else {
                assert((pre + o)[k] == o[k - pre.len()]);
            }
        }
    }
}

/// `st` continues `st0`: earlier names are kept, and each entry added since
/// is a fresh name drawn at the next counter value in turn.
pub open spec fn hyg_extends(st0: Hyg, st: Hyg) -> bool {
    &&& st.memo.len() >= st0.memo.len()
    &&& st.memo.take(st0.memo.len() as int) == st0.memo
    &&& st.next == st0.next + (st.memo.len() - st0.memo.len())
    &&& forall|q: int|
        st0.memo.len() <= q < st.memo.len() ==> #[trigger] st.memo[q].1 == gen_name(
            (st0.next + q - st0.memo.len()) as nat,
            st.memo[q].0,
        )
    &&& forall|k: Seq<char>| #[trigger]
        lookup_assoc(st0.memo, k) is Some ==> lookup_assoc(st.memo, k) == lookup_assoc(st0.memo, k)
}

proof fn lemma_extends_trans(a: Hyg, b: Hyg, c: Hyg)
    requires
        hyg_extends(a, b),
        hyg_extends(b, c),
    ensures
        hyg_extends(a, c),
{
    assert(c.memo.take(a.memo.len() as int) =~= c.memo.take(b.memo.len() as int).take(a.memo.len() as int));
    assert forall|q: int| a.memo.len() <= q < c.memo.len() implies #[trigger] c.memo[q].1 == gen_name(
        (a.next + q - a.memo.len()) as nat,
        c.memo[q].0,
    ) by {
        if q < b.memo.len() {
            assert(c.memo[q] == c.memo.take(b.memo.len() as int)[q]);
            assert(b.memo[q].1 == gen_name((a.next + q - a.memo.len()) as nat, b.memo[q].0));
        }
    }
}

/// The name given to a placeholder is the one the memo keeps for it
/// afterwards, and drawing it keeps every earlier name.
pub proof fn lemma_hyg_name_recorded(st: Hyg, k: Seq<char>)
    ensures
        lookup_assoc(hyg_name(st, k).1.memo, k) == Some(hyg_name(st, k).0),
        hyg_extends(st, hyg_name(st, k).1),
{
    let st2 = hyg_name(st, k).1;
    if lookup_assoc(st.memo, k) is None {
        assert(st2.memo.take(st.memo.len() as int) =~= st.memo);
        assert(st2.memo.drop_last() =~= st.memo);
        assert forall|k2: Seq<char>| #[trigger]
            lookup_assoc(st.memo, k2) is Some implies lookup_assoc(st2.memo, k2) == lookup_assoc(st.memo, k2) by {
            assert(k2 != k);
        }
    } else {
        assert(st2.memo.take(st.memo.len() as int) =~= st.memo);
    }
}

proof fn lemma_extends_refl(st: Hyg)
    ensures
        hyg_extends(st, st),
{
    assert(st.memo.take(st.memo.len() as int) =~= st.memo);
}

proof fn lemma_tokens_extend(toks: Seq<Tok>, binds: Seq<(Seq<char>, Tok)>, st: Hyg)
    ensures
        hyg_extends(st, rewrite_tokens(toks, binds, st).1),
    decreases toks.len(),
{
    if toks.len() == 0 {
        lemma_extends_refl(st);
    } else {
        lemma_tokens_extend(toks.drop_last(), binds, st);
        let st1 = rewrite_tokens(toks.drop_last(), binds, st).1;
        if let Tok::GenericIdentifier(k) = toks.last() {
            lemma_hyg_name_recorded(st1, k);
            lemma_extends_trans(st, st1, hyg_name(st1, k).1);
        }
    }
}

proof fn lemma_line_extends(
    l: Seq<Tok>,
    binds: Seq<(Seq<char>, Tok)>,
    blocks: Seq<(Seq<char>, Seq<Seq<Tok>>)>,
    st: Hyg,
)
    ensures
        hyg_extends(st, rewrite_line(l, binds, blocks, st).1),
{
    lemma_extends_refl(st);
    lemma_tokens_extend(l, binds, st);
    if l.len() == 1 && l[0] is GenericLabel {
        lemma_hyg_name_recorded(st, l[0]->GenericLabel_0);
    }
}

/// Within one body rewrite a placeholder keeps the name it was first
/// given, so every use of it, as a label or as an identifier, resolves to
/// that one name; and the fresh names are drawn in counter order, the n-th
/// at the starting counter value plus n.
pub proof fn lemma_rewrite_extends(
    body: Seq<Seq<Tok>>,
    binds: Seq<(Seq<char>, Tok)>,
    blocks: Seq<(Seq<char>, Seq<Seq<Tok>>)>,
    st: Hyg,
)
    ensures
        hyg_extends(st, rewrite_body(body, binds, blocks, st).1),
    decreases body.len(),
{
    if body.len() == 0 {
        lemma_extends_refl(st);
    } else {
        lemma_rewrite_extends(body.drop_last(), binds, blocks, st);
        let st1 = rewrite_body(body.drop_last(), binds, blocks, st).1;
        lemma_line_extends(body.last(), binds, blocks, st1);
        lemma_extends_trans(st, st1, rewrite_line(body.last(), binds, blocks, st1).1);
    }
}

/// Two expansions, the second begun no earlier than the counter value at
/// which the first ended, never share a generated name.
pub proof fn lemma_expansions_disjoint(
    body1: Seq<Seq<Tok>>,
    binds1: Seq<(Seq<char>, Tok)>,
    blocks1: Seq<(Seq<char>, Seq<Seq<Tok>>)>,
    c1: nat,
    body2: Seq<Seq<Tok>>,
    binds2: Seq<(Seq<char>, Tok)>,
    blocks2: Seq<(Seq<char>, Seq<Seq<Tok>>)>,
    c2: nat,
)
    requires
        c2 >= rewrite_body(body1, binds1, blocks1, Hyg { memo: seq![], next: c1 }).1.next,
    ensures
        ({
            let m1 = rewrite_body(body1, binds1, blocks1, Hyg { memo: seq![], next: c1 }).1.memo;
            let m2 = rewrite_body(body2, binds2, blocks2, Hyg { memo: seq![], next: c2 }).1.memo;
            forall|q1: int, q2: int| 0 <= q1 < m1.len() && 0 <= q2 < m2.len() ==> #[trigger] m1[q1].1 != #[trigger] m2[q2].1
        }),
{
    let s1 = Hyg { memo: seq![], next: c1 };
    let s2 = Hyg { memo: seq![], next: c2 };
    lemma_rewrite_extends(body1, binds1, blocks1, s1);
    lemma_rewrite_extends(body2, binds2, blocks2, s2);
    let f1 = rewrite_body(body1, binds1, blocks1, s1).1;
    let f2 = rewrite_body(body2, binds2, blocks2, s2).1;
    assert forall|q1: int, q2: int| 0 <= q1 < f1.memo.len() && 0 <= q2 < f2.memo.len() implies #[trigger] f1.memo[q1].1
        != #[trigger] f2.memo[q2].1 by {
        assert(f1.memo[q1].1 == gen_name((c1 + q1) as nat, f1.memo[q1].0));
        assert(f2.memo[q2].1 == gen_name((c2 + q2) as nat, f2.memo[q2].0));
        if f1.memo[q1].1 == f2.memo[q2].1 {
            lemma_gen_name_injective((c1 + q1) as nat, f1.memo[q1].0, (c2 + q2) as nat, f2.memo[q2].0);
        }
    }
}

/// A successful run never moves the counter back, so an expansion later in
/// the document starts at or beyond the counter value where an earlier one
/// ended.
pub proof fn lemma_run_count_grows(
    depth: nat,
    src: Seq<Seq<Tok>>,
    i: int,
    tab: Seq<(Seq<char>, MacroV)>,
    count: nat,
)
    ensures
        run_from(depth, src, i, tab, count) matches Ok((_o, _t, c)) ==> c >= count,
    decreases depth, crate::processor::lines_left(src.len(), i),
{
    if 0 <= i < src.len() {
        let line = src[i];
        if line.len() == 0 {
            lemma_run_count_grows(depth, src, i + 1, tab, count);
        } else {
            match line[0] {
                Tok::MacroDef(name) => match crate::processor::def_len(src, i + 1) {
                    None => {},
                    Some(n) => {
                        lemma_run_count_grows(
                            depth,
                            src,
                            i + 2 + n,
                            tab.push(
                                (name, MacroV { params: line.skip(1), body: src.subrange(i + 1, i + 1 + n) }),
                            ),
                            count,
                        );
                    },
                },
                Tok::MacroExpand(mname) => match crate::processor::prepare(src, line, i + 1, tab, count) {
                    Err(e) => {},
                    Ok((body, span, c1)) => {
                        let m = lookup_assoc(tab, mname)->Some_0;
                        let bs = crate::processor::capture_all(src, i + 1, crate::processor::block_names(m.params))->Some_0;
                        let binds = crate::processor::bindings(crate::processor::positional(m.params), line.skip(1));
                        lemma_body_next(m.body, binds, bs, Hyg { memo: seq![], next: count }, 0);
                        if depth > 0 {
                            lemma_run_count_grows((depth - 1) as nat, body, 0, tab, c1);
                            match run_from((depth - 1) as nat, body, 0, tab, c1) {
                                Err(e) => {},
                                Ok((out, _t, c2)) => {
                                    lemma_run_count_grows(depth, src, i + 1 + span, tab, c2);
                                },
                            }
                        }
                    },
                },
                _ => {
                    lemma_run_count_grows(depth, src, i + 1, tab, count);
                },
            }
        }
    }
}

} // verus!
