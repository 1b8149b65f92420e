use vstd::prelude::*;
use vstd::string::StringExecFns;

use crate::hygiene::{gen_name, make_name};
use crate::token::{copy_line, copy_lines, token_text, Tok, Token};

verus! {

/// Deepest macro nesting that one run accepts before giving up.
pub const MAX_DEPTH: usize = 1024;

/// Model of a macro: declared parameters and the raw body lines.
pub struct MacroV {
    pub params: Seq<Tok>,
    pub body: Seq<Seq<Tok>>,
}

/// Model of the failure outcomes of a run.
pub enum ErrV {
    UndefinedMacro(Seq<char>),
    UnterminatedDefinition,
    UnterminatedBlock,
    LimitExceeded,
}

/// Hygiene state of one body rewrite: placeholder names chosen so far,
/// and the next counter value.
pub struct Hyg {
    pub memo: Seq<(Seq<char>, Seq<char>)>,
    pub next: nat,
}

/// Last binding of `key` in an association list.
pub open spec fn lookup_assoc<V>(list: Seq<(Seq<char>, V)>, key: Seq<char>) -> Option<V>
    decreases list.len(),
{
    if list.len() == 0 {
        None
    } else if list.last().0 == key {
        Some(list.last().1)
    } else {
        lookup_assoc(list.drop_last(), key)
    }
}

pub open spec fn is_keyword(t: Tok, w: Seq<char>) -> bool {
    t matches Tok::Keyword(k) && k == w
}

pub open spec fn begin_word() -> Seq<char> {
    seq!['b', 'e', 'g', 'i', 'n']
}

pub open spec fn end_word() -> Seq<char> {
    seq!['e', 'n', 'd']
}

/// Leading tokens that make a line meaningless outside a macro body or a
/// block argument; such lines are dropped by a run.
pub open spec fn is_stray_lead(t: Tok) -> bool {
    match t {
        Tok::MacroDefEnd => true,
        Tok::MacroExpandLabel(_) => true,
        Tok::BlockParam(_) => true,
        Tok::GenericIdentifier(_) => true,
        Tok::GenericLabel(_) => true,
        Tok::Keyword(k) => k == begin_word() || k == end_word(),
        _ => false,
    }
}

/// Number of lines from `k` on before the first line that starts with `!!`.
pub open spec fn def_len(src: Seq<Seq<Tok>>, k: int) -> Option<nat>
    decreases lines_left(src.len(), k),
{
    if k < 0 || k >= src.len() {
        None
    } else if src[k].len() > 0 && src[k][0] is MacroDefEnd {
        Some(0)
    } else {
        match def_len(src, k + 1) {
            Some(n) => Some(n + 1),
            None => None,
        }
    }
}

/// Index of the line at or after `k` holding the `$end` that closes a block
/// whose nesting is `depth` at `k`.
pub open spec fn block_end(src: Seq<Seq<Tok>>, k: int, depth: nat) -> Option<int>
    decreases lines_left(src.len(), k),
{
    if k < 0 || k >= src.len() {
        None
    } else if src[k].len() > 0 && is_keyword(src[k][0], begin_word()) {
        block_end(src, k + 1, depth + 1)
    } else if src[k].len() > 0 && is_keyword(src[k][0], end_word()) {
        if depth == 0 {
            Some(k)
        } else {
            block_end(src, k + 1, (depth - 1) as nat)
        }
    } else {
        block_end(src, k + 1, depth)
    }
}

/// The block argument whose opening line is at `j`: the lines strictly
/// between it and its closing `$end`.
pub open spec fn capture_one(src: Seq<Seq<Tok>>, j: int) -> Option<Seq<Seq<Tok>>> {
    match block_end(src, j + 1, 0) {
        Some(e) => Some(src.subrange(j + 1, e)),
        None => None,
    }
}

/// Number of source lines that a list of captured blocks spans, delimiters
/// included.
pub open spec fn blocks_span(bs: Seq<(Seq<char>, Seq<Seq<Tok>>)>) -> nat
    decreases bs.len(),
{
    if bs.len() == 0 {
        0
    } else {
        blocks_span(bs.drop_last()) + bs.last().1.len() + 2
    }
}

/// One block per name, captured one after another from line `j` on.
pub open spec fn capture_all(src: Seq<Seq<Tok>>, j: int, names: Seq<Seq<char>>) -> Option<
    Seq<(Seq<char>, Seq<Seq<Tok>>)>,
>
    decreases names.len(),
{
    if names.len() == 0 {
        Some(seq![])
    } else {
        match capture_all(src, j, names.drop_last()) {
            None => None,
            Some(bs) => match capture_one(src, j + blocks_span(bs)) {
                None => None,
                Some(b) => Some(bs.push((names.last(), b))),
            },
        }
    }
}

/// The positional (non-block) parameters, in declaration order.
pub open spec fn positional(params: Seq<Tok>) -> Seq<Tok>
    decreases params.len(),
{
    if params.len() == 0 {
        seq![]
    } else if params.last() is BlockParam {
        positional(params.drop_last())
    } else {
        positional(params.drop_last()).push(params.last())
    }
}

/// The names of the block parameters, in declaration order.
pub open spec fn block_names(params: Seq<Tok>) -> Seq<Seq<char>>
    decreases params.len(),
{
    if params.len() == 0 {
        seq![]
    } else {
        match params.last() {
            Tok::BlockParam(p) => block_names(params.drop_last()).push(p),
            _ => block_names(params.drop_last()),
        }
    }
}

/// Positional parameters zipped with the call arguments: each parameter's
/// surface text bound to the argument at its position.
pub open spec fn bindings(pos: Seq<Tok>, args: Seq<Tok>) -> Seq<(Seq<char>, Tok)> {
    let n = if pos.len() < args.len() {
        pos.len()
    } else {
        args.len()
    };
    Seq::new(n, |k: int| (token_text(pos[k]), args[k]))
}

/// The name for placeholder `k`: the remembered one, or a fresh one.
pub open spec fn hyg_name(st: Hyg, k: Seq<char>) -> (Seq<char>, Hyg) {
    match lookup_assoc(st.memo, k) {
        Some(n) => (n, st),
        None => (gen_name(st.next, k), Hyg { memo: st.memo.push((k, gen_name(st.next, k))), next: st.next + 1 }),
    }
}

/// Token-by-token rewrite of a body line.
pub open spec fn rewrite_tokens(toks: Seq<Tok>, binds: Seq<(Seq<char>, Tok)>, st: Hyg) -> (Seq<Tok>, Hyg)
    decreases toks.len(),
{
    if toks.len() == 0 {
        (seq![], st)
    } else {
        let (pre, st1) = rewrite_tokens(toks.drop_last(), binds, st);
        match toks.last() {
            Tok::MacroExpand(p) => match lookup_assoc(binds, p) {
                Some(a) => (pre.push(a), st1),
                None => (pre.push(toks.last()), st1),
            },
            Tok::GenericIdentifier(k) => {
                let (n, st2) = hyg_name(st1, k);
                (pre.push(Tok::Identifier(n)), st2)
            },
            _ => (pre.push(toks.last()), st1),
        }
    }
}

/// Rewrite of one body line into the lines it stands for.
pub open spec fn rewrite_line(
    l: Seq<Tok>,
    binds: Seq<(Seq<char>, Tok)>,
    blocks: Seq<(Seq<char>, Seq<Seq<Tok>>)>,
    st: Hyg,
) -> (Seq<Seq<Tok>>, Hyg) {
    if l.len() == 1 && l[0] is MacroExpandLabel && lookup_assoc(binds, l[0]->MacroExpandLabel_0) is Some {
        (seq![seq![Tok::Label(token_text(lookup_assoc(binds, l[0]->MacroExpandLabel_0)->Some_0))]], st)
    } else if l.len() == 1 && l[0] is BlockParam && lookup_assoc(blocks, l[0]->BlockParam_0) is Some {
        (lookup_assoc(blocks, l[0]->BlockParam_0)->Some_0, st)
    } else if l.len() == 1 && l[0] is GenericLabel {
        let (n, st2) = hyg_name(st, l[0]->GenericLabel_0);
        (seq![seq![Tok::Label(n)]], st2)
    } else {
        let (t, st2) = rewrite_tokens(l, binds, st);
        (seq![t], st2)
    }
}

/// Rewrite of a whole macro body, threading the hygiene state line by line.
pub open spec fn rewrite_body(
    body: Seq<Seq<Tok>>,
    binds: Seq<(Seq<char>, Tok)>,
    blocks: Seq<(Seq<char>, Seq<Seq<Tok>>)>,
    st: Hyg,
) -> (Seq<Seq<Tok>>, Hyg)
    decreases body.len(),
{
    if body.len() == 0 {
        (seq![], st)
    } else {
        let (pre, st1) = rewrite_body(body.drop_last(), binds, blocks, st);
        let (ls, st2) = rewrite_line(body.last(), binds, blocks, st1);
        (pre + ls, st2)
    }
}

/// The invocation `line`, whose next line is at `j`, up to the rewritten
/// body: the body lines to expand next, how many lines from `j` on the block
/// arguments took, and the counter after the rewrite.
pub open spec fn prepare(
    src: Seq<Seq<Tok>>,
    line: Seq<Tok>,
    j: int,
    tab: Seq<(Seq<char>, MacroV)>,
    count: nat,
) -> Result<(Seq<Seq<Tok>>, nat, nat), ErrV> {
    let name = line[0]->MacroExpand_0;
    match lookup_assoc(tab, name) {
        None => Err(ErrV::UndefinedMacro(name)),
        Some(m) => match capture_all(src, j, block_names(m.params)) {
            None => Err(ErrV::UnterminatedBlock),
            Some(bs) => {
                let binds = bindings(positional(m.params), line.skip(1));
                let (out, st) = rewrite_body(m.body, binds, bs, Hyg { memo: seq![], next: count });
                if st.next > usize::MAX {
                    Err(ErrV::LimitExceeded)
                } else {
                    Ok((out, blocks_span(bs), st.next))
                }
            },
        },
    }
}

/// Prepends `pre` to the output of a successful run.
pub open spec fn prepend(
    pre: Seq<Seq<Tok>>,
    r: Result<(Seq<Seq<Tok>>, Seq<(Seq<char>, MacroV)>, nat), ErrV>,
) -> Result<(Seq<Seq<Tok>>, Seq<(Seq<char>, MacroV)>, nat), ErrV> {
    match r {
        Ok((o, t, c)) => Ok((pre + o, t, c)),
        Err(e) => Err(e),
    }
}

/// Lines left from `i` on in a source of `len` lines.
pub open spec fn lines_left(len: nat, i: int) -> nat {
    if i < len {
        (len - i) as nat
    } else {
        0
    }
}

/// A run over `src` from line `i`, with macro table `tab`, counter `count`
/// and `depth` more levels of nesting allowed: the expanded lines, the table
/// after the last line, and the counter after the run.
pub open spec fn run_from(
    depth: nat,
    src: Seq<Seq<Tok>>,
    i: int,
    tab: Seq<(Seq<char>, MacroV)>,
    count: nat,
) -> Result<(Seq<Seq<Tok>>, Seq<(Seq<char>, MacroV)>, nat), ErrV>
    decreases depth, lines_left(src.len(), i),
{
    if i < 0 || i >= src.len() {
        Ok((seq![], tab, count))
    } else {
        let line = src[i];
        if line.len() == 0 {
            prepend(seq![line], run_from(depth, src, i + 1, tab, count))
        } else {
            match line[0] {
                Tok::MacroDef(name) => match def_len(src, i + 1) {
                    None => Err(ErrV::UnterminatedDefinition),
                    Some(n) => run_from(
                        depth,
                        src,
                        i + 2 + n,
                        tab.push(
                            (name, MacroV { params: line.skip(1), body: src.subrange(i + 1, i + 1 + n) }),
                        ),
                        count,
                    ),
                },
                Tok::MacroExpand(_) => match prepare(src, line, i + 1, tab, count) {
                    Err(e) => Err(e),
                    Ok((body, span, c1)) => {
                        if depth == 0 {
                            Err(ErrV::LimitExceeded)
                        } else {
                            match run_from((depth - 1) as nat, body, 0, tab, c1) {
                                Err(e) => Err(e),
                                Ok((out, _t, c2)) => prepend(out, run_from(depth, src, i + 1 + span, tab, c2)),
                            }
                        }
                    },
                },
                _ => if is_stray_lead(line[0]) {
                    run_from(depth, src, i + 1, tab, count)
                } else {
                    prepend(seq![line], run_from(depth, src, i + 1, tab, count))
                },
            }
        }
    }
}

/// The full expansion of the invocation `line`, whose next line is at `j`:
/// the expanded lines, how many lines from `j` on its block arguments took,
/// and the counter afterwards.
pub open spec fn expand_at(
    depth: nat,
    src: Seq<Seq<Tok>>,
    line: Seq<Tok>,
    j: int,
    tab: Seq<(Seq<char>, MacroV)>,
    count: nat,
) -> Result<(Seq<Seq<Tok>>, nat, nat), ErrV> {
    match prepare(src, line, j, tab, count) {
        Err(e) => Err(e),
        Ok((body, span, c1)) => {
            if depth == 0 {
                Err(ErrV::LimitExceeded)
            } else {
                match run_from((depth - 1) as nat, body, 0, tab, c1) {
                    Err(e) => Err(e),
                    Ok((out, _t, c2)) => Ok((out, span, c2)),
                }
            }
        },
    }
}

/// If block capture fails for some prefix of the names, it fails for all.
pub proof fn lemma_capture_none(src: Seq<Seq<Tok>>, j: int, names: Seq<Seq<char>>, b: int)
    requires
        0 <= b <= names.len(),
        capture_all(src, j, names.take(b)) is None,
    ensures
        capture_all(src, j, names) is None,
    decreases names.len(),
{
    if b == names.len() {
        assert(names.take(b) =~= names);
    } else {
        assert(names.drop_last().take(b) =~= names.take(b));
        lemma_capture_none(src, j, names.drop_last(), b);
    }
}

/// Outcome of a failed run.
#[derive(Debug)]
pub enum ExpandError {
    /// An invocation names a macro that no earlier definition introduced.
    UndefinedMacro(String),
    /// The input ended inside a macro definition.
    UnterminatedDefinition,
    /// The input ended while a block argument was being captured.
    UnterminatedBlock,
    /// Macro nesting went deeper than `MAX_DEPTH`, or the generated-name
    /// counter ran out.
    LimitExceeded,
}

impl View for ExpandError {
    type V = ErrV;

    open spec fn view(&self) -> ErrV {
        match self {
            ExpandError::UndefinedMacro(n) => ErrV::UndefinedMacro(n@),
            ExpandError::UnterminatedDefinition => ErrV::UnterminatedDefinition,
            ExpandError::UnterminatedBlock => ErrV::UnterminatedBlock,
            ExpandError::LimitExceeded => ErrV::LimitExceeded,
        }
    }
}

/// A macro definition: declared parameters and raw body lines.
pub struct Macro {
    args: Vec<Token>,
    body: Vec<Vec<Token>>,
}

impl DeepView for Macro {
    type V = MacroV;

    closed spec fn deep_view(&self) -> MacroV {
        MacroV { params: self.args.deep_view(), body: self.body.deep_view() }
    }
}

impl Macro {
    fn copy(&self) -> (r: Macro)
        ensures
            r.deep_view() == self.deep_view(),
    {
        Macro { args: copy_line(&self.args), body: copy_lines(&self.body) }
    }
}

/// Model of an engine instance.
pub struct EngineV {
    pub source: Seq<Seq<Tok>>,
    pub cursor: nat,
    pub table: Seq<(Seq<char>, MacroV)>,
    pub count: nat,
}

/// The expansion engine: source lines, a cursor into them, the macro table
/// and the generated-name counter.
pub struct MacroProcessor {
    tokens: Vec<Vec<Token>>,
    macros: Vec<(String, Macro)>,
    gen_ident_count: usize,
    i: usize,
}

impl View for MacroProcessor {
    type V = EngineV;

    closed spec fn view(&self) -> EngineV {
        EngineV {
            source: self.tokens.deep_view(),
            cursor: self.i as nat,
            table: self.macros.deep_view(),
            count: self.gen_ident_count as nat,
        }
    }
}

/// Index of the last entry of `list` whose key is `key`.
fn find_last<V: DeepView>(list: &Vec<(String, V)>, key: &String) -> (r: Option<usize>)
    ensures
        match r {
            None => lookup_assoc(list.deep_view(), key@) is None,
            Some(k) => k < list.len() && lookup_assoc(list.deep_view(), key@) == Some(
                list.deep_view()[k as int].1,
            ),
        },
{
    let mut k: usize = list.len();
    proof {
        assert(list.deep_view().take(k as int) =~= list.deep_view());
    }
    while k > 0
        invariant
            k <= list.len(),
            lookup_assoc(list.deep_view(), key@) == lookup_assoc(list.deep_view().take(k as int), key@),
        decreases k,
    {
        proof {
            assert(list.deep_view().take(k as int).drop_last() =~= list.deep_view().take(k - 1));
        }
        if list[k - 1].0 == *key {
            return Some(k - 1);
        }
        k = k - 1;
    }
    None
}

/// A copy of a run of lines `lines[from..to]`.
fn copy_range(lines: &Vec<Vec<Token>>, from: usize, to: usize) -> (r: Vec<Vec<Token>>)
    requires
        from <= to <= lines.len(),
    ensures
        r.deep_view() == lines.deep_view().subrange(from as int, to as int),
{
    let mut r: Vec<Vec<Token>> = Vec::new();
    let mut k: usize = from;
    while k < to
        invariant
            from <= k <= to <= lines.len(),
            r.deep_view() == lines.deep_view().subrange(from as int, k as int),
        decreases to - k,
    {
        let ghost before = r.deep_view();
        r.push(copy_line(&lines[k]));
        k = k + 1;
        proof {
            assert(r.deep_view() =~= before.push(lines.deep_view()[k - 1]));
            assert(r.deep_view() =~= lines.deep_view().subrange(from as int, k as int));
        }
    }
    r
}

/// Whether `t` is the keyword `w`.
fn keyword_is(t: &Token, w: &str) -> (r: bool)
    ensures
        r == is_keyword(t@, w@),
{
    match t {
        Token::Keyword(k) => *k == String::from_str(w),
        _ => false,
    }
}

/// Two engine states that differ at most in their counters.
pub open spec fn same_but_count(a: EngineV, b: EngineV) -> bool {
    a.source == b.source && a.cursor == b.cursor && a.table == b.table
}

/// Drawing a name never moves the counter back.
pub proof fn lemma_hyg_next(st: Hyg, k: Seq<char>)
    ensures
        hyg_name(st, k).1.next >= st.next,
{
}

/// Rewriting more tokens never leaves the counter lower.
pub proof fn lemma_tokens_next(toks: Seq<Tok>, binds: Seq<(Seq<char>, Tok)>, st: Hyg, j: int)
    requires
        0 <= j <= toks.len(),
    ensures
        rewrite_tokens(toks.take(j), binds, st).1.next <= rewrite_tokens(toks, binds, st).1.next,
        st.next <= rewrite_tokens(toks, binds, st).1.next,
    decreases toks.len(),
{
    if toks.len() == 0 {
        assert(toks.take(j) =~= toks);
    } else {
        let pre = toks.drop_last();
        if j == toks.len() {
            assert(toks.take(j) =~= toks);
            lemma_tokens_next(pre, binds, st, 0);
        } else {
            lemma_tokens_next(pre, binds, st, j);
            assert(pre.take(j) =~= toks.take(j));
        }
        let st1 = rewrite_tokens(pre, binds, st).1;
        if let Tok::GenericIdentifier(k) = toks.last() {
            lemma_hyg_next(st1, k);
        }
    }
}

/// Rewriting a line never moves the counter back.
pub proof fn lemma_line_next(
    l: Seq<Tok>,
    binds: Seq<(Seq<char>, Tok)>,
    blocks: Seq<(Seq<char>, Seq<Seq<Tok>>)>,
    st: Hyg,
)
    ensures
        rewrite_line(l, binds, blocks, st).1.next >= st.next,
{
    lemma_tokens_next(l, binds, st, 0);
}

/// Rewriting more body lines never leaves the counter lower.
pub proof fn lemma_body_next(
    body: Seq<Seq<Tok>>,
    binds: Seq<(Seq<char>, Tok)>,
    blocks: Seq<(Seq<char>, Seq<Seq<Tok>>)>,
    st: Hyg,
    j: int,
)
    requires
        0 <= j <= body.len(),
    ensures
        rewrite_body(body.take(j), binds, blocks, st).1.next <= rewrite_body(body, binds, blocks, st).1.next,
        st.next <= rewrite_body(body, binds, blocks, st).1.next,
    decreases body.len(),
{
    if body.len() == 0 {
        assert(body.take(j) =~= body);
    } else {
        let pre = body.drop_last();
        if j == body.len() {
            assert(body.take(j) =~= body);
            lemma_body_next(pre, binds, blocks, st, 0);
        } else {
            lemma_body_next(pre, binds, blocks, st, j);
            assert(pre.take(j) =~= body.take(j));
        }
        lemma_line_next(body.last(), binds, blocks, rewrite_body(pre, binds, blocks, st).1);
    }
}

/// Appends `more` to `dst`.
fn extend_lines(dst: &mut Vec<Vec<Token>>, more: Vec<Vec<Token>>)
    ensures
        final(dst).deep_view() == old(dst).deep_view() + more.deep_view(),
{
    let ghost d0 = dst.deep_view();
    let mut more = more;
    let ghost m0 = more.deep_view();
    dst.append(&mut more);
    proof {
        assert(dst.deep_view() =~= d0 + m0);
    }
}

/// Whether the line's first token is the keyword `w`.
fn leads_with_keyword(line: &Vec<Token>, w: &str) -> (r: bool)
    ensures
        r == (line@.len() > 0 && is_keyword(line@[0]@, w@)),
{
    line.len() > 0 && keyword_is(&line[0], w)
}

/// Whether a line led by `t` is dropped by a run.
fn stray_lead(t: &Token) -> (r: bool)
    ensures
        r == is_stray_lead(t@),
{
    proof {
        reveal_strlit("begin");
        reveal_strlit("end");
        assert("begin"@ =~= begin_word());
        assert("end"@ =~= end_word());
    }
    match t {
        Token::MacroDefEnd => true,
        Token::MacroExpandLabel(_) => true,
        Token::BlockParam(_) => true,
        Token::GenericIdentifier(_) => true,
        Token::GenericLabel(_) => true,
        Token::Keyword(_) => keyword_is(t, "begin") || keyword_is(t, "end"),
        _ => false,
    }
}

impl MacroProcessor {
    /// An engine over `tokens` with an empty macro table, the cursor at the
    /// first line and the counter at zero.
    pub fn new(tokens: Vec<Vec<Token>>) -> (r: Self)
        ensures
            r@ == (EngineV { source: tokens.deep_view(), cursor: 0, table: seq![], count: 0 }),
    {
        let r = MacroProcessor { tokens, macros: Vec::new(), gen_ident_count: 0, i: 0 };
        proof {
            assert(r.macros.deep_view() =~= seq![]);
        }
        r
    }

    /// The engine with copies of `macros` added to its table.
    fn with_macros(self, macros: &Vec<(String, Macro)>) -> (r: Self)
        ensures
            r@ == (EngineV { table: self@.table + macros.deep_view(), ..self@ }),
    {
        let mut s = self;
        let mut k: usize = 0;
        while k < macros.len()
            invariant
                k <= macros.len(),
                s@ == (EngineV { table: self@.table + macros.deep_view().take(k as int), ..self@ }),
            decreases macros.len() - k,
        {
            let ghost before = s.macros.deep_view();
            s.macros.push((macros[k].0.clone(), macros[k].1.copy()));
            k = k + 1;
            proof {
                assert(s.macros.deep_view() =~= before.push(macros.deep_view()[k - 1]));
                assert(self@.table + macros.deep_view().take(k as int) =~= (self@.table
                    + macros.deep_view().take(k - 1)).push(macros.deep_view()[k - 1]));
            }
        }
        proof {
            assert(macros.deep_view().take(k as int) =~= macros.deep_view());
        }
        s
    }

    /// The engine with its counter set to `n`.
    fn with_ident_count(self, n: usize) -> (r: Self)
        ensures
            r@ == (EngineV { count: n as nat, ..self@ }),
    {
        let mut s = self;
        s.gen_ident_count = n;
        s
    }

    /// A fresh name for placeholder `k` from the counter, which advances;
    /// `None` when the counter is exhausted.
    fn generate_ident(&mut self, k: &String) -> (r: Option<String>)
        ensures
            old(self)@.count < usize::MAX ==> (r matches Some(n) && n@ == gen_name(old(self)@.count, k@)
                && final(self)@ == (EngineV { count: old(self)@.count + 1, ..old(self)@ })),
            old(self)@.count >= usize::MAX ==> r is None && final(self)@ == old(self)@,
    {
        if self.gen_ident_count == usize::MAX {
            return None;
        }
        let n = make_name(self.gen_ident_count, k);
        self.gen_ident_count = self.gen_ident_count + 1;
        Some(n)
    }

    /// Captures the block argument whose opening line is at the cursor; the
    /// cursor then sits just past its closing `$end`.
    fn parse_block(&mut self) -> (r: Option<Vec<Vec<Token>>>)
        requires
            old(self).i <= old(self).tokens.len(),
        ensures
            final(self)@.source == old(self)@.source,
            final(self)@.table == old(self)@.table,
            final(self)@.count == old(self)@.count,
            final(self).i <= final(self).tokens.len(),
            match capture_one(old(self)@.source, old(self)@.cursor as int) {
                None => r is None,
                Some(b) => r matches Some(v) && v.deep_view() == b && final(self)@.cursor
                    == old(self)@.cursor + b.len() + 2,
            },
    {
        let ghost src = self@.source;
        let start: usize = self.i;
        if start >= self.tokens.len() {
            return None;
        }
        proof {
            reveal_strlit("begin");
            reveal_strlit("end");
            assert("begin"@ =~= begin_word());
            assert("end"@ =~= end_word());
        }
        let mut k: usize = start + 1;
        let mut depth: usize = 0;
        let mut done = false;
        while !done && k < self.tokens.len()
            invariant
                start + 1 <= k <= self.tokens.len(),
                depth <= k - start - 1,
                src == self.tokens.deep_view(),
                self@ == old(self)@,
                done ==> k < self.tokens.len() && block_end(src, start + 1, 0) == Some(k as int),
                !done ==> block_end(src, start + 1, 0) == block_end(src, k as int, depth as nat),
            decreases self.tokens.len() - k + (if done { 0int } else { 1int }),
        {
            proof {
                reveal_strlit("begin");
                reveal_strlit("end");
                assert("begin"@ =~= begin_word());
                assert("end"@ =~= end_word());
                assert(src[k as int] == self.tokens[k as int].deep_view());
                if self.tokens[k as int].len() > 0 {
                    assert(src[k as int][0] == self.tokens[k as int]@[0]@);
                }
            }
            if leads_with_keyword(&self.tokens[k], "begin") {
                depth = depth + 1;
                k = k + 1;
            } else if leads_with_keyword(&self.tokens[k], "end") {
                if depth == 0 {
                    done = true;
                } else {
                    depth = depth - 1;
                    k = k + 1;
                }
            } else {
                k = k + 1;
            }
        }
        if !done {
            return None;
        }
        let block = copy_range(&self.tokens, start + 1, k);
        self.i = k + 1;
        Some(block)
    }

    /// The name for placeholder `k`: the one remembered in `memo`, or a
    /// fresh one that `memo` then remembers.
    fn hyg_lookup(&mut self, memo: &mut Vec<(String, String)>, k: &String) -> (r: Option<String>)
        ensures
            ({
                let (n, st2) = hyg_name(Hyg { memo: old(memo).deep_view(), next: old(self)@.count }, k@);
                &&& st2.next <= usize::MAX ==> (r matches Some(s) && s@ == n && final(memo).deep_view() == st2.memo
                    && final(self)@ == (EngineV { count: st2.next, ..old(self)@ }))
                &&& st2.next > usize::MAX ==> r is None && final(self)@ == old(self)@
            }),
    {
        match find_last(memo, k) {
            Some(j) => Some(memo[j].1.clone()),
            None => match self.generate_ident(k) {
                None => None,
                Some(n) => {
                    let ghost m0 = memo.deep_view();
                    memo.push((k.clone(), n.clone()));
                    proof {
                        assert(memo.deep_view() =~= m0.push((k@, n@)));
                    }
                    Some(n)
                },
            },
        }
    }

    /// Token-by-token rewrite of a body line; `None` when the counter runs out.
    fn rewrite_tokens(
        &mut self,
        toks: &Vec<Token>,
        binds: &Vec<(String, Token)>,
        memo: &mut Vec<(String, String)>,
    ) -> (r: Option<Vec<Token>>)
        ensures
            ({
                let (out, st) = rewrite_tokens(
                    toks.deep_view(),
                    binds.deep_view(),
                    Hyg { memo: old(memo).deep_view(), next: old(self)@.count },
                );
                &&& same_but_count(final(self)@, old(self)@)
                &&& st.next <= usize::MAX ==> (r matches Some(v) && v.deep_view() == out
                    && final(memo).deep_view() == st.memo && final(self)@.count == st.next)
                &&& st.next > usize::MAX ==> r is None
            }),
    {
        let ghost st0 = Hyg { memo: memo.deep_view(), next: self@.count };
        let ghost tv = toks.deep_view();
        let ghost bv = binds.deep_view();
        let mut out: Vec<Token> = Vec::new();
        let mut j: usize = 0;
        while j < toks.len()
            invariant
                j <= toks.len(),
                tv == toks.deep_view(),
                bv == binds.deep_view(),
                st0 == (Hyg { memo: old(memo).deep_view(), next: old(self)@.count }),
                same_but_count(self@, old(self)@),
                ({
                    let (o, st) = rewrite_tokens(tv.take(j as int), bv, st0);
                    out.deep_view() == o && memo.deep_view() == st.memo && self@.count == st.next
                }),
            decreases toks.len() - j,
        {
            proof {
                assert(tv.take(j + 1).drop_last() =~= tv.take(j as int));
                assert(tv.take(j + 1).last() == tv[j as int]);
            }
            let ghost o0 = out.deep_view();
            proof {
                assert(tv[j as int] == toks[j as int]@);
            }
            match &toks[j] {
                Token::MacroExpand(p) => match find_last(binds, p) {
                    Some(b) => out.push(binds[b].1.duplicate()),
                    None => out.push(toks[j].duplicate()),
                },
                Token::GenericIdentifier(k) => match self.hyg_lookup(memo, k) {
                    Some(n) => out.push(Token::Identifier(n)),
                    None => {
                        proof {
                            assert(tv[j as int] == toks[j as int]@);
                            assert(rewrite_tokens(tv.take(j + 1), bv, st0).1.next > usize::MAX);
                            lemma_tokens_next(tv, bv, st0, j + 1);
                            assert(rewrite_tokens(tv, bv, st0).1.next > usize::MAX);
                            assert(same_but_count(self@, old(self)@));
                        }
                        return None;
                    },
                },
                _ => out.push(toks[j].duplicate()),
            }
            j = j + 1;
            proof {
                assert(out.deep_view() =~= o0.push(out.deep_view().last()));
            }
        }
        proof {
            assert(tv.take(j as int) =~= tv);
        }
        Some(out)
    }

    /// Rewrite of one body line into the lines it stands for; `None` when
    /// the counter runs out.
    fn rewrite_line(
        &mut self,
        l: &Vec<Token>,
        binds: &Vec<(String, Token)>,
        blocks: &Vec<(String, Vec<Vec<Token>>)>,
        memo: &mut Vec<(String, String)>,
    ) -> (r: Option<Vec<Vec<Token>>>)
        ensures
            ({
                let (out, st) = rewrite_line(
                    l.deep_view(),
                    binds.deep_view(),
                    blocks.deep_view(),
                    Hyg { memo: old(memo).deep_view(), next: old(self)@.count },
                );
                &&& same_but_count(final(self)@, old(self)@)
                &&& st.next <= usize::MAX ==> (r matches Some(v) && v.deep_view() == out
                    && final(memo).deep_view() == st.memo && final(self)@.count == st.next)
                &&& st.next > usize::MAX ==> r is None
            }),
    {
        if l.len() == 1 {
            match &l[0] {
                Token::MacroExpandLabel(p) => {
                    if let Some(b) = find_last(binds, p) {
                        let lab = Token::Label(binds[b].1.to_string());
                        let r = vec![vec![lab]];
                        proof {
                            assert(r[0].deep_view() =~= seq![lab@]);
                            assert(r[0].deep_view() =~= seq![lab@]);
                        assert(r.deep_view() =~= seq![seq![lab@]]);
                        }
                        return Some(r);
                    }
                },
                Token::BlockParam(p) => {
                    if let Some(b) = find_last(blocks, p) {
                        return Some(copy_lines(&blocks[b].1));
                    }
                },
                Token::GenericLabel(k) => {
                    match self.hyg_lookup(memo, k) {
                        Some(n) => {
                            let lab = Token::Label(n);
                            let r = vec![vec![lab]];
                            proof {
                                assert(r[0].deep_view() =~= seq![lab@]);
                            assert(r[0].deep_view() =~= seq![lab@]);
                        assert(r.deep_view() =~= seq![seq![lab@]]);
                            }
                            return Some(r);
                        },
                        None => {
                            return None;
                        },
                    }
                },
                _ => {},
            }
        }
        match self.rewrite_tokens(l, binds, memo) {
            Some(t) => {
                let r = vec![t];
                proof {
                    assert(r.deep_view() =~= seq![r[0].deep_view()]);
                }
                Some(r)
            },
            None => None,
        }
    }

    /// Rewrite of a whole macro body under one fresh hygiene memo; `None`
    /// when the counter runs out.
    fn rewrite_body(
        &mut self,
        body: &Vec<Vec<Token>>,
        binds: &Vec<(String, Token)>,
        blocks: &Vec<(String, Vec<Vec<Token>>)>,
    ) -> (r: Option<Vec<Vec<Token>>>)
        ensures
            ({
                let (out, st) = rewrite_body(
                    body.deep_view(),
                    binds.deep_view(),
                    blocks.deep_view(),
                    Hyg { memo: seq![], next: old(self)@.count },
                );
                &&& same_but_count(final(self)@, old(self)@)
                &&& st.next <= usize::MAX ==> (r matches Some(v) && v.deep_view() == out
                    && final(self)@.count == st.next)
                &&& st.next > usize::MAX ==> r is None
            }),
    {
        let mut memo: Vec<(String, String)> = Vec::new();
        let ghost st0 = Hyg { memo: seq![], next: self@.count };
        proof {
            assert(memo.deep_view() =~= seq![]);
        }
        let ghost bv = body.deep_view();
        let ghost av = binds.deep_view();
        let ghost kv = blocks.deep_view();
        let mut out: Vec<Vec<Token>> = Vec::new();
        let mut j: usize = 0;
        while j < body.len()
            invariant
                j <= body.len(),
                bv == body.deep_view(),
                av == binds.deep_view(),
                kv == blocks.deep_view(),
                st0 == (Hyg { memo: seq![], next: old(self)@.count }),
                same_but_count(self@, old(self)@),
                ({
                    let (o, st) = rewrite_body(bv.take(j as int), av, kv, st0);
                    out.deep_view() == o && memo.deep_view() == st.memo && self@.count == st.next
                }),
            decreases body.len() - j,
        {
            proof {
                assert(bv.take(j + 1).drop_last() =~= bv.take(j as int));
                assert(bv.take(j + 1).last() == bv[j as int]);
            }
            match self.rewrite_line(&body[j], binds, blocks, &mut memo) {
                Some(ls) => extend_lines(&mut out, ls),
                None => {
                    proof {
                        assert(bv[j as int] == body[j as int].deep_view());
                        assert(rewrite_body(bv.take(j + 1), av, kv, st0).1.next > usize::MAX);
                        lemma_body_next(bv, av, kv, st0, j + 1);
                        assert(rewrite_body(bv, av, kv, st0).1.next > usize::MAX);
                        assert(same_but_count(self@, old(self)@));
                    }
                    return None;
                },
            }
            j = j + 1;
        }
        proof {
            assert(bv.take(j as int) =~= bv);
        }
        Some(out)
    }

    /// Expands the invocation `line`, the cursor just past it: binds its
    /// arguments, captures its block arguments, rewrites the body and runs
    /// a nested engine over it, with a copy of this table and the counter,
    /// which comes back advanced.
    fn expand_macro(&mut self, line: &Vec<Token>, depth: usize) -> (r: Result<Vec<Vec<Token>>, ExpandError>)
        requires
            line.len() > 0,
            line@[0] is MacroExpand,
            old(self).i <= old(self).tokens.len(),
        ensures
            final(self)@.source == old(self)@.source,
            final(self)@.table == old(self)@.table,
            final(self).i <= final(self).tokens.len(),
            match expand_at(
                depth as nat,
                old(self)@.source,
                line.deep_view(),
                old(self)@.cursor as int,
                old(self)@.table,
                old(self)@.count,
            ) {
                Err(e) => r matches Err(x) && x@ == e,
                Ok((out, span, c)) => r matches Ok(v) && v.deep_view() == out && final(self)@.cursor
                    == old(self)@.cursor + span && final(self)@.count == c,
            },
        decreases depth, 0int,
    {
        let ghost src = self@.source;
        let ghost lv = line.deep_view();
        let ghost j0 = self.i as int;
        proof {
            assert(lv[0] == line@[0]@);
        }
        let name = match &line[0] {
            Token::MacroExpand(n) => n.clone(),
            _ => String::new(),
        };
        let k: usize = match find_last(&self.macros, &name) {
            None => {
                return Err(ExpandError::UndefinedMacro(name));
            },
            Some(k) => k,
        };
        let m = self.macros[k].1.copy();
        let ghost mv = m.deep_view();
        proof {
            assert(lookup_assoc(self@.table, name@) == Some(mv));
        }
        let mut names: Vec<String> = Vec::new();
        let mut pos: Vec<Token> = Vec::new();
        let mut a: usize = 0;
        while a < m.args.len()
            invariant
                a <= m.args.len(),
                mv == m.deep_view(),
                names.deep_view() == block_names(mv.params.take(a as int)),
                pos.deep_view() == positional(mv.params.take(a as int)),
            decreases m.args.len() - a,
        {
            proof {
                assert(mv.params.take(a + 1).drop_last() =~= mv.params.take(a as int));
                assert(mv.params[a as int] == m.args[a as int]@);
            }
            let ghost n0 = names.deep_view();
            let ghost p0 = pos.deep_view();
            match &m.args[a] {
                Token::BlockParam(p) => {
                    names.push(p.clone());
                    proof {
                        assert(names.deep_view() =~= n0.push(p@));
                    }
                },
                _ => {
                    pos.push(m.args[a].duplicate());
                    proof {
                        assert(pos.deep_view() =~= p0.push(m.args[a as int]@));
                    }
                },
            }
            a = a + 1;
        }
        proof {
            assert(mv.params.take(a as int) =~= mv.params);
        }
        let mut blocks: Vec<(String, Vec<Vec<Token>>)> = Vec::new();
        let mut b: usize = 0;
        proof {
            assert(names.deep_view().take(0) =~= seq![]);
            assert(blocks.deep_view() =~= seq![]);
        }
        while b < names.len()
            invariant
                b <= names.len(),
                src == self@.source,
                src == old(self)@.source,
                j0 == old(self)@.cursor,
                lv == line.deep_view(),
                lv.len() > 0,
                name@ == lv[0]->MacroExpand_0,
                lookup_assoc(old(self)@.table, name@) == Some(mv),
                names.deep_view() == block_names(mv.params),
                self.i <= self.tokens.len(),
                self@.table == old(self)@.table,
                self@.count == old(self)@.count,
                capture_all(src, j0, names.deep_view().take(b as int)) == Some(blocks.deep_view()),
                self.i == j0 + blocks_span(blocks.deep_view()),
            decreases names.len() - b,
        {
            proof {
                assert(names.deep_view().take(b + 1).drop_last() =~= names.deep_view().take(b as int));
            }
            match self.parse_block() {
                None => {
                    proof {
                        lemma_capture_none(src, j0, names.deep_view(), b + 1);
                    }
                    return Err(ExpandError::UnterminatedBlock);
                },
                Some(blk) => {
                    let ghost bl0 = blocks.deep_view();
                    blocks.push((names[b].clone(), blk));
                    proof {
                        assert(blocks.deep_view() =~= bl0.push((names.deep_view()[b as int], blk.deep_view())));
                        assert(blocks.deep_view().drop_last() =~= bl0);
                    }
                },
            }
            b = b + 1;
        }
        proof {
            assert(names.deep_view().take(b as int) =~= names.deep_view());
        }
        let mut binds: Vec<(String, Token)> = Vec::new();
        let n: usize = if pos.len() < line.len() - 1 {
            pos.len()
        } else {
            line.len() - 1
        };
        let mut q: usize = 0;
        while q < n
            invariant
                q <= n,
                n <= pos.len(),
                n + 1 <= line.len(),
                lv == line.deep_view(),
                binds.len() == q,
                forall|t: int| 0 <= t < q ==> #[trigger] binds.deep_view()[t] == (token_text(pos.deep_view()[t]), lv[t + 1]),
            decreases n - q,
        {
            let ghost b0 = binds.deep_view();
            let key = pos[q].to_string();
            let arg = line[q + 1].duplicate();
            proof {
                assert(pos.deep_view()[q as int] == pos[q as int]@);
                assert(lv[q + 1] == line[q + 1]@);
            }
            binds.push((key, arg));
            proof {
                assert(binds.deep_view() =~= b0.push((key@, arg@)));
            }
            q = q + 1;
        }
        proof {
            assert(binds.deep_view() =~= bindings(pos.deep_view(), lv.skip(1)));
        }
        let body = match self.rewrite_body(&m.body, &binds, &blocks) {
            None => {
                return Err(ExpandError::LimitExceeded);
            },
            Some(body) => body,
        };
        if depth == 0 {
            return Err(ExpandError::LimitExceeded);
        }
        let mut nested = MacroProcessor::new(body).with_macros(&self.macros).with_ident_count(
            self.gen_ident_count,
        );
        proof {
            assert(seq![] + self@.table =~= self@.table);
        }
        let out = nested.run_at(depth - 1);
        match out {
            Err(e) => Err(e),
            Ok(out) => {
                self.gen_ident_count = nested.gen_ident_count;
                Ok(out)
            },
        }
    }

    /// Runs the engine from its cursor to the end of its source, with
    /// `depth` more levels of nesting allowed.
    fn run_at(&mut self, depth: usize) -> (r: Result<Vec<Vec<Token>>, ExpandError>)
        ensures
            final(self)@.source == old(self)@.source,
            match run_from(depth as nat, old(self)@.source, old(self)@.cursor as int, old(self)@.table, old(self)@.count) {
                Err(e) => r matches Err(x) && x@ == e,
                Ok((out, t, c)) => r matches Ok(v) && v.deep_view() == out && final(self)@ == (EngineV {
                    source: old(self)@.source,
                    cursor: if old(self)@.cursor < old(self)@.source.len() {
                        old(self)@.source.len()
                    } else {
                        old(self)@.cursor
                    },
                    table: t,
                    count: c,
                }),
            },
        decreases depth, 1int,
    {
        let ghost src = self@.source;
        let ghost total = run_from(depth as nat, src, self@.cursor as int, self@.table, self@.count);
        let ghost i0 = self.i;
        let mut result: Vec<Vec<Token>> = Vec::new();
        proof {
            assert(result.deep_view() =~= seq![]);
            assert(prepend(seq![], total) == total) by {
                if let Ok((o, t, c)) = total {
                    assert(seq![] + o =~= o);
                }
            }
        }
        while self.i < self.tokens.len()
            invariant
                src == self@.source,
                src == old(self)@.source,
                i0 == old(self).i,
                total == run_from(depth as nat, old(self)@.source, old(self)@.cursor as int, old(self)@.table, old(self)@.count),
                i0 <= self.i,
                i0 < self.tokens.len() ==> self.i <= self.tokens.len(),
                i0 >= self.tokens.len() ==> self.i == i0,
                total == prepend(result.deep_view(), run_from(depth as nat, src, self@.cursor as int, self@.table, self@.count)),
            decreases self.tokens.len() - self.i,
        {
            let ghost r0 = result.deep_view();
            let ghost i = self.i as int;
            let ghost tab = self@.table;
            let ghost cnt = self@.count;
            let line = copy_line(&self.tokens[self.i]);
            self.i = self.i + 1;
            proof {
                assert(line.deep_view() == src[i]);
            }
            if line.len() == 0 {
                result.push(line);
                proof {
                    assert(result.deep_view() =~= r0 + seq![src[i]]);
                    let rest = run_from(depth as nat, src, i + 1, tab, cnt);
                    if let Ok((o, t, c)) = rest {
                        assert(r0 + (seq![src[i]] + o) =~= result.deep_view() + o);
                    }
                }
            } else {
                proof {
                    assert(line.deep_view()[0] == line@[0]@);
                }
                match &line[0] {
                    Token::MacroDef(_) => {
                        match self.define_macro(&line) {
                            Err(e) => {
                                return Err(e);
                            },
                            Ok(()) => {},
                        }
                        proof {
                            assert(line.deep_view().skip(1) == src[i].skip(1));
                        }
                    },
                    Token::MacroExpand(_) => {
                        match self.expand_macro(&line, depth) {
                            Err(e) => {
                                return Err(e);
                            },
                            Ok(out) => {
                                extend_lines(&mut result, out);
                                proof {
                                    let ex = expand_at(depth as nat, src, src[i], i + 1, tab, cnt);
                                    let (o1, span, c2) = ex->Ok_0;
                                    let rest = run_from(depth as nat, src, i + 1 + span, tab, c2);
                                    if let Ok((o, t, c)) = rest {
                                        assert(r0 + (o1 + o) =~= result.deep_view() + o);
                                    }
                                }
                            },
                        }
                    },
                    _ => {
                        if stray_lead(&line[0]) {
                        } else {
                            result.push(line);
                            proof {
                                assert(result.deep_view() =~= r0 + seq![src[i]]);
                                let rest = run_from(depth as nat, src, i + 1, tab, cnt);
                                if let Ok((o, t, c)) = rest {
                                    assert(r0 + (seq![src[i]] + o) =~= result.deep_view() + o);
                                }
                            }
                        }
                    },
                }
            }
        }
        proof {
            assert(result.deep_view() + seq![] =~= result.deep_view());
        }
        Ok(result)
    }

    /// Expands the whole source from the cursor on: definitions are
    /// captured into the table, invocations replaced by their recursive
    /// expansion, stray macro syntax and block delimiters dropped, and every
    /// other line passed through. All or nothing: the first error aborts.
    pub fn run(&mut self) -> (r: Result<Vec<Vec<Token>>, ExpandError>)
        ensures
            final(self)@.source == old(self)@.source,
            match run_from(MAX_DEPTH as nat, old(self)@.source, old(self)@.cursor as int, old(self)@.table, old(self)@.count) {
                Err(e) => r matches Err(x) && x@ == e,
                Ok((out, t, c)) => r matches Ok(v) && v.deep_view() == out && final(self)@ == (EngineV {
                    source: old(self)@.source,
                    cursor: if old(self)@.cursor < old(self)@.source.len() {
                        old(self)@.source.len()
                    } else {
                        old(self)@.cursor
                    },
                    table: t,
                    count: c,
                }),
            },
    {
        self.run_at(MAX_DEPTH)
    }

    /// Captures the definition whose `!name` line is `line`, the cursor just
    /// past it: body lines up to the closing `!!` line, which is consumed.
    fn define_macro(&mut self, line: &Vec<Token>) -> (r: Result<(), ExpandError>)
        requires
            line.len() > 0,
            line@[0] is MacroDef,
            old(self).i <= old(self).tokens.len(),
        ensures
            final(self)@.source == old(self)@.source,
            final(self).i <= final(self).tokens.len(),
            match def_len(old(self)@.source, old(self)@.cursor as int) {
                None => r matches Err(e) && e@ == ErrV::UnterminatedDefinition,
                Some(n) => r is Ok && final(self)@ == (EngineV {
                    cursor: old(self)@.cursor + n + 1,
                    table: old(self)@.table.push(
                        (
                            line@[0]@->MacroDef_0,
                            MacroV {
                                params: line.deep_view().skip(1),
                                body: old(self)@.source.subrange(
                                    old(self)@.cursor as int,
                                    (old(self)@.cursor + n) as int,
                                ),
                            },
                        ),
                    ),
                    ..old(self)@
                }),
            },
    {
        let ghost src = self@.source;
        let start: usize = self.i;
        let name = match &line[0] {
            Token::MacroDef(n) => n.clone(),
            _ => String::new(),
        };
        let mut args: Vec<Token> = Vec::new();
        let mut a: usize = 1;
        while a < line.len()
            invariant
                1 <= a <= line.len(),
                args.deep_view() == line.deep_view().subrange(1, a as int),
            decreases line.len() - a,
        {
            let ghost before = args.deep_view();
            args.push(line[a].duplicate());
            a = a + 1;
            proof {
                assert(args.deep_view() =~= before.push(line.deep_view()[a - 1]));
                assert(args.deep_view() =~= line.deep_view().subrange(1, a as int));
            }
        }
        proof {
            assert(line.deep_view().subrange(1, a as int) =~= line.deep_view().skip(1));
        }
        while self.i < self.tokens.len() && !(self.tokens[self.i].len() > 0 && matches!(self.tokens[self.i][0], Token::MacroDefEnd))
            invariant
                start <= self.i <= self.tokens.len(),
                self@ == (EngineV { cursor: self.i as nat, ..old(self)@ }),
                src == self@.source,
                def_len(src, start as int) == match def_len(src, self.i as int) {
                    Some(n) => Some(n + (self.i - start) as nat),
                    None => None::<nat>,
                },
            decreases self.tokens.len() - self.i,
        {
            self.i = self.i + 1;
        }
        if self.i >= self.tokens.len() {
            return Err(ExpandError::UnterminatedDefinition);
        }
        let body = copy_range(&self.tokens, start, self.i);
        self.i = self.i + 1;
        let ghost before = self.macros.deep_view();
        self.macros.push((name, Macro { args, body }));
        proof {
            assert(self.macros.deep_view() =~= before.push(self.macros.deep_view().last()));
        }
        Ok(())
    }
}

/// A token line as text: the tokens' surface forms separated by spaces.
pub open spec fn join_tokens(l: Seq<Tok>) -> Seq<char>
    decreases l.len(),
{
    if l.len() == 0 {
        seq![]
    } else if l.len() == 1 {
        token_text(l[0])
    } else {
        join_tokens(l.drop_last()) + seq![' '] + token_text(l.last())
    }
}

/// Token lines as text: one line of text per token line, separated by
/// line breaks.
pub open spec fn join_lines(ls: Seq<Seq<Tok>>) -> Seq<char>
    decreases ls.len(),
{
    if ls.len() == 0 {
        seq![]
    } else if ls.len() == 1 {
        join_tokens(ls[0])
    } else {
        join_lines(ls.drop_last()) + seq!['\n'] + join_tokens(ls.last())
    }
}

fn render_line(line: &Vec<Token>) -> (r: String)
    ensures
        r@ == join_tokens(line.deep_view()),
{
    let ghost lv = line.deep_view();
    let mut r = String::new();
    let mut k: usize = 0;
    while k < line.len()
        invariant
            k <= line.len(),
            lv == line.deep_view(),
            r@ == join_tokens(lv.take(k as int)),
        decreases line.len() - k,
    {
        proof {
            reveal_strlit(" ");
            assert(" "@ =~= seq![' ']);
            assert(lv.take(k + 1).drop_last() =~= lv.take(k as int));
            assert(lv[k as int] == line[k as int]@);
            if k == 0 {
                assert(lv.take(1)[0] == lv[0]);
            }
        }
        if k > 0 {
            r.append(" ");
        }
        let t = line[k].to_string();
        r.append(t.as_str());
        k = k + 1;
    }
    proof {
        assert(lv.take(k as int) =~= lv);
    }
    r
}

/// Renders token lines as text: tokens joined by single spaces, lines by
/// line breaks.
pub fn stringify_tokens(tokens: Vec<Vec<Token>>) -> (r: String)
    ensures
        r@ == join_lines(tokens.deep_view()),
{
    let ghost tv = tokens.deep_view();
    let mut r = String::new();
    let mut k: usize = 0;
    while k < tokens.len()
        invariant
            k <= tokens.len(),
            tv == tokens.deep_view(),
            r@ == join_lines(tv.take(k as int)),
        decreases tokens.len() - k,
    {
        proof {
            reveal_strlit("\n");
            assert("\n"@ =~= seq!['\n']);
            assert(tv.take(k + 1).drop_last() =~= tv.take(k as int));
            assert(tv[k as int] == tokens[k as int].deep_view());
            if k == 0 {
                assert(tv.take(1)[0] == tv[0]);
            }
        }
        if k > 0 {
            r.append("\n");
        }
        let l = render_line(&tokens[k]);
        r.append(l.as_str());
        k = k + 1;
    }
    proof {
        assert(tv.take(k as int) =~= tv);
    }
    r
}

} // verus!
