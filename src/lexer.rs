use vstd::prelude::*;
use vstd::string::{StrSliceExecFns, StringExecFns};

pub use crate::token::{Tok, Token};

verus! {

/// Whether `pat` compiles as a regular expression.
pub uninterp spec fn regex_compiles(pat: Seq<char>) -> bool;

/// Whether the compiled `pat` matches somewhere in `hay`.
pub uninterp spec fn regex_matches(pat: Seq<char>, hay: Seq<char>) -> bool;

/// The successive non-overlapping matches of the compiled `pat` in `hay`.
pub uninterp spec fn regex_found(pat: Seq<char>, hay: Seq<char>) -> Seq<Seq<char>>;

/// The lines of `s`, split at line breaks.
pub uninterp spec fn text_lines(s: Seq<char>) -> Seq<Seq<char>>;

/// `s` without leading and trailing whitespace.
pub uninterp spec fn trimmed(s: Seq<char>) -> Seq<char>;

/// Relies on regex::Regex::new, whose result says whether the pattern
/// compiles, and Regex::is_match, which says whether it matches anywhere.
#[verifier::external_body]
fn regex_is_match(pat: &str, hay: &str) -> (r: Option<bool>)
    ensures
        r is Some == regex_compiles(pat@),
        r matches Some(b) ==> b == regex_matches(pat@, hay@),
{
    match regex::Regex::new(pat) {
        Ok(re) => Some(re.is_match(hay)),
        Err(_) => None,
    }
}

/// Relies on regex::Regex::new, whose result says whether the pattern
/// compiles, and Regex::find_iter, which yields the successive
/// non-overlapping matches, each taken as its text.
#[verifier::external_body]
fn regex_find_all(pat: &str, hay: &str) -> (r: Option<Vec<String>>)
    ensures
        r is Some == regex_compiles(pat@),
        r matches Some(v) ==> v.deep_view() == regex_found(pat@, hay@),
{
    match regex::Regex::new(pat) {
        Ok(re) => Some(re.find_iter(hay).map(|m| m.as_str().to_string()).collect()),
        Err(_) => None,
    }
}

/// Relies on str::lines: the lines of the text, without their line breaks.
#[verifier::external_body]
fn split_lines<'a>(s: &'a str) -> (r: Vec<&'a str>)
    ensures
        r.deep_view() == text_lines(s@),
{
    s.lines().collect()
}

/// Relies on str::trim: the text without leading and trailing whitespace.
#[verifier::external_body]
fn trim<'a>(s: &'a str) -> (r: &'a str)
    ensures
        r@ == trimmed(s@),
{
    s.trim()
}

/// Every lexeme that a source line is made of.
pub const TOKEN_RE: &'static str = r#"!!|-?\d+(\.\d+)?|\$(begin|end|include)|#\w+:?|[&@!]\w+|\w+!:|\w+[:!]?|"[^"]*?""#;

/// A line that starts with a backslash is a comment.
pub const COMMENT_RE: &'static str = r"^\\.*$";

/// The shapes below classify one lexeme, tried in this order.
pub const DEF_END_RE: &'static str = r"!!";

pub const NUMBER_RE: &'static str = r"^-?\d+(\.\d+)?$";

pub const STRING_RE: &'static str = r#"^"[^"]*?"$"#;

pub const IDENT_RE: &'static str = r"^\w+$";

pub const LABEL_RE: &'static str = r"^\w+:$";

pub const MACRO_DEF_RE: &'static str = r"^!\w+$";

pub const MACRO_EXPAND_RE: &'static str = r"^\w+!$";

pub const MACRO_EXPAND_LABEL_RE: &'static str = r"^\w+!:$";

pub const KEYWORD_RE: &'static str = r"^\$\w+$";

pub const BLOCK_PARAM_RE: &'static str = r"^&\w+$";

pub const GENERIC_IDENT_RE: &'static str = r"^#\w+$";

pub const GENERIC_LABEL_RE: &'static str = r"^#\w+:$";

/// Whether `pat` compiles and matches in `s`.
pub open spec fn has_shape(pat: Seq<char>, s: Seq<char>) -> bool {
    regex_compiles(pat) && regex_matches(pat, s)
}

/// `s` without the prefix `p`, if it has it.
pub open spec fn without_prefix(s: Seq<char>, p: Seq<char>) -> Seq<char> {
    if s.len() >= p.len() && s.take(p.len() as int) == p {
        s.skip(p.len() as int)
    } else {
        s
    }
}

/// `s` without the suffix `p`, if it has it.
pub open spec fn without_suffix(s: Seq<char>, p: Seq<char>) -> Seq<char> {
    if s.len() >= p.len() && s.skip(s.len() - p.len()) == p {
        s.take(s.len() - p.len())
    } else {
        s
    }
}

/// The token kind of a lexeme, tested shape by shape in a fixed order.
pub open spec fn classify(s: Seq<char>) -> Tok {
    if has_shape(DEF_END_RE@, s) {
        Tok::MacroDefEnd
    } else if has_shape(NUMBER_RE@, s) {
        Tok::Number(s)
    } else if has_shape(STRING_RE@, s) {
        Tok::String(s)
    } else if has_shape(IDENT_RE@, s) {
        Tok::Identifier(s)
    } else if has_shape(LABEL_RE@, s) {
        Tok::Label(without_suffix(s, seq![':']))
    } else if has_shape(MACRO_DEF_RE@, s) {
        Tok::MacroDef(without_prefix(s, seq!['!']))
    } else if has_shape(MACRO_EXPAND_RE@, s) {
        Tok::MacroExpand(without_suffix(s, seq!['!']))
    } else if has_shape(MACRO_EXPAND_LABEL_RE@, s) {
        Tok::MacroExpandLabel(without_suffix(s, seq!['!', ':']))
    } else if has_shape(KEYWORD_RE@, s) {
        Tok::Keyword(without_prefix(s, seq!['$']))
    } else if has_shape(BLOCK_PARAM_RE@, s) {
        Tok::BlockParam(without_prefix(s, seq!['&']))
    } else if has_shape(GENERIC_IDENT_RE@, s) {
        Tok::GenericIdentifier(without_prefix(s, seq!['#']))
    } else if has_shape(GENERIC_LABEL_RE@, s) {
        Tok::GenericLabel(without_suffix(without_prefix(s, seq!['#']), seq![':']))
    } else {
        Tok::Unknown(s)
    }
}

/// The tokens of one trimmed source line.
pub open spec fn line_tokens(l: Seq<char>) -> Seq<Tok> {
    if regex_compiles(TOKEN_RE@) {
        regex_found(TOKEN_RE@, l).map_values(|x: Seq<char>| classify(x))
    } else {
        seq![]
    }
}

/// The trimmed, non-blank lines among `ls`.
pub open spec fn kept_lines(ls: Seq<Seq<char>>) -> Seq<Seq<char>>
    decreases ls.len(),
{
    if ls.len() == 0 {
        seq![]
    } else if trimmed(ls.last()).len() > 0 {
        kept_lines(ls.drop_last()).push(trimmed(ls.last()))
    } else {
        kept_lines(ls.drop_last())
    }
}

/// The lines of `ls` from index `k` on.
pub open spec fn lines_from(ls: Seq<Seq<char>>, k: nat) -> Seq<Seq<char>> {
    if k < ls.len() {
        ls.subrange(k as int, ls.len() as int)
    } else {
        seq![]
    }
}

/// The token lines of `ls`: comment lines and lines without a lexeme
/// yield nothing.
pub open spec fn lex_lines(ls: Seq<Seq<char>>) -> Seq<Seq<Tok>>
    decreases ls.len(),
{
    if ls.len() == 0 {
        seq![]
    } else if has_shape(COMMENT_RE@, ls.last()) || line_tokens(ls.last()).len() == 0 {
        lex_lines(ls.drop_last())
    } else {
        lex_lines(ls.drop_last()).push(line_tokens(ls.last()))
    }
}

/// Whether `pat` compiles and matches in `s`.
fn shape(pat: &str, s: &str) -> (r: bool)
    ensures
        r == has_shape(pat@, s@),
{
    match regex_is_match(pat, s) {
        Some(b) => b,
        None => false,
    }
}

/// Whether `s` starts with `p`.
fn starts_with(s: &str, p: &str) -> (r: bool)
    ensures
        r == (s@.len() >= p@.len() && s@.take(p@.len() as int) == p@),
{
    let n: usize = s.unicode_len();
    let m: usize = p.unicode_len();
    if n < m {
        return false;
    }
    let mut k: usize = 0;
    while k < m
        invariant
            k <= m <= n,
            n == s@.len(),
            m == p@.len(),
            forall|q: int| 0 <= q < k ==> s@[q] == p@[q],
        decreases m - k,
    {
        if s.get_char(k) != p.get_char(k) {
            proof {
                assert(s@.take(m as int)[k as int] != p@[k as int]);
            }
            return false;
        }
        k = k + 1;
    }
    proof {
        assert(s@.take(m as int) =~= p@);
    }
    true
}

/// Whether `s` ends with `p`.
fn ends_with(s: &str, p: &str) -> (r: bool)
    ensures
        r == (s@.len() >= p@.len() && s@.skip(s@.len() - p@.len()) == p@),
{
    let n: usize = s.unicode_len();
    let m: usize = p.unicode_len();
    if n < m {
        return false;
    }
    let mut k: usize = 0;
    while k < m
        invariant
            k <= m <= n,
            n == s@.len(),
            m == p@.len(),
            forall|q: int| 0 <= q < k ==> s@[n - m + q] == p@[q],
        decreases m - k,
    {
        if s.get_char(n - m + k) != p.get_char(k) {
            proof {
                assert(s@.skip(n - m)[k as int] != p@[k as int]);
            }
            return false;
        }
        k = k + 1;
    }
    proof {
        assert(s@.skip(n - m) =~= p@);
    }
    true
}

/// `s` without the prefix `p`, if it has it.
fn strip_prefix(s: &str, p: &str) -> (r: String)
    ensures
        r@ == without_prefix(s@, p@),
{
    if starts_with(s, p) {
        let n: usize = s.unicode_len();
        let m: usize = p.unicode_len();
        String::from_str(s.substring_char(m, n))
    } else {
        String::from_str(s)
    }
}

/// `s` without the suffix `p`, if it has it.
fn strip_suffix(s: &str, p: &str) -> (r: String)
    ensures
        r@ == without_suffix(s@, p@),
{
    if ends_with(s, p) {
        let n: usize = s.unicode_len();
        let m: usize = p.unicode_len();
        String::from_str(s.substring_char(0, n - m))
    } else {
        String::from_str(s)
    }
}

/// Classifies one lexeme.
pub fn classify_lexeme(s: String) -> (r: Token)
    ensures
        r@ == classify(s@),
{
    proof {
        reveal_strlit(":");
        reveal_strlit("!");
        reveal_strlit("!:");
        reveal_strlit("$");
        reveal_strlit("&");
        reveal_strlit("#");
        assert(":"@ =~= seq![':']);
        assert("!"@ =~= seq!['!']);
        assert("!:"@ =~= seq!['!', ':']);
        assert("$"@ =~= seq!['$']);
        assert("&"@ =~= seq!['&']);
        assert("#"@ =~= seq!['#']);
    }
    let t = s.as_str();
    if shape(DEF_END_RE, t) {
        Token::MacroDefEnd
    } else if shape(NUMBER_RE, t) {
        Token::Number(s)
    } else if shape(STRING_RE, t) {
        Token::String(s)
    } else if shape(IDENT_RE, t) {
        Token::Identifier(s)
    } else if shape(LABEL_RE, t) {
        Token::Label(strip_suffix(t, ":"))
    } else if shape(MACRO_DEF_RE, t) {
        Token::MacroDef(strip_prefix(t, "!"))
    } else if shape(MACRO_EXPAND_RE, t) {
        Token::MacroExpand(strip_suffix(t, "!"))
    } else if shape(MACRO_EXPAND_LABEL_RE, t) {
        Token::MacroExpandLabel(strip_suffix(t, "!:"))
    } else if shape(KEYWORD_RE, t) {
        Token::Keyword(strip_prefix(t, "$"))
    } else if shape(BLOCK_PARAM_RE, t) {
        Token::BlockParam(strip_prefix(t, "&"))
    } else if shape(GENERIC_IDENT_RE, t) {
        Token::GenericIdentifier(strip_prefix(t, "#"))
    } else if shape(GENERIC_LABEL_RE, t) {
        let inner = strip_prefix(t, "#");
        Token::GenericLabel(strip_suffix(inner.as_str(), ":"))
    } else {
        Token::Unknown(s)
    }
}

/// Model of a lexer: the trimmed non-blank source lines and a cursor.
pub struct LexerV {
    pub lines: Seq<Seq<char>>,
    pub line: nat,
}

/// Splits source text into token lines.
pub struct Lexer<'a> {
    lines: Vec<&'a str>,
    line: usize,
}

impl<'a> View for Lexer<'a> {
    type V = LexerV;

    closed spec fn view(&self) -> LexerV {
        LexerV { lines: self.lines.deep_view(), line: self.line as nat }
    }
}

impl<'a> Lexer<'a> {
    /// A lexer over the trimmed, non-blank lines of `input`, at the first.
    pub fn new(input: &'a str) -> (r: Self)
        ensures
            r@ == (LexerV { lines: kept_lines(text_lines(input@)), line: 0 }),
    {
        let raw = split_lines(input);
        let ghost rv = raw.deep_view();
        let mut lines: Vec<&'a str> = Vec::new();
        let mut k: usize = 0;
        while k < raw.len()
            invariant
                k <= raw.len(),
                rv == raw.deep_view(),
                lines.deep_view() == kept_lines(rv.take(k as int)),
            decreases raw.len() - k,
        {
            proof {
                assert(rv.take(k + 1).drop_last() =~= rv.take(k as int));
                assert(rv[k as int] == raw[k as int]@);
            }
            let t = trim(raw[k]);
            let ghost l0 = lines.deep_view();
            if !t.is_empty() {
                lines.push(t);
                proof {
                    assert(lines.deep_view() =~= l0.push(t@));
                }
            }
            k = k + 1;
        }
        proof {
            assert(rv.take(k as int) =~= rv);
        }
        Lexer { lines, line: 0 }
    }

    /// The tokens of the line at the cursor, which then moves on by one;
    /// nothing for a comment line.
    fn next_line(&mut self) -> (r: Vec<Token>)
        requires
            old(self).line < old(self).lines.len(),
        ensures
            final(self)@ == (LexerV { line: old(self)@.line + 1, ..old(self)@ }),
            r.deep_view() == (if has_shape(COMMENT_RE@, old(self)@.lines[old(self)@.line as int]) {
                seq![]
            } else {
                line_tokens(old(self)@.lines[old(self)@.line as int])
            }),
    {
        let l = self.lines[self.line];
        proof {
            assert(self@.lines[self.line as int] == l@);
        }
        self.line = self.line + 1;
        if shape(COMMENT_RE, l) {
            return Vec::new();
        }
        let mut out: Vec<Token> = Vec::new();
        match regex_find_all(TOKEN_RE, l) {
            None => {},
            Some(found) => {
                let ghost fv = found.deep_view();
                let mut k: usize = 0;
                while k < found.len()
                    invariant
                        k <= found.len(),
                        fv == found.deep_view(),
                        out.len() == k,
                        forall|q: int| 0 <= q < k ==> #[trigger] out.deep_view()[q] == classify(fv[q]),
                    decreases found.len() - k,
                {
                    proof {
                        assert(fv[k as int] == found[k as int]@);
                    }
                    let t = classify_lexeme(found[k].clone());
                    let ghost o0 = out.deep_view();
                    out.push(t);
                    proof {
                        assert(out.deep_view() =~= o0.push(t@));
                    }
                    k = k + 1;
                }
                proof {
                    assert(out.deep_view() =~= fv.map_values(|x: Seq<char>| classify(x)));
                }
            },
        }
        proof {
            if !regex_compiles(TOKEN_RE@) {
                assert(out.deep_view() =~= seq![]);
            }
        }
        out
    }

    /// The token lines of every line from the cursor on; the cursor ends
    /// past the last line.
    pub fn all_lines(&mut self) -> (r: Vec<Vec<Token>>)
        ensures
            r.deep_view() == lex_lines(lines_from(old(self)@.lines, old(self)@.line)),
            final(self)@.lines == old(self)@.lines,
            final(self)@.line == if old(self)@.line < old(self)@.lines.len() {
                old(self)@.lines.len()
            } else {
                old(self)@.line
            },
    {
        let ghost lv = self@.lines;
        let ghost start = self.line as int;
        let mut out: Vec<Vec<Token>> = Vec::new();
        proof {
            assert(out.deep_view() =~= seq![]);
        }
        if self.line >= self.lines.len() {
            return out;
        }
        proof {
            assert(lv.subrange(start, start) =~= seq![]);
        }
        while self.line < self.lines.len()
            invariant
                lv == self@.lines,
                start == old(self).line,
                lv == old(self)@.lines,
                start <= self.line,
                start < lv.len(),
                self.line <= lv.len(),
                self.lines.len() == lv.len(),
                out.deep_view() == lex_lines(lv.subrange(start, self.line as int)),
            decreases self.lines.len() - self.line,
        {
            let ghost k = self.line as int;
            proof {
                assert(lv.subrange(start, k + 1).drop_last() =~= lv.subrange(start, k));
                assert(lv.subrange(start, k + 1).last() == lv[k]);
            }
            let toks = self.next_line();
            proof {
                assert(self.lines.len() == self@.lines.len());
                assert(toks.deep_view().len() == toks@.len());
                assert(self.line == k + 1);
            }
            if toks.len() > 0 {
                let ghost o0 = out.deep_view();
                out.push(toks);
                proof {
                    assert(out.deep_view() =~= o0.push(toks.deep_view()));
                }
            }
        }
        proof {
            assert(lv.subrange(start, self.line as int) =~= lines_from(lv, start as nat));
        }
        out
    }
}

} // verus!
