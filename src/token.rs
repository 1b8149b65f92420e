use vstd::prelude::*;
use vstd::string::StringExecFns;

verus! {

/// One lexeme of a source line, classified by its surface shape.
/// Each payload is the lexeme text with its affix markers stripped.
#[derive(Debug)]
pub enum Token {
    Number(String),
    String(String),
    Identifier(String),
    Label(String),
    MacroDef(String),
    MacroExpand(String),
    MacroDefEnd,
    MacroExpandLabel(String),
    BlockParam(String),
    Keyword(String),
    GenericIdentifier(String),
    GenericLabel(String),
    Unknown(String),
}

/// Mathematical model of a token: the same variants over character sequences.
pub enum Tok {
    Number(Seq<char>),
    String(Seq<char>),
    Identifier(Seq<char>),
    Label(Seq<char>),
    MacroDef(Seq<char>),
    MacroExpand(Seq<char>),
    MacroDefEnd,
    MacroExpandLabel(Seq<char>),
    BlockParam(Seq<char>),
    Keyword(Seq<char>),
    GenericIdentifier(Seq<char>),
    GenericLabel(Seq<char>),
    Unknown(Seq<char>),
}

impl View for Token {
    type V = Tok;

    open spec fn view(&self) -> Tok {
        match self {
            Token::Number(v) => Tok::Number(v@),
            Token::String(v) => Tok::String(v@),
            Token::Identifier(v) => Tok::Identifier(v@),
            Token::Label(v) => Tok::Label(v@),
            Token::MacroDef(v) => Tok::MacroDef(v@),
            Token::MacroExpand(v) => Tok::MacroExpand(v@),
            Token::MacroDefEnd => Tok::MacroDefEnd,
            Token::MacroExpandLabel(v) => Tok::MacroExpandLabel(v@),
            Token::BlockParam(v) => Tok::BlockParam(v@),
            Token::Keyword(v) => Tok::Keyword(v@),
            Token::GenericIdentifier(v) => Tok::GenericIdentifier(v@),
            Token::GenericLabel(v) => Tok::GenericLabel(v@),
            Token::Unknown(v) => Tok::Unknown(v@),
        }
    }
}

impl DeepView for Token {
    type V = Tok;

    open spec fn deep_view(&self) -> Tok {
        self@
    }
}

/// The canonical surface form of a token: the inverse of classification.
pub open spec fn token_text(t: Tok) -> Seq<char> {
    match t {
        Tok::Number(v) => v,
        Tok::String(v) => v,
        Tok::Identifier(v) => v,
        Tok::Unknown(v) => v,
        Tok::Label(v) => v + seq![':'],
        Tok::MacroDef(v) => seq!['!'] + v,
        Tok::MacroExpand(v) => v + seq!['!'],
        Tok::MacroDefEnd => seq!['!', '!'],
        Tok::MacroExpandLabel(v) => v + seq!['!', ':'],
        Tok::BlockParam(v) => seq!['&'] + v,
        Tok::Keyword(v) => seq!['$'] + v,
        Tok::GenericIdentifier(v) => seq!['#'] + v,
        Tok::GenericLabel(v) => seq!['#'] + v + seq![':'],
    }
}

/// `marker` followed by `v`.
fn prefixed(marker: &str, v: &String) -> (r: String)
    ensures
        r@ == marker@ + v@,
{
    let mut r = String::from_str(marker);
    r.append(v.as_str());
    r
}

/// `v` followed by `marker`.
fn suffixed(v: &String, marker: &str) -> (r: String)
    ensures
        r@ == v@ + marker@,
{
    let mut r = v.clone();
    r.append(marker);
    r
}

impl Token {
    /// Renders the token in its canonical surface form.
    pub fn to_string(&self) -> (r: String)
        ensures
            r@ == token_text(self@),
    {
        proof {
            reveal_strlit(":");
            reveal_strlit("!");
            reveal_strlit("!!");
            reveal_strlit("!:");
            reveal_strlit("&");
            reveal_strlit("$");
            reveal_strlit("#");
        }
        match self {
            Token::Number(v) => v.clone(),
            Token::String(v) => v.clone(),
            Token::Identifier(v) => v.clone(),
            Token::Unknown(v) => v.clone(),
            Token::Label(v) => suffixed(v, ":"),
            Token::MacroDef(v) => prefixed("!", v),
            Token::MacroExpand(v) => suffixed(v, "!"),
            Token::MacroDefEnd => String::from_str("!!"),
            Token::MacroExpandLabel(v) => suffixed(v, "!:"),
            Token::BlockParam(v) => prefixed("&", v),
            Token::Keyword(v) => prefixed("$", v),
            Token::GenericIdentifier(v) => prefixed("#", v),
            Token::GenericLabel(v) => {
                let r = prefixed("#", v);
                suffixed(&r, ":")
            },
        }
    }

    /// A copy of the token with the same model.
    pub fn duplicate(&self) -> (r: Token)
        ensures
            r@ == self@,
    {
        match self {
            Token::Number(v) => Token::Number(v.clone()),
            Token::String(v) => Token::String(v.clone()),
            Token::Identifier(v) => Token::Identifier(v.clone()),
            Token::Label(v) => Token::Label(v.clone()),
            Token::MacroDef(v) => Token::MacroDef(v.clone()),
            Token::MacroExpand(v) => Token::MacroExpand(v.clone()),
            Token::MacroDefEnd => Token::MacroDefEnd,
            Token::MacroExpandLabel(v) => Token::MacroExpandLabel(v.clone()),
            Token::BlockParam(v) => Token::BlockParam(v.clone()),
            Token::Keyword(v) => Token::Keyword(v.clone()),
            Token::GenericIdentifier(v) => Token::GenericIdentifier(v.clone()),
            Token::GenericLabel(v) => Token::GenericLabel(v.clone()),
            Token::Unknown(v) => Token::Unknown(v.clone()),
        }
    }
}

/// A copy of a token line with the same model.
pub fn copy_line(line: &Vec<Token>) -> (r: Vec<Token>)
    ensures
        r.deep_view() == line.deep_view(),
{
    let mut r: Vec<Token> = Vec::new();
    let mut i: usize = 0;
    while i < line.len()
        invariant
            i <= line.len(),
            r.len() == i,
            forall|k: int| 0 <= k < i ==> r[k]@ == line[k]@,
        decreases line.len() - i,
    {
        r.push(line[i].duplicate());
        i = i + 1;
    }
    proof {
        assert(r.deep_view() =~= line.deep_view());
    }
    r
}

/// A copy of a sequence of token lines with the same model.
pub fn copy_lines(lines: &Vec<Vec<Token>>) -> (r: Vec<Vec<Token>>)
    ensures
        r.deep_view() == lines.deep_view(),
{
    let mut r: Vec<Vec<Token>> = Vec::new();
    let mut i: usize = 0;
    while i < lines.len()
        invariant
            i <= lines.len(),
            r.len() == i,
            forall|k: int| 0 <= k < i ==> r[k].deep_view() == lines[k].deep_view(),
        decreases lines.len() - i,
    {
        r.push(copy_line(&lines[i]));
        i = i + 1;
    }
    proof {
        assert(r.deep_view() =~= lines.deep_view());
    }
    r
}

} // verus!
