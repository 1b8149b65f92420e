use mdll::lexer::Lexer;
use mdll::processor::{stringify_tokens, ExpandError, MacroProcessor};
use mdll::lexer::Token;

fn expand(src: &str) -> Result<String, ExpandError> {
    let tokens = Lexer::new(src).all_lines();
    let mut processor = MacroProcessor::new(tokens);
    processor.run().map(stringify_tokens)
}

#[test]
fn plain_document_is_unchanged() {
    let out = expand("mov a b\n   add  1   2  \n\n\"text\" done:").unwrap();
    assert_eq!(out, "mov a b\nadd 1 2\n\"text\" done:");
}

#[test]
fn positional_parameter_is_substituted() {
    assert_eq!(expand("!greet name\nname!\n!!\ngreet! world").unwrap(), "world");
}

#[test]
fn positional_parameter_inside_a_line() {
    assert_eq!(
        expand("!greet name\nIdentifier name!\n!!\ngreet! world").unwrap(),
        "Identifier world"
    );
}

#[test]
fn block_parameter_takes_the_block() {
    assert_eq!(
        expand("!m &body\n&body\n!!\nm!\n$begin\nfoo\nbar\n$end").unwrap(),
        "foo\nbar"
    );
}

#[test]
fn nested_begin_end_stays_in_the_block() {
    assert_eq!(
        expand("!m &b\n&b\n!!\nm!\n$begin\n$begin\nx\n$end\n$end\nafter").unwrap(),
        "x\nafter"
    );
}

#[test]
fn argument_becomes_a_label() {
    assert_eq!(expand("!m lbl\nlbl!:\n!!\nm! start").unwrap(), "start:");
}

#[test]
fn placeholders_get_one_name_per_expansion() {
    let out = expand("!m\n#tmp:\njmp #tmp\n!!\nm!\nm!").unwrap();
    assert_eq!(
        out,
        "__GI_0_tmp:\njmp __GI_0_tmp\n__GI_1_tmp:\njmp __GI_1_tmp"
    );
}

#[test]
fn counter_is_shared_with_nested_expansions() {
    let out = expand("!a\n#t:\n!!\n!b\na!\n#t:\n!!\nb!\na!").unwrap();
    assert_eq!(out, "__GI_1_t:\n__GI_0_t:\n__GI_2_t:");
}

#[test]
fn undefined_macro_is_an_error() {
    match expand("before\nfoo!") {
        Err(ExpandError::UndefinedMacro(name)) => assert_eq!(name, "foo"),
        other => panic!("unexpected outcome: {:?}", other),
    }
}

#[test]
fn unterminated_definition_is_an_error() {
    assert!(matches!(
        expand("!m\nfoo"),
        Err(ExpandError::UnterminatedDefinition)
    ));
}

#[test]
fn unterminated_block_is_an_error() {
    assert!(matches!(
        expand("!m &b\n&b\n!!\nm!\n$begin\nfoo"),
        Err(ExpandError::UnterminatedBlock)
    ));
}

#[test]
fn self_recursive_macro_hits_the_limit() {
    assert!(matches!(
        expand("!loop\nloop!\n!!\nloop!"),
        Err(ExpandError::LimitExceeded)
    ));
}

#[test]
fn nested_macros_are_resolved() {
    let out = expand("!inner x\nval x!\n!!\n!outer y\ninner! y!\n!!\nouter! 42").unwrap();
    assert_eq!(out, "val 42");
}

#[test]
fn definition_inside_a_body_is_expanded() {
    let out = expand("!outer &b\n&b\n!!\nouter!\n$begin\n!inner\nhello\n!!\ninner!\n$end").unwrap();
    assert_eq!(out, "hello");
}

#[test]
fn definition_inside_a_body_stays_local() {
    assert!(matches!(
        expand("!outer &b\n&b\n!!\nouter!\n$begin\n!inner\nhello\n!!\ninner!\n$end\ninner!"),
        Err(ExpandError::UndefinedMacro(_))
    ));
}

#[test]
fn later_definition_replaces_earlier() {
    assert_eq!(expand("!m\none\n!!\n!m\ntwo\n!!\nm!").unwrap(), "two");
}

#[test]
fn extra_arguments_ignored_missing_left_unbound() {
    assert_eq!(expand("!m a\nuse a!\n!!\nm! 1 2 3").unwrap(), "use 1");
    assert_eq!(expand("!m a b\nuse a! b!\n!!\nm! 1").unwrap(), "use 1 b!");
}

#[test]
fn stray_lines_are_dropped() {
    assert_eq!(
        expand("!!\nx!:\n&blk\n#g\n#g:\n$begin\n$end\nkeep").unwrap(),
        "keep"
    );
}

#[test]
fn comment_lines_are_skipped() {
    assert_eq!(expand("\\ a comment\nfoo\n\\another").unwrap(), "foo");
}

#[test]
fn lexer_classifies_each_shape() {
    let lines = Lexer::new("!! 12 -3.5 \"hi\" word lab: !def call! arg!: $begin &blk #gid #glab: ?").all_lines();
    assert_eq!(lines.len(), 1);
    let t = &lines[0];
    assert!(matches!(t[0], Token::MacroDefEnd));
    assert!(matches!(&t[1], Token::Number(s) if s == "12"));
    assert!(matches!(&t[2], Token::Number(s) if s == "-3.5"));
    assert!(matches!(&t[3], Token::String(s) if s == "\"hi\""));
    assert!(matches!(&t[4], Token::Identifier(s) if s == "word"));
    assert!(matches!(&t[5], Token::Label(s) if s == "lab"));
    assert!(matches!(&t[6], Token::MacroDef(s) if s == "def"));
    assert!(matches!(&t[7], Token::MacroExpand(s) if s == "call"));
    assert!(matches!(&t[8], Token::MacroExpandLabel(s) if s == "arg"));
    assert!(matches!(&t[9], Token::Keyword(s) if s == "begin"));
    assert!(matches!(&t[10], Token::BlockParam(s) if s == "blk"));
    assert!(matches!(&t[11], Token::GenericIdentifier(s) if s == "gid"));
    assert!(matches!(&t[12], Token::GenericLabel(s) if s == "glab"));
    assert_eq!(t.len(), 13);
}

#[test]
fn lexer_trims_and_drops_blank_lines() {
    let lines = Lexer::new("   a  \n\n   \n\tb c\t\n+++").all_lines();
    assert_eq!(lines.len(), 2);
    assert_eq!(stringify_tokens(lines), "a\nb c");
}

#[test]
fn token_renders_its_surface_form() {
    let s = |v: &str| v.to_string();
    assert_eq!(Token::Number(s("7")).to_string(), "7");
    assert_eq!(Token::String(s("\"q\"")).to_string(), "\"q\"");
    assert_eq!(Token::Identifier(s("x")).to_string(), "x");
    assert_eq!(Token::Label(s("l")).to_string(), "l:");
    assert_eq!(Token::MacroDef(s("m")).to_string(), "!m");
    assert_eq!(Token::MacroExpand(s("m")).to_string(), "m!");
    assert_eq!(Token::MacroDefEnd.to_string(), "!!");
    assert_eq!(Token::MacroExpandLabel(s("p")).to_string(), "p!:");
    assert_eq!(Token::BlockParam(s("b")).to_string(), "&b");
    assert_eq!(Token::Keyword(s("end")).to_string(), "$end");
    assert_eq!(Token::GenericIdentifier(s("g")).to_string(), "#g");
    assert_eq!(Token::GenericLabel(s("g")).to_string(), "#g:");
    assert_eq!(Token::Unknown(s("?")).to_string(), "?");
}

#[test]
fn stringify_joins_with_spaces_and_line_breaks() {
    let lines = vec![
        vec![Token::Identifier("a".to_string()), Token::Label("b".to_string())],
        vec![],
        vec![Token::MacroDefEnd],
    ];
    assert_eq!(stringify_tokens(lines), "a b:\n\n!!");
    assert_eq!(stringify_tokens(vec![]), "");
}

#[test]
fn processor_runs_on_given_tokens() {
    let lines = vec![
        vec![Token::MacroDef("m".to_string()), Token::Identifier("p".to_string())],
        vec![Token::Identifier("say".to_string()), Token::MacroExpand("p".to_string())],
        vec![Token::MacroDefEnd],
        vec![Token::MacroExpand("m".to_string()), Token::Number("5".to_string())],
        vec![],
    ];
    let out = MacroProcessor::new(lines).run().unwrap();
    assert_eq!(stringify_tokens(out), "say 5\n");
}

#[test]
fn decimal_names_for_large_counters() {
    assert_eq!(mdll::hygiene::decimal_string(0), "0");
    assert_eq!(mdll::hygiene::decimal_string(1907), "1907");
    assert_eq!(
        mdll::hygiene::make_name(42, &"tmp".to_string()),
        "__GI_42_tmp"
    );
}
