use regex_nfa::RegexAST;

fn raw(c: char) -> Box<RegexAST> {
    Box::new(RegexAST::Raw(c))
}

fn cat(a: Box<RegexAST>, b: Box<RegexAST>) -> Box<RegexAST> {
    Box::new(RegexAST::Cat(a, b))
}

fn join(a: Box<RegexAST>, b: Box<RegexAST>) -> Box<RegexAST> {
    Box::new(RegexAST::Join(a, b))
}

#[test]
fn test_regex() {
    println!("{}", RegexAST::new("(ef*a)|({ncdf\\*}nx*)|p*").to_text());
    println!("{}", RegexAST::new("[ab[ce*]d]").to_text());
    println!("{}", RegexAST::new("[abced]").to_text());
}

#[test]
fn chain_and_join_treat_empty_as_identity() {
    let a = RegexAST::Raw('q');
    assert_eq!(RegexAST::Empty.chain(a), RegexAST::Raw('q'));
    let a = RegexAST::Raw('q');
    assert_eq!(a.chain(RegexAST::Empty), RegexAST::Raw('q'));
    let a = RegexAST::Raw('q');
    assert_eq!(RegexAST::Empty.join(a), RegexAST::Raw('q'));
    let a = RegexAST::Raw('q');
    assert_eq!(a.join(RegexAST::Empty), RegexAST::Raw('q'));
    assert_eq!(RegexAST::Empty.chain(RegexAST::Empty), RegexAST::Empty);
    assert_eq!(RegexAST::Empty.join(RegexAST::Empty), RegexAST::Empty);
}

#[test]
fn chain_and_join_build_nodes() {
    let c = RegexAST::Raw('a').chain(RegexAST::Raw('b'));
    assert_eq!(c, *cat(raw('a'), raw('b')));
    let j = RegexAST::Raw('a').join(RegexAST::Raw('b'));
    assert_eq!(j, *join(raw('a'), raw('b')));
}

#[test]
fn parse_single_literal() {
    assert_eq!(*RegexAST::new("a"), RegexAST::Raw('a'));
}

#[test]
fn parse_wildcard() {
    assert_eq!(*RegexAST::new("."), RegexAST::Any);
}

#[test]
fn parse_empty_pattern() {
    assert_eq!(*RegexAST::new(""), RegexAST::Empty);
}

#[test]
fn parse_star_wraps_whole_sequence() {
    let expected = Box::new(RegexAST::Star(cat(raw('a'), raw('b'))));
    assert_eq!(RegexAST::new("ab*"), expected);
}

#[test]
fn parse_alternation() {
    assert_eq!(RegexAST::new("a|b"), join(raw('a'), raw('b')));
}

#[test]
fn parse_character_class_alternates() {
    assert_eq!(RegexAST::new("[ab]"), join(raw('a'), raw('b')));
}

#[test]
fn parse_group_is_transparent_for_a_single_atom() {
    assert_eq!(*RegexAST::new("(a)b"), *cat(raw('a'), raw('b')));
}

#[test]
fn parse_escape_preserves_nested_braces() {
    let expected = cat(cat(cat(cat(raw('a'), raw('{')), raw('b')), raw('}')), raw('c'));
    assert_eq!(RegexAST::new("{a{b}c}"), expected);
}

#[test]
fn parse_escape_makes_operators_literal() {
    let expected = cat(cat(raw('('), raw('*')), raw('|'));
    assert_eq!(RegexAST::new("{(*|}"), expected);
}

#[test]
fn parse_unterminated_group_still_returns() {
    let ast = RegexAST::new("(a");
    assert_eq!(*ast, RegexAST::Raw('a'));
}

#[test]
fn parse_unterminated_escape_still_returns() {
    let ast = RegexAST::new("{ab");
    assert_eq!(ast, cat(raw('a'), raw('b')));
}

#[test]
fn escape_block_merges_by_the_inverse_combinator() {
    // under sequence polarity an escape block joins, it does not chain
    assert_eq!(RegexAST::new("a{b}"), join(raw('a'), raw('b')));
    // under charset polarity it chains instead
    assert_eq!(RegexAST::new("[a{b}]"), cat(raw('a'), raw('b')));
}

#[test]
fn empty_alternative_collapses_away() {
    assert_eq!(*RegexAST::new("a|"), RegexAST::Raw('a'));
}

#[test]
fn star_of_nothing_wraps_the_empty_tree() {
    assert_eq!(*RegexAST::new("*"), RegexAST::Star(Box::new(RegexAST::Empty)));
}

#[test]
fn to_text_renders_each_form() {
    assert_eq!(RegexAST::Empty.to_text(), "\u{03b5}");
    assert_eq!(RegexAST::Any.to_text(), ".");
    assert_eq!(RegexAST::Raw('x').to_text(), "x");
    assert_eq!(cat(raw('a'), raw('b')).to_text(), "(a)(b)");
    assert_eq!(join(raw('a'), raw('b')).to_text(), "(a|b)");
    assert_eq!(RegexAST::Star(raw('a')).to_text(), "(a*)");
}
