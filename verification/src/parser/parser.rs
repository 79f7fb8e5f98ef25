//! The lexer and the parser for programs and queries.

use vstd::prelude::*;
use crate::parser::tree::{
    cons_list,
    empty_list,
    view_tree_clauses,
    view_trees,
    Clause,
    ClauseTreeView,
    Expr,
    ExprKind,
    ExprView,
    Term,
    TermKind,
    TreeView,
};
use crate::text::{characters, same_text, text_of};

verus! {

/// A token of the source text.
#[derive(Debug)]
pub enum Token {
    Word(String),
    String(String),
    OpenBracket,
    CloseBracket,
    OpenSquare,
    CloseSquare,
    VerticalBar,
    Comma,
    Horn,
    Period,
}

/// The mathematical value of a [`Token`].
pub enum TokenView {
    Word(Seq<char>),
    String(Seq<char>),
    OpenBracket,
    CloseBracket,
    OpenSquare,
    CloseSquare,
    VerticalBar,
    Comma,
    Horn,
    Period,
}

impl View for Token {
    type V = TokenView;

    open spec fn view(&self) -> TokenView {
        match self {
            Token::Word(text) => TokenView::Word(text@),
            Token::String(text) => TokenView::String(text@),
            Token::OpenBracket => TokenView::OpenBracket,
            Token::CloseBracket => TokenView::CloseBracket,
            Token::OpenSquare => TokenView::OpenSquare,
            Token::CloseSquare => TokenView::CloseSquare,
            Token::VerticalBar => TokenView::VerticalBar,
            Token::Comma => TokenView::Comma,
            Token::Horn => TokenView::Horn,
            Token::Period => TokenView::Period,
        }
    }
}

impl Clone for Token {
    fn clone(&self) -> (copy: Self)
        ensures
            copy@ == self@,
    {
        match self {
            Token::Word(text) => Token::Word(text.clone()),
            Token::String(text) => Token::String(text.clone()),
            Token::OpenBracket => Token::OpenBracket,
            Token::CloseBracket => Token::CloseBracket,
            Token::OpenSquare => Token::OpenSquare,
            Token::CloseSquare => Token::CloseSquare,
            Token::VerticalBar => Token::VerticalBar,
            Token::Comma => Token::Comma,
            Token::Horn => Token::Horn,
            Token::Period => Token::Period,
        }
    }
}

impl PartialEq for Token {
    fn eq(&self, other: &Token) -> (r: bool) {
        match self {
            Token::Word(a) => match other {
                Token::Word(b) => *a == *b,
                _ => false,
            },
            Token::String(a) => match other {
                Token::String(b) => *a == *b,
                _ => false,
            },
            Token::OpenBracket => matches!(other, Token::OpenBracket),
            Token::CloseBracket => matches!(other, Token::CloseBracket),
            Token::OpenSquare => matches!(other, Token::OpenSquare),
            Token::CloseSquare => matches!(other, Token::CloseSquare),
            Token::VerticalBar => matches!(other, Token::VerticalBar),
            Token::Comma => matches!(other, Token::Comma),
            Token::Horn => matches!(other, Token::Horn),
            Token::Period => matches!(other, Token::Period),
        }
    }
}

impl vstd::std_specs::cmp::PartialEqSpecImpl for Token {
    open spec fn obeys_eq_spec() -> bool {
        true
    }

    open spec fn eq_spec(&self, other: &Token) -> bool {
        self@ == other@
    }
}

/// The value of an optional token.
pub open spec fn view_token(token: Option<Token>) -> Option<TokenView> {
    match token {
        Some(t) => Some(t@),
        None => None,
    }
}

/// The classes of character that the lexer takes runs of.
pub enum Run {
    /// Blanks, line ends and tabs.
    Whitespace,
    /// Letters, digits and the underscore.
    Word,
    /// The characters that operators are made of.
    Operator,
    /// Everything but the single quote.
    Quoted,
    /// Everything but the double quote.
    DoubleQuoted,
    /// Everything but the line end.
    Comment,
}

/// Whether `ch` is a blank, a line end or a tab.
pub open spec fn whitespace_char(ch: char) -> bool {
    ch == ' ' || ch == '\n' || ch == '\t'
}

/// Whether `ch` is a letter, a digit or the underscore.
pub open spec fn word_char(ch: char) -> bool {
    ('a' <= ch && ch <= 'z') || ('A' <= ch && ch <= 'Z') || ('0' <= ch && ch <= '9') || ch == '_'
}

/// Whether operators are made of `ch`.
pub open spec fn operator_char(ch: char) -> bool {
    ch == ';' || ch == ':' || ch == '=' || ch == '>' || ch == '<' || ch == '+' || ch == '-' || ch == '*'
        || ch == '\\' || ch == '/' || ch == '!' || ch == '#' || ch == '$' || ch == '?' || ch == '@' || ch
        == '^'
}

/// Whether a run of the given class goes on over `ch`.
pub open spec fn in_run(run: Run, ch: char) -> bool {
    match run {
        Run::Whitespace => whitespace_char(ch),
        Run::Word => word_char(ch),
        Run::Operator => operator_char(ch),
        Run::Quoted => ch != '\'',
        Run::DoubleQuoted => ch != '"',
        Run::Comment => ch != '\n',
    }
}

/// Where the run of the given class that starts at `pos` ends: the first
/// position from `pos` on that holds a character outside the class, or the
/// end of the text.
pub open spec fn run_end(chars: Seq<char>, pos: nat, run: Run) -> nat
    decreases chars.len() - pos,
{
    if pos < chars.len() && in_run(run, chars[pos as int]) {
        run_end(chars, pos + 1, run)
    } else {
        pos
    }
}

/// A run ends at or after its start, and within the text if it started
/// there.
pub proof fn lemma_run_end(chars: Seq<char>, pos: nat, run: Run)
    ensures
        pos <= run_end(chars, pos, run),
        pos <= chars.len() ==> run_end(chars, pos, run) <= chars.len(),
    decreases chars.len() - pos,
{
    if pos < chars.len() && in_run(run, chars[pos as int]) {
        lemma_run_end(chars, pos + 1, run);
    }
}

/// The token that starts at or after `pos`, and the position after it.
///
/// Whitespace is skipped, and so is a comment from `%` to the end of its
/// line. Brackets, the bar, the comma and the period are tokens of their
/// own. A single quote starts a word that runs to the next single quote, a
/// double quote a string that runs to the next double quote; the closing
/// quote is passed. A letter, digit or underscore starts a word of such
/// characters. Any other character starts a word that goes on over operator
/// characters; the word `:-` is the horn. At the end of the text there is
/// no token.
pub open spec fn token_at(chars: Seq<char>, pos: nat) -> (Option<TokenView>, nat)
    decreases chars.len() - pos,
{
    let start = run_end(chars, pos, Run::Whitespace);
    if start >= chars.len() {
        (None, start)
    } else {
        let ch = chars[start as int];
        let next = start + 1;
        if ch == '(' {
            (Some(TokenView::OpenBracket), next)
        } else if ch == ')' {
            (Some(TokenView::CloseBracket), next)
        } else if ch == '[' {
            (Some(TokenView::OpenSquare), next)
        } else if ch == ']' {
            (Some(TokenView::CloseSquare), next)
        } else if ch == '|' {
            (Some(TokenView::VerticalBar), next)
        } else if ch == '.' {
            (Some(TokenView::Period), next)
        } else if ch == ',' {
            (Some(TokenView::Comma), next)
        } else if ch == '\'' {
            let end = run_end(chars, next, Run::Quoted);
            (
                Some(TokenView::Word(chars.subrange(next as int, end as int))),
                if end < chars.len() {
                    end + 1
                } else {
                    end
                },
            )
        } else if ch == '"' {
            let end = run_end(chars, next, Run::DoubleQuoted);
            (
                Some(TokenView::String(chars.subrange(next as int, end as int))),
                if end < chars.len() {
                    end + 1
                } else {
                    end
                },
            )
        } else if ch == '%' {
            proof {
                lemma_run_end(chars, pos, Run::Whitespace);
                lemma_run_end(chars, next, Run::Comment);
            }
            token_at(chars, run_end(chars, next, Run::Comment))
        } else if word_char(ch) {
            let end = run_end(chars, next, Run::Word);
            (Some(TokenView::Word(chars.subrange(start as int, end as int))), end)
        } else {
            let end = run_end(chars, next, Run::Operator);
            let text = chars.subrange(start as int, end as int);
            if text == ":-"@ {
                (Some(TokenView::Horn), end)
            } else {
                (Some(TokenView::Word(text)), end)
            }
        }
    }
}

/// A token ends after the position it was looked for at, within the text;
/// without a token the position stays within the text too.
pub proof fn lemma_token_at(chars: Seq<char>, pos: nat)
    requires
        pos <= chars.len(),
    ensures
        token_at(chars, pos).0 is Some ==> pos < token_at(chars, pos).1,
        pos <= token_at(chars, pos).1 <= chars.len(),
    decreases chars.len() - pos,
{
    lemma_run_end(chars, pos, Run::Whitespace);
    let start = run_end(chars, pos, Run::Whitespace);
    if start < chars.len() {
        let ch = chars[start as int];
        let next = start + 1;
        lemma_run_end(chars, next, Run::Quoted);
        lemma_run_end(chars, next, Run::DoubleQuoted);
        lemma_run_end(chars, next, Run::Comment);
        lemma_run_end(chars, next, Run::Word);
        lemma_run_end(chars, next, Run::Operator);
        if ch == '%' {
            lemma_token_at(chars, run_end(chars, next, Run::Comment));
        }
    }
}

/// Whether `ch` is a blank, a line end or a tab.
fn is_whitespace(ch: char) -> (r: bool)
    ensures
        r == whitespace_char(ch),
{
    ch == ' ' || ch == '\n' || ch == '\t'
}

/// Whether `ch` is a letter, a digit or the underscore.
fn is_word(ch: char) -> (r: bool)
    ensures
        r == word_char(ch),
{
    ('a' <= ch && ch <= 'z') || ('A' <= ch && ch <= 'Z') || ('0' <= ch && ch <= '9') || ch == '_'
}

/// Whether operators are made of `ch`.
fn is_operator(ch: char) -> (r: bool)
    ensures
        r == operator_char(ch),
{
    ch == ';' || ch == ':' || ch == '=' || ch == '>' || ch == '<' || ch == '+' || ch == '-' || ch == '*'
        || ch == '\\' || ch == '/' || ch == '!' || ch == '#' || ch == '$' || ch == '?' || ch == '@' || ch
        == '^'
}

/// Whether a run of the given class goes on over `ch`.
fn continues(run: &Run, ch: char) -> (r: bool)
    ensures
        r == in_run(*run, ch),
{
    match run {
        Run::Whitespace => is_whitespace(ch),
        Run::Word => is_word(ch),
        Run::Operator => is_operator(ch),
        Run::Quoted => ch != '\'',
        Run::DoubleQuoted => ch != '"',
        Run::Comment => ch != '\n',
    }
}

/// A lexer over the characters of a source text.
#[derive(Debug)]
pub struct Lexer {
    chars: Vec<char>,
    position: usize,
}

impl Lexer {
    /// The position never lies beyond the end of the text.
    #[verifier::type_invariant]
    spec fn within_text(self) -> bool {
        self.position <= self.chars.len()
    }

    /// The text that the lexer reads.
    pub closed spec fn text(&self) -> Seq<char> {
        self.chars@
    }

    /// How far into the text the lexer has read.
    pub closed spec fn position(&self) -> nat {
        self.position as nat
    }

    /// A lexer at the start of `input`.
    pub fn new(input: &str) -> (lexer: Lexer)
        ensures
            lexer.text() == input@,
            lexer.position() == 0,
    {
        Lexer { chars: characters(input), position: 0 }
    }

    /// Passes the run of the given class that starts at the current
    /// position.
    fn skip_run(&mut self, run: Run)
        ensures
            final(self).chars == old(self).chars,
            final(self).position == run_end(old(self).chars@, old(self).position as nat, run),
            final(self).position <= final(self).chars.len(),
    {
        proof {
            use_type_invariant(&*self);
            lemma_run_end(self.chars@, self.position as nat, run);
        }
        while self.position < self.chars.len() && continues(&run, self.chars[self.position])
            invariant
                self.chars == old(self).chars,
                self.position <= self.chars.len(),
                run_end(old(self).chars@, old(self).position as nat, run) == run_end(
                    self.chars@,
                    self.position as nat,
                    run,
                ),
            decreases self.chars.len() - self.position,
        {
            self.position += 1;
        }
    }

    /// Passes blanks, line ends and tabs.
    fn eat_whitespace(&mut self)
        ensures
            final(self).chars == old(self).chars,
            final(self).position == run_end(old(self).chars@, old(self).position as nat, Run::Whitespace),
            final(self).position <= final(self).chars.len(),
    {
        self.skip_run(Run::Whitespace);
    }

    /// The text from `start` to the end of the run of the given class that
    /// starts at the current position, which is passed.
    fn get_string(&mut self, start: usize, run: Run) -> (text: String)
        requires
            start <= old(self).position,
        ensures
            final(self).chars == old(self).chars,
            final(self).position == run_end(old(self).chars@, old(self).position as nat, run),
            final(self).position <= final(self).chars.len(),
            text@ == old(self).chars@.subrange(start as int, final(self).position as int),
    {
        proof {
            use_type_invariant(&*self);
            lemma_run_end(self.chars@, self.position as nat, run);
        }
        self.skip_run(run);
        text_of(&self.chars, start, self.position)
    }

    /// The next token without passing it.
    pub fn peek_token(&mut self) -> (token: Option<Token>)
        ensures
            final(self).text() == old(self).text(),
            final(self).position() == old(self).position(),
            view_token(token) == token_at(old(self).text(), old(self).position()).0,
    {
        proof {
            use_type_invariant(&*self);
        }
        let saved = self.position;
        let token = self.get_token();
        self.position = saved;
        token
    }

    /// The next token, or `None` at the end of the text.
    pub fn get_token(&mut self) -> (token: Option<Token>)
        ensures
            final(self).text() == old(self).text(),
            final(self).position() <= final(self).text().len(),
            (view_token(token), final(self).position()) == token_at(old(self).text(), old(self).position()),
        decreases old(self).text().len() - old(self).position(),
    {
        self.eat_whitespace();
        if self.position >= self.chars.len() {
            return None;
        }
        let start = self.position;
        let ch = self.chars[start];
        self.position += 1;
        if ch == '(' {
            Some(Token::OpenBracket)
        } else if ch == ')' {
            Some(Token::CloseBracket)
        } else if ch == '[' {
            Some(Token::OpenSquare)
        } else if ch == ']' {
            Some(Token::CloseSquare)
        } else if ch == '|' {
            Some(Token::VerticalBar)
        } else if ch == '.' {
            Some(Token::Period)
        } else if ch == ',' {
            Some(Token::Comma)
        } else if ch == '\'' {
            let string = self.get_string(start + 1, Run::Quoted);
            if self.position < self.chars.len() {
                self.position += 1;
            }
            Some(Token::Word(string))
        } else if ch == '"' {
            let string = self.get_string(start + 1, Run::DoubleQuoted);
            if self.position < self.chars.len() {
                self.position += 1;
            }
            Some(Token::String(string))
        } else if ch == '%' {
            self.skip_run(Run::Comment);
            proof {
                lemma_run_end(old(self).chars@, old(self).position as nat, Run::Whitespace);
                lemma_run_end(old(self).chars@, (start + 1) as nat, Run::Comment);
            }
            self.get_token()
        } else if is_word(ch) {
            Some(Token::Word(self.get_string(start, Run::Word)))
        } else {
            let op = self.get_string(start, Run::Operator);
            if same_text(op.as_str(), ":-") {
                Some(Token::Horn)
            } else {
                Some(Token::Word(op))
            }
        }
    }
}

/// Why a text could not be parsed.
#[derive(Debug)]
pub enum ParseError {
    UnexpectedEof,
    UnexpectedToken(Token),
}

/// The mathematical value of a [`ParseError`].
pub enum ParseErrorView {
    UnexpectedEof,
    UnexpectedToken(TokenView),
}

impl View for ParseError {
    type V = ParseErrorView;

    open spec fn view(&self) -> ParseErrorView {
        match self {
            ParseError::UnexpectedEof => ParseErrorView::UnexpectedEof,
            ParseError::UnexpectedToken(token) => ParseErrorView::UnexpectedToken(token@),
        }
    }
}

impl Clone for ParseError {
    fn clone(&self) -> (copy: Self)
        ensures
            copy@ == self@,
    {
        match self {
            ParseError::UnexpectedEof => ParseError::UnexpectedEof,
            ParseError::UnexpectedToken(token) => ParseError::UnexpectedToken(token.clone()),
        }
    }
}

/// The value of a decimal digit; `None` for any other character.
pub open spec fn digit_value(ch: char) -> Option<nat> {
    if ch == '0' {
        Some(0)
    } else if ch == '1' {
        Some(1)
    } else if ch == '2' {
        Some(2)
    } else if ch == '3' {
        Some(3)
    } else if ch == '4' {
        Some(4)
    } else if ch == '5' {
        Some(5)
    } else if ch == '6' {
        Some(6)
    } else if ch == '7' {
        Some(7)
    } else if ch == '8' {
        Some(8)
    } else if ch == '9' {
        Some(9)
    } else {
        None
    }
}

/// The number that a sequence of decimal digits writes (zero for none);
/// `None` when one of the characters is no digit.
pub open spec fn digits_value(text: Seq<char>) -> Option<nat>
    decreases text.len(),
{
    if text.len() == 0 {
        Some(0)
    } else {
        match digits_value(text.drop_last()) {
            Some(front) => match digit_value(text.last()) {
                Some(d) => Some(front * 10 + d),
                None => None,
            },
            None => None,
        }
    }
}

/// The integer that `name` writes: digits, with a minus sign before them or
/// not. `None` when `name` is written otherwise or the digits write more
/// than the greatest 64-bit integer.
pub open spec fn number_value(name: Seq<char>) -> Option<i64> {
    let negative = name.len() > 0 && name[0] == '-';
    let digits = if negative {
        name.subrange(1, name.len() as int)
    } else {
        name
    };
    match digits_value(digits) {
        Some(magnitude) => if magnitude <= i64::MAX {
            if negative {
                Some((-magnitude) as i64)
            } else {
                Some(magnitude as i64)
            }
        } else {
            None
        },
        None => None,
    }
}

/// The term that a word stands for: an integer where it starts with a digit
/// or a minus sign, a variable where it starts with an upper-case letter or
/// an underscore, and an atom otherwise. A word that starts like an integer
/// and is none is refused.
pub open spec fn atom_or_variable(name: Seq<char>) -> Result<TreeView, ParseErrorView> {
    if name.len() > 0 && (digit_value(name[0]) is Some || name[0] == '-') {
        match number_value(name) {
            Some(n) => Ok(TreeView::Integer(n)),
            None => Err(ParseErrorView::UnexpectedToken(TokenView::Word(name))),
        }
    } else if name.len() > 0 && (('A' <= name[0] && name[0] <= 'Z') || name[0] == '_') {
        Ok(TreeView::Var(name))
    } else {
        Ok(TreeView::Atom(name))
    }
}

/// How tightly an infix operator binds; `None` for a word that is no
/// operator.
pub open spec fn precedence_of(op: Seq<char>) -> Option<u8> {
    if op == ","@ {
        Some(1u8)
    } else if op == "="@ || op == "\\="@ {
        Some(2u8)
    } else if op == ">"@ || op == ">="@ || op == "<"@ || op == "=<"@ {
        Some(3u8)
    } else if op == "is"@ {
        Some(4u8)
    } else if op == "+"@ || op == "-"@ {
        Some(5u8)
    } else if op == "*"@ || op == "/"@ {
        Some(6u8)
    } else {
        None
    }
}

/// What parsing from a position gives: the value parsed and the position
/// after it, or the reason why nothing could be parsed.
pub type Parsed<T> = Result<(T, nat), ParseErrorView>;

/// `parsed`, as long as it ends after `from` and within `limit`. Whatever
/// is parsed here does (`lemma_term_at_advances` and the lemmas beside it),
/// so this changes no result; it makes the definitions well-founded.
pub open spec fn advancing<T>(from: nat, limit: nat, parsed: Parsed<T>) -> Parsed<T> {
    match parsed {
        Ok((_, next)) => if from < next <= limit {
            parsed
        } else {
            Err(ParseErrorView::UnexpectedEof)
        },
        Err(_) => parsed,
    }
}

/// The position after the token `expected`, which must come next.
pub open spec fn expected_at(chars: Seq<char>, pos: nat, expected: TokenView) -> Result<nat, ParseErrorView> {
    match token_at(chars, pos) {
        (Some(token), next) => if token == expected {
            Ok(next)
        } else {
            Err(ParseErrorView::UnexpectedToken(token))
        },
        (None, _) => Err(ParseErrorView::UnexpectedEof),
    }
}

/// A term: a primary term, then any infix operators that bind at least as
/// tightly as `min_prec`, each with its right operand.
pub open spec fn term_at(chars: Seq<char>, pos: nat, min_prec: nat) -> Parsed<TreeView>
    decreases chars.len() - pos, 3nat,
{
    match advancing(pos, chars.len(), primary_at(chars, pos)) {
        Ok((lhs, next)) => operators_at(chars, next, min_prec, lhs),
        Err(e) => Err(e),
    }
}

/// A primary term: a string, a word that is an integer, a variable or an
/// atom, a compound (a word with an opening bracket right after it), or a
/// list.
pub open spec fn primary_at(chars: Seq<char>, pos: nat) -> Parsed<TreeView>
    decreases chars.len() - pos, 2nat,
{
    if pos > chars.len() {
        Err(ParseErrorView::UnexpectedEof)
    } else {
        let (token, next) = token_at(chars, pos);
        match token {
            None => Err(ParseErrorView::UnexpectedEof),
            Some(TokenView::String(text)) => Ok((TreeView::String(text), next)),
            Some(TokenView::Word(name)) => if token_at(chars, next).0 == Some(TokenView::OpenBracket) {
                proof {
                    lemma_token_at(chars, pos);
                }
                compound_at(chars, next, name)
            } else {
                match atom_or_variable(name) {
                    Ok(tree) => Ok((tree, next)),
                    Err(e) => Err(e),
                }
            },
            Some(TokenView::OpenSquare) => {
                proof {
                    lemma_token_at(chars, pos);
                }
                list_at(chars, next)
            },
            Some(other) => Err(ParseErrorView::UnexpectedToken(other)),
        }
    }
}

/// The rest of a compound named `name`: an opening bracket, the arguments
/// and a closing bracket.
pub open spec fn compound_at(chars: Seq<char>, pos: nat, name: Seq<char>) -> Parsed<TreeView>
    decreases chars.len() - pos, 5nat,
{
    if pos > chars.len() {
        Err(ParseErrorView::UnexpectedEof)
    } else {
        match expected_at(chars, pos, TokenView::OpenBracket) {
            Ok(next) => {
                proof {
                    lemma_token_at(chars, pos);
                }
                match args_at(chars, next) {
                    Ok((args, after)) => match expected_at(chars, after, TokenView::CloseBracket) {
                        Ok(end) => Ok((TreeView::Compound(name, args), end)),
                        Err(e) => Err(e),
                    },
                    Err(e) => Err(e),
                }
            },
            Err(e) => Err(e),
        }
    }
}

/// One or more terms, separated by commas.
pub open spec fn args_at(chars: Seq<char>, pos: nat) -> Parsed<Seq<TreeView>>
    decreases chars.len() - pos, 4nat,
{
    match advancing(pos, chars.len(), term_at(chars, pos, 0)) {
        Ok((first, next)) => if token_at(chars, next).0 == Some(TokenView::Comma) {
            proof {
                lemma_token_at(chars, next);
            }
            match args_at(chars, token_at(chars, next).1) {
                Ok((rest, end)) => Ok((seq![first] + rest, end)),
                Err(e) => Err(e),
            }
        } else {
            Ok((seq![first], next))
        },
        Err(e) => Err(e),
    }
}

/// The rest of a list after its opening bracket.
pub open spec fn list_at(chars: Seq<char>, pos: nat) -> Parsed<TreeView>
    decreases chars.len() - pos, 5nat,
{
    if token_at(chars, pos).0 == Some(TokenView::CloseSquare) {
        Ok((TreeView::EmptyList, token_at(chars, pos).1))
    } else {
        items_at(chars, pos)
    }
}

/// The elements of a list from the one at `pos` on: each is followed by a
/// comma and more elements, by the closing bracket, or by a bar, the tail
/// and the closing bracket.
pub open spec fn items_at(chars: Seq<char>, pos: nat) -> Parsed<TreeView>
    decreases chars.len() - pos, 4nat,
{
    match advancing(pos, chars.len(), term_at(chars, pos, 0)) {
        Ok((item, next)) => {
            proof {
                lemma_token_at(chars, next);
            }
            match token_at(chars, next) {
                (None, _) => Err(ParseErrorView::UnexpectedEof),
                (Some(TokenView::Comma), after) => match items_at(chars, after) {
                    Ok((rest, end)) => Ok((TreeView::List(Box::new(item), Box::new(rest)), end)),
                    Err(e) => Err(e),
                },
                (Some(TokenView::CloseSquare), after) => Ok(
                    (TreeView::List(Box::new(item), Box::new(TreeView::EmptyList)), after),
                ),
                (Some(TokenView::VerticalBar), after) => match term_at(chars, after, 0) {
                    Ok((tail, close)) => match expected_at(chars, close, TokenView::CloseSquare) {
                        Ok(end) => Ok((TreeView::List(Box::new(item), Box::new(tail)), end)),
                        Err(e) => Err(e),
                    },
                    Err(e) => Err(e),
                },
                (Some(other), _) => Err(ParseErrorView::UnexpectedToken(other)),
            }
        },
        Err(e) => Err(e),
    }
}

/// The infix operators that follow the term `lhs`: as long as the next
/// token is an operator that binds at least as tightly as `min_prec`, it
/// takes the term so far as its left operand and a term of tighter binding
/// as its right operand.
pub open spec fn operators_at(chars: Seq<char>, pos: nat, min_prec: nat, lhs: TreeView) -> Parsed<TreeView>
    decreases chars.len() - pos, 4nat,
{
    if pos > chars.len() {
        Ok((lhs, pos))
    } else {
        match token_at(chars, pos) {
            (Some(TokenView::Word(name)), next) => match precedence_of(name) {
                Some(prec) => if prec < min_prec {
                    Ok((lhs, pos))
                } else {
                    proof {
                        lemma_token_at(chars, pos);
                    }
                    match advancing(next, chars.len(), term_at(chars, next, (prec + 1) as nat)) {
                        Ok((rhs, after)) => operators_at(
                            chars,
                            after,
                            min_prec,
                            TreeView::Compound(name, seq![lhs, rhs]),
                        ),
                        Err(e) => Err(e),
                    }
                },
                None => Ok((lhs, pos)),
            },
            _ => Ok((lhs, pos)),
        }
    }
}

/// Whether `parsed`, if it is a success, ends after `from` and within
/// `limit`.
pub open spec fn advances<T>(from: nat, limit: nat, parsed: Parsed<T>) -> bool {
    parsed matches Ok((_, next)) ==> from < next <= limit
}

/// A term ends after the position it starts at, within the text.
pub proof fn lemma_term_at_advances(chars: Seq<char>, pos: nat, min_prec: nat)
    requires
        pos <= chars.len(),
    ensures
        advances(pos, chars.len(), term_at(chars, pos, min_prec)),
    decreases chars.len() - pos, 3nat,
{
    lemma_primary_at_advances(chars, pos);
    match primary_at(chars, pos) {
        Ok((lhs, next)) => {
            lemma_operators_at_advances(chars, next, min_prec, lhs);
        },
        Err(_) => {},
    }
}

/// A primary term ends after the position it starts at, within the text.
pub proof fn lemma_primary_at_advances(chars: Seq<char>, pos: nat)
    requires
        pos <= chars.len(),
    ensures
        advances(pos, chars.len(), primary_at(chars, pos)),
    decreases chars.len() - pos, 2nat,
{
    lemma_token_at(chars, pos);
    let (token, next) = token_at(chars, pos);
    match token {
        Some(TokenView::Word(name)) => {
            if token_at(chars, next).0 == Some(TokenView::OpenBracket) {
                lemma_compound_at_advances(chars, next, name);
            }
        },
        Some(TokenView::OpenSquare) => {
            lemma_list_at_advances(chars, next);
        },
        _ => {},
    }
}

/// The rest of a compound ends after the position it starts at, within the
/// text.
pub proof fn lemma_compound_at_advances(chars: Seq<char>, pos: nat, name: Seq<char>)
    requires
        pos <= chars.len(),
    ensures
        advances(pos, chars.len(), compound_at(chars, pos, name)),
    decreases chars.len() - pos, 5nat,
{
    lemma_token_at(chars, pos);
    match expected_at(chars, pos, TokenView::OpenBracket) {
        Ok(next) => {
            lemma_args_at_advances(chars, next);
            match args_at(chars, next) {
                Ok((_, after)) => {
                    lemma_token_at(chars, after);
                },
                Err(_) => {},
            }
        },
        Err(_) => {},
    }
}

/// Arguments end after the position they start at, within the text.
pub proof fn lemma_args_at_advances(chars: Seq<char>, pos: nat)
    requires
        pos <= chars.len(),
    ensures
        advances(pos, chars.len(), args_at(chars, pos)),
    decreases chars.len() - pos, 4nat,
{
    lemma_term_at_advances(chars, pos, 0);
    match term_at(chars, pos, 0) {
        Ok((_, next)) => {
            lemma_token_at(chars, next);
            if token_at(chars, next).0 == Some(TokenView::Comma) {
                lemma_args_at_advances(chars, token_at(chars, next).1);
            }
        },
        Err(_) => {},
    }
}

/// The rest of a list ends after the position it starts at, within the
/// text.
pub proof fn lemma_list_at_advances(chars: Seq<char>, pos: nat)
    requires
        pos <= chars.len(),
    ensures
        advances(pos, chars.len(), list_at(chars, pos)),
    decreases chars.len() - pos, 5nat,
{
    lemma_token_at(chars, pos);
    if token_at(chars, pos).0 != Some(TokenView::CloseSquare) {
        lemma_items_at_advances(chars, pos);
    }
}

/// The elements of a list end after the position they start at, within the
/// text.
pub proof fn lemma_items_at_advances(chars: Seq<char>, pos: nat)
    requires
        pos <= chars.len(),
    ensures
        advances(pos, chars.len(), items_at(chars, pos)),
    decreases chars.len() - pos, 4nat,
{
    lemma_term_at_advances(chars, pos, 0);
    match term_at(chars, pos, 0) {
        Ok((_, next)) => {
            lemma_token_at(chars, next);
            match token_at(chars, next) {
                (Some(TokenView::Comma), after) => {
                    lemma_items_at_advances(chars, after);
                },
                (Some(TokenView::VerticalBar), after) => {
                    lemma_term_at_advances(chars, after, 0);
                    match term_at(chars, after, 0) {
                        Ok((_, close)) => {
                            lemma_token_at(chars, close);
                        },
                        Err(_) => {},
                    }
                },
                _ => {},
            }
        },
        Err(_) => {},
    }
}

/// The operators after a term end at or after the position they start at,
/// within the text.
pub proof fn lemma_operators_at_advances(chars: Seq<char>, pos: nat, min_prec: nat, lhs: TreeView)
    requires
        pos <= chars.len(),
    ensures
        operators_at(chars, pos, min_prec, lhs) matches Ok((_, next)) ==> pos <= next <= chars.len(),
    decreases chars.len() - pos, 4nat,
{
    lemma_token_at(chars, pos);
    match token_at(chars, pos) {
        (Some(TokenView::Word(name)), next) => match precedence_of(name) {
            Some(prec) => {
                if prec >= min_prec {
                    lemma_term_at_advances(chars, next, (prec + 1) as nat);
                    match term_at(chars, next, (prec + 1) as nat) {
                        Ok((rhs, after)) => {
                            lemma_operators_at_advances(
                                chars,
                                after,
                                min_prec,
                                TreeView::Compound(name, seq![lhs, rhs]),
                            );
                        },
                        Err(_) => {},
                    }
                }
            },
            None => {},
        },
        _ => {},
    }
}

/// Whether a parser that returned `result` and stopped at `end` did what
/// `parsed` says.
pub open spec fn agrees_tree(result: Result<Term, ParseError>, end: nat, parsed: Parsed<TreeView>) -> bool {
    match result {
        Ok(tree) => parsed == Ok::<(TreeView, nat), ParseErrorView>((tree@, end)),
        Err(e) => parsed == Err::<(TreeView, nat), ParseErrorView>(e@),
    }
}

/// Whether a parser of argument lists that returned `result` and stopped at
/// `end` did what `parsed` says.
pub open spec fn agrees_trees(result: Result<Vec<Term>, ParseError>, end: nat, parsed: Parsed<Seq<TreeView>>) -> bool {
    match result {
        Ok(trees) => parsed == Ok::<(Seq<TreeView>, nat), ParseErrorView>((view_trees(trees@), end)),
        Err(e) => parsed == Err::<(Seq<TreeView>, nat), ParseErrorView>(e@),
    }
}

/// Takes the next token; the end of the text is an error.
fn expect_next(input: &mut Lexer) -> (result: Result<Token, ParseError>)
    ensures
        final(input).text() == old(input).text(),
        final(input).position() <= final(input).text().len(),
        match result {
            Ok(token) => token_at(old(input).text(), old(input).position()) == (
                Some(token@),
                final(input).position(),
            ) && old(input).position() < final(input).position(),
            Err(e) => e@ == ParseErrorView::UnexpectedEof && token_at(
                old(input).text(),
                old(input).position(),
            ).0 is None,
        },
{
    proof {
        use_type_invariant(&*input);
        lemma_token_at(input.text(), input.position());
    }
    match input.get_token() {
        Some(token) => Ok(token),
        None => Err(ParseError::UnexpectedEof),
    }
}

/// Takes the next token, which must be `token`.
fn expect_token(input: &mut Lexer, token: Token) -> (result: Result<(), ParseError>)
    ensures
        final(input).text() == old(input).text(),
        final(input).position() <= final(input).text().len(),
        match result {
            Ok(_) => expected_at(old(input).text(), old(input).position(), token@) == Ok::<
                nat,
                ParseErrorView,
            >(final(input).position()) && old(input).position() < final(input).position(),
            Err(e) => expected_at(old(input).text(), old(input).position(), token@) == Err::<
                nat,
                ParseErrorView,
            >(e@),
        },
{
    let next = match expect_next(input) {
        Ok(next) => next,
        Err(e) => {
            return Err(e);
        },
    };
    if next == token {
        Ok(())
    } else {
        Err(ParseError::UnexpectedToken(next))
    }
}

/// The value of a decimal digit.
fn digit_of(ch: char) -> (value: Option<i64>)
    ensures
        match value {
            Some(d) => digit_value(ch) == Some(d as nat) && 0 <= d <= 9,
            None => digit_value(ch) is None,
        },
{
    if ch == '0' {
        Some(0)
    } else if ch == '1' {
        Some(1)
    } else if ch == '2' {
        Some(2)
    } else if ch == '3' {
        Some(3)
    } else if ch == '4' {
        Some(4)
    } else if ch == '5' {
        Some(5)
    } else if ch == '6' {
        Some(6)
    } else if ch == '7' {
        Some(7)
    } else if ch == '8' {
        Some(8)
    } else if ch == '9' {
        Some(9)
    } else {
        None
    }
}

/// A sequence of digits writes at least what any of its beginnings writes.
proof fn lemma_digits_value_grows(text: Seq<char>, k: int)
    requires
        0 <= k <= text.len(),
        digits_value(text) is Some,
    ensures
        digits_value(text.subrange(0, k)) is Some,
        digits_value(text.subrange(0, k))->0 <= digits_value(text)->0,
    decreases text.len(),
{
    if k == text.len() {
        assert(text.subrange(0, k) =~= text);
    } else {
        let front = text.drop_last();
        assert(front.subrange(0, k) =~= text.subrange(0, k));
        lemma_digits_value_grows(front, k);
    }
}

/// Where some beginning of a text is no sequence of digits, neither is the
/// text.
proof fn lemma_digits_value_fails(text: Seq<char>, k: int)
    requires
        0 <= k <= text.len(),
        digits_value(text.subrange(0, k)) is None,
    ensures
        digits_value(text) is None,
    decreases text.len(),
{
    if k == text.len() {
        assert(text.subrange(0, k) =~= text);
    } else {
        let front = text.drop_last();
        assert(front.subrange(0, k) =~= text.subrange(0, k));
        lemma_digits_value_fails(front, k);
    }
}

/// Reads a word as an integer.
fn parse_number(name: &str) -> (result: Result<i64, ParseError>)
    ensures
        match result {
            Ok(n) => number_value(name@) == Some(n),
            Err(e) => number_value(name@) is None && e@ == ParseErrorView::UnexpectedToken(
                TokenView::Word(name@),
            ),
        },
{
    let chars = characters(name);
    let negative = chars.len() > 0 && chars[0] == '-';
    let first: usize = if negative {
        1
    } else {
        0
    };
    let ghost digits = chars@.subrange(first as int, chars.len() as int);
    let mut magnitude: i64 = 0;
    let mut i: usize = first;
    assert(digits.subrange(0, 0) =~= Seq::empty());
    assert(!negative ==> digits =~= name@);
    while i < chars.len()
        invariant
            first <= i <= chars.len(),
            chars@ == name@,
            negative == (chars.len() > 0 && chars[0] == '-'),
            first == if negative { 1usize } else { 0usize },
            digits == chars@.subrange(first as int, chars.len() as int),
            !negative ==> digits == name@,
            0 <= magnitude,
            digits_value(digits.subrange(0, i - first)) == Some(magnitude as nat),
        ensures
            i == chars.len(),
        decreases chars.len() - i,
    {
        let ghost seen = digits.subrange(0, i - first);
        let ghost grown = digits.subrange(0, i - first + 1);
        proof {
            assert(grown.drop_last() =~= seen);
            assert(grown.last() == chars[i as int]);
        }
        let d = match digit_of(chars[i]) {
            Some(d) => d,
            None => {
                proof {
                    lemma_digits_value_fails(digits, i - first + 1);
                }
                return Err(ParseError::UnexpectedToken(Token::Word(name.to_owned())));
            },
        };
        if magnitude > (i64::MAX - d) / 10 {
            proof {
                assert(magnitude * 10 + d > i64::MAX);
                if digits_value(digits) is Some {
                    lemma_digits_value_grows(digits, i - first + 1);
                }
            }
            return Err(ParseError::UnexpectedToken(Token::Word(name.to_owned())));
        }
        magnitude = magnitude * 10 + d;
        i += 1;
    }
    assert(digits.subrange(0, digits.len() as int) =~= digits);
    if negative {
        Ok(-magnitude)
    } else {
        assert(digits =~= chars@);
        Ok(magnitude)
    }
}

/// Turns a word into an integer, a variable or an atom.
fn parse_atom_or_variable(name: String) -> (result: Result<Term, ParseError>)
    ensures
        match result {
            Ok(tree) => atom_or_variable(name@) == Ok::<TreeView, ParseErrorView>(tree@),
            Err(e) => atom_or_variable(name@) == Err::<TreeView, ParseErrorView>(e@),
        },
{
    let first = if name.as_str().unicode_len() > 0 {
        Some(name.as_str().get_char(0))
    } else {
        None
    };
    match first {
        Some(ch) => {
            if digit_of(ch).is_some() || ch == '-' {
                match parse_number(name.as_str()) {
                    Ok(n) => Ok(Box::new(TermKind::Integer(n))),
                    Err(e) => Err(e),
                }
            } else if ('A' <= ch && ch <= 'Z') || ch == '_' {
                Ok(Box::new(TermKind::Var(name)))
            } else {
                Ok(Box::new(TermKind::Atom(name)))
            }
        },
        None => Ok(Box::new(TermKind::Atom(name))),
    }
}

/// How tightly an infix operator binds, if the word is one.
fn operator_precedence(op: &str) -> (prec: Option<u8>)
    ensures
        prec == precedence_of(op@),
{
    if same_text(op, ",") {
        Some(1)
    } else if same_text(op, "=") || same_text(op, "\\=") {
        Some(2)
    } else if same_text(op, ">") || same_text(op, ">=") || same_text(op, "<") || same_text(op, "=<") {
        Some(3)
    } else if same_text(op, "is") {
        Some(4)
    } else if same_text(op, "+") || same_text(op, "-") {
        Some(5)
    } else if same_text(op, "*") || same_text(op, "/") {
        Some(6)
    } else {
        None
    }
}

/// Reads the bracketed arguments of the compound named `name`.
fn parse_compound(input: &mut Lexer, name: String) -> (result: Result<Term, ParseError>)
    ensures
        final(input).text() == old(input).text(),
        final(input).position() <= final(input).text().len(),
        agrees_tree(result, final(input).position(), compound_at(old(input).text(), old(input).position(), name@)),
        result is Ok ==> old(input).position() < final(input).position(),
    decreases old(input).text().len() - old(input).position(), 6nat,
{
    proof {
        use_type_invariant(&*input);
    }
    match expect_token(input, Token::OpenBracket) {
        Ok(_) => {},
        Err(e) => {
            return Err(e);
        },
    }
    let args = match parse_comma_separated(input) {
        Ok(args) => args,
        Err(e) => {
            return Err(e);
        },
    };
    match expect_token(input, Token::CloseBracket) {
        Ok(_) => {},
        Err(e) => {
            return Err(e);
        },
    }
    Ok(Box::new(TermKind::Compound(name, args)))
}

/// Reads a list after its opening bracket.
fn parse_list(input: &mut Lexer) -> (result: Result<Term, ParseError>)
    ensures
        final(input).text() == old(input).text(),
        final(input).position() <= final(input).text().len(),
        agrees_tree(result, final(input).position(), list_at(old(input).text(), old(input).position())),
        result is Ok ==> old(input).position() < final(input).position(),
    decreases old(input).text().len() - old(input).position(), 6nat,
{
    proof {
        use_type_invariant(&*input);
        lemma_token_at(input.text(), input.position());
    }
    if let Some(Token::CloseSquare) = input.peek_token() {
        input.get_token();
        return Ok(empty_list());
    }
    parse_items(input)
}

/// Reads the elements of a list up to its closing bracket.
fn parse_items(input: &mut Lexer) -> (result: Result<Term, ParseError>)
    ensures
        final(input).text() == old(input).text(),
        final(input).position() <= final(input).text().len(),
        agrees_tree(result, final(input).position(), items_at(old(input).text(), old(input).position())),
        result is Ok ==> old(input).position() < final(input).position(),
    decreases old(input).text().len() - old(input).position(), 5nat,
{
    let item = match parse_term(input) {
        Ok(item) => item,
        Err(e) => {
            return Err(e);
        },
    };
    let next = match expect_next(input) {
        Ok(next) => next,
        Err(e) => {
            return Err(e);
        },
    };
    match next {
        Token::Comma => match parse_items(input) {
            Ok(rest) => {
                let list = cons_list(item, rest);
                assert(list@ == TreeView::List(Box::new(item@), Box::new(rest@)));
                Ok(list)
            },
            Err(e) => Err(e),
        },
        Token::CloseSquare => {
            let end = empty_list();
            assert(end@ == TreeView::EmptyList);
            let list = cons_list(item, end);
            assert(list@ == TreeView::List(Box::new(item@), Box::new(TreeView::EmptyList)));
            Ok(list)
        },
        Token::VerticalBar => {
            let tail = match parse_term(input) {
                Ok(tail) => tail,
                Err(e) => {
                    return Err(e);
                },
            };
            match expect_token(input, Token::CloseSquare) {
                Ok(_) => {},
                Err(e) => {
                    return Err(e);
                },
            }
            let list = cons_list(item, tail);
            assert(list@ == TreeView::List(Box::new(item@), Box::new(tail@)));
            Ok(list)
        },
        token => Err(ParseError::UnexpectedToken(token)),
    }
}

/// Reads one or more terms separated by commas.
fn parse_comma_separated(input: &mut Lexer) -> (result: Result<Vec<Term>, ParseError>)
    ensures
        final(input).text() == old(input).text(),
        final(input).position() <= final(input).text().len(),
        agrees_trees(result, final(input).position(), args_at(old(input).text(), old(input).position())),
        result is Ok ==> old(input).position() < final(input).position(),
    decreases old(input).text().len() - old(input).position(), 5nat,
{
    let first = match parse_term(input) {
        Ok(first) => first,
        Err(e) => {
            return Err(e);
        },
    };
    proof {
        lemma_token_at(input.text(), input.position());
    }
    if let Some(Token::Comma) = input.peek_token() {
        input.get_token();
        match parse_comma_separated(input) {
            Ok(rest) => {
                let mut list: Vec<Term> = Vec::new();
                list.push(first);
                let mut rest = rest;
                let ghost tail = view_trees(rest@);
                list.append(&mut rest);
                assert(view_trees(list@) =~= seq![first@] + tail);
                Ok(list)
            },
            Err(e) => Err(e),
        }
    } else {
        let mut list: Vec<Term> = Vec::new();
        list.push(first);
        assert(view_trees(list@) =~= seq![first@]);
        Ok(list)
    }
}

/// Reads the infix operators that follow the term `lhs`.
fn parse_operators(input: &mut Lexer, min_prec: u8, lhs: Term) -> (result: Result<Term, ParseError>)
    ensures
        final(input).text() == old(input).text(),
        final(input).position() <= final(input).text().len(),
        agrees_tree(
            result,
            final(input).position(),
            operators_at(old(input).text(), old(input).position(), min_prec as nat, lhs@),
        ),
        result is Ok ==> old(input).position() <= final(input).position(),
    decreases old(input).text().len() - old(input).position(), 5nat,
{
    proof {
        use_type_invariant(&*input);
        lemma_token_at(input.text(), input.position());
    }
    let name = match input.peek_token() {
        Some(Token::Word(name)) => name,
        _ => {
            return Ok(lhs);
        },
    };
    let prec = match operator_precedence(name.as_str()) {
        Some(prec) => prec,
        None => {
            return Ok(lhs);
        },
    };
    if prec < min_prec {
        return Ok(lhs);
    }
    input.get_token();
    let rhs = match parse_term_with_prec(input, prec + 1) {
        Ok(rhs) => rhs,
        Err(e) => {
            return Err(e);
        },
    };
    let mut operands: Vec<Term> = Vec::new();
    let ghost left = lhs@;
    let ghost right = rhs@;
    operands.push(lhs);
    operands.push(rhs);
    assert(view_trees(operands@) =~= seq![left, right]);
    parse_operators(input, min_prec, Box::new(TermKind::Compound(name, operands)))
}

/// Reads a primary term.
fn parse_primary(input: &mut Lexer) -> (result: Result<Term, ParseError>)
    ensures
        final(input).text() == old(input).text(),
        final(input).position() <= final(input).text().len(),
        agrees_tree(result, final(input).position(), primary_at(old(input).text(), old(input).position())),
        result is Ok ==> old(input).position() < final(input).position(),
    decreases old(input).text().len() - old(input).position(), 2nat,
{
    proof {
        use_type_invariant(&*input);
    }
    let token = match expect_next(input) {
        Ok(token) => token,
        Err(e) => {
            return Err(e);
        },
    };
    match token {
        Token::String(string) => Ok(Box::new(TermKind::String(string))),
        Token::Word(name) => {
            if let Some(Token::OpenBracket) = input.peek_token() {
                parse_compound(input, name)
            } else {
                parse_atom_or_variable(name)
            }
        },
        Token::OpenSquare => parse_list(input),
        token => Err(ParseError::UnexpectedToken(token)),
    }
}

/// Reads a term whose operators bind at least as tightly as `min_prec`.
fn parse_term_with_prec(input: &mut Lexer, min_prec: u8) -> (result: Result<Term, ParseError>)
    ensures
        final(input).text() == old(input).text(),
        final(input).position() <= final(input).text().len(),
        agrees_tree(
            result,
            final(input).position(),
            term_at(old(input).text(), old(input).position(), min_prec as nat),
        ),
        result is Ok ==> old(input).position() < final(input).position(),
    decreases old(input).text().len() - old(input).position(), 3nat,
{
    let lhs = match parse_primary(input) {
        Ok(lhs) => lhs,
        Err(e) => {
            return Err(e);
        },
    };
    parse_operators(input, min_prec, lhs)
}

/// Reads a term.
fn parse_term(input: &mut Lexer) -> (result: Result<Term, ParseError>)
    ensures
        final(input).text() == old(input).text(),
        final(input).position() <= final(input).text().len(),
        agrees_tree(result, final(input).position(), term_at(old(input).text(), old(input).position(), 0)),
        result is Ok ==> old(input).position() < final(input).position(),
    decreases old(input).text().len() - old(input).position(), 4nat,
{
    parse_term_with_prec(input, 0)
}

/// A rule body: one or more goals, separated by commas, nested to the
/// right.
pub open spec fn expression_at(chars: Seq<char>, pos: nat) -> Parsed<ExprView>
    decreases chars.len() - pos,
{
    match advancing(pos, chars.len(), term_at(chars, pos, 0)) {
        Ok((goal, next)) => if token_at(chars, next).0 == Some(TokenView::Comma) {
            proof {
                lemma_token_at(chars, next);
            }
            match expression_at(chars, token_at(chars, next).1) {
                Ok((rest, end)) => Ok((ExprView::Conjunct(Box::new(ExprView::Term(goal)), Box::new(rest)), end)),
                Err(e) => Err(e),
            }
        } else {
            Ok((ExprView::Term(goal), next))
        },
        Err(e) => Err(e),
    }
}

/// A clause: a term and a period, or a term, the horn, a body and a
/// period.
pub open spec fn clause_at(chars: Seq<char>, pos: nat) -> Parsed<ClauseTreeView> {
    match term_at(chars, pos, 0) {
        Ok((head, next)) => match token_at(chars, next) {
            (None, _) => Err(ParseErrorView::UnexpectedEof),
            (Some(TokenView::Period), end) => Ok((ClauseTreeView::Fact(head), end)),
            (Some(TokenView::Horn), after) => match expression_at(chars, after) {
                Ok((body, close)) => match expected_at(chars, close, TokenView::Period) {
                    Ok(end) => Ok((ClauseTreeView::Rule(head, body), end)),
                    Err(e) => Err(e),
                },
                Err(e) => Err(e),
            },
            (Some(_), _) => Err(ParseErrorView::UnexpectedEof),
        },
        Err(e) => Err(e),
    }
}

/// The clauses from `pos` to the end of the text.
pub open spec fn clauses_at(chars: Seq<char>, pos: nat) -> Result<Seq<ClauseTreeView>, ParseErrorView>
    decreases chars.len() - pos,
{
    if pos > chars.len() || token_at(chars, pos).0 is None {
        Ok(Seq::empty())
    } else {
        match advancing(pos, chars.len(), clause_at(chars, pos)) {
            Ok((clause, next)) => match clauses_at(chars, next) {
                Ok(rest) => Ok(seq![clause] + rest),
                Err(e) => Err(e),
            },
            Err(e) => Err(e),
        }
    }
}

/// A rule body ends after the position it starts at, within the text.
pub proof fn lemma_expression_at_advances(chars: Seq<char>, pos: nat)
    requires
        pos <= chars.len(),
    ensures
        advances(pos, chars.len(), expression_at(chars, pos)),
    decreases chars.len() - pos,
{
    lemma_term_at_advances(chars, pos, 0);
    match term_at(chars, pos, 0) {
        Ok((_, next)) => {
            lemma_token_at(chars, next);
            if token_at(chars, next).0 == Some(TokenView::Comma) {
                lemma_expression_at_advances(chars, token_at(chars, next).1);
            }
        },
        Err(_) => {},
    }
}

/// A clause ends after the position it starts at, within the text.
pub proof fn lemma_clause_at_advances(chars: Seq<char>, pos: nat)
    requires
        pos <= chars.len(),
    ensures
        advances(pos, chars.len(), clause_at(chars, pos)),
{
    lemma_term_at_advances(chars, pos, 0);
    match term_at(chars, pos, 0) {
        Ok((_, next)) => {
            lemma_token_at(chars, next);
            match token_at(chars, next) {
                (Some(TokenView::Horn), after) => {
                    lemma_expression_at_advances(chars, after);
                    match expression_at(chars, after) {
                        Ok((_, close)) => {
                            lemma_token_at(chars, close);
                        },
                        Err(_) => {},
                    }
                },
                _ => {},
            }
        },
        Err(_) => {},
    }
}

/// The program that a text holds: its clauses, in order.
pub open spec fn program_of(text: Seq<char>) -> Result<Seq<ClauseTreeView>, ParseErrorView> {
    clauses_at(text, 0)
}

/// The query that a text holds: one term and a period.
pub open spec fn query_of(text: Seq<char>) -> Result<TreeView, ParseErrorView> {
    match term_at(text, 0, 0) {
        Ok((term, next)) => match token_at(text, next) {
            (Some(TokenView::Period), _) => Ok(term),
            (Some(token), _) => Err(ParseErrorView::UnexpectedToken(token)),
            (None, _) => Err(ParseErrorView::UnexpectedEof),
        },
        Err(e) => Err(e),
    }
}

/// Reads the body of a rule.
fn parse_expression(input: &mut Lexer) -> (result: Result<Expr, ParseError>)
    ensures
        final(input).text() == old(input).text(),
        final(input).position() <= final(input).text().len(),
        match result {
            Ok(body) => expression_at(old(input).text(), old(input).position()) == Ok::<
                (ExprView, nat),
                ParseErrorView,
            >((body@, final(input).position())),
            Err(e) => expression_at(old(input).text(), old(input).position()) == Err::<
                (ExprView, nat),
                ParseErrorView,
            >(e@),
        },
        result is Ok ==> old(input).position() < final(input).position(),
    decreases old(input).text().len() - old(input).position(),
{
    let goal = match parse_term(input) {
        Ok(goal) => goal,
        Err(e) => {
            return Err(e);
        },
    };
    let term: Expr = Box::new(ExprKind::Term(goal));
    proof {
        lemma_token_at(input.text(), input.position());
    }
    if let Some(Token::Comma) = input.peek_token() {
        input.get_token();
        match parse_expression(input) {
            Ok(rest) => {
                let body: Expr = Box::new(ExprKind::Conjunct(term, rest));
                assert(body@ == ExprView::Conjunct(Box::new(ExprView::Term(goal@)), Box::new(rest@)));
                Ok(body)
            },
            Err(e) => Err(e),
        }
    } else {
        assert(term@ == ExprView::Term(goal@));
        Ok(term)
    }
}

/// Reads a clause.
fn parse_clause(input: &mut Lexer) -> (result: Result<Clause, ParseError>)
    ensures
        final(input).text() == old(input).text(),
        final(input).position() <= final(input).text().len(),
        match result {
            Ok(clause) => clause_at(old(input).text(), old(input).position()) == Ok::<
                (ClauseTreeView, nat),
                ParseErrorView,
            >((clause@, final(input).position())),
            Err(e) => clause_at(old(input).text(), old(input).position()) == Err::<
                (ClauseTreeView, nat),
                ParseErrorView,
            >(e@),
        },
        result is Ok ==> old(input).position() < final(input).position(),
{
    let term = match parse_term(input) {
        Ok(term) => term,
        Err(e) => {
            return Err(e);
        },
    };
    let next = match expect_next(input) {
        Ok(next) => next,
        Err(e) => {
            return Err(e);
        },
    };
    match next {
        Token::Period => Ok(Clause::Fact(term)),
        Token::Horn => {
            let expr = match parse_expression(input) {
                Ok(expr) => expr,
                Err(e) => {
                    return Err(e);
                },
            };
            match expect_token(input, Token::Period) {
                Ok(_) => {},
                Err(e) => {
                    return Err(e);
                },
            }
            Ok(Clause::Rule(term, expr))
        },
        _ => Err(ParseError::UnexpectedEof),
    }
}

/// Parses a program: clauses to the end of the text.
pub fn parse(text: &str) -> (result: Result<Vec<Clause>, ParseError>)
    ensures
        match result {
            Ok(clauses) => program_of(text@) == Ok::<Seq<ClauseTreeView>, ParseErrorView>(
                view_tree_clauses(clauses@),
            ),
            Err(e) => program_of(text@) == Err::<Seq<ClauseTreeView>, ParseErrorView>(e@),
        },
{
    let mut input = Lexer::new(text);
    let mut clauses: Vec<Clause> = Vec::new();
    let ghost chars = text@;
    assert(view_tree_clauses(clauses@) =~= Seq::empty());
    loop
        invariant
            input.text() == chars,
            chars == text@,
            input.position() <= chars.len(),
            clauses_at(chars, 0) == match clauses_at(chars, input.position()) {
                Ok(rest) => Ok::<Seq<ClauseTreeView>, ParseErrorView>(view_tree_clauses(clauses@) + rest),
                Err(e) => Err::<Seq<ClauseTreeView>, ParseErrorView>(e),
            },
        decreases chars.len() - input.position(),
    {
        if input.peek_token().is_none() {
            assert(view_tree_clauses(clauses@) + Seq::<ClauseTreeView>::empty() =~= view_tree_clauses(
                clauses@,
            ));
            return Ok(clauses);
        }
        let ghost before = view_tree_clauses(clauses@);
        let clause = match parse_clause(&mut input) {
            Ok(clause) => clause,
            Err(e) => {
                return Err(e);
            },
        };
        clauses.push(clause);
        proof {
            assert(view_tree_clauses(clauses@) =~= before.push(clause@));
            match clauses_at(chars, input.position()) {
                Ok(rest) => {
                    assert(before + (seq![clause@] + rest) =~= before.push(clause@) + rest);
                },
                Err(_) => {},
            }
        }
    }
}

/// Parses a query: one term and a period.
pub fn parse_query(text: &str) -> (result: Result<Term, ParseError>)
    ensures
        match result {
            Ok(term) => query_of(text@) == Ok::<TreeView, ParseErrorView>(term@),
            Err(e) => query_of(text@) == Err::<TreeView, ParseErrorView>(e@),
        },
{
    let mut input = Lexer::new(text);
    let term = match parse_term(&mut input) {
        Ok(term) => term,
        Err(e) => {
            return Err(e);
        },
    };
    match input.get_token() {
        Some(Token::Period) => Ok(term),
        Some(token) => Err(ParseError::UnexpectedToken(token)),
        None => Err(ParseError::UnexpectedEof),
    }
}

} // verus!
