use vstd::prelude::*;

pub mod types;

verus! {

/// One instruction of the tape machine.
#[derive(Debug, PartialEq, Eq, PartialOrd, Ord, Clone, Copy, Structural)]
pub enum Token {
    MoveLeft,
    MoveRight,
    IncreaseValue,
    DecreaseValue,
    Loop,
    JumpBack,
    GetInput,
    Print,
}

/// The instruction that a character of the source stands for, if it stands for one.
pub open spec fn token_of(symbol: char) -> Option<Token> {
    if symbol == '<' {
        Some(Token::MoveLeft)
    } else if symbol == '>' {
        Some(Token::MoveRight)
    } else if symbol == '+' {
        Some(Token::IncreaseValue)
    } else if symbol == '-' {
        Some(Token::DecreaseValue)
    } else if symbol == '.' {
        Some(Token::Print)
    } else if symbol == ',' {
        Some(Token::GetInput)
    } else if symbol == '[' {
        Some(Token::Loop)
    } else if symbol == ']' {
        Some(Token::JumpBack)
    } else {
        None
    }
}

/// The instruction stream of a source text: the instructions of its characters in
/// the order of the text, with every other character left out.
pub open spec fn tokens_of(text: Seq<char>) -> Seq<Token>
    decreases text.len(),
{
    if text.len() == 0 {
        Seq::empty()
    } else {
        let before = tokens_of(text.drop_last());
        match token_of(text.last()) {
            Some(token) => before.push(token),
            None => before,
        }
    }
}

/// Turns a source text into its instruction stream.
pub fn parse(source_code: &str) -> (tokens: Vec<Token>)
    ensures
        tokens@ == tokens_of(source_code@),
{
    let mut tokens: Vec<Token> = Vec::with_capacity(source_code.len());
    for symbol in it: source_code.chars()
        invariant
            it.seq() == source_code@,
            tokens@ == tokens_of(source_code@.take(it.index())),
    {
        proof {
            let seen = source_code@.take(it.index() + 1);
            assert(seen.drop_last() == source_code@.take(it.index()));
            assert(seen.last() == symbol);
        }
        match symbol {
            '<' => tokens.push(Token::MoveLeft),
            '>' => tokens.push(Token::MoveRight),
            '+' => tokens.push(Token::IncreaseValue),
            '-' => tokens.push(Token::DecreaseValue),
            '.' => tokens.push(Token::Print),
            ',' => tokens.push(Token::GetInput),
            '[' => tokens.push(Token::Loop),
            ']' => tokens.push(Token::JumpBack),
            _ => {},
        }
    }
    proof {
        assert(source_code@.take(source_code@.len() as int) == source_code@);
    }
    tokens
}

/// The instruction stream of two texts in a row is the stream of the first
/// followed by the stream of the second.
pub proof fn lemma_tokens_of_concat(first: Seq<char>, second: Seq<char>)
    ensures
        tokens_of(first + second) == tokens_of(first) + tokens_of(second),
    decreases second.len(),
{
    if second.len() == 0 {
        assert(first + second =~= first);
        assert(tokens_of(first) + tokens_of(second) =~= tokens_of(first));
    } else {
        lemma_tokens_of_concat(first, second.drop_last());
        assert((first + second).drop_last() =~= first + second.drop_last());
        assert((first + second).last() == second.last());
        assert(tokens_of(first + second) =~= tokens_of(first) + tokens_of(second));
    }
}

/// A text in which no character stands for an instruction has the empty
/// instruction stream.
pub proof fn lemma_ignored_text_has_no_tokens(text: Seq<char>)
    requires
        forall|i: int| 0 <= i < text.len() ==> token_of(#[trigger] text[i]) is None,
    ensures
        tokens_of(text).len() == 0,
    decreases text.len(),
{
    if text.len() > 0 {
        lemma_ignored_text_has_no_tokens(text.drop_last());
    }
}

/// Two texts that agree character by character have the same instruction stream.
pub proof fn lemma_same_text_same_tokens(first: Seq<char>, second: Seq<char>)
    requires
        first.len() == second.len(),
        forall|i: int| 0 <= i < first.len() ==> first[i] == second[i],
    ensures
        tokens_of(first) == tokens_of(second),
{
    assert(first =~= second);
}

/// Characters that stand for no instruction shift no address: the instruction of
/// the character at `position` has as its address the number of instructions in
/// the text before that character.
pub proof fn lemma_token_address(text: Seq<char>, position: int)
    requires
        0 <= position < text.len(),
        token_of(text[position]) is Some,
    ensures
        tokens_of(text.take(position)).len() < tokens_of(text).len(),
        Some(tokens_of(text)[tokens_of(text.take(position)).len() as int]) == token_of(
            text[position],
        ),
{
    let before = text.take(position);
    let here = seq![text[position]];
    let behind = text.skip(position + 1);
    assert(text =~= (before + here) + behind);
    lemma_tokens_of_concat(before + here, behind);
    lemma_tokens_of_concat(before, here);
    reveal_with_fuel(tokens_of, 2);
    assert(here.drop_last() =~= Seq::<char>::empty());
    assert(tokens_of(here) =~= seq![token_of(text[position])->0]);
}

} // verus!
