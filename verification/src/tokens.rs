//! Cutting a text into its whitespace-delimited tokens.
use vstd::prelude::*;
use vstd::string::*;
use vstd::std_specs::iter::IteratorSpec;

verus! {

/// The characters that separate tokens: those with the Unicode property
/// `White_Space`.
pub open spec fn is_whitespace(c: char) -> bool {
    let u = c as u32;
    ||| 0x09 <= u <= 0x0D
    ||| u == 0x20
    ||| u == 0x85
    ||| u == 0xA0
    ||| u == 0x1680
    ||| 0x2000 <= u <= 0x200A
    ||| u == 0x2028
    ||| u == 0x2029
    ||| u == 0x202F
    ||| u == 0x205F
    ||| u == 0x3000
}

/// Decides whether `c` separates tokens.
pub fn check_whitespace(c: char) -> (r: bool)
    ensures
        r == is_whitespace(c),
{
    let u: u32 = c as u32;
    (0x09 <= u && u <= 0x0D) || u == 0x20 || u == 0x85 || u == 0xA0 || u == 0x1680 || (0x2000 <= u
        && u <= 0x200A) || u == 0x2028 || u == 0x2029 || u == 0x202F || u == 0x205F || u == 0x3000
}

/// Tokens of a text read so far: the finished ones, and the characters of
/// the one that the text ends in, if it does not end in whitespace.
pub struct Lexed {
    pub finished: Seq<Seq<char>>,
    pub open_token: Seq<char>,
}

/// Reads `text` character by character: a character that is not whitespace
/// extends the open token, whitespace finishes it.
pub open spec fn lex(text: Seq<char>) -> Lexed
    decreases text.len(),
{
    if text.len() == 0 {
        Lexed { finished: Seq::empty(), open_token: Seq::empty() }
    } else {
        let before = lex(text.drop_last());
        if !is_whitespace(text.last()) {
            Lexed { finished: before.finished, open_token: before.open_token.push(text.last()) }
        } else if before.open_token.len() > 0 {
            Lexed { finished: before.finished.push(before.open_token), open_token: Seq::empty() }
        } else {
            before
        }
    }
}

/// The whitespace-delimited tokens of `text`, in order.
pub open spec fn tokens_of(text: Seq<char>) -> Seq<Seq<char>> {
    let all = lex(text);
    if all.open_token.len() > 0 {
        all.finished.push(all.open_token)
    } else {
        all.finished
    }
}

/// The contents of a list of tokens.
pub open spec fn texts(tokens: Seq<Vec<char>>) -> Seq<Seq<char>> {
    Seq::new(tokens.len(), |i: int| tokens[i]@)
}

/// Cuts `text` into its whitespace-delimited tokens.
pub fn tokenize(text: &str) -> (tokens: Vec<Vec<char>>)
    ensures
        texts(tokens@) == tokens_of(text@),
{
    broadcast use {axiom_spec_iter, next_postcondition};

    let mut it = text.chars();
    let mut finished: Vec<Vec<char>> = Vec::new();
    let mut open_token: Vec<char> = Vec::new();
    let ghost mut seen: Seq<char> = Seq::empty();
    loop
        invariant
            seen + it.remaining() == text@,
            it.decrease() is Some,
            texts(finished@) == lex(seen).finished,
            open_token@ == lex(seen).open_token,
        decreases it.decrease()->0,
    {
        let ghost finished_before = finished@;
        match it.next() {
            Some(c) => {
                proof {
                    assert(seen.push(c).drop_last() =~= seen);
                    assert(seen.push(c) + it.remaining() =~= text@);
                }
                if !check_whitespace(c) {
                    open_token.push(c);
                } else if open_token.len() > 0 {
                    finished.push(open_token);
                    open_token = Vec::new();
                    assert(texts(finished@) =~= texts(finished_before).push(
                        lex(seen).open_token,
                    ));
                }
                proof {
                    seen = seen.push(c);
                }
            },
            None => {
                assert(seen =~= text@);
                if open_token.len() > 0 {
                    finished.push(open_token);
                    assert(texts(finished@) =~= texts(finished_before).push(
                        lex(seen).open_token,
                    ));
                }
                return finished;
            },
        }
    }
}

/// No character of `token` is whitespace.
pub open spec fn whitespace_free(token: Seq<char>) -> bool {
    forall|j: int| 0 <= j < token.len() ==> !is_whitespace(#[trigger] token[j])
}

/// Every token holds at least one character, and none of its characters is
/// whitespace.
pub proof fn lemma_tokens_hold_no_whitespace(text: Seq<char>)
    ensures
        forall|i: int|
            0 <= i < tokens_of(text).len() ==> {
                &&& (#[trigger] tokens_of(text)[i]).len() > 0
                &&& whitespace_free(tokens_of(text)[i])
            },
{
    lemma_lexed_holds_no_whitespace(text);
}

proof fn lemma_lexed_holds_no_whitespace(text: Seq<char>)
    ensures
        forall|i: int|
            0 <= i < lex(text).finished.len() ==> {
                &&& (#[trigger] lex(text).finished[i]).len() > 0
                &&& whitespace_free(lex(text).finished[i])
            },
        whitespace_free(lex(text).open_token),
    decreases text.len(),
{
    if text.len() > 0 {
        lemma_lexed_holds_no_whitespace(text.drop_last());
        let before = lex(text.drop_last());
        let now = lex(text);
        assert forall|i: int| 0 <= i < now.finished.len() implies {
            &&& (#[trigger] now.finished[i]).len() > 0
            &&& whitespace_free(now.finished[i])
        } by {
            if i < before.finished.len() {
                assert(now.finished[i] == before.finished[i]);
            }
        }
    }
}

/// The characters of `text` that are not whitespace, in order.
pub open spec fn visible(text: Seq<char>) -> Seq<char>
    decreases text.len(),
{
    if text.len() == 0 {
        Seq::empty()
    } else if is_whitespace(text.last()) {
        visible(text.drop_last())
    } else {
        visible(text.drop_last()).push(text.last())
    }
}

/// The tokens written one after another, with nothing between them.
pub open spec fn joined(tokens: Seq<Seq<char>>) -> Seq<char>
    decreases tokens.len(),
{
    if tokens.len() == 0 {
        Seq::empty()
    } else {
        joined(tokens.drop_last()) + tokens.last()
    }
}

/// Cutting a text into tokens loses and reorders nothing: the tokens,
/// written one after another, are the text without its whitespace.
pub proof fn lemma_tokens_keep_the_text(text: Seq<char>)
    ensures
        joined(tokens_of(text)) == visible(text),
{
    lemma_lexed_keeps_the_text(text);
    let all = lex(text);
    if all.open_token.len() > 0 {
        assert(all.finished.push(all.open_token).drop_last() =~= all.finished);
    } else {
        assert(joined(all.finished) + all.open_token =~= joined(all.finished));
    }
}

proof fn lemma_lexed_keeps_the_text(text: Seq<char>)
    ensures
        joined(lex(text).finished) + lex(text).open_token == visible(text),
    decreases text.len(),
{
    if text.len() > 0 {
        lemma_lexed_keeps_the_text(text.drop_last());
        let before = lex(text.drop_last());
        let now = lex(text);
        if !is_whitespace(text.last()) {
            assert(joined(now.finished) + now.open_token =~= (joined(before.finished)
                + before.open_token).push(text.last()));
        } else if before.open_token.len() > 0 {
            assert(now.finished.drop_last() =~= before.finished);
            assert(joined(now.finished) + now.open_token =~= joined(before.finished)
                + before.open_token);
        }
    } else {
        assert(joined(lex(text).finished) + lex(text).open_token =~= Seq::<char>::empty());
    }
}

} // verus!
