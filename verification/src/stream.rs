//! The scanner as a sequence that is pulled one token at a time.

use vstd::prelude::*;
use crate::grammar::{lemma_scan_progress, scan_all, scan_at};
use crate::lexer::Lexer;
use crate::token::{LexError, Token, TokenView};

verus! {

/// The views of a run of tokens.
pub open spec fn views(tokens: Seq<Token>) -> Seq<TokenView> {
    tokens.map_values(|t: Token| t@)
}

/// `tokens`, followed by what `rest` yields.
pub open spec fn followed_by(tokens: Seq<TokenView>, rest: Result<Seq<TokenView>, LexError>) -> Result<
    Seq<TokenView>,
    LexError,
> {
    match rest {
        Ok(more) => Ok(tokens + more),
        Err(e) => Err(e),
    }
}

/// What one pull returned, with the token taken by its view.
pub open spec fn item_view(item: Option<Result<Token, LexError>>) -> Option<
    Result<TokenView, LexError>,
> {
    match item {
        Some(Ok(token)) => Some(Ok(token@)),
        Some(Err(e)) => Some(Err(e)),
        None => None,
    }
}

/// A single pass over the tokens of a text. It ends at the end of the input
/// or after the first error, and stays ended.
pub struct TokenStream<'a> {
    lexer: Lexer<'a>,
    done: bool,
}

impl<'a> TokenStream<'a> {
    /// The whole text being scanned.
    pub closed spec fn text(&self) -> Seq<char> {
        self.lexer.text()
    }

    /// The number of characters consumed so far.
    pub closed spec fn pos(&self) -> int {
        self.lexer.pos()
    }

    /// Whether the stream has ended.
    pub closed spec fn finished(&self) -> bool {
        self.done
    }

    /// The scanner is sound.
    pub closed spec fn lexer_ok(&self) -> bool {
        self.lexer.wf()
    }

    /// The cursor lies within the text.
    pub open spec fn wf(&self) -> bool {
        &&& self.lexer_ok()
        &&& 0 <= self.pos() <= self.text().len()
    }

    /// What the stream has yet to yield: the tokens from the cursor on, or
    /// the error that will end it; nothing once it has ended.
    pub open spec fn pending(&self) -> Result<Seq<TokenView>, LexError> {
        if self.finished() {
            Ok(Seq::empty())
        } else {
            scan_all(self.text(), self.pos())
        }
    }

    /// A stream at the start of `sql_text`.
    pub fn new(sql_text: &'a str) -> (stream: Self)
        ensures
            stream.wf(),
            stream.text() == sql_text@,
            stream.pos() == 0,
            !stream.finished(),
    {
        TokenStream { lexer: Lexer::new(sql_text), done: false }
    }

    /// Whether the stream has ended: every later pull returns `None`.
    pub fn is_finished(&self) -> (done: bool)
        ensures
            done == self.finished(),
    {
        self.done
    }

    /// Pulls the next item: a token, or the error that ends the stream, or
    /// `None` once the stream has ended. An ended stream is left as it is.
    pub fn next_token(&mut self) -> (item: Option<Result<Token, LexError>>)
        requires
            old(self).wf(),
        ensures
            final(self).wf(),
            final(self).text() == old(self).text(),
            old(self).finished() ==> item is None && final(self).finished() && final(self).pos()
                == old(self).pos(),
            !old(self).finished() ==> {
                let step = scan_at(old(self).text(), old(self).pos());
                &&& final(self).pos() == step.next
                &&& item_view(item) == match step.outcome {
                    Ok(Some(token)) => Some(Ok::<TokenView, LexError>(token)),
                    Ok(None) => None,
                    Err(e) => Some(Err(e)),
                }
                &&& final(self).finished() == !(step.outcome is Ok && step.outcome->Ok_0 is Some)
            },
            match item {
                Some(Ok(token)) => old(self).pending() == followed_by(
                    seq![token@],
                    final(self).pending(),
                ),
                Some(Err(e)) => old(self).pending() == Err::<Seq<TokenView>, LexError>(e),
                None => old(self).pending() == Ok::<Seq<TokenView>, LexError>(Seq::empty()),
            },
    {
        if self.done {
            return None;
        }
        match self.lexer.scan() {
            Ok(Some(token)) => Some(Ok(token)),
            Ok(None) => {
                self.done = true;
                None
            },
            Err(e) => {
                self.done = true;
                Some(Err(e))
            },
        }
    }
}

/// Scans the whole of `sql_text`: all its tokens in order, or the first error.
pub fn tokenize(sql_text: &str) -> (r: Result<Vec<Token>, LexError>)
    ensures
        match r {
            Ok(tokens) => scan_all(sql_text@, 0) == Ok::<Seq<TokenView>, LexError>(views(tokens@)),
            Err(e) => scan_all(sql_text@, 0) == Err::<Seq<TokenView>, LexError>(e),
        },
{
    let mut stream = TokenStream::new(sql_text);
    let mut tokens: Vec<Token> = Vec::new();
    assert(forall|ts: Seq<TokenView>| views(tokens@) + ts =~= ts);
    loop
        invariant
            stream.wf(),
            stream.text() == sql_text@,
            !stream.finished(),
            followed_by(views(tokens@), stream.pending()) == scan_all(sql_text@, 0),
        decreases sql_text@.len() - stream.pos(),
    {
        let ghost before = views(tokens@);
        proof {
            lemma_scan_progress(sql_text@, stream.pos());
        }
        match stream.next_token() {
            Some(Err(e)) => {
                return Err(e);
            },
            None => {
                assert(before + Seq::<TokenView>::empty() =~= before);
                return Ok(tokens);
            },
            Some(Ok(token)) => {
                tokens.push(token);
                proof {
                    assert(views(tokens@) =~= before.push(token@));
                    match stream.pending() {
                        Ok(more) => {
                            assert(before + (seq![token@] + more) =~= before.push(token@) + more);
                        },
                        Err(_) => {},
                    }
                }
            },
        }
    }
}

} // verus!
