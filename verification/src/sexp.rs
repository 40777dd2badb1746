//! S-expressions: nested lists of words and quoted texts, as EDIF writes them.
//!
//! A text is split into tokens, and the tokens are put together into forms.
//! A word is a run of characters other than blanks, brackets and double
//! quotes. A quoted text runs from one double quote to the next.
use vstd::prelude::*;
use crate::text::{class_of, from_chars, is_blank, lemma_run, run_len, scan, to_chars, CharClass};

verus! {

/// A token.
#[derive(Debug)]
pub enum Token {
    Open,
    Close,
    Word(String),
    Quoted(String),
}

/// A token, in characters.
pub enum TokenView {
    Open,
    Close,
    Word(Seq<char>),
    Quoted(Seq<char>),
}

impl View for Token {
    type V = TokenView;

    open spec fn view(&self) -> TokenView {
        match *self {
            Token::Open => TokenView::Open,
            Token::Close => TokenView::Close,
            Token::Word(w) => TokenView::Word(w@),
            Token::Quoted(q) => TokenView::Quoted(q@),
        }
    }
}

/// The views of a list of tokens.
pub open spec fn tokens_view(tokens: Seq<Token>) -> Seq<TokenView> {
    tokens.map_values(|t: Token| t@)
}

/// A form: a word, a quoted text, or a list of forms.
#[derive(Debug)]
pub enum Sexp {
    Word(String),
    Quoted(String),
    List(Vec<Sexp>),
}

/// Why a text is no sequence of forms.
#[derive(Debug, PartialEq, Eq, Copy, Clone, Structural)]
pub enum SexpError {
    /// A quoted text does not end.
    OpenQuote,
    /// A bracket closes what was not opened, or a bracket stays open.
    Unbalanced,
}

/// `t` before the tokens `rest`, where there are such.
pub open spec fn before(t: TokenView, rest: Option<Seq<TokenView>>) -> Option<Seq<TokenView>> {
    match rest {
        Some(r) => Some(seq![t] + r),
        None => None,
    }
}

/// The tokens of the text from position `from` on; none where a quoted
/// text does not end.
pub open spec fn tokens_from(s: Seq<char>, from: int) -> Option<Seq<TokenView>>
    decreases s.len() - from,
{
    if from < 0 || from >= s.len() {
        Some(Seq::empty())
    } else if is_blank(s[from]) {
        tokens_from(s, from + 1)
    } else if s[from] == '(' {
        before(TokenView::Open, tokens_from(s, from + 1))
    } else if s[from] == ')' {
        before(TokenView::Close, tokens_from(s, from + 1))
    } else if s[from] == '"' {
        let end = from + 1 + run_len(s, from + 1, CharClass::NotQuote);
        if end >= s.len() {
            None
        } else {
            before(TokenView::Quoted(s.subrange(from + 1, end)), tokens_from(s, end + 1))
        }
    } else {
        let end = from + run_len(s, from, CharClass::Word);
        if end <= from || end > s.len() {
            None
        } else {
            before(TokenView::Word(s.subrange(from, end)), tokens_from(s, end))
        }
    }
}

/// The tokens of a form.
pub open spec fn flat(e: Sexp) -> Seq<TokenView>
    decreases e, 0nat,
{
    match e {
        Sexp::Word(w) => seq![TokenView::Word(w@)],
        Sexp::Quoted(q) => seq![TokenView::Quoted(q@)],
        Sexp::List(items) => seq![TokenView::Open] + flat_all(items@, items@.len()) + seq![
            TokenView::Close,
        ],
    }
}

/// The tokens of the first `n` forms of a list, one form after the other.
pub open spec fn flat_all(items: Seq<Sexp>, n: nat) -> Seq<TokenView>
    decreases items, n,
{
    if n == 0 || n > items.len() {
        Seq::empty()
    } else {
        flat_all(items, (n - 1) as nat) + flat(items[n - 1])
    }
}

/// How many brackets are open after the first `n` tokens.
pub open spec fn depth(tokens: Seq<TokenView>, n: nat) -> int
    decreases n,
{
    if n == 0 || n > tokens.len() {
        0
    } else {
        depth(tokens, (n - 1) as nat) + match tokens[n - 1] {
            TokenView::Open => 1int,
            TokenView::Close => -1int,
            _ => 0int,
        }
    }
}

/// Every bracket that closes was opened, and none stays open.
pub open spec fn balanced(tokens: Seq<TokenView>) -> bool {
    depth(tokens, tokens.len()) == 0 && forall|n: nat| n <= tokens.len() ==> depth(tokens, n) >= 0
}

/// Splits a text into tokens.
pub fn tokenize(text: &str) -> (r: Result<Vec<Token>, SexpError>)
    ensures
        match r {
            Ok(tokens) => tokens_from(text@, 0) == Some(tokens_view(tokens@)),
            Err(e) => e == SexpError::OpenQuote && tokens_from(text@, 0) is None,
        },
{
    let s = to_chars(text);
    let n = s.len();
    let mut tokens: Vec<Token> = Vec::new();
    let mut i: usize = 0;
    proof {
        assert(tokens_view(tokens@) + tokens_from(s@, 0).unwrap_or(Seq::empty()) =~= tokens_from(
            s@,
            0,
        ).unwrap_or(Seq::empty()));
    }
    while i < n
        invariant
            n == s@.len(),
            i <= n,
            s@ == text@,
            tokens_from(s@, 0) == match tokens_from(s@, i as int) {
                Some(rest) => Some(tokens_view(tokens@) + rest),
                None => None,
            },
        decreases n - i,
    {
        let c = s[i];
        let ghost earlier = tokens@;
        if c == ' ' || c == '\t' || c == '\n' || c == '\r' {
            i = i + 1;
        } else if c == '(' {
            tokens.push(Token::Open);
            proof {
                lemma_pushed_token(earlier, Token::Open, tokens_from(s@, i + 1));
            }
            i = i + 1;
        } else if c == ')' {
            tokens.push(Token::Close);
            proof {
                lemma_pushed_token(earlier, Token::Close, tokens_from(s@, i + 1));
            }
            i = i + 1;
        } else if c == '"' {
            let end = scan(&s, i + 1, CharClass::NotQuote);
            if end >= n {
                return Err(SexpError::OpenQuote);
            }
            let quoted = from_chars(&s, i + 1, end);
            tokens.push(Token::Quoted(quoted));
            proof {
                lemma_pushed_token(earlier, Token::Quoted(quoted), tokens_from(s@, end + 1));
            }
            i = end + 1;
        } else {
            let end = scan(&s, i, CharClass::Word);
            assert(end > i) by {
                assert(run_len(s@, i as int, CharClass::Word) >= 1);
            }
            let word = from_chars(&s, i, end);
            tokens.push(Token::Word(word));
            proof {
                lemma_pushed_token(earlier, Token::Word(word), tokens_from(s@, end as int));
            }
            i = end;
        }
    }
    proof {
        assert(tokens_view(tokens@) + Seq::<TokenView>::empty() =~= tokens_view(tokens@));
    }
    Ok(tokens)
}

/// Pushing a token moves it from the front of what is to come to the end
/// of what is there.
proof fn lemma_pushed_token(earlier: Seq<Token>, t: Token, rest: Option<Seq<TokenView>>)
    ensures
        (match before(t@, rest) {
            Some(r) => Some(tokens_view(earlier) + r),
            None => None,
        }) == (match rest {
            Some(r) => Some(tokens_view(earlier.push(t)) + r),
            None => None,
        }),
{
    if let Some(r) = rest {
        assert(tokens_view(earlier) + (seq![t@] + r) =~= tokens_view(earlier.push(t)) + r) by {
            assert(tokens_view(earlier.push(t)) =~= tokens_view(earlier).push(t@));
        }
    }
}

/// The tokens that the open lists hold so far: those of the forms of the
/// outermost list, then, for each list inside, a bracket and the tokens of its forms.
pub open spec fn open_flat(stack: Seq<Vec<Sexp>>, n: nat) -> Seq<TokenView>
    decreases n,
{
    if n == 0 || n > stack.len() {
        Seq::empty()
    } else if n == 1 {
        flat_all(stack[0]@, stack[0]@.len())
    } else {
        open_flat(stack, (n - 1) as nat) + seq![TokenView::Open] + flat_all(
            stack[n - 1]@,
            stack[n - 1]@.len(),
        )
    }
}

/// The tokens of a list of forms with one more form at its end.
pub proof fn lemma_flat_push(items: Seq<Sexp>, e: Sexp)
    ensures
        flat_all(items.push(e), items.len() + 1) == flat_all(items, items.len()) + flat(e),
{
    lemma_flat_prefix(items, e, items.len());
    assert(items.push(e)[items.len() as int] == e);
}

/// The tokens of the first forms of a list do not depend on what follows.
pub proof fn lemma_flat_prefix(items: Seq<Sexp>, e: Sexp, n: nat)
    requires
        n <= items.len(),
    ensures
        flat_all(items.push(e), n) == flat_all(items, n),
    decreases n,
{
    if n > 0 {
        lemma_flat_prefix(items, e, (n - 1) as nat);
        assert(items.push(e)[n - 1] == items[n - 1]);
    }
}

/// The open lists below the innermost keep their tokens when the
/// innermost changes.
pub proof fn lemma_open_flat_prefix(a: Seq<Vec<Sexp>>, b: Seq<Vec<Sexp>>, n: nat)
    requires
        n <= a.len(),
        n <= b.len(),
        forall|i: int| 0 <= i < n ==> a[i] == b[i],
    ensures
        open_flat(a, n) == open_flat(b, n),
    decreases n,
{
    if n > 1 {
        lemma_open_flat_prefix(a, b, (n - 1) as nat);
    }
}

/// The depth after some tokens does not depend on what follows them.
pub proof fn lemma_depth_prefix(a: Seq<TokenView>, b: Seq<TokenView>, n: nat)
    requires
        n <= a.len(),
        n <= b.len(),
        forall|i: int| 0 <= i < n ==> a[i] == b[i],
    ensures
        depth(a, n) == depth(b, n),
    decreases n,
{
    if n > 0 {
        lemma_depth_prefix(a, b, (n - 1) as nat);
    }
}

/// Puts a form at the end of the innermost open list.
fn add_form(stack: &mut Vec<Vec<Sexp>>, e: Sexp)
    requires
        old(stack)@.len() >= 1,
    ensures
        final(stack)@.len() == old(stack)@.len(),
        open_flat(final(stack)@, final(stack)@.len() as nat) == open_flat(
            old(stack)@,
            old(stack)@.len() as nat,
        ) + flat(e),
{
    let ghost before = stack@;
    let ghost n = before.len();
    let mut top = stack.pop().unwrap();
    let ghost items = top@;
    top.push(e);
    stack.push(top);
    proof {
        lemma_flat_push(items, e);
        assert(top@ == items.push(e));
        assert(before[n - 1]@ == items);
        if n > 1 {
            lemma_open_flat_prefix(stack@, before, (n - 1) as nat);
            assert(open_flat(stack@, n) =~= open_flat(before, n) + flat(e));
        } else {
            assert(open_flat(stack@, n) =~= open_flat(before, n) + flat(e));
        }
    }
}

/// Puts tokens together into forms.
pub fn read_forms(tokens: &Vec<Token>) -> (r: Result<Vec<Sexp>, SexpError>)
    ensures
        match r {
            Ok(forms) => balanced(tokens_view(tokens@)) && flat_all(forms@, forms@.len())
                == tokens_view(tokens@),
            Err(e) => e == SexpError::Unbalanced && !balanced(tokens_view(tokens@)),
        },
{
    let ghost all = tokens_view(tokens@);
    let mut stack: Vec<Vec<Sexp>> = Vec::new();
    stack.push(Vec::new());
    let mut i: usize = 0;
    proof {
        assert(open_flat(stack@, 1) =~= all.take(0));
    }
    while i < tokens.len()
        invariant
            all == tokens_view(tokens@),
            i <= tokens@.len(),
            stack@.len() >= 1,
            stack@.len() == depth(all, i as nat) + 1,
            forall|n: nat| n <= i ==> depth(all, n) >= 0,
            open_flat(stack@, stack@.len() as nat) == all.take(i as int),
        decreases tokens@.len() - i,
    {
        let ghost flat_before = open_flat(stack@, stack@.len() as nat);
        assert(all[i as int] == tokens@[i as int]@);
        assert(all.take(i + 1) =~= all.take(i as int).push(all[i as int]));
        match &tokens[i] {
            Token::Open => {
                let ghost before = stack@;
                stack.push(Vec::new());
                proof {
                    lemma_open_flat_prefix(stack@, before, before.len());
                    assert(open_flat(stack@, stack@.len() as nat) =~= all.take(i + 1));
                }
            },
            Token::Close => {
                if stack.len() == 1 {
                    proof {
                        assert(depth(all, (i + 1) as nat) == -1);
                    }
                    return Err(SexpError::Unbalanced);
                }
                let ghost before = stack@;
                let ghost n = before.len();
                let items = stack.pop().unwrap();
                let ghost middle = stack@;
                let list = Sexp::List(items);
                add_form(&mut stack, list);
                proof {
                    lemma_open_flat_prefix(middle, before, (n - 1) as nat);
                    assert(open_flat(before, n) == open_flat(before, (n - 1) as nat) + seq![
                        TokenView::Open,
                    ] + flat_all(before[n - 1]@, before[n - 1]@.len()));
                    assert(flat(list) == seq![TokenView::Open] + flat_all(items@, items@.len())
                        + seq![TokenView::Close]);
                    assert(open_flat(stack@, stack@.len() as nat) =~= all.take(i + 1));
                }
            },
            Token::Word(w) => {
                add_form(&mut stack, Sexp::Word(w.clone()));
                proof {
                    assert(open_flat(stack@, stack@.len() as nat) =~= all.take(i + 1));
                }
            },
            Token::Quoted(q) => {
                add_form(&mut stack, Sexp::Quoted(q.clone()));
                proof {
                    assert(open_flat(stack@, stack@.len() as nat) =~= all.take(i + 1));
                }
            },
        }
        i = i + 1;
    }
    if stack.len() != 1 {
        return Err(SexpError::Unbalanced);
    }
    let forms = stack.pop().unwrap();
    proof {
        assert(all.take(all.len() as int) =~= all);
    }
    Ok(forms)
}

/// What the text means as a sequence of forms.
pub open spec fn is_reading(text: Seq<char>, r: Result<Vec<Sexp>, SexpError>) -> bool {
    match tokens_from(text, 0) {
        None => r == Err::<Vec<Sexp>, SexpError>(SexpError::OpenQuote),
        Some(tokens) => if balanced(tokens) {
            r is Ok && flat_all(r->Ok_0@, r->Ok_0@.len()) == tokens
        } else {
            r == Err::<Vec<Sexp>, SexpError>(SexpError::Unbalanced)
        },
    }
}

/// Why the text is no sequence of forms, if it is none.
pub open spec fn syntax_error(text: Seq<char>) -> Option<SexpError> {
    match tokens_from(text, 0) {
        None => Some(SexpError::OpenQuote),
        Some(tokens) => if balanced(tokens) {
            None
        } else {
            Some(SexpError::Unbalanced)
        },
    }
}

/// The text is a sequence of forms, and `forms`, written out token by
/// token, are its tokens.
pub open spec fn forms_of(text: Seq<char>, forms: Seq<Sexp>) -> bool {
    syntax_error(text) is None && flat_all(forms, forms.len()) == tokens_from(text, 0)->0
}

/// Reads a text as a sequence of forms. The forms, written out token by
/// token, are the tokens of the text. The reading fails where a quoted text
/// does not end or where the brackets do not balance.
pub fn parse_sexp(text: &str) -> (r: Result<Vec<Sexp>, SexpError>)
    ensures
        is_reading(text@, r),
{
    match tokenize(text) {
        Err(e) => Err(e),
        Ok(tokens) => read_forms(&tokens),
    }
}

} // verus!
