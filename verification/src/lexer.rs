use vstd::prelude::*;
use vstd::string::*;

use crate::error::Error;
use crate::token::{is_op_char, is_operator, Token, TokenView};
use crate::token::{lemma_ops_valid_cons, ops_valid, token_views};

verus! {

/// The characters the lexer skips: ASCII whitespace.
pub open spec fn is_space_char(c: char) -> bool {
    c == ' ' || c == '\t' || c == '\n' || c == '\r' || c == '\x0c'
}

/// Whether a character is an ASCII digit.
pub open spec fn is_digit_char(c: char) -> bool {
    48 <= c as u32 <= 57
}

/// The numeric value of an ASCII digit character.
pub open spec fn digit_of(c: char) -> int {
    c as u32 - 48
}

/// Whether every character of the sequence is an ASCII digit.
pub open spec fn all_digits(s: Seq<char>) -> bool {
    forall|k: int| 0 <= k < s.len() ==> is_digit_char(#[trigger] s[k])
}

/// The value of a digit sequence read as a decimal numeral.
pub open spec fn digits_val(s: Seq<char>) -> int
    decreases s.len(),
{
    if s.len() == 0 {
        0
    } else {
        digits_val(s.drop_last()) * 10 + digit_of(s.last())
    }
}

/// The token sequence of the text from position `i` on, or the first error:
/// whitespace is skipped, an operator character becomes a one-character
/// operator token, a digit opens a numeral, and any other character is the
/// fatal `LexError`.
pub open spec fn lex_from(s: Seq<char>, i: int) -> Result<Seq<TokenView>, Error>
    decreases s.len() - i, 0int,
{
    if i < 0 || i >= s.len() {
        Ok(Seq::empty())
    } else if is_space_char(s[i]) {
        lex_from(s, i + 1)
    } else if is_op_char(s[i]) {
        match lex_from(s, i + 1) {
            Ok(ts) => Ok(seq![TokenView::Op(s[i])] + ts),
            Err(e) => Err(e),
        }
    } else if is_digit_char(s[i]) {
        lex_num(s, i + 1, digit_of(s[i]))
    } else {
        Err(Error::LexError)
    }
}

/// A numeral in progress: `acc` is the value of the digits consumed so far;
/// the numeral extends greedily over every consecutive digit, then yields one
/// literal token and lexing resumes.
pub open spec fn lex_num(s: Seq<char>, i: int, acc: int) -> Result<Seq<TokenView>, Error>
    decreases s.len() - i, 1int,
{
    if 0 <= i < s.len() && is_digit_char(s[i]) {
        lex_num(s, i + 1, acc * 10 + digit_of(s[i]))
    } else {
        match lex_from(s, i) {
            Ok(ts) => Ok(seq![TokenView::Num(acc)] + ts),
            Err(e) => Err(e),
        }
    }
}

/// The token sequence of the whole text, or the first error.
pub open spec fn lex_spec(s: Seq<char>) -> Result<Seq<TokenView>, Error> {
    lex_from(s, 0)
}

/// Every run of digits in the text names a value an `i32` holds.  This is the
/// machine-width side condition under which the executable lexer runs.
pub open spec fn literals_fit(s: Seq<char>) -> bool {
    forall|i: int, j: int|
        0 <= i <= j <= s.len() && all_digits(#[trigger] s.subrange(i, j)) ==> digits_val(
            s.subrange(i, j),
        ) <= i32::MAX
}

/// The decimal value of a digit string is never negative.
pub proof fn lemma_digits_val_nonneg(d: Seq<char>)
    requires
        all_digits(d),
    ensures
        digits_val(d) >= 0,
    decreases d.len(),
{
    if d.len() > 0 {
        assert forall|k: int| 0 <= k < d.drop_last().len() implies is_digit_char(
            #[trigger] d.drop_last()[k],
        ) by {
            assert(d.drop_last()[k] == d[k]);
        }
        lemma_digits_val_nonneg(d.drop_last());
        assert(is_digit_char(d.last()));
    }
}

/// Token sequences the lexer produces carry only supported operators — it
/// admits no other operator character in the first place — and the one
/// failure it knows is the illegal character.
pub proof fn lemma_lex_ops_valid(s: Seq<char>, i: int)
    ensures
        lex_from(s, i) matches Ok(ts) ==> ops_valid(ts),
        lex_from(s, i) matches Err(e) ==> e == Error::LexError,
    decreases s.len() - i, 0int,
{
    if i < 0 || i >= s.len() {
    } else if is_space_char(s[i]) {
        lemma_lex_ops_valid(s, i + 1);
    } else if is_op_char(s[i]) {
        lemma_lex_ops_valid(s, i + 1);
        if let Ok(ts) = lex_from(s, i + 1) {
            lemma_ops_valid_cons(TokenView::Op(s[i]), ts);
        }
    } else if is_digit_char(s[i]) {
        lemma_lex_num_ops_valid(s, i + 1, digit_of(s[i]));
    }
}

/// The companion of `lemma_lex_ops_valid` for a numeral in progress.
proof fn lemma_lex_num_ops_valid(s: Seq<char>, i: int, acc: int)
    ensures
        lex_num(s, i, acc) matches Ok(ts) ==> ops_valid(ts),
        lex_num(s, i, acc) matches Err(e) ==> e == Error::LexError,
    decreases s.len() - i, 1int,
{
    if 0 <= i < s.len() && is_digit_char(s[i]) {
        lemma_lex_num_ops_valid(s, i + 1, acc * 10 + digit_of(s[i]));
    } else {
        lemma_lex_ops_valid(s, i);
        if let Ok(ts) = lex_from(s, i) {
            lemma_ops_valid_cons(TokenView::Num(acc), ts);
        }
    }
}

/// Behind the inserted space, lexing the grown text one position later is
/// lexing the original text: every character there sits one place further on.
proof fn space_shift_from(s: Seq<char>, i: int, c: char, j: int)
    requires
        0 <= i <= s.len(),
        is_space_char(c),
        i <= j <= s.len(),
    ensures
        lex_from(s.insert(i, c), j + 1) == lex_from(s, j),
    decreases s.len() - j, 0int,
{
    let t = s.insert(i, c);
    s.insert_ensures(i, c);
    if j == s.len() {
        assert(lex_from(t, j + 1) == Ok::<Seq<TokenView>, Error>(Seq::empty()));
    } else {
        assert(t[j + 1] == s[j]);
        if is_space_char(s[j]) {
            space_shift_from(s, i, c, j + 1);
        } else if is_op_char(s[j]) {
            space_shift_from(s, i, c, j + 1);
        } else if is_digit_char(s[j]) {
            space_shift_num(s, i, c, j + 1, digit_of(s[j]));
        }
    }
}

/// The companion of `space_shift_from` for a numeral in progress.
proof fn space_shift_num(s: Seq<char>, i: int, c: char, j: int, acc: int)
    requires
        0 <= i <= s.len(),
        is_space_char(c),
        i <= j <= s.len(),
    ensures
        lex_num(s.insert(i, c), j + 1, acc) == lex_num(s, j, acc),
    decreases s.len() - j, 1int,
{
    let t = s.insert(i, c);
    s.insert_ensures(i, c);
    if j < s.len() {
        assert(t[j + 1] == s[j]);
        if is_digit_char(s[j]) {
            space_shift_num(s, i, c, j + 1, acc * 10 + digit_of(s[j]));
        } else {
            space_shift_from(s, i, c, j);
        }
    } else {
        space_shift_from(s, i, c, j);
    }
}

/// Before the inserted space, the grown text and the original lex alike; at
/// the insertion point the space is skipped and `space_shift_from` takes
/// over.
proof fn space_prefix_from(s: Seq<char>, i: int, c: char, j: int)
    requires
        0 <= i <= s.len(),
        is_space_char(c),
        !(0 < i < s.len() && is_digit_char(s[i - 1]) && is_digit_char(s[i])),
        0 <= j <= i,
    ensures
        lex_from(s.insert(i, c), j) == lex_from(s, j),
    decreases i - j, 0int,
{
    let t = s.insert(i, c);
    s.insert_ensures(i, c);
    if j == i {
        assert(t[i] == c);
        assert(lex_from(t, i) == lex_from(t, i + 1));
        space_shift_from(s, i, c, i);
    } else {
        assert(t[j] == s[j]);
        if is_space_char(s[j]) {
            space_prefix_from(s, i, c, j + 1);
        } else if is_op_char(s[j]) {
            space_prefix_from(s, i, c, j + 1);
        } else if is_digit_char(s[j]) {
            space_prefix_num(s, i, c, j + 1, digit_of(s[j]));
        }
    }
}

/// The companion of `space_prefix_from` for a numeral in progress.  The run
/// reached `j` through the digit just before it, so by the law's own premiss
/// the run cannot continue across the insertion point.
proof fn space_prefix_num(s: Seq<char>, i: int, c: char, j: int, acc: int)
    requires
        0 <= i <= s.len(),
        is_space_char(c),
        !(0 < i < s.len() && is_digit_char(s[i - 1]) && is_digit_char(s[i])),
        0 < j <= i,
        is_digit_char(s[j - 1]),
    ensures
        lex_num(s.insert(i, c), j, acc) == lex_num(s, j, acc),
    decreases i - j, 1int,
{
    let t = s.insert(i, c);
    s.insert_ensures(i, c);
    if j == i {
        assert(t[i] == c);
        assert(!is_digit_char(c));
        if i < s.len() {
            assert(!is_digit_char(s[i]));
        }
        assert(lex_from(t, i) == lex_from(t, i + 1));
        space_shift_from(s, i, c, i);
    } else {
        assert(t[j] == s[j]);
        if is_digit_char(s[j]) {
            space_prefix_num(s, i, c, j + 1, acc * 10 + digit_of(s[j]));
        } else {
            space_prefix_from(s, i, c, j);
        }
    }
}

/// Whitespace insensitivity: inserting one whitespace character anywhere but
/// strictly inside a digit run leaves the lexer's outcome — and with it the
/// whole pipeline's — unchanged.  (Inside a run it would split one literal
/// into two, which is a different expression, not different spacing.)
pub proof fn lemma_lex_space_insensitive(s: Seq<char>, i: int, c: char)
    requires
        0 <= i <= s.len(),
        is_space_char(c),
        !(0 < i < s.len() && is_digit_char(s[i - 1]) && is_digit_char(s[i])),
    ensures
        lex_spec(s.insert(i, c)) == lex_spec(s),
{
    space_prefix_from(s, i, c, 0);
}

/// Whether a character is ASCII whitespace.
pub fn is_space(c: char) -> (r: bool)
    ensures
        r == is_space_char(c),
{
    c == ' ' || c == '\t' || c == '\n' || c == '\r' || c == '\x0c'
}

/// Whether a character is an ASCII digit.
pub fn is_digit(c: char) -> (r: bool)
    ensures
        r == is_digit_char(c),
{
    let u = c as u32;
    48 <= u && u <= 57
}

/// The value of an ASCII digit character.
pub fn digit_value(c: char) -> (r: i32)
    requires
        is_digit_char(c),
    ensures
        r as int == digit_of(c),
        0 <= r <= 9,
{
    ((c as u32) - 48) as i32
}

/// Turns the raw expression text into its ordered token sequence: whitespace
/// separates but produces nothing, each operator character is one token, each
/// maximal digit run is one literal token, and the first illegal character
/// aborts the run with `LexError` and no partial token sequence.
#[verifier::loop_isolation(false)]
pub fn tokenize(s: &str) -> (r: Result<Vec<Token>, Error>)
    requires
        literals_fit(s@),
    ensures
        (match lex_spec(s@) {
            Ok(ts) => r matches Ok(v) && token_views(v@) == ts,
            Err(e) => r == Err::<Vec<Token>, Error>(e),
        }),
{
    let n = s.unicode_len();
    let mut tokens: Vec<Token> = Vec::new();
    let mut i: usize = 0;
    while i < n
        invariant
            i <= n,
            (match lex_from(s@, i as int) {
                Ok(rest) => lex_from(s@, 0) == Ok::<Seq<TokenView>, Error>(
                    token_views(tokens@) + rest,
                ),
                Err(e) => lex_from(s@, 0) == Err::<Seq<TokenView>, Error>(e),
            }),
        decreases n - i,
    {
        let c = s.get_char(i);
        if is_space(c) {
            i = i + 1;
        } else if is_operator(c) {
            let ghost old_tokens = tokens@;
            tokens.push(Token::Operator(c));
            proof {
                assert(token_views(tokens@) =~= token_views(old_tokens).push(TokenView::Op(c)));
                if let Ok(rest) = lex_from(s@, i + 1) {
                    assert(token_views(old_tokens) + (seq![TokenView::Op(c)] + rest) =~= token_views(
                        tokens@,
                    ) + rest);
                }
            }
            i = i + 1;
        } else if is_digit(c) {
            let ghost start = i as int;
            let mut acc: i32 = digit_value(c);
            i = i + 1;
            proof {
                let first = s@.subrange(start, start + 1);
                assert(first.len() == 1);
                assert(first.drop_last() =~= Seq::<char>::empty());
                assert(digits_val(Seq::<char>::empty()) == 0);
                assert(digits_val(first) == digits_val(first.drop_last()) * 10 + digit_of(
                    first.last(),
                ));
                assert(first.last() == s@[start]);
                assert(digits_val(first) == digit_of(c));
            }
            while i < n && is_digit(s.get_char(i))
                invariant
                    start + 1 <= i <= n,
                    0 <= acc,
                    all_digits(s@.subrange(start, i as int)),
                    acc as int == digits_val(s@.subrange(start, i as int)),
                    lex_from(s@, start) == lex_num(s@, i as int, acc as int),
                decreases n - i,
            {
                let c2 = s.get_char(i);
                let d = digit_value(c2);
                proof {
                    let prefix = s@.subrange(start, i as int);
                    let extended = s@.subrange(start, i + 1);
                    assert(extended.drop_last() =~= prefix);
                    assert(extended.last() == s@[i as int]);
                    assert(all_digits(extended));
                    assert(digits_val(extended) == acc * 10 + digit_of(c2));
                    assert(digits_val(extended) <= i32::MAX);
                    lemma_digits_val_nonneg(extended);
                }
                acc = acc * 10 + d;
                i = i + 1;
            }
            let ghost old_tokens = tokens@;
            tokens.push(Token::Number(acc));
            proof {
                assert(token_views(tokens@) =~= token_views(old_tokens).push(
                    TokenView::Num(acc as int),
                ));
                if let Ok(rest) = lex_from(s@, i as int) {
                    assert(token_views(old_tokens) + (seq![TokenView::Num(acc as int)] + rest)
                        =~= token_views(tokens@) + rest);
                }
            }
        } else {
            proof {
                assert(lex_from(s@, i as int) == Err::<Seq<TokenView>, Error>(Error::LexError));
            }
            return Err(Error::LexError);
        }
    }
    proof {
        assert(lex_from(s@, n as int) == Ok::<Seq<TokenView>, Error>(Seq::empty()));
        assert(token_views(tokens@) + Seq::<TokenView>::empty() =~= token_views(tokens@));
    }
    Ok(tokens)
}

} // verus!
