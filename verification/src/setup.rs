//! Reading moves in conventional notation: a face letter, then nothing,
//! `2` or `'`, with whitespace between the moves.

use vstd::prelude::*;
use vstd::string::StrSliceExecFns;
use crate::moves::{Amt, FullDir, FullMove};

verus! {

/// Whether the character is ASCII whitespace: a space, a tab, a line feed,
/// a form feed or a carriage return.
pub open spec fn spec_is_space(c: char) -> bool {
    c == ' ' || c == '\t' || c == '\n' || c == '\u{000C}' || c == '\r'
}

/// Whether the character is ASCII whitespace.
#[verifier::when_used_as_spec(spec_is_space)]
pub fn is_space(c: char) -> (r: bool)
    ensures
        r == spec_is_space(c),
{
    c == ' ' || c == '\t' || c == '\n' || c == '\u{000C}' || c == '\r'
}

/// The face that a letter stands for.
pub open spec fn face_of(c: char) -> Option<FullDir> {
    if c == 'R' {
        Some(FullDir::R)
    } else if c == 'L' {
        Some(FullDir::L)
    } else if c == 'F' {
        Some(FullDir::F)
    } else if c == 'B' {
        Some(FullDir::B)
    } else if c == 'U' {
        Some(FullDir::U)
    } else if c == 'D' {
        Some(FullDir::D)
    } else {
        None
    }
}

/// The move that a token stands for: a face letter alone is a quarter
/// turn, with `2` a half turn, with `'` a quarter turn back.
pub open spec fn parse_token(token: Seq<char>) -> Option<FullMove> {
    if token.len() == 1 {
        match face_of(token[0]) {
            Some(face) => Some(FullMove(face, Amt::One)),
            None => None,
        }
    } else if token.len() == 2 {
        match face_of(token[0]) {
            Some(face) => if token[1] == '2' {
                Some(FullMove(face, Amt::Two))
            } else if token[1] == '\'' {
                Some(FullMove(face, Amt::Rev))
            } else {
                None
            },
            None => None,
        }
    } else {
        None
    }
}

/// Where the run of characters other than whitespace that holds index `i`
/// ends.
pub open spec fn token_end(s: Seq<char>, i: int) -> int
    decreases s.len() - i,
{
    if i < 0 || i >= s.len() || spec_is_space(s[i]) {
        i
    } else {
        token_end(s, i + 1)
    }
}

/// The tokens of `s` from index `i` on: its runs of characters other than
/// whitespace.
pub open spec fn tokens(s: Seq<char>, i: int) -> Seq<Seq<char>>
    decreases s.len() - i,
{
    if i < 0 || i >= s.len() {
        Seq::empty()
    } else if spec_is_space(s[i]) {
        tokens(s, i + 1)
    } else {
        let j = token_end(s, i);
        if i < j <= s.len() {
            seq![s.subrange(i, j)] + tokens(s, j)
        } else {
            Seq::empty()
        }
    }
}

/// The moves that the tokens stand for, or the first token that stands for
/// none.
pub open spec fn parse_tokens(ts: Seq<Seq<char>>) -> Result<Seq<FullMove>, Seq<char>>
    decreases ts.len(),
{
    if ts.len() == 0 {
        Ok(Seq::empty())
    } else {
        match parse_token(ts[0]) {
            None => Err(ts[0]),
            Some(m) => match parse_tokens(ts.skip(1)) {
                Ok(rest) => Ok(seq![m] + rest),
                Err(e) => Err(e),
            },
        }
    }
}

/// The run that holds an index of a character other than whitespace goes
/// on past it, and stays within the text.
pub proof fn lemma_token_end(s: Seq<char>, i: int)
    requires
        0 <= i <= s.len(),
    ensures
        i <= token_end(s, i) <= s.len(),
        i < s.len() && !spec_is_space(s[i]) ==> i < token_end(s, i),
    decreases s.len() - i,
{
    if i < s.len() && !spec_is_space(s[i]) {
        lemma_token_end(s, i + 1);
    }
}

impl FullMove {
    /// Reads one move. A token that is no move comes back as the error.
    pub fn parse(value: &str) -> (r: Result<FullMove, &str>)
        ensures
            match r {
                Ok(m) => parse_token(value@) == Some(m),
                Err(e) => parse_token(value@) is None && e == value,
            },
    {
        let n = value.unicode_len();
        if n == 0 || n > 2 {
            return Err(value);
        }
        let face = match value.get_char(0) {
            'R' => FullDir::R,
            'L' => FullDir::L,
            'F' => FullDir::F,
            'B' => FullDir::B,
            'U' => FullDir::U,
            'D' => FullDir::D,
            _ => {
                return Err(value);
            },
        };
        if n == 1 {
            return Ok(FullMove(face, Amt::One));
        }
        match value.get_char(1) {
            '2' => Ok(FullMove(face, Amt::Two)),
            '\'' => Ok(FullMove(face, Amt::Rev)),
            _ => Err(value),
        }
    }
}

impl<'a> TryFrom<&'a str> for FullMove {
    type Error = &'a str;

    fn try_from(value: &'a str) -> (r: Result<FullMove, &'a str>) {
        FullMove::parse(value)
    }
}

impl<'a> vstd::std_specs::convert::TryFromSpecImpl<&'a str> for FullMove {
    open spec fn obeys_try_from_spec() -> bool {
        true
    }

    open spec fn try_from_spec(value: &'a str) -> Result<FullMove, &'a str> {
        match parse_token(value@) {
            Some(m) => Ok(m),
            None => Err(value),
        }
    }
}

/// A result with `before` put in front of the moves it holds.
pub open spec fn after(
    before: Seq<FullMove>,
    r: Result<Seq<FullMove>, Seq<char>>,
) -> Result<Seq<FullMove>, Seq<char>> {
    match r {
        Ok(rest) => Ok(before + rest),
        Err(e) => Err(e),
    }
}

/// Reads a line of moves in conventional notation, separated by
/// whitespace. The first token that is no move comes back as the error.
pub fn parse_line(input: &str) -> (r: Result<Vec<FullMove>, &str>)
    ensures
        match r {
            Ok(moves) => parse_tokens(tokens(input@, 0)) == Ok::<Seq<FullMove>, Seq<char>>(moves@),
            Err(token) => parse_tokens(tokens(input@, 0)) == Err::<Seq<FullMove>, Seq<char>>(
                token@,
            ),
        },
{
    let mut out: Vec<FullMove> = Vec::new();
    let n = input.unicode_len();
    let mut i: usize = 0;
    proof {
        assert(Seq::<FullMove>::empty() + Seq::<FullMove>::empty() =~= Seq::<FullMove>::empty());
        match parse_tokens(tokens(input@, 0)) {
            Ok(rest) => {
                assert(Seq::<FullMove>::empty() + rest =~= rest);
            },
            Err(e) => {},
        }
    }
    while i < n
        invariant
            n == input@.len(),
            i <= n,
            parse_tokens(tokens(input@, 0)) == after(out@, parse_tokens(tokens(input@, i as int))),
        decreases n - i,
    {
        let c = input.get_char(i);
        if is_space(c) {
            i += 1;
        } else {
            let start = i;
            let mut j: usize = i;
            while j < n && !is_space(input.get_char(j))
                invariant
                    n == input@.len(),
                    start <= j <= n,
                    token_end(input@, start as int) == token_end(input@, j as int),
                decreases n - j,
            {
                j += 1;
            }
            proof {
                lemma_token_end(input@, start as int);
            }
            let tok = input.substring_char(start, j);
            proof {
                let ts = tokens(input@, start as int);
                assert(ts == seq![input@.subrange(start as int, j as int)] + tokens(
                    input@,
                    j as int,
                ));
                assert(ts[0] == tok@);
                assert(ts.skip(1) =~= tokens(input@, j as int));
            }
            match FullMove::parse(tok) {
                Ok(m) => {
                    proof {
                        match parse_tokens(tokens(input@, j as int)) {
                            Ok(rest) => {
                                assert(out@ + (seq![m] + rest) =~= out@.push(m) + rest);
                            },
                            Err(e) => {},
                        }
                    }
                    out.push(m);
                },
                Err(e) => {
                    return Err(e);
                },
            }
            i = j;
        }
    }
    proof {
        assert(out@ + Seq::<FullMove>::empty() =~= out@);
    }
    Ok(out)
}

} // verus!
