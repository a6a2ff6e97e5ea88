//! The token renderer: a pure mapping from the ordered token-text sequence
//! to a numbered display list. Numbering is 1-based and order is preserved;
//! an empty token sequence renders as an empty list.

use vstd::prelude::*;
use vstd::string::StringExecFns;
use crate::ids::{dec_digits, push_dec};
use crate::strutil::chars_to_string;

verus! {

/// One line of the numbered token list.
pub struct RenderedToken {
    /// The 1-based position of the token in the stream.
    pub number: usize,
    /// The token's text, taken verbatim from the stream.
    pub text: String,
}

/// What one rendered token must look like: the 1-based number of its
/// position and the unchanged token text.
pub open spec fn valid_token(entry: RenderedToken, tokens: Seq<String>, i: int) -> bool {
    &&& entry.number == i + 1
    &&& entry.text@ == tokens[i]@
}

/// The display line of one numbered token, "3. foo" style.
pub open spec fn token_line(number: usize, text: Seq<char>) -> Seq<char> {
    dec_digits(number as nat) + seq!['.', ' '] + text
}

/// Renders an ordered token-text sequence as a numbered display list:
/// one entry per token, in the original order, numbered 1 upwards.
pub fn render_tokens(tokens: &Vec<String>) -> (out: Vec<RenderedToken>)
    requires
        tokens@.len() < usize::MAX,
    ensures
        out@.len() == tokens@.len(),
        forall|i: int|
            0 <= i < out@.len() ==> #[trigger] valid_token(out@[i], tokens@, i),
{
    let n = tokens.len();
    let mut out: Vec<RenderedToken> = Vec::new();
    let mut i: usize = 0;
    while i < n
        invariant
            0 <= i <= n,
            n == tokens@.len(),
            n < usize::MAX,
            out@.len() == i,
            forall|j: int|
                0 <= j < i ==> #[trigger] valid_token(out@[j], tokens@, j),
        decreases n - i,
    {
        out.push(RenderedToken { number: i + 1, text: tokens[i].clone() });
        i = i + 1;
    }
    out
}

impl RenderedToken {
    /// The display line of this entry: its number, a dot, a space, and the
    /// token text.
    pub fn line(&self) -> (s: String)
        ensures
            s@ == token_line(self.number, self.text@),
    {
        let mut out: Vec<char> = Vec::new();
        push_dec(&mut out, self.number);
        out.push('.');
        out.push(' ');
        let prefix = chars_to_string(&out);
        let line = prefix.concat(self.text.as_str());
        proof {
            assert(out@ =~= dec_digits(self.number as nat) + seq!['.', ' ']);
            assert(line@ =~= token_line(self.number, self.text@));
        }
        line
    }
}

} // verus!
