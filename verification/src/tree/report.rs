//! Diagnostic formatting of the tree-walking front end, as text for the
//! host to print: `[line N] Error<location>: <message>`.

use vstd::prelude::*;
use vstd::string::*;
use crate::text::{dec_digits, append_usize};
use crate::tree::token::{Token, TokenType};

verus! {

/// The text of a diagnostic: the line, where it arose, and the message.
pub open spec fn report_text(line_num: int, where_e: Seq<char>, message: Seq<char>) -> Seq<char> {
    "[line "@ + dec_digits(line_num as nat) + "] Error"@ + where_e + ": "@ + message
}

/// Formats a diagnostic.
pub fn report(line_num: usize, where_e: &str, message: &str) -> (r: String)
    ensures
        r@ == report_text(line_num as int, where_e@, message@),
{
    let mut out = String::new();
    proof {
        reveal_strlit("[line ");
        reveal_strlit("] Error");
        reveal_strlit(": ");
    }
    out.append("[line ");
    append_usize(&mut out, line_num);
    out.append("] Error");
    out.append(where_e);
    out.append(": ");
    out.append(message);
    proof {
        assert(out@ =~= report_text(line_num as int, where_e@, message@));
    }
    out
}

/// Formats a diagnostic with no location.
pub fn error(line_num: usize, message: &str) -> (r: String)
    ensures
        r@ == report_text(line_num as int, Seq::<char>::empty(), message@),
{
    let r = report(line_num, "", message);
    proof {
        reveal_strlit("");
        assert(r@ =~= report_text(line_num as int, Seq::<char>::empty(), message@));
    }
    r
}

/// Formats a diagnostic at a token: at the end of input, or at the
/// token's text.
pub fn token_error(token: &Token, message: &str) -> (r: String)
    ensures
        token.token_type == TokenType::Eof ==> r@ == report_text(
            token.line_num as int,
            " at end"@,
            message@,
        ),
        token.token_type != TokenType::Eof ==> r@ == report_text(
            token.line_num as int,
            " at '"@ + token.lexeme@ + "'"@,
            message@,
        ),
{
    if token.token_type == TokenType::Eof {
        proof {
            reveal_strlit(" at end");
        }
        report(token.line_num, " at end", message)
    } else {
        let mut loc = String::new();
        proof {
            reveal_strlit(" at '");
            reveal_strlit("'");
        }
        loc.append(" at '");
        let mut i: usize = 0;
        let n = token.lexeme.len();
        while i < n
            invariant
                n == token.lexeme@.len(),
                i <= n,
                loc@ == " at '"@ + token.lexeme@.subrange(0, i as int),
            decreases n - i,
        {
            let c = token.lexeme[i];
            push_char(&mut loc, c);
            i = i + 1;
            proof {
                assert(loc@ =~= " at '"@ + token.lexeme@.subrange(0, i as int));
            }
        }
        loc.append("'");
        let r = report(token.line_num, loc.as_str(), message);
        proof {
            assert(token.lexeme@.subrange(0, token.lexeme@.len() as int) =~= token.lexeme@);
            assert(r@ =~= report_text(
                token.line_num as int,
                " at '"@ + token.lexeme@ + "'"@,
                message@,
            ));
        }
        r
    }
}

/// Appends one character to a string.
/// Relies on String::push: appends exactly the given character.
#[verifier::external_body]
pub fn push_char(out: &mut String, c: char)
    ensures
        final(out)@ == old(out)@.push(c),
{
    out.push(c);
}

} // verus!
