//! The front end as far as it goes: scanning a whole source.
use vstd::prelude::*;
use crate::scanner::{
    lemma_token_at_bounds, scan_from, skip_end, token_at, token_model, ErrorToken, ScanResult,
    Scanner, Token, TokenType,
};

verus! {

/// The models of `tokens`, in order.
pub open spec fn token_models(tokens: Seq<Token>) -> Seq<(TokenType, Seq<char>, i32)> {
    tokens.map_values(|t: Token| token_model(t))
}

/// `xs` before the tokens of `r`, or the error of `r`.
pub open spec fn prepend_tokens(
    xs: Seq<(TokenType, Seq<char>, i32)>,
    r: Result<Seq<(TokenType, Seq<char>, i32)>, Seq<char>>,
) -> Result<Seq<(TokenType, Seq<char>, i32)>, Seq<char>> {
    match r {
        Ok(s) => Ok(xs + s),
        Err(m) => Err(m),
    }
}

/// Scans the whole source, from line 1: every token up to the end, or the
/// first scan error.
pub fn compile(source: &str) -> (r: Result<Vec<Token>, ErrorToken>)
    ensures
        match r {
            Ok(tokens) => scan_from(source@, 0, 1) == Ok::<
                Seq<(TokenType, Seq<char>, i32)>,
                Seq<char>,
            >(token_models(tokens@)),
            Err(e) => scan_from(source@, 0, 1) == Err::<Seq<(TokenType, Seq<char>, i32)>, Seq<char>>(
                e.message@,
            ),
        },
{
    let mut scanner = Scanner::new(source);
    let mut tokens: Vec<Token> = Vec::new();
    let ghost src = source@;
    proof {
        assert(token_models(tokens@) + scan_from(src, 0, 1)->Ok_0 =~= scan_from(src, 0, 1)->Ok_0);
    }
    loop
        invariant
            scanner.wf(),
            scanner.source@ == src,
            src == source@,
            scan_from(src, 0, 1) == prepend_tokens(
                token_models(tokens@),
                scan_from(src, scanner.current as nat, scanner.line),
            ),
        decreases src.len() - scanner.current,
    {
        let ghost pos = scanner.current as nat;
        let ghost line = scanner.line;
        let ghost s = skip_end(src, pos, false);
        proof {
            if s < src.len() {
                lemma_token_at_bounds(src, s);
            }
            crate::scanner::lemma_skip_bounds(src, pos);
        }
        match scanner.scan_token() {
            ScanResult::Normal(t) => {
                proof {
                    let rest = scan_from(src, scanner.current as nat, scanner.line);
                    assert(token_models(tokens@.push(t)) =~= token_models(tokens@).push(
                        token_model(t),
                    ));
                    match rest {
                        Ok(rs) => {
                            assert(token_models(tokens@) + (seq![token_model(t)] + rs)
                                =~= token_models(tokens@).push(token_model(t)) + rs);
                        },
                        Err(_) => {},
                    }
                }
                tokens.push(t);
            },
            ScanResult::EOF(_) => {
                proof {
                    assert(token_models(tokens@) + Seq::empty() =~= token_models(tokens@));
                }
                return Ok(tokens);
            },
            ScanResult::Error(e) => {
                return Err(e);
            },
        }
    }
}

} // verus!
