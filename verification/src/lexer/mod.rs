//! The lexer: turns VDL source text into tokens with their spans.
pub mod laws;
pub mod locality;
pub mod scan;
pub mod token;

use crate::error::{SourceLocation, SourceLocationView, VdlError, VdlErrorView};
use crate::lexer::scan::{
    advance_line_col, block_end, block_end_exec, is_ws, is_ws_byte, lemma_block_end, lemma_line_col_bounds,
    lemma_line_end, lemma_scan_token, line_col, line_end, line_end_exec, scan_token, scan_token_exec,
    TokenScan,
};
use crate::lexer::token::{Token, TokenView};
use vstd::prelude::*;
use vstd::string::StringSliceAdditionalSpecFns;

verus! {

/// A source span: byte offsets of a token's start and end, and the line
/// and column of its start.
#[derive(Debug, Clone, Copy, PartialEq, Eq, Hash, Structural)]
pub struct Span {
    pub start: usize,
    pub end: usize,
    pub line: usize,
    pub column: usize,
}

impl Span {
    pub fn new(start: usize, end: usize, line: usize, column: usize) -> (r: Self)
        ensures
            r == (Span { start, end, line, column }),
    {
        Span { start, end, line, column }
    }

    /// The location of this span's start in `file`.
    pub fn to_location(&self, file: &str) -> (r: SourceLocation)
        ensures
            r@ == (SourceLocationView { file: file@, line: self.line, column: self.column }),
    {
        SourceLocation::new(file, self.line, self.column)
    }
}

/// The tokens of the source from byte position `i` on, each with the byte
/// range that it spans; or, for a lexical error, the position at which it
/// is reported and its message. Whitespace, `// line` comments and
/// `/* block */` comments separate tokens and produce none.
pub open spec fn lex_from(b: Seq<u8>, i: int) -> Result<Seq<(TokenView, int, int)>, (int, Seq<char>)>
    decreases b.len() - i,
{
    if i < 0 || i >= b.len() {
        Ok(seq![])
    } else if is_ws(b[i]) {
        lex_from(b, i + 1)
    } else if b[i] == 47 && i + 1 < b.len() && b[i + 1] == 47 {
        proof {
            lemma_line_end(b, i + 2);
        }
        lex_from(b, line_end(b, i + 2))
    } else if b[i] == 47 && i + 1 < b.len() && b[i + 1] == 42 {
        proof {
            lemma_block_end(b, i + 2);
        }
        match block_end(b, i + 2) {
            Some(j) => lex_from(b, j),
            None => Err((i, "unterminated block comment"@)),
        }
    } else {
        proof {
            lemma_scan_token(b, i);
        }
        match scan_token(b, i) {
            Ok((t, j)) => match lex_from(b, j) {
                Ok(rest) => Ok(seq![(t, i, j)] + rest),
                Err(e) => Err(e),
            },
            Err(e) => Err(e),
        }
    }
}

/// The whole source's tokens, or its first lexical error.
pub open spec fn lex_spec(b: Seq<u8>) -> Result<Seq<(TokenView, int, int)>, (int, Seq<char>)> {
    lex_from(b, 0)
}

/// The span of a token that covers bytes `start..end`.
pub open spec fn span_of(b: Seq<u8>, start: int, end: int) -> Span {
    Span {
        start: start as usize,
        end: end as usize,
        line: line_col(b, start).0 as usize,
        column: line_col(b, start).1 as usize,
    }
}

/// The location in `file` of byte position `p`.
pub open spec fn location_at(file: Seq<char>, b: Seq<u8>, p: int) -> SourceLocationView {
    SourceLocationView {
        file,
        line: line_col(b, p).0 as usize,
        column: line_col(b, p).1 as usize,
    }
}

/// Whether `v` holds exactly the tokens `ts`, each with the span of its
/// bytes in `b`.
pub open spec fn lexed_as(v: Seq<(Token, Span)>, ts: Seq<(TokenView, int, int)>, b: Seq<u8>) -> bool {
    &&& v.len() == ts.len()
    &&& forall|k: int|
        0 <= k < v.len() ==> {
            &&& (#[trigger] v[k]).0@ == ts[k].0
            &&& v[k].1 == span_of(b, ts[k].1, ts[k].2)
        }
}

pub open spec fn join_lexed(
    done: Seq<(TokenView, int, int)>,
    rest: Result<Seq<(TokenView, int, int)>, (int, Seq<char>)>,
) -> Result<Seq<(TokenView, int, int)>, (int, Seq<char>)> {
    match rest {
        Ok(r) => Ok(done + r),
        Err(e) => Err(e),
    }
}

/// Tokenizes VDL source code into tokens with span information.
///
/// The result is the tokens of [`lex_spec`] with their spans; a lexical
/// error is reported as [`VdlError::Lexer`] at the line and column of the
/// position that the grammar names, in `file`.
pub fn lex(source: &str, file: &str) -> (r: Result<Vec<(Token, Span)>, VdlError>)
    requires
        source.spec_bytes().len() < usize::MAX,
    ensures
        match lex_spec(source.spec_bytes()) {
            Ok(ts) => r matches Ok(v) && lexed_as(v@, ts, source.spec_bytes()),
            Err((p, m)) => r matches Err(e) && e@ == (VdlErrorView::Lexer {
                location: location_at(file@, source.spec_bytes(), p),
                message: m,
            }),
        },
{
    let bytes = source.as_bytes();
    let ghost b = bytes@;
    let len = bytes.len();
    let mut i: usize = 0;
    let mut line: usize = 1;
    let mut col: usize = 1;
    let mut tokens: Vec<(Token, Span)> = Vec::new();
    let ghost mut done: Seq<(TokenView, int, int)> = seq![];
    while i < len
        invariant
            b == bytes@,
            b == source.spec_bytes(),
            len == b.len(),
            len < usize::MAX,
            i <= len,
            line_col(b, i as int) == (line as int, col as int),
            lexed_as(tokens@, done, b),
            join_lexed(done, lex_from(b, i as int)) == lex_from(b, 0),
        decreases len - i,
    {
        let c = bytes[i];
        if is_ws_byte(c) {
            proof {
                lemma_line_col_bounds(b, i as int);
            }
            if c == 10 {
                line = line + 1;
                col = 1;
            } else {
                col = col + 1;
            }
            i = i + 1;
        } else if c == 47 && i + 1 < len && bytes[i + 1] == 47 {
            let j = line_end_exec(bytes, i + 2);
            proof {
                lemma_line_end(b, i + 2);
            }
            let (l, cc) = advance_line_col(bytes, i, j, line, col);
            line = l;
            col = cc;
            i = j;
        } else if c == 47 && i + 1 < len && bytes[i + 1] == 42 {
            match block_end_exec(bytes, i + 2) {
                Some(j) => {
                    proof {
                        lemma_block_end(b, i + 2);
                    }
                    let (l, cc) = advance_line_col(bytes, i, j, line, col);
                    line = l;
                    col = cc;
                    i = j;
                },
                None => {
                    let location = SourceLocation::new(file, line, col);
                    return Err(
                        VdlError::Lexer {
                            location,
                            message: String::from_str("unterminated block comment"),
                        },
                    );
                },
            }
        } else {
            proof {
                lemma_scan_token(b, i as int);
            }
            match scan_token_exec(source, bytes, i) {
                TokenScan::Token(t, j) => {
                    let ghost tv = t@;
                    let ghost old_tokens = tokens@;
                    tokens.push((t, Span::new(i, j, line, col)));
                    proof {
                        let old_done = done;
                        done = done.push((tv, i as int, j as int));
                        assert forall|k: int| 0 <= k < tokens@.len() implies {
                            &&& (#[trigger] tokens@[k]).0@ == done[k].0
                            &&& tokens@[k].1 == span_of(b, done[k].1, done[k].2)
                        } by {
                            if k < old_done.len() {
                                assert(tokens@[k] == old_tokens[k]);
                            }
                        }
                        match lex_from(b, j as int) {
                            Ok(rest) => {
                                assert(old_done + (seq![(tv, i as int, j as int)] + rest)
                                    =~= done + rest);
                            },
                            Err(_) => {},
                        }
                    }
                    let (l, cc) = advance_line_col(bytes, i, j, line, col);
                    line = l;
                    col = cc;
                    i = j;
                },
                TokenScan::Error(p, m) => {
                    let (l, cc) = advance_line_col(bytes, i, p, line, col);
                    let location = SourceLocation::new(file, l, cc);
                    return Err(VdlError::Lexer { location, message: m });
                },
            }
        }
    }
    proof {
        assert(done + seq![] =~= done);
    }
    Ok(tokens)
}

} // verus!
